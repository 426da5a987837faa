//! Maps keyed by strings, kept as association lists.
//!
//! Insertion appends; a lookup finds the most recent entry for a key. The
//! view is the map that inserting the entries in order builds.
use vstd::prelude::*;

verus! {

/// A map from strings to values.
#[derive(Debug)]
pub struct StrMap<V> {
    pub entries: Vec<(String, V)>,
}

/// The map that inserting `entries` in order builds.
pub open spec fn map_of<V>(entries: Seq<(String, V)>) -> Map<Seq<char>, V>
    decreases entries.len(),
{
    if entries.len() == 0 {
        Map::empty()
    } else {
        map_of(entries.drop_last()).insert(entries.last().0@, entries.last().1)
    }
}

impl<V> View for StrMap<V> {
    type V = Map<Seq<char>, V>;

    open spec fn view(&self) -> Map<Seq<char>, V> {
        map_of(self.entries@)
    }
}

/// Looking `k` up in the first `n` entries finds the last of them with key `k`.
proof fn lemma_map_of_prefix<V>(entries: Seq<(String, V)>, n: int, k: Seq<char>)
    requires
        0 <= n <= entries.len(),
        forall|j: int| n <= j < entries.len() ==> entries[j].0@ != k,
    ensures
        map_of(entries).dom().contains(k) == map_of(entries.subrange(0, n)).dom().contains(k),
        map_of(entries).dom().contains(k) ==> map_of(entries)[k] == map_of(
            entries.subrange(0, n),
        )[k],
    decreases entries.len() - n,
{
    if n == entries.len() {
        assert(entries.subrange(0, n) =~= entries);
    } else {
        let s = entries.drop_last();
        lemma_map_of_prefix(s, n, k);
        assert(s.subrange(0, n) =~= entries.subrange(0, n));
    }
}

impl<V> StrMap<V> {
    /// The empty map.
    pub fn new() -> (m: Self)
        ensures
            m@ == Map::<Seq<char>, V>::empty(),
    {
        StrMap { entries: Vec::new() }
    }

    /// Maps `key` to `value`.
    pub fn insert(&mut self, key: String, value: V)
        ensures
            final(self)@ == old(self)@.insert(key@, value),
    {
        self.entries.push((key, value));
        assert(self.entries@.drop_last() =~= old(self).entries@);
    }

    /// The value of `key`.
    pub fn get(&self, key: &str) -> (r: Option<&V>)
        ensures
            match r {
                Some(v) => self@.dom().contains(key@) && self@[key@] == *v,
                None => !self@.dom().contains(key@),
            },
    {
        let k = key.to_owned();
        let mut i: usize = self.entries.len();
        while i > 0
            invariant
                k@ == key@,
                i <= self.entries@.len(),
                forall|j: int| i <= j < self.entries@.len() ==> self.entries@[j].0@ != key@,
            decreases i,
        {
            if self.entries[i - 1].0 == k {
                proof {
                    lemma_map_of_prefix(self.entries@, i as int, key@);
                    let s = self.entries@.subrange(0, i as int);
                    assert(s.drop_last() =~= self.entries@.subrange(0, i - 1));
                }
                return Some(&self.entries[i - 1].1);
            }
            i = i - 1;
        }
        proof {
            lemma_map_of_prefix(self.entries@, 0, key@);
            assert(self.entries@.subrange(0, 0) =~= Seq::<(String, V)>::empty());
        }
        None
    }
}

} // verus!
