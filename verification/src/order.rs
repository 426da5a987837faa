//! The order of strings and sorting by key.
//!
//! Strings compare character by character, by code point; a proper prefix
//! comes first. For UTF-8 text this is the byte order that `String`'s `Ord`
//! uses.
use vstd::prelude::*;
use crate::text::to_chars;

verus! {

broadcast use vstd::seq_lib::group_to_multiset_ensures, vstd::multiset::group_multiset_axioms;

/// `a` comes strictly before `b`.
pub open spec fn lex_lt(a: Seq<char>, b: Seq<char>) -> bool
    decreases a.len(),
{
    if a.len() == 0 {
        b.len() > 0
    } else if b.len() == 0 {
        false
    } else if a[0] != b[0] {
        (a[0] as u32) < (b[0] as u32)
    } else {
        lex_lt(a.drop_first(), b.drop_first())
    }
}

/// The order is transitive.
pub proof fn lemma_lex_lt_transitive(a: Seq<char>, b: Seq<char>, c: Seq<char>)
    requires
        lex_lt(a, b),
        lex_lt(b, c),
    ensures
        lex_lt(a, c),
    decreases a.len(),
{
    if a.len() > 0 && b.len() > 0 && c.len() > 0 && a[0] == b[0] && b[0] == c[0] {
        lemma_lex_lt_transitive(a.drop_first(), b.drop_first(), c.drop_first());
    }
}

/// No string comes before itself.
pub proof fn lemma_lex_lt_irreflexive(a: Seq<char>)
    ensures
        !lex_lt(a, a),
    decreases a.len(),
{
    if a.len() > 0 {
        lemma_lex_lt_irreflexive(a.drop_first());
    }
}

/// `a` comes strictly before `b`.
pub fn str_less(a: &str, b: &str) -> (r: bool)
    ensures
        r == lex_lt(a@, b@),
{
    let av = to_chars(a);
    let bv = to_chars(b);
    let mut i: usize = 0;
    assert(a@.subrange(0, a@.len() as int) =~= a@);
    assert(b@.subrange(0, b@.len() as int) =~= b@);
    while i < av.len() && i < bv.len() && av[i] == bv[i]
        invariant
            av@ == a@,
            bv@ == b@,
            i <= av@.len(),
            i <= bv@.len(),
            lex_lt(a@, b@) == lex_lt(a@.subrange(i as int, a@.len() as int), b@.subrange(
                i as int,
                b@.len() as int,
            )),
        decreases av.len() - i,
    {
        let ghost sa = a@.subrange(i as int, a@.len() as int);
        let ghost sb = b@.subrange(i as int, b@.len() as int);
        assert(sa.drop_first() =~= a@.subrange(i + 1, a@.len() as int));
        assert(sb.drop_first() =~= b@.subrange(i + 1, b@.len() as int));
        i = i + 1;
    }
    if i == av.len() {
        i < bv.len()
    } else if i == bv.len() {
        false
    } else {
        (av[i] as u32) < (bv[i] as u32)
    }
}

/// The views of a sequence of string pairs.
pub open spec fn pair_views(v: Seq<(String, String)>) -> Seq<(Seq<char>, Seq<char>)> {
    v.map_values(|p: (String, String)| (p.0@, p.1@))
}

/// Where an entry with key `key` goes in `r` (searching from `i`): before
/// the first entry whose key comes after `key`.
pub open spec fn insert_pos(r: Seq<(Seq<char>, Seq<char>)>, key: Seq<char>, i: int) -> int
    decreases r.len() - i,
{
    if i < 0 || i >= r.len() {
        r.len() as int
    } else if lex_lt(key, r[i].0) {
        i
    } else {
        insert_pos(r, key, i + 1)
    }
}

/// `s` sorted by key, stably: entries with equal keys keep their order
/// (what `sort_by` with a comparison of keys gives).
pub open spec fn sort_pairs(s: Seq<(Seq<char>, Seq<char>)>) -> Seq<(Seq<char>, Seq<char>)>
    decreases s.len(),
{
    if s.len() == 0 {
        s
    } else {
        let r = sort_pairs(s.drop_last());
        r.insert(insert_pos(r, s.last().0, 0), s.last())
    }
}

/// The keys of `s` are in order (each key no later than the ones after it).
pub open spec fn sorted_by_key(s: Seq<(String, String)>) -> bool {
    forall|i: int, j: int| 0 <= i < j < s.len() ==> !lex_lt(#[trigger] s[j].0@, #[trigger] s[i].0@)
}

/// Where an entry with key `key` goes in `r`: after every entry whose key
/// is not after `key`.
fn insert_position(r: &Vec<(String, String)>, key: &str) -> (p: usize)
    ensures
        p <= r@.len(),
        forall|k: int| 0 <= k < p ==> !lex_lt(key@, #[trigger] r@[k].0@),
        p < r@.len() ==> lex_lt(key@, r@[p as int].0@),
        p == insert_pos(pair_views(r@), key@, 0),
{
    let ghost rv = pair_views(r@);
    let mut p: usize = 0;
    while p < r.len()
        invariant
            p <= r@.len(),
            rv == pair_views(r@),
            forall|k: int| 0 <= k < p ==> !lex_lt(key@, #[trigger] r@[k].0@),
            insert_pos(rv, key@, 0) == insert_pos(rv, key@, p as int),
        decreases r.len() - p,
    {
        assert(rv[p as int].0 == r@[p as int].0@);
        if str_less(key, r[p].0.as_str()) {
            return p;
        }
        p = p + 1;
    }
    p
}

/// The entries of `v` ordered by key; entries with equal keys keep their
/// order.
pub fn sort_by_key(v: Vec<(String, String)>) -> (r: Vec<(String, String)>)
    ensures
        pair_views(r@) == sort_pairs(pair_views(v@)),
        sorted_by_key(r@),
        r@.to_multiset() == v@.to_multiset(),
{
    let mut r: Vec<(String, String)> = Vec::new();
    let mut i: usize = 0;
    assert(v@.subrange(0, 0) =~= Seq::<(String, String)>::empty());
    while i < v.len()
        invariant
            i <= v@.len(),
            sorted_by_key(r@),
            r@.to_multiset() == v@.subrange(0, i as int).to_multiset(),
            pair_views(r@) == sort_pairs(pair_views(v@.subrange(0, i as int))),
        decreases v.len() - i,
    {
        let ghost prev = pair_views(v@.subrange(0, i as int));
        assert(pair_views(v@.subrange(0, i + 1)).drop_last() =~= prev);
        assert(pair_views(v@.subrange(0, i + 1)).last() == (v@[i as int].0@, v@[i as int].1@));
        let x = (v[i].0.clone(), v[i].1.clone());
        let p = insert_position(&r, x.0.as_str());
        let ghost old_r = r@;
        r.insert(p, x);
        proof {
            assert(r@ == old_r.insert(p as int, x));
            assert(pair_views(r@) =~= pair_views(old_r).insert(p as int, (x.0@, x.1@)));
            assert forall|a: int, b: int| 0 <= a < b < r@.len() implies !lex_lt(
                #[trigger] r@[b].0@,
                #[trigger] r@[a].0@,
            ) by {
                if a < p && b < p + 1 && b != p {
                    assert(r@[a] == old_r[a] && r@[b] == old_r[b]);
                } else if b == p {
                    assert(r@[a] == old_r[a]);
                } else if a == p {
                    assert(r@[b] == old_r[b - 1]);
                    assert(lex_lt(x.0@, old_r[p as int].0@));
                    if lex_lt(old_r[b - 1].0@, x.0@) {
                        lemma_lex_lt_transitive(old_r[b - 1].0@, x.0@, old_r[p as int].0@);
                        if b - 1 == p {
                            lemma_lex_lt_irreflexive(old_r[p as int].0@);
                        } else {
                            assert(!lex_lt(old_r[b - 1].0@, old_r[p as int].0@));
                        }
                    }
                } else if a < p {
                    assert(r@[a] == old_r[a] && r@[b] == old_r[b - 1]);
                } else {
                    assert(r@[a] == old_r[a - 1] && r@[b] == old_r[b - 1]);
                }
            }
            assert(v@.subrange(0, i + 1) =~= v@.subrange(0, i as int).push(v@[i as int]));
        }
        i = i + 1;
    }
    assert(v@.subrange(0, v@.len() as int) =~= v@);
    r
}


// ---------------------------------------------------------------------------
// The order of paths
// ---------------------------------------------------------------------------

/// The rank of a path component in `Path`'s order: the root, then `.`,
/// then `..`, then names.
pub open spec fn component_rank(c: Seq<char>) -> int {
    if c == "/"@ {
        1
    } else if c == "."@ {
        2
    } else if c == ".."@ {
        3
    } else {
        4
    }
}

/// Component `a` comes before component `b`: by rank, and names by their
/// characters.
pub open spec fn component_lt(a: Seq<char>, b: Seq<char>) -> bool {
    component_rank(a) < component_rank(b) || (component_rank(a) == 4 && component_rank(b) == 4
        && lex_lt(a, b))
}

/// Component list `a` comes before `b`, component by component; a proper
/// prefix comes first (the order of `Path`).
pub open spec fn components_lt(a: Seq<Seq<char>>, b: Seq<Seq<char>>) -> bool
    decreases a.len(),
{
    if a.len() == 0 {
        b.len() > 0
    } else if b.len() == 0 {
        false
    } else if a[0] != b[0] {
        component_lt(a[0], b[0])
    } else {
        components_lt(a.drop_first(), b.drop_first())
    }
}

proof fn lemma_component_lt_transitive(a: Seq<char>, b: Seq<char>, c: Seq<char>)
    requires
        component_lt(a, b),
        component_lt(b, c),
    ensures
        component_lt(a, c),
{
    if component_rank(a) == 4 && component_rank(b) == 4 && component_rank(c) == 4 {
        lemma_lex_lt_transitive(a, b, c);
    }
}

proof fn lemma_component_lt_irreflexive(a: Seq<char>)
    ensures
        !component_lt(a, a),
{
    lemma_lex_lt_irreflexive(a);
}

/// The order of component lists is transitive.
pub proof fn lemma_components_lt_transitive(a: Seq<Seq<char>>, b: Seq<Seq<char>>, c: Seq<Seq<char>>)
    requires
        components_lt(a, b),
        components_lt(b, c),
    ensures
        components_lt(a, c),
    decreases a.len(),
{
    if a.len() > 0 && b.len() > 0 && c.len() > 0 {
        if a[0] == b[0] && b[0] == c[0] {
            lemma_components_lt_transitive(a.drop_first(), b.drop_first(), c.drop_first());
        } else if a[0] != b[0] && b[0] != c[0] {
            lemma_component_lt_transitive(a[0], b[0], c[0]);
            if a[0] == c[0] {
                lemma_component_lt_irreflexive(a[0]);
            }
        }
    }
}

/// No component list comes before itself.
pub proof fn lemma_components_lt_irreflexive(a: Seq<Seq<char>>)
    ensures
        !components_lt(a, a),
    decreases a.len(),
{
    if a.len() > 0 {
        lemma_components_lt_irreflexive(a.drop_first());
    }
}

/// The order of two components.
fn component_less(a: &String, b: &String) -> (r: bool)
    ensures
        r == component_lt(a@, b@),
{
    proof {
        reveal_strlit("/");
        reveal_strlit(".");
        reveal_strlit("..");
    }
    let ra: u8 = if *a == "/".to_owned() {
        1
    } else if *a == ".".to_owned() {
        2
    } else if *a == "..".to_owned() {
        3
    } else {
        4
    };
    let rb: u8 = if *b == "/".to_owned() {
        1
    } else if *b == ".".to_owned() {
        2
    } else if *b == "..".to_owned() {
        3
    } else {
        4
    };
    ra < rb || (ra == 4 && rb == 4 && str_less(a.as_str(), b.as_str()))
}

/// The order of two component lists.
pub fn components_less(a: &Vec<String>, b: &Vec<String>) -> (r: bool)
    ensures
        r == components_lt(crate::text::views(a@), crate::text::views(b@)),
{
    let ghost va = crate::text::views(a@);
    let ghost vb = crate::text::views(b@);
    let mut i: usize = 0;
    assert(va.subrange(0, va.len() as int) =~= va);
    assert(vb.subrange(0, vb.len() as int) =~= vb);
    while i < a.len() && i < b.len() && a[i] == b[i]
        invariant
            va == crate::text::views(a@),
            vb == crate::text::views(b@),
            i <= a@.len(),
            i <= b@.len(),
            components_lt(va, vb) == components_lt(va.subrange(i as int, va.len() as int), vb.subrange(
                i as int,
                vb.len() as int,
            )),
        decreases a.len() - i,
    {
        let ghost sa = va.subrange(i as int, va.len() as int);
        let ghost sb = vb.subrange(i as int, vb.len() as int);
        assert(sa[0] == a@[i as int]@ && sb[0] == b@[i as int]@);
        assert(sa.drop_first() =~= va.subrange(i + 1, va.len() as int));
        assert(sb.drop_first() =~= vb.subrange(i + 1, vb.len() as int));
        i = i + 1;
    }
    if i == a.len() {
        i < b.len()
    } else if i == b.len() {
        false
    } else {
        let ghost sa = va.subrange(i as int, va.len() as int);
        let ghost sb = vb.subrange(i as int, vb.len() as int);
        assert(sa[0] == a@[i as int]@ && sb[0] == b@[i as int]@);
        component_less(&a[i], &b[i])
    }
}

/// Where a path with components `key` goes in `r` (from `i`): before the
/// first path that comes after it.
pub open spec fn path_insert_pos(r: Seq<Seq<char>>, key: Seq<char>, i: int) -> int
    decreases r.len() - i,
{
    if i < 0 || i >= r.len() {
        r.len() as int
    } else if components_lt(crate::paths::components(key), crate::paths::components(r[i])) {
        i
    } else {
        path_insert_pos(r, key, i + 1)
    }
}

/// Paths sorted in `Path`'s order, stably (what `sort` on a list of paths
/// gives).
pub open spec fn sort_paths_spec(s: Seq<Seq<char>>) -> Seq<Seq<char>>
    decreases s.len(),
{
    if s.len() == 0 {
        s
    } else {
        let r = sort_paths_spec(s.drop_last());
        r.insert(path_insert_pos(r, s.last(), 0), s.last())
    }
}

/// The paths of `s` are in `Path`'s order.
pub open spec fn paths_sorted(s: Seq<Seq<char>>) -> bool {
    forall|i: int, j: int|
        0 <= i < j < s.len() ==> !components_lt(
            crate::paths::components(#[trigger] s[j]),
            crate::paths::components(#[trigger] s[i]),
        )
}

/// The paths `v`, sorted in `Path`'s order.
pub fn sort_paths(v: &Vec<String>) -> (r: Vec<String>)
    ensures
        crate::text::views(r@) == sort_paths_spec(crate::text::views(v@)),
        paths_sorted(crate::text::views(r@)),
        crate::text::views(r@).to_multiset() == crate::text::views(v@).to_multiset(),
{
    let ghost vv = crate::text::views(v@);
    let mut r: Vec<String> = Vec::new();
    let mut keys: Vec<Vec<String>> = Vec::new();
    let mut i: usize = 0;
    assert(vv.subrange(0, 0) =~= Seq::<Seq<char>>::empty());
    assert(crate::text::views(r@) =~= Seq::<Seq<char>>::empty());
    while i < v.len()
        invariant
            i <= v@.len(),
            vv == crate::text::views(v@),
            keys@.len() == r@.len(),
            forall|k: int|
                0 <= k < keys@.len() ==> crate::text::views(#[trigger] keys@[k]@)
                    == crate::paths::components(r@[k]@),
            crate::text::views(r@) == sort_paths_spec(vv.subrange(0, i as int)),
            paths_sorted(crate::text::views(r@)),
            crate::text::views(r@).to_multiset() == vv.subrange(0, i as int).to_multiset(),
        decreases v.len() - i,
    {
        let ghost rv = crate::text::views(r@);
        assert(vv.subrange(0, i + 1).drop_last() =~= vv.subrange(0, i as int));
        assert(vv.subrange(0, i + 1).last() == v@[i as int]@);
        let x = v[i].clone();
        let kx = crate::paths::path_components(x.as_str());
        let mut p: usize = 0;
        while p < r.len() && !components_less(&kx, &keys[p])
            invariant
                p <= r@.len(),
                keys@.len() == r@.len(),
                rv == crate::text::views(r@),
                crate::text::views(kx@) == crate::paths::components(x@),
                forall|k: int|
                    0 <= k < keys@.len() ==> crate::text::views(#[trigger] keys@[k]@)
                        == crate::paths::components(r@[k]@),
                forall|k: int|
                    0 <= k < p ==> !components_lt(
                        crate::paths::components(x@),
                        crate::paths::components(#[trigger] rv[k]),
                    ),
                path_insert_pos(rv, x@, 0) == path_insert_pos(rv, x@, p as int),
            decreases r.len() - p,
        {
            assert(rv[p as int] == r@[p as int]@);
            assert(crate::text::views(keys@[p as int]@) == crate::paths::components(r@[p as int]@));
            p = p + 1;
        }
        let ghost xv = x@;
        assert(p < r@.len() ==> components_lt(
            crate::paths::components(xv),
            crate::paths::components(rv[p as int]),
        )) by {
            if p < r@.len() {
                assert(rv[p as int] == r@[p as int]@);
                assert(crate::text::views(keys@[p as int]@) == crate::paths::components(r@[p as int]@));
            }
        }
        r.insert(p, x);
        keys.insert(p, kx);
        proof {
            let nv = crate::text::views(r@);
            assert(nv =~= rv.insert(p as int, xv));
            assert forall|k: int| 0 <= k < keys@.len() implies crate::text::views(
                #[trigger] keys@[k]@,
            ) == crate::paths::components(r@[k]@) by {
                if k < p {
                } else if k > p {
                }
            }
            assert forall|a: int, b: int| 0 <= a < b < nv.len() implies !components_lt(
                crate::paths::components(#[trigger] nv[b]),
                crate::paths::components(#[trigger] nv[a]),
            ) by {
                if b < p {
                    assert(nv[a] == rv[a] && nv[b] == rv[b]);
                } else if b == p {
                    assert(nv[a] == rv[a]);
                } else if a == p {
                    assert(nv[b] == rv[b - 1]);
                    if components_lt(
                        crate::paths::components(rv[b - 1]),
                        crate::paths::components(xv),
                    ) {
                        lemma_components_lt_transitive(
                            crate::paths::components(rv[b - 1]),
                            crate::paths::components(xv),
                            crate::paths::components(rv[p as int]),
                        );
                        if b - 1 == p {
                            lemma_components_lt_irreflexive(crate::paths::components(rv[p as int]));
                        } else {
                            assert(!components_lt(
                                crate::paths::components(rv[b - 1]),
                                crate::paths::components(rv[p as int]),
                            ));
                        }
                    }
                } else if a < p {
                    assert(nv[a] == rv[a] && nv[b] == rv[b - 1]);
                } else {
                    assert(nv[a] == rv[a - 1] && nv[b] == rv[b - 1]);
                }
            }
            assert(vv.subrange(0, i + 1) =~= vv.subrange(0, i as int).push(vv[i as int]));
        }
        i = i + 1;
    }
    assert(vv.subrange(0, v@.len() as int) =~= vv);
    r
}

} // verus!
