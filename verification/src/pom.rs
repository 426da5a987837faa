//! The dependency rules of a POM: property interpolation, dependency
//! scopes, dependency management.
use vstd::prelude::*;
use crate::maven::{
    clone_exclusions, exclusion_views, is_snapshot, reject_snapshot, snapshot_message,
    spec_ga_key, spec_new_coordinate, Coordinate, Exclusion, MavenResult,
};
use crate::strmap::{map_of, StrMap};
use crate::text::{
    concat, eq_ignore_case, eq_ignore_case_str, first_occurrence, lower_char, occurs_at, push_str,
    sub_chars, sub_string, to_chars,
};
use crate::xml::opt_str_view;

verus! {

// ---------------------------------------------------------------------------
// Property interpolation
// ---------------------------------------------------------------------------

/// The views of a string-valued map.
pub open spec fn str_map_view(m: Map<Seq<char>, String>) -> Map<Seq<char>, Seq<char>> {
    m.map_values(|s: String| s@)
}

pub proof fn lemma_first_occurrence(s: Seq<char>, t: Seq<char>)
    ensures
        first_occurrence(s, t) matches Some(i) ==> occurs_at(s, t, i),
{
    if exists|i: int| crate::text::is_first_occurrence(s, t, i) {
        let i = choose|i: int| crate::text::is_first_occurrence(s, t, i);
    }
}

/// `${`.
pub open spec fn open_marker() -> Seq<char> {
    seq!['$', '{']
}

/// `}`.
pub open spec fn close_marker() -> Seq<char> {
    seq!['}']
}

/// `rest` with each `${key}` whose key `props` holds replaced by its value;
/// other keys are kept as written, and an unclosed `${` ends the
/// replacing.
pub open spec fn interp(rest: Seq<char>, props: Map<Seq<char>, Seq<char>>) -> Seq<char>
    decreases rest.len(),
{
    match first_occurrence(rest, open_marker()) {
        None => rest,
        Some(start) => {
            proof {
                lemma_first_occurrence(rest, open_marker());
            }
            let after = rest.subrange(start + 2, rest.len() as int);
            match first_occurrence(after, close_marker()) {
                None => rest,
                Some(end) => {
                    proof {
                        lemma_first_occurrence(after, close_marker());
                    }
                    let key = after.subrange(0, end);
                    rest.subrange(0, start) + (if props.contains_key(key) {
                        props[key]
                    } else {
                        open_marker() + key + close_marker()
                    }) + interp(after.subrange(end + 1, after.len() as int), props)
                },
            }
        },
    }
}

/// `value` with its `${key}` references replaced from `properties`.
#[verifier::rlimit(100)]
pub fn interpolate(value: &str, properties: &StrMap<String>) -> (r: String)
    ensures
        r@ == interp(value@, str_map_view(properties@)),
{
    let ghost props = str_map_view(properties@);
    let v = to_chars(value);
    let n = v.len();
    let open: Vec<char> = vec!['$', '{'];
    let close: Vec<char> = vec!['}'];
    assert(open@ =~= open_marker());
    assert(close@ =~= close_marker());
    let mut result = String::new();
    let mut pos: usize = 0;
    assert(value@.subrange(0, n as int) =~= value@);
    loop
        invariant
            v@ == value@,
            n == v@.len(),
            open@ == open_marker(),
            close@ == close_marker(),
            props == str_map_view(properties@),
            pos <= n,
            result@ + interp(value@.subrange(pos as int, n as int), props) == interp(value@, props),
        decreases n - pos,
    {
        let ghost rest = value@.subrange(pos as int, n as int);
        let rest_v = sub_chars(v.as_slice(), pos, n);
        match crate::text::find(rest_v.as_slice(), open.as_slice()) {
            None => {
                let tail = sub_string(v.as_slice(), pos, n);
                push_str(&mut result, tail.as_str());
                assert(result@ == interp(value@, props));
                return result;
            },
            Some(start) => {
                proof {
                    lemma_first_occurrence(rest, open_marker());
                }
                let after_v = sub_chars(rest_v.as_slice(), start + 2, rest_v.len());
                let ghost after = rest.subrange(start + 2, rest.len() as int);
                match crate::text::find(after_v.as_slice(), close.as_slice()) {
                    None => {
                        let tail = sub_string(v.as_slice(), pos, n);
                        push_str(&mut result, tail.as_str());
                        assert(result@ == interp(value@, props));
                        return result;
                    },
                    Some(end) => {
                        proof {
                            lemma_first_occurrence(after, close_marker());
                        }
                        let ghost key_v = after.subrange(0, end as int);
                        let head = sub_string(rest_v.as_slice(), 0, start);
                        push_str(&mut result, head.as_str());
                        let key = sub_string(after_v.as_slice(), 0, end);
                        match properties.get(key.as_str()) {
                            Some(replacement) => {
                                push_str(&mut result, replacement.as_str());
                            },
                            None => {
                                result.push('$');
                                result.push('{');
                                push_str(&mut result, key.as_str());
                                result.push('}');
                                assert(result@ =~= value@.subrange(0, 0) + result@);
                            },
                        }
                        let ghost added = if props.contains_key(key_v) {
                            props[key_v]
                        } else {
                            open_marker() + key_v + close_marker()
                        };
                        let ghost next_rest = after.subrange(end + 1, after.len() as int);
                        assert(interp(rest, props) == rest.subrange(0, start as int) + added + interp(
                            next_rest,
                            props,
                        ));
                        let new_pos = pos + start + 2 + end + 1;
                        assert(next_rest =~= value@.subrange(new_pos as int, n as int));
                        pos = new_pos;
                    },
                }
            },
        }
    }
}


// ---------------------------------------------------------------------------
// Property maps
// ---------------------------------------------------------------------------

/// One round of resolving: every value interpolated against the map.
pub open spec fn resolve_round(m: Map<Seq<char>, Seq<char>>) -> Map<Seq<char>, Seq<char>> {
    Map::new(|k: Seq<char>| m.contains_key(k), |k: Seq<char>| interp(m[k], m))
}

/// Up to `n` rounds of resolving, stopping early when a round changes nothing.
pub open spec fn resolve_rounds(m: Map<Seq<char>, Seq<char>>, n: nat) -> Map<Seq<char>, Seq<char>>
    decreases n,
{
    if n == 0 {
        m
    } else if resolve_round(m) == m {
        m
    } else {
        resolve_rounds(resolve_round(m), (n - 1) as nat)
    }
}

/// `v` holds no `${`.
pub open spec fn no_reference(v: Seq<char>) -> bool {
    forall|i: int| 0 <= i < v.len() - 1 ==> !(#[trigger] v[i] == '$' && v[i + 1] == '{')
}

/// A text without `${` is left as it is.
proof fn lemma_interp_plain(v: Seq<char>, props: Map<Seq<char>, Seq<char>>)
    requires
        no_reference(v),
    ensures
        interp(v, props) == v,
{
    lemma_first_occurrence(v, open_marker());
    if let Some(i) = first_occurrence(v, open_marker()) {
        assert(v.subrange(i, i + 2)[0] == '$');
        assert(v.subrange(i, i + 2)[1] == '{');
        assert(v[i] == '$' && v[i + 1] == '{');
    }
}

/// The first occurrence is the one with none before it.
proof fn lemma_first_occurrence_at(s: Seq<char>, t: Seq<char>, i: int)
    requires
        crate::text::is_first_occurrence(s, t, i),
    ensures
        first_occurrence(s, t) == Some(i),
{
    let j = choose|j: int| crate::text::is_first_occurrence(s, t, j);
    if j < i {
        assert(occurs_at(s, t, j));
    } else if j > i {
        assert(occurs_at(s, t, i));
    }
}

/// `${key}` followed by more text is the key's value (when the map holds
/// it), then the rest interpolated.
proof fn lemma_interp_step(rest: Seq<char>, props: Map<Seq<char>, Seq<char>>, n: int)
    requires
        0 <= n,
        first_occurrence(rest, open_marker()) == Some(0int),
        2 + n < rest.len(),
        first_occurrence(rest.subrange(2, rest.len() as int), close_marker()) == Some(n),
    ensures
        interp(rest, props) == (if props.contains_key(rest.subrange(2, 2 + n)) {
            props[rest.subrange(2, 2 + n)]
        } else {
            open_marker() + rest.subrange(2, 2 + n) + close_marker()
        }) + interp(rest.subrange(3 + n, rest.len() as int), props),
{
    let after = rest.subrange(2, rest.len() as int);
    let key = rest.subrange(2, 2 + n);
    let tail = rest.subrange(3 + n, rest.len() as int);
    assert(after.subrange(0, n) =~= key);
    assert(after.subrange(n + 1, after.len() as int) =~= tail);
    assert(rest.subrange(0, 0) =~= Seq::<char>::empty());
    let lookup = if props.contains_key(key) {
        props[key]
    } else {
        open_marker() + key + close_marker()
    };
    assert(Seq::<char>::empty() + lookup + interp(tail, props) =~= lookup + interp(tail, props));
}

/// In `k` followed by `}`, with no `}` in `k`, the first `}` ends `k`.
proof fn lemma_close_after_key(k: Seq<char>)
    requires
        !k.contains('}'),
    ensures
        first_occurrence(k + close_marker(), close_marker()) == Some(k.len() as int),
{
    let after = k + close_marker();
    let n = k.len() as int;
    assert(after.subrange(n, n + 1) =~= close_marker());
    assert forall|j: int| 0 <= j < n implies !occurs_at(after, close_marker(), j) by {
        if occurs_at(after, close_marker(), j) {
            assert(after.subrange(j, j + 1)[0] == '}');
            assert(k[j] == '}');
        }
    }
    lemma_first_occurrence_at(after, close_marker(), n);
}

/// `${k}`, for a key without `}`, is the key's value when the map holds
/// it, and is kept as written when it does not.
proof fn lemma_interp_reference(k: Seq<char>, props: Map<Seq<char>, Seq<char>>)
    requires
        !k.contains('}'),
    ensures
        props.contains_key(k) ==> interp(open_marker() + k + close_marker(), props) == props[k],
        !props.contains_key(k) ==> interp(open_marker() + k + close_marker(), props)
            == open_marker() + k + close_marker(),
{
    let rest = open_marker() + k + close_marker();
    let n = k.len() as int;
    assert(rest.subrange(0, 2) =~= open_marker());
    lemma_first_occurrence_at(rest, open_marker(), 0);
    assert(rest.subrange(2, rest.len() as int) =~= k + close_marker());
    lemma_close_after_key(k);
    assert(rest.subrange(2, 2 + n) =~= k);
    lemma_interp_step(rest, props, n);
    let tail = rest.subrange(3 + n, rest.len() as int);
    assert(tail =~= Seq::<char>::empty());
    lemma_interp_plain(tail, props);
    assert(props[k] + Seq::<char>::empty() =~= props[k]);
    assert(open_marker() + k + close_marker() + Seq::<char>::empty() =~= open_marker() + k
        + close_marker());
}

/// Interpolation replaces `${key}` by the key's value and touches nothing
/// else: a text without `${` is left as it is, `${k}` becomes the value of
/// `k` when the properties hold `k`, and stays `${k}` when they do not.
pub proof fn law_interpolation(v: Seq<char>, k: Seq<char>, props: Map<Seq<char>, Seq<char>>)
    ensures
        no_reference(v) ==> interp(v, props) == v,
        !k.contains('}') && props.contains_key(k) ==> interp(
            seq!['$', '{'] + k + seq!['}'],
            props,
        ) == props[k],
        !k.contains('}') && !props.contains_key(k) ==> interp(seq!['$', '{'] + k + seq!['}'], props)
            == seq!['$', '{'] + k + seq!['}'],
{
    if no_reference(v) {
        lemma_interp_plain(v, props);
    }
    if !k.contains('}') {
        lemma_interp_reference(k, props);
    }
}

/// Further rounds keep values that hold no `${`.
proof fn lemma_rounds_keep(m: Map<Seq<char>, Seq<char>>, n: nat, p: Seq<char>, v: Seq<char>)
    requires
        m.contains_key(p),
        m[p] == v,
        no_reference(v),
    ensures
        resolve_rounds(m, n).contains_key(p),
        resolve_rounds(m, n)[p] == v,
    decreases n,
{
    if n > 0 && resolve_round(m) != m {
        lemma_interp_plain(v, m);
        lemma_rounds_keep(resolve_round(m), (n - 1) as nat, p, v);
    }
}

/// Properties that refer to other properties are resolved against them:
/// when property `p` is written `${k}` and property `k` holds a value
/// without `${`, both end up holding that value (as in
/// `<b.version>${a.version}</b.version>` with `<a.version>1.2</a.version>`).
pub proof fn law_property_reference_resolved(m: Map<Seq<char>, Seq<char>>, p: Seq<char>, k: Seq<char>)
    requires
        m.contains_key(p),
        m.contains_key(k),
        m[p] == seq!['$', '{'] + k + seq!['}'],
        !k.contains('}'),
        no_reference(m[k]),
    ensures
        resolve_rounds(m, 10).contains_key(p),
        resolve_rounds(m, 10)[p] == m[k],
        resolve_rounds(m, 10).contains_key(k),
        resolve_rounds(m, 10)[k] == m[k],
{
    let v = m[k];
    let r = resolve_round(m);
    lemma_interp_reference(k, m);
    assert(open_marker() + k + close_marker() == m[p]);
    lemma_interp_plain(v, m);
    assert(r[p] == v);
    assert(r[k] == v);
    assert(r != m) by {
        if r == m {
            assert(v == m[p]);
            assert(m[p][0] == '$' && m[p][1] == '{');
            assert(v[0int] == '$' && v[0int + 1] == '{');
        }
    }
    lemma_rounds_keep(r, 9, p, v);
    lemma_rounds_keep(r, 9, k, v);
}

/// Rewriting every entry's value through `f` rewrites the map's values.
proof fn lemma_map_of_values(
    old_entries: Seq<(String, String)>,
    new_entries: Seq<(String, String)>,
    f: spec_fn(Seq<char>) -> Seq<char>,
)
    requires
        old_entries.len() == new_entries.len(),
        forall|i: int|
            0 <= i < old_entries.len() ==> new_entries[i].0 == old_entries[i].0
                && new_entries[i].1@ == f(old_entries[i].1@),
    ensures
        str_map_view(map_of(new_entries)) == str_map_view(map_of(old_entries)).map_values(f),
    decreases old_entries.len(),
{
    if old_entries.len() == 0 {
        assert(str_map_view(map_of(new_entries)) =~= str_map_view(map_of(old_entries)).map_values(f));
    } else {
        let od = old_entries.drop_last();
        let nd = new_entries.drop_last();
        lemma_map_of_values(od, nd, f);
        let k = old_entries.last().0@;
        assert(new_entries.last().0@ == k);
        let mo = map_of(od);
        let mn = map_of(nd);
        assert(map_of(old_entries) == mo.insert(k, old_entries.last().1));
        assert(map_of(new_entries) == mn.insert(k, new_entries.last().1));
        assert(str_map_view(map_of(new_entries)) =~= str_map_view(mn).insert(k, new_entries.last().1@));
        assert(str_map_view(map_of(old_entries)) =~= str_map_view(mo).insert(k, old_entries.last().1@));
        assert(str_map_view(map_of(new_entries)) =~= str_map_view(map_of(old_entries)).map_values(f));
    }
}

/// A copy of a string map.
pub fn clone_str_map(m: &StrMap<String>) -> (r: StrMap<String>)
    ensures
        r.entries@.len() == m.entries@.len(),
        forall|i: int|
            0 <= i < m.entries@.len() ==> (#[trigger] r.entries@[i]).0 == m.entries@[i].0
                && r.entries@[i].1 == m.entries@[i].1,
        r@ == m@,
{
    let mut entries: Vec<(String, String)> = Vec::new();
    let mut i: usize = 0;
    while i < m.entries.len()
        invariant
            i <= m.entries@.len(),
            entries@ == m.entries@.subrange(0, i as int),
        decreases m.entries.len() - i,
    {
        let k = m.entries[i].0.clone();
        let v = m.entries[i].1.clone();
        entries.push((k, v));
        assert(entries@ =~= m.entries@.subrange(0, i + 1));
        i = i + 1;
    }
    assert(m.entries@.subrange(0, m.entries@.len() as int) =~= m.entries@);
    StrMap { entries }
}

/// Resolves property references among the properties themselves, for up
/// to ten rounds.
pub fn resolve_all_properties(properties: &mut StrMap<String>)
    ensures
        str_map_view(final(properties)@) == resolve_rounds(str_map_view(old(properties)@), 10),
{
    let ghost start = str_map_view(properties@);
    let mut round: usize = 0;
    while round < 10
        invariant
            start == str_map_view(old(properties)@),
            round <= 10,
            resolve_rounds(start, 10) == resolve_rounds(
                str_map_view(properties@),
                (10 - round) as nat,
            ),
        decreases 10 - round,
    {
        let snapshot = clone_str_map(properties);
        let ghost before = properties.entries@;
        let ghost cur = str_map_view(properties@);
        let mut changed = false;
        let mut i: usize = 0;
        while i < properties.entries.len()
            invariant
                snapshot@ == map_of(before),
                cur == str_map_view(map_of(before)),
                properties.entries@.len() == before.len(),
                i <= before.len(),
                forall|j: int|
                    0 <= j < i ==> (#[trigger] properties.entries@[j]).0 == before[j].0
                        && properties.entries@[j].1@ == interp(before[j].1@, cur),
                forall|j: int| i <= j < before.len() ==> #[trigger] properties.entries@[j] == before[j],
                !changed ==> properties.entries@ == before,
            decreases before.len() - i,
        {
            let resolved = interpolate(properties.entries[i].1.as_str(), &snapshot);
            if !(resolved == properties.entries[i].1) {
                let key = properties.entries[i].0.clone();
                properties.entries.set(i, (key, resolved));
                changed = true;
            }
            i = i + 1;
        }
        let ghost f = |v: Seq<char>| interp(v, cur);
        proof {
            lemma_map_of_values(before, properties.entries@, f);
            assert(cur.map_values(f) =~= resolve_round(cur));
        }
        if !changed {
            return;
        }
        round = round + 1;
    }
}

/// Adds the `project.*` and `pom.*` properties of a coordinate.
pub fn add_project_properties(properties: &mut StrMap<String>, coordinate: &Coordinate)
    ensures
        final(properties)@ == old(properties)@.insert("project.groupId"@, coordinate.group_id).insert(
            "project.artifactId"@,
            coordinate.artifact_id,
        ).insert("project.version"@, coordinate.version).insert(
            "pom.groupId"@,
            coordinate.group_id,
        ).insert("pom.artifactId"@, coordinate.artifact_id).insert(
            "pom.version"@,
            coordinate.version,
        ),
{
    properties.insert("project.groupId".to_owned(), coordinate.group_id.clone());
    properties.insert("project.artifactId".to_owned(), coordinate.artifact_id.clone());
    properties.insert("project.version".to_owned(), coordinate.version.clone());
    properties.insert("pom.groupId".to_owned(), coordinate.group_id.clone());
    properties.insert("pom.artifactId".to_owned(), coordinate.artifact_id.clone());
    properties.insert("pom.version".to_owned(), coordinate.version.clone());
}


// ---------------------------------------------------------------------------
// Dependencies
// ---------------------------------------------------------------------------

/// A copy of an optional string.
pub fn clone_opt(o: &Option<String>) -> (r: Option<String>)
    ensures
        r == *o,
{
    match o {
        Some(s) => Some(s.clone()),
        None => None,
    }
}

/// A dependency as plain values.
pub struct DependencyView {
    pub group_id: Seq<char>,
    pub artifact_id: Seq<char>,
    pub version: Option<Seq<char>>,
    pub scope: Option<Seq<char>>,
    pub optional: bool,
    pub dep_type: Option<Seq<char>>,
    pub classifier: Option<Seq<char>>,
    pub exclusions: Seq<(Seq<char>, Seq<char>)>,
}

/// A dependency after property interpolation.
#[derive(Debug)]
pub struct EffectiveDependency {
    pub group_id: String,
    pub artifact_id: String,
    pub version: Option<String>,
    pub scope: Option<String>,
    pub optional: bool,
    pub dep_type: Option<String>,
    pub classifier: Option<String>,
    pub exclusions: Vec<Exclusion>,
}

impl View for EffectiveDependency {
    type V = DependencyView;

    open spec fn view(&self) -> DependencyView {
        DependencyView {
            group_id: self.group_id@,
            artifact_id: self.artifact_id@,
            version: opt_str_view(self.version),
            scope: opt_str_view(self.scope),
            optional: self.optional,
            dep_type: opt_str_view(self.dep_type),
            classifier: opt_str_view(self.classifier),
            exclusions: exclusion_views(self.exclusions@),
        }
    }
}

impl Clone for EffectiveDependency {
    fn clone(&self) -> (r: Self)
        ensures
            r@ == self@,
    {
        EffectiveDependency {
            group_id: self.group_id.clone(),
            artifact_id: self.artifact_id.clone(),
            version: clone_opt(&self.version),
            scope: clone_opt(&self.scope),
            optional: self.optional,
            dep_type: clone_opt(&self.dep_type),
            classifier: clone_opt(&self.classifier),
            exclusions: clone_exclusions(&self.exclusions),
        }
    }
}

/// What dependency management says of a `groupId:artifactId`.
#[derive(Debug)]
pub struct ManagedDependency {
    pub version: Option<String>,
    pub scope: Option<String>,
    pub optional: Option<bool>,
    pub dep_type: Option<String>,
    pub exclusions: Vec<Exclusion>,
}

/// A managed dependency as plain values.
pub struct ManagedView {
    pub version: Option<Seq<char>>,
    pub scope: Option<Seq<char>>,
    pub optional: Option<bool>,
    pub dep_type: Option<Seq<char>>,
    pub exclusions: Seq<(Seq<char>, Seq<char>)>,
}

impl View for ManagedDependency {
    type V = ManagedView;

    open spec fn view(&self) -> ManagedView {
        ManagedView {
            version: opt_str_view(self.version),
            scope: opt_str_view(self.scope),
            optional: self.optional,
            dep_type: opt_str_view(self.dep_type),
            exclusions: exclusion_views(self.exclusions@),
        }
    }
}

impl Clone for ManagedDependency {
    fn clone(&self) -> (r: Self)
        ensures
            r@ == self@,
    {
        ManagedDependency {
            version: clone_opt(&self.version),
            scope: clone_opt(&self.scope),
            optional: self.optional,
            dep_type: clone_opt(&self.dep_type),
            exclusions: clone_exclusions(&self.exclusions),
        }
    }
}

/// The views of a management map.
pub open spec fn managed_map_view(m: Map<Seq<char>, ManagedDependency>) -> Map<Seq<char>, ManagedView> {
    m.map_values(|d: ManagedDependency| d@)
}

/// The dependency is on the runtime classpath: not optional, no
/// classifier, of type `jar`, in scope `compile`, `runtime` or the empty
/// scope (no scope means `compile`).
pub open spec fn spec_should_include(d: DependencyView) -> bool {
    &&& !d.optional
    &&& d.classifier is None
    &&& match d.dep_type {
        Some(t) => t == "jar"@,
        None => true,
    }
    &&& match d.scope {
        Some(s) => s == ""@ || s == "compile"@ || s == "runtime"@,
        None => true,
    }
}

/// Only runtime dependencies are followed: a dependency is on the runtime
/// classpath exactly when it is not optional, has no classifier, is of
/// type `jar` (or no type) and of scope `compile`, `runtime`, empty or
/// none; so `test`, `provided`, `system` and `import` scopes and `pom`
/// types are left out.
pub proof fn law_runtime_classpath(d: DependencyView)
    ensures
        spec_should_include(d) <==> {
            &&& !d.optional
            &&& d.classifier is None
            &&& (d.dep_type is None || d.dep_type == Some(seq!['j', 'a', 'r']))
            &&& (d.scope is None || d.scope == Some(Seq::<char>::empty()) || d.scope == Some(
                seq!['c', 'o', 'm', 'p', 'i', 'l', 'e'],
            ) || d.scope == Some(seq!['r', 'u', 'n', 't', 'i', 'm', 'e']))
        },
{
    reveal_strlit("jar");
    reveal_strlit("");
    reveal_strlit("compile");
    reveal_strlit("runtime");
    assert("jar"@ =~= seq!['j', 'a', 'r']);
    assert(""@ =~= Seq::<char>::empty());
    assert("compile"@ =~= seq!['c', 'o', 'm', 'p', 'i', 'l', 'e']);
    assert("runtime"@ =~= seq!['r', 'u', 'n', 't', 'i', 'm', 'e']);
}

/// The dependency imports a BOM: scope `import` and type `pom`.
pub open spec fn spec_is_import_bom(d: DependencyView) -> bool {
    d.scope == Some("import"@) && d.dep_type == Some("pom"@)
}

/// The message for a dependency that no version reaches.
pub open spec fn missing_version_message(g: Seq<char>, a: Seq<char>) -> Seq<char> {
    "Dependency "@ + g + ":"@ + a
        + " is missing a version and no dependencyManagement entry provides one"@
}

/// What dependency management makes of `d`: missing version, scope and
/// type are taken from the managed entry, `optional` when either says so,
/// and the managed exclusions are added.
pub open spec fn spec_apply_management(d: DependencyView, m: Map<Seq<char>, ManagedView>) -> DependencyView {
    let key = spec_ga_key(d.group_id, d.artifact_id);
    if !m.contains_key(key) {
        d
    } else {
        let e = m[key];
        DependencyView {
            version: if d.version is None { e.version } else { d.version },
            scope: if d.scope is None { e.scope } else { d.scope },
            dep_type: if d.dep_type is None { e.dep_type } else { d.dep_type },
            optional: d.optional || (e.optional == Some(true)),
            exclusions: d.exclusions + e.exclusions,
            ..d
        }
    }
}

/// Dependency management only fills in what a dependency leaves out: a
/// declared version, scope or type is kept, a missing one is taken from
/// the managed entry of its `groupId:artifactId`; the coordinates and
/// classifier never change, an optional dependency stays optional, and
/// the declared exclusions stay first. Without a managed entry the
/// dependency is unchanged.
pub proof fn law_management_fills_only_missing(d: DependencyView, m: Map<Seq<char>, ManagedView>)
    ensures
        ({
            let r = spec_apply_management(d, m);
            let key = spec_ga_key(d.group_id, d.artifact_id);
            &&& d.version is Some ==> r.version == d.version
            &&& d.scope is Some ==> r.scope == d.scope
            &&& d.dep_type is Some ==> r.dep_type == d.dep_type
            &&& m.contains_key(key) && d.version is None ==> r.version == m[key].version
            &&& m.contains_key(key) && d.scope is None ==> r.scope == m[key].scope
            &&& m.contains_key(key) && d.dep_type is None ==> r.dep_type == m[key].dep_type
            &&& r.group_id == d.group_id && r.artifact_id == d.artifact_id
            &&& r.classifier == d.classifier
            &&& d.optional ==> r.optional
            &&& m.contains_key(key) && m[key].optional == Some(true) ==> r.optional
            &&& !d.optional && (!m.contains_key(key) || m[key].optional != Some(true))
                ==> !r.optional
            &&& m.contains_key(key) ==> r.exclusions == d.exclusions + m[key].exclusions
            &&& r.exclusions.len() >= d.exclusions.len()
            &&& r.exclusions.subrange(0, d.exclusions.len() as int) == d.exclusions
            &&& !m.contains_key(key) ==> r == d
        }),
{
    let r = spec_apply_management(d, m);
    assert(r.exclusions.subrange(0, d.exclusions.len() as int) =~= d.exclusions);
}

fn str_is(s: &Option<String>, lit: &str) -> (b: bool)
    ensures
        b == (opt_str_view(*s) == Some(lit@)),
{
    match s {
        Some(v) => *v == lit.to_owned(),
        None => false,
    }
}

impl EffectiveDependency {
    /// `groupId:artifactId`.
    pub fn ga_key(&self) -> (r: String)
        ensures
            r@ == spec_ga_key(self@.group_id, self@.artifact_id),
    {
        let mut r = concat(self.group_id.as_str(), ":");
        push_str(&mut r, self.artifact_id.as_str());
        r
    }

    /// The dependency is on the runtime classpath.
    pub fn should_include(&self) -> (b: bool)
        ensures
            b == spec_should_include(self@),
    {
        if self.optional || self.classifier.is_some() {
            return false;
        }
        let jar_type = match &self.dep_type {
            Some(t) => *t == "jar".to_owned(),
            None => true,
        };
        if !jar_type {
            return false;
        }
        match &self.scope {
            Some(s) => *s == "".to_owned() || *s == "compile".to_owned() || *s == "runtime".to_owned(),
            None => true,
        }
    }

    /// The dependency imports a BOM.
    pub fn is_import_bom(&self) -> (b: bool)
        ensures
            b == spec_is_import_bom(self@),
    {
        str_is(&self.scope, "import") && str_is(&self.dep_type, "pom")
    }

    /// The dependency's coordinate; fails without a version.
    pub fn to_coordinate(&self) -> (r: MavenResult<Coordinate>)
        ensures
            match self@.version {
                None => r matches Err(e) && e@ == missing_version_message(
                    self@.group_id,
                    self@.artifact_id,
                ),
                Some(v) => match spec_new_coordinate(self@.group_id, self@.artifact_id, v) {
                    Ok(c) => r matches Ok(x) && x@ == c,
                    Err(m) => r matches Err(e) && e@ == m,
                },
            },
    {
        match &self.version {
            None => {
                let mut m = concat("Dependency ", self.group_id.as_str());
                push_str(&mut m, ":");
                push_str(&mut m, self.artifact_id.as_str());
                push_str(&mut m, " is missing a version and no dependencyManagement entry provides one");
                Err(m)
            },
            Some(v) => Coordinate::new(self.group_id.clone(), self.artifact_id.clone(), v.clone()),
        }
    }
}

impl ManagedDependency {
    /// What a managed entry records of a dependency.
    pub fn from_dependency(dependency: &EffectiveDependency) -> (r: Self)
        ensures
            r@ == (ManagedView {
                version: dependency@.version,
                scope: dependency@.scope,
                optional: Some(dependency@.optional),
                dep_type: dependency@.dep_type,
                exclusions: dependency@.exclusions,
            }),
    {
        ManagedDependency {
            version: clone_opt(&dependency.version),
            scope: clone_opt(&dependency.scope),
            optional: Some(dependency.optional),
            dep_type: clone_opt(&dependency.dep_type),
            exclusions: clone_exclusions(&dependency.exclusions),
        }
    }
}

/// Fills in what dependency management says of the dependency.
pub fn apply_management(
    dependency: &mut EffectiveDependency,
    dependency_management: &StrMap<ManagedDependency>,
)
    ensures
        final(dependency)@ == spec_apply_management(
            old(dependency)@,
            managed_map_view(dependency_management@),
        ),
{
    let key = dependency.ga_key();
    let managed = match dependency_management.get(key.as_str()) {
        Some(m) => m,
        None => return,
    };
    assert(managed_map_view(dependency_management@)[key@] == managed@);
    if dependency.version.is_none() {
        dependency.version = clone_opt(&managed.version);
    }
    if dependency.scope.is_none() {
        dependency.scope = clone_opt(&managed.scope);
    }
    if dependency.dep_type.is_none() {
        dependency.dep_type = clone_opt(&managed.dep_type);
    }
    if !dependency.optional {
        dependency.optional = match managed.optional {
            Some(b) => b,
            None => false,
        };
    }
    let ghost before = exclusion_views(dependency.exclusions@);
    let ghost mid = dependency@;
    let mut i: usize = 0;
    while i < managed.exclusions.len()
        invariant
            i <= managed.exclusions@.len(),
            exclusion_views(dependency.exclusions@) == before + exclusion_views(
                managed.exclusions@,
            ).subrange(0, i as int),
            dependency@ == (DependencyView { exclusions: exclusion_views(dependency.exclusions@), ..mid }),
        decreases managed.exclusions.len() - i,
    {
        let e = managed.exclusions[i].clone();
        assert(e@ == exclusion_views(managed.exclusions@)[i as int]);
        let ghost prev = dependency.exclusions@;
        dependency.exclusions.push(e);
        assert(exclusion_views(dependency.exclusions@) =~= exclusion_views(prev).push(e@));
        assert(exclusion_views(managed.exclusions@).subrange(0, i + 1) =~= exclusion_views(
            managed.exclusions@,
        ).subrange(0, i as int).push(e@));
        assert(exclusion_views(dependency.exclusions@) =~= before + exclusion_views(
            managed.exclusions@,
        ).subrange(0, i + 1));
        i = i + 1;
    }
    assert(exclusion_views(managed.exclusions@).subrange(0, managed.exclusions@.len() as int)
        =~= exclusion_views(managed.exclusions@));
}


// ---------------------------------------------------------------------------
// Raw POM contents
// ---------------------------------------------------------------------------

/// A `<dependency>` as written in a POM.
#[derive(Debug)]
pub struct RawDependency {
    pub group_id: Option<String>,
    pub artifact_id: Option<String>,
    pub version: Option<String>,
    pub scope: Option<String>,
    pub optional: Option<String>,
    pub dep_type: Option<String>,
    pub classifier: Option<String>,
    pub exclusions: Vec<Exclusion>,
}

/// A raw dependency as plain values.
pub struct RawDependencyView {
    pub group_id: Option<Seq<char>>,
    pub artifact_id: Option<Seq<char>>,
    pub version: Option<Seq<char>>,
    pub scope: Option<Seq<char>>,
    pub optional: Option<Seq<char>>,
    pub dep_type: Option<Seq<char>>,
    pub classifier: Option<Seq<char>>,
    pub exclusions: Seq<(Seq<char>, Seq<char>)>,
}

impl View for RawDependency {
    type V = RawDependencyView;

    open spec fn view(&self) -> RawDependencyView {
        RawDependencyView {
            group_id: opt_str_view(self.group_id),
            artifact_id: opt_str_view(self.artifact_id),
            version: opt_str_view(self.version),
            scope: opt_str_view(self.scope),
            optional: opt_str_view(self.optional),
            dep_type: opt_str_view(self.dep_type),
            classifier: opt_str_view(self.classifier),
            exclusions: exclusion_views(self.exclusions@),
        }
    }
}

/// The optional value interpolated.
pub open spec fn interp_opt(o: Option<Seq<char>>, p: Map<Seq<char>, Seq<char>>) -> Option<Seq<char>> {
    match o {
        Some(v) => Some(interp(v, p)),
        None => None,
    }
}

/// The optional value, kept only when not empty.
pub open spec fn non_empty(o: Option<Seq<char>>) -> Option<Seq<char>> {
    match o {
        Some(v) => if v.len() > 0 {
            Some(v)
        } else {
            None
        },
        None => None,
    }
}

/// What interpolating a raw dependency gives: groupId and artifactId must
/// be present and not empty, a version must not be a snapshot, and
/// `optional` holds when its text is `true` in any ASCII case.
pub open spec fn spec_resolve(raw: RawDependencyView, p: Map<Seq<char>, Seq<char>>) -> Result<
    DependencyView,
    Seq<char>,
> {
    let g = non_empty(interp_opt(raw.group_id, p));
    let a = non_empty(interp_opt(raw.artifact_id, p));
    let v = non_empty(interp_opt(raw.version, p));
    if g is None {
        Err("POM dependency is missing groupId"@)
    } else if a is None {
        Err("POM dependency is missing artifactId"@)
    } else if v matches Some(x) && is_snapshot(x) {
        Err(snapshot_message(v->0))
    } else {
        Ok(
            DependencyView {
                group_id: g->0,
                artifact_id: a->0,
                version: v,
                scope: interp_opt(raw.scope, p),
                optional: match raw.optional {
                    Some(o) => eq_ignore_case(interp(o, p), "true"@),
                    None => false,
                },
                dep_type: interp_opt(raw.dep_type, p),
                classifier: non_empty(interp_opt(raw.classifier, p)),
                exclusions: raw.exclusions,
            },
        )
    }
}

/// A dependency is optional exactly when its `<optional>` text, once
/// interpolated, is `true` in any mix of ASCII case (`false`, `no` or any
/// other text leaves it on the classpath); without `<optional>` it is not.
pub proof fn law_optional_means_true(raw: RawDependencyView, p: Map<Seq<char>, Seq<char>>)
    ensures
        spec_resolve(raw, p) matches Ok(d) ==> (d.optional <==> (raw.optional matches Some(o) && {
            let t = interp(o, p);
            &&& t.len() == 4
            &&& (t[0] == 't' || t[0] == 'T')
            &&& (t[1] == 'r' || t[1] == 'R')
            &&& (t[2] == 'u' || t[2] == 'U')
            &&& (t[3] == 'e' || t[3] == 'E')
        })),
{
    reveal_strlit("true");
    let tr = "true"@;
    assert(tr =~= seq!['t', 'r', 'u', 'e']);
    if let Some(o) = raw.optional {
        let t = interp(o, p);
        if t.len() == 4 {
            assert forall|i: int| 0 <= i < 4 implies (lower_char(t[i]) == lower_char(tr[i]) <==> (
            t[i] == tr[i] || t[i] as int == tr[i] as int - 32)) by {}
            assert(('t' as int) - 32 == 'T' as int);
            assert(('r' as int) - 32 == 'R' as int);
            assert(('u' as int) - 32 == 'U' as int);
            assert(('e' as int) - 32 == 'E' as int);
        }
    }
}

fn interpolate_opt(o: &Option<String>, properties: &StrMap<String>) -> (r: Option<String>)
    ensures
        opt_str_view(r) == interp_opt(opt_str_view(*o), str_map_view(properties@)),
{
    match o {
        Some(v) => Some(interpolate(v.as_str(), properties)),
        None => None,
    }
}

fn keep_non_empty(o: Option<String>) -> (r: Option<String>)
    ensures
        opt_str_view(r) == non_empty(opt_str_view(o)),
{
    match o {
        Some(v) => if v.as_str().unicode_len() > 0 {
            Some(v)
        } else {
            None
        },
        None => None,
    }
}

impl RawDependency {
    /// The dependency with its properties interpolated.
    pub fn resolve(&self, properties: &StrMap<String>) -> (r: MavenResult<EffectiveDependency>)
        ensures
            match spec_resolve(self@, str_map_view(properties@)) {
                Ok(d) => r matches Ok(x) && x@ == d,
                Err(m) => r matches Err(e) && e@ == m,
            },
    {
        let group_id = match keep_non_empty(interpolate_opt(&self.group_id, properties)) {
            Some(g) => g,
            None => return Err("POM dependency is missing groupId".to_owned()),
        };
        let artifact_id = match keep_non_empty(interpolate_opt(&self.artifact_id, properties)) {
            Some(a) => a,
            None => return Err("POM dependency is missing artifactId".to_owned()),
        };
        let version = keep_non_empty(interpolate_opt(&self.version, properties));
        if let Some(v) = &version {
            match reject_snapshot(v.as_str()) {
                Ok(()) => {},
                Err(e) => return Err(e),
            }
        }
        let optional = match &self.optional {
            Some(o) => {
                let text = interpolate(o.as_str(), properties);
                eq_ignore_case_str(text.as_str(), "true")
            },
            None => false,
        };
        Ok(EffectiveDependency {
            group_id,
            artifact_id,
            version,
            scope: interpolate_opt(&self.scope, properties),
            optional,
            dep_type: interpolate_opt(&self.dep_type, properties),
            classifier: keep_non_empty(interpolate_opt(&self.classifier, properties)),
            exclusions: clone_exclusions(&self.exclusions),
        })
    }
}

} // verus!
