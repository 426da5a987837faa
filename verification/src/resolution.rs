//! What dependency resolution computes, stated over plain values.
//!
//! Given the POMs and jars fetched so far, a pass resolves the roots in
//! order, depth first: an artifact whose `groupId:artifactId` is already
//! selected, or that an inherited exclusion names, is skipped; otherwise its
//! effective POM is loaded (its parent first, then its managed
//! dependencies, importing BOMs), it is selected, its jar is listed unless
//! its packaging is `pom`, and its runtime dependencies are resolved in
//! declaration order with the exclusions gathered on the way. A pass stops
//! at the first POM or jar that has not been fetched yet, or at the first
//! error.
use vstd::prelude::*;
use crate::maven::{
    excluded_by, is_snapshot, snapshot_message, spec_ga_key, spec_new_coordinate,
};
use crate::paths::path_join;
use crate::pom::{
    interp, missing_version_message, resolve_rounds, spec_apply_management, spec_is_import_bom,
    spec_resolve, spec_should_include, DependencyView, ManagedView, RawDependencyView,
};
use crate::pom_xml::{spec_parse_pom, RawPomView};
use crate::text::utf8_error_message;

verus! {

/// `groupId`, `artifactId` and `version`.
pub type CoordView = (Seq<char>, Seq<char>, Seq<char>);

/// What has been fetched: each POM with its bytes, the jars, and the
/// directory that holds the jars.
pub struct WorldView {
    pub poms: Seq<(CoordView, Seq<u8>)>,
    pub jars: Seq<CoordView>,
    pub deps: Seq<char>,
}

/// An effective POM as plain values.
pub struct EffPomView {
    pub coordinate: CoordView,
    pub packaging: Seq<char>,
    pub properties: Map<Seq<char>, Seq<char>>,
    pub management: Map<Seq<char>, ManagedView>,
    pub dependencies: Seq<DependencyView>,
}

/// Why a pass stops: an error, or a POM or jar to fetch first.
pub enum HaltView {
    Fail(Seq<char>),
    FetchPom(CoordView),
    FetchJar(CoordView),
}

/// The effective POMs loaded so far in a pass.
pub type PomCache = Seq<(CoordView, EffPomView)>;

/// A resolved artifact: its coordinate and its jar file.
pub type ArtifactView = (CoordView, Seq<char>);

/// The state of a pass: the loaded POMs, the `groupId:artifactId` keys
/// selected and the artifacts listed, in order.
pub struct PassView {
    pub cache: PomCache,
    pub selected: Seq<Seq<char>>,
    pub artifacts: Seq<ArtifactView>,
}

/// `groupId:artifactId:version`.
pub open spec fn coord_text(c: CoordView) -> Seq<char> {
    c.0 + ":"@ + c.1 + ":"@ + c.2
}

/// The number of `false` entries.
pub open spec fn count_false(s: Seq<bool>) -> nat
    decreases s.len(),
{
    if s.len() == 0 {
        0
    } else {
        count_false(s.drop_last()) + if s.last() {
            0nat
        } else {
            1nat
        }
    }
}

/// The first index of the fetched POM of `c` (from `i`).
pub open spec fn pom_index_of(poms: Seq<(CoordView, Seq<u8>)>, c: CoordView, i: int) -> Option<int>
    decreases poms.len() - i,
{
    if i < 0 || i >= poms.len() {
        None
    } else if poms[i].0 == c {
        Some(i)
    } else {
        pom_index_of(poms, c, i + 1)
    }
}

/// The first loaded effective POM of `c` (from `i`).
pub open spec fn cache_index_of(cache: PomCache, c: CoordView, i: int) -> Option<int>
    decreases cache.len() - i,
{
    if i < 0 || i >= cache.len() {
        None
    } else if cache[i].0 == c {
        Some(i)
    } else {
        cache_index_of(cache, c, i + 1)
    }
}

/// The property map with each pair set in turn.
pub open spec fn insert_pairs(m: Map<Seq<char>, Seq<char>>, pairs: Seq<(Seq<char>, Seq<char>)>) -> Map<
    Seq<char>,
    Seq<char>,
>
    decreases pairs.len(),
{
    if pairs.len() == 0 {
        m
    } else {
        insert_pairs(m, pairs.drop_last()).insert(pairs.last().0, pairs.last().1)
    }
}

/// The `project.*` and `pom.*` properties of a coordinate added.
pub open spec fn with_project_properties(m: Map<Seq<char>, Seq<char>>, c: CoordView) -> Map<
    Seq<char>,
    Seq<char>,
> {
    m.insert("project.groupId"@, c.0).insert("project.artifactId"@, c.1).insert(
        "project.version"@,
        c.2,
    ).insert("pom.groupId"@, c.0).insert("pom.artifactId"@, c.1).insert("pom.version"@, c.2)
}

/// The `project.parent.*` properties added when there is a parent.
pub open spec fn with_parent_properties(m: Map<Seq<char>, Seq<char>>, parent: Option<EffPomView>) -> Map<
    Seq<char>,
    Seq<char>,
> {
    match parent {
        Some(p) => m.insert("project.parent.groupId"@, p.coordinate.0).insert(
            "project.parent.artifactId"@,
            p.coordinate.1,
        ).insert("project.parent.version"@, p.coordinate.2),
        None => m,
    }
}

/// The coordinate of a dependency; it needs a version.
pub open spec fn dependency_coordinate(d: DependencyView) -> Result<CoordView, Seq<char>> {
    match d.version {
        None => Err(missing_version_message(d.group_id, d.artifact_id)),
        Some(v) => spec_new_coordinate(d.group_id, d.artifact_id, v),
    }
}

/// What a managed entry records of a dependency.
pub open spec fn managed_of(d: DependencyView) -> ManagedView {
    ManagedView {
        version: d.version,
        scope: d.scope,
        optional: Some(d.optional),
        dep_type: d.dep_type,
        exclusions: d.exclusions,
    }
}

/// The dependencies interpolated and managed, in order; the first that
/// does not resolve fails.
pub open spec fn spec_effective_dependencies(
    raws: Seq<RawDependencyView>,
    props: Map<Seq<char>, Seq<char>>,
    management: Map<Seq<char>, ManagedView>,
) -> Result<Seq<DependencyView>, Seq<char>>
    decreases raws.len(),
{
    if raws.len() == 0 {
        Ok(Seq::empty())
    } else {
        match spec_effective_dependencies(raws.drop_last(), props, management) {
            Err(m) => Err(m),
            Ok(prev) => match spec_resolve(raws.last(), props) {
                Err(m) => Err(m),
                Ok(d) => Ok(prev.push(spec_apply_management(d, management))),
            },
        }
    }
}

/// The effective POM of `c`: the loaded one, else the fetched one read and
/// built (a POM being loaded again means a cycle), else a fetch.
pub open spec fn spec_load(w: WorldView, loading: Seq<bool>, cache: PomCache, c: CoordView) -> (PomCache, Result<
    EffPomView,
    HaltView,
>)
    decreases count_false(loading), 0nat, 0nat,
{
    match cache_index_of(cache, c, 0) {
        Some(i) => (cache, Ok(cache[i].1)),
        None => match pom_index_of(w.poms, c, 0) {
            None => (cache, Err(HaltView::FetchPom(c))),
            Some(idx) => if idx >= loading.len() || loading[idx] {
                (
                    cache,
                    Err(HaltView::Fail("Detected a parent/BOM cycle while resolving "@ + coord_text(c))),
                )
            } else {
                proof {
                    lemma_pom_index_of(w.poms, c, 0);
                    lemma_count_false_set(loading, idx);
                }
                let (cache2, r) = spec_load_fetched(w, loading.update(idx, true), cache, c, idx);
                match r {
                    Ok(e) => (cache2.push((c, e)), Ok(e)),
                    Err(h) => (cache2, Err(h)),
                }
            },
        },
    }
}

/// The effective POM of `c` from its fetched bytes: text, raw POM, parent.
pub open spec fn spec_load_fetched(w: WorldView, loading: Seq<bool>, cache: PomCache, c: CoordView, idx: int) -> (PomCache, Result<
    EffPomView,
    HaltView,
>)
    decreases count_false(loading), 3nat, 0nat,
{
    let bytes = w.poms[idx].1;
    if !vstd::utf8::valid_utf8(bytes) {
        (
            cache,
            Err(
                HaltView::Fail(
                    "POM for "@ + coord_text(c) + " is not valid UTF-8: "@ + utf8_error_message(bytes),
                ),
            ),
        )
    } else {
        match spec_parse_pom(vstd::utf8::decode_utf8(bytes)) {
            Err(m) => (cache, Err(HaltView::Fail(m))),
            Ok(raw) => match raw.parent {
                None => spec_build(w, loading, cache, c, raw, None),
                Some(p) => match spec_new_coordinate(p.0, p.1, p.2) {
                    Err(m) => (cache, Err(HaltView::Fail(m))),
                    Ok(pc) => {
                        let (cache2, r) = spec_load(w, loading, cache, pc);
                        match r {
                            Err(h) => (cache2, Err(h)),
                            Ok(pe) => spec_build(w, loading, cache2, c, raw, Some(pe)),
                        }
                    },
                },
            },
        }
    }
}

/// The resolved properties of a POM before its own coordinate is known.
pub open spec fn first_properties(raw: RawPomView, parent: Option<EffPomView>) -> Map<Seq<char>, Seq<char>> {
    resolve_rounds(
        with_parent_properties(
            insert_pairs(
                match parent {
                    Some(p) => p.properties,
                    None => Map::empty(),
                },
                raw.properties,
            ),
            parent,
        ),
        10,
    )
}

/// The raw coordinate parts: the POM's own, else the parent's (group and
/// version), else the requested ones.
pub open spec fn raw_coordinate(raw: RawPomView, parent: Option<EffPomView>, requested: CoordView) -> CoordView {
    (
        match raw.group_id {
            Some(g) => g,
            None => match parent {
                Some(p) => p.coordinate.0,
                None => requested.0,
            },
        },
        match raw.artifact_id {
            Some(a) => a,
            None => requested.1,
        },
        match raw.version {
            Some(v) => v,
            None => match parent {
                Some(p) => p.coordinate.2,
                None => requested.2,
            },
        },
    )
}

/// The effective POM built from a raw POM and its parent's effective POM.
pub open spec fn spec_build(
    w: WorldView,
    loading: Seq<bool>,
    cache: PomCache,
    requested: CoordView,
    raw: RawPomView,
    parent: Option<EffPomView>,
) -> (PomCache, Result<EffPomView, HaltView>)
    decreases count_false(loading), 2nat, 0nat,
{
    let props = first_properties(raw, parent);
    let rc = raw_coordinate(raw, parent, requested);
    let version = interp(rc.2, props);
    if is_snapshot(version) {
        (cache, Err(HaltView::Fail(snapshot_message(version))))
    } else {
        match spec_new_coordinate(interp(rc.0, props), interp(rc.1, props), version) {
            Err(m) => (cache, Err(HaltView::Fail(m))),
            Ok(coordinate) => {
                let props2 = resolve_rounds(with_project_properties(props, coordinate), 10);
                let base = match parent {
                    Some(p) => p.management,
                    None => Map::empty(),
                };
                let (cache2, r) = spec_management(
                    w,
                    loading,
                    cache,
                    props2,
                    raw.dependency_management,
                    0,
                    base,
                );
                match r {
                    Err(h) => (cache2, Err(h)),
                    Ok(management) => match spec_effective_dependencies(
                        raw.dependencies,
                        props2,
                        management,
                    ) {
                        Err(m) => (cache2, Err(HaltView::Fail(m))),
                        Ok(dependencies) => (
                            cache2,
                            Ok(
                                EffPomView {
                                    coordinate,
                                    packaging: match raw.packaging {
                                        Some(p) => interp(p, props2),
                                        None => "jar"@,
                                    },
                                    properties: props2,
                                    management,
                                    dependencies,
                                },
                            ),
                        ),
                    },
                }
            },
        }
    }
}

/// The dependency management from entry `k` on: each entry interpolated
/// and managed by what came before; an imported BOM contributes its own
/// management, any other entry is recorded under its key.
pub open spec fn spec_management(
    w: WorldView,
    loading: Seq<bool>,
    cache: PomCache,
    props: Map<Seq<char>, Seq<char>>,
    raws: Seq<RawDependencyView>,
    k: nat,
    management: Map<Seq<char>, ManagedView>,
) -> (PomCache, Result<Map<Seq<char>, ManagedView>, HaltView>)
    decreases count_false(loading), 1nat, raws.len() - k,
{
    if k >= raws.len() {
        (cache, Ok(management))
    } else {
        match spec_resolve(raws[k as int], props) {
            Err(m) => (cache, Err(HaltView::Fail(m))),
            Ok(d0) => {
                let d = spec_apply_management(d0, management);
                if spec_is_import_bom(d) {
                    match dependency_coordinate(d) {
                        Err(m) => (cache, Err(HaltView::Fail(m))),
                        Ok(bom) => {
                            let (cache2, r) = spec_load(w, loading, cache, bom);
                            match r {
                                Err(h) => (cache2, Err(h)),
                                Ok(bp) => spec_management(
                                    w,
                                    loading,
                                    cache2,
                                    props,
                                    raws,
                                    k + 1,
                                    management.union_prefer_right(bp.management),
                                ),
                            }
                        },
                    }
                } else {
                    spec_management(
                        w,
                        loading,
                        cache,
                        props,
                        raws,
                        k + 1,
                        management.insert(spec_ga_key(d.group_id, d.artifact_id), managed_of(d)),
                    )
                }
            },
        }
    }
}

/// Resolves `c` with the exclusions inherited so far: skipped when
/// excluded, already selected, or being resolved further up; a snapshot
/// version fails; an unfetched POM is to be fetched.
pub open spec fn spec_resolve_artifact(
    w: WorldView,
    loading: Seq<bool>,
    active: Seq<bool>,
    st: PassView,
    c: CoordView,
    exclusions: Seq<(Seq<char>, Seq<char>)>,
) -> (PassView, Result<(), HaltView>)
    decreases count_false(active), 0nat, 0nat,
{
    if excluded_by(exclusions, c.0, c.1) {
        (st, Ok(()))
    } else if is_snapshot(c.2) {
        (st, Err(HaltView::Fail(snapshot_message(c.2))))
    } else if st.selected.contains(spec_ga_key(c.0, c.1)) {
        (st, Ok(()))
    } else {
        match pom_index_of(w.poms, c, 0) {
            None => (st, Err(HaltView::FetchPom(c))),
            Some(idx) => if idx >= active.len() || active[idx] {
                (st, Ok(()))
            } else {
                proof {
                    lemma_pom_index_of(w.poms, c, 0);
                    lemma_count_false_set(active, idx);
                }
                spec_resolve_fetched(w, loading, active.update(idx, true), st, c, exclusions)
            },
        }
    }
}

/// Resolves `c` once its POM is fetched: loads its effective POM, selects
/// it, lists its jar unless its packaging is `pom` (an unfetched jar is to
/// be fetched), then resolves its dependencies.
pub open spec fn spec_resolve_fetched(
    w: WorldView,
    loading: Seq<bool>,
    active: Seq<bool>,
    st: PassView,
    c: CoordView,
    exclusions: Seq<(Seq<char>, Seq<char>)>,
) -> (PassView, Result<(), HaltView>)
    decreases count_false(active), 2nat, 0nat,
{
    let (cache2, r) = spec_load(w, loading, st.cache, c);
    match r {
        Err(h) => (PassView { cache: cache2, ..st }, Err(h)),
        Ok(pom) => {
            let selected = st.selected.push(spec_ga_key(c.0, c.1));
            if pom.packaging != "pom"@ && !w.jars.contains(c) {
                (
                    PassView { cache: cache2, selected, artifacts: st.artifacts },
                    Err(HaltView::FetchJar(c)),
                )
            } else {
                let artifacts = if pom.packaging != "pom"@ {
                    st.artifacts.push((c, path_join(w.deps, c.1 + "-"@ + c.2 + ".jar"@)))
                } else {
                    st.artifacts
                };
                spec_resolve_dependencies(
                    w,
                    loading,
                    active,
                    PassView { cache: cache2, selected, artifacts },
                    pom.dependencies,
                    0,
                    exclusions,
                )
            }
        },
    }
}

/// Resolves the dependencies from `k` on: each one on the runtime
/// classpath, with its own exclusions added, unless they exclude it.
pub open spec fn spec_resolve_dependencies(
    w: WorldView,
    loading: Seq<bool>,
    active: Seq<bool>,
    st: PassView,
    deps: Seq<DependencyView>,
    k: nat,
    exclusions: Seq<(Seq<char>, Seq<char>)>,
) -> (PassView, Result<(), HaltView>)
    decreases count_false(active), 1nat, deps.len() - k,
{
    if k >= deps.len() {
        (st, Ok(()))
    } else {
        let d = deps[k as int];
        if !spec_should_include(d) {
            spec_resolve_dependencies(w, loading, active, st, deps, k + 1, exclusions)
        } else {
            match dependency_coordinate(d) {
                Err(m) => (st, Err(HaltView::Fail(m))),
                Ok(child) => {
                    let child_exclusions = exclusions + d.exclusions;
                    if excluded_by(child_exclusions, child.0, child.1) {
                        spec_resolve_dependencies(w, loading, active, st, deps, k + 1, exclusions)
                    } else {
                        let (st2, r) = spec_resolve_artifact(
                            w,
                            loading,
                            active,
                            st,
                            child,
                            child_exclusions,
                        );
                        match r {
                            Err(h) => (st2, Err(h)),
                            Ok(()) => spec_resolve_dependencies(
                                w,
                                loading,
                                active,
                                st2,
                                deps,
                                k + 1,
                                exclusions,
                            ),
                        }
                    }
                },
            }
        }
    }
}

/// What a pass comes to: the artifacts, or what to fetch first.
pub enum ResolveView {
    Done(Seq<ArtifactView>),
    FetchPom(CoordView),
    FetchJar(CoordView),
}

/// A sequence of `n` copies of `false`.
pub open spec fn all_false(n: nat) -> Seq<bool> {
    Seq::new(n, |i: int| false)
}

/// Resolves the roots from `k` on, in order.
pub open spec fn spec_resolve_roots_from(w: WorldView, st: PassView, roots: Seq<CoordView>, k: nat) -> Result<
    ResolveView,
    Seq<char>,
>
    decreases roots.len() - k,
{
    if k >= roots.len() {
        Ok(ResolveView::Done(st.artifacts))
    } else {
        let n = w.poms.len();
        let (st2, r) = spec_resolve_artifact(
            w,
            all_false(n),
            all_false(n),
            st,
            roots[k as int],
            Seq::empty(),
        );
        match r {
            Ok(()) => spec_resolve_roots_from(w, st2, roots, k + 1),
            Err(HaltView::Fail(m)) => Err(m),
            Err(HaltView::FetchPom(c)) => Ok(ResolveView::FetchPom(c)),
            Err(HaltView::FetchJar(c)) => Ok(ResolveView::FetchJar(c)),
        }
    }
}

/// What a resolution pass over `roots` comes to.
pub open spec fn spec_resolve_roots(w: WorldView, roots: Seq<CoordView>) -> Result<ResolveView, Seq<char>> {
    spec_resolve_roots_from(
        w,
        PassView { cache: Seq::empty(), selected: Seq::empty(), artifacts: Seq::empty() },
        roots,
        0,
    )
}

/// An excluded coordinate is skipped, and so is one whose
/// `groupId:artifactId` an earlier coordinate already selected: the first
/// version reached wins. Either way the pass is left as it was.
pub proof fn law_first_selected_wins(
    w: WorldView,
    loading: Seq<bool>,
    active: Seq<bool>,
    st: PassView,
    c: CoordView,
    exclusions: Seq<(Seq<char>, Seq<char>)>,
)
    ensures
        excluded_by(exclusions, c.0, c.1) ==> spec_resolve_artifact(
            w,
            loading,
            active,
            st,
            c,
            exclusions,
        ) == (st, Ok::<(), HaltView>(())),
        !excluded_by(exclusions, c.0, c.1) && !is_snapshot(c.2) && st.selected.contains(
            spec_ga_key(c.0, c.1),
        ) ==> spec_resolve_artifact(w, loading, active, st, c, exclusions) == (st, Ok::<
            (),
            HaltView,
        >(())),
{
}

/// Once its POM is loaded, a coordinate is selected; it is listed with its
/// jar in the dependency directory unless its packaging is `pom`, which
/// lists nothing; then its dependencies are resolved.
pub proof fn law_pom_packaging_lists_no_jar(
    w: WorldView,
    loading: Seq<bool>,
    active: Seq<bool>,
    st: PassView,
    c: CoordView,
    exclusions: Seq<(Seq<char>, Seq<char>)>,
)
    ensures
        ({
            let (cache2, r) = spec_load(w, loading, st.cache, c);
            r matches Ok(pom) ==> (pom.packaging == "pom"@ ==> spec_resolve_fetched(
                w,
                loading,
                active,
                st,
                c,
                exclusions,
            ) == spec_resolve_dependencies(
                w,
                loading,
                active,
                PassView {
                    cache: cache2,
                    selected: st.selected.push(spec_ga_key(c.0, c.1)),
                    artifacts: st.artifacts,
                },
                pom.dependencies,
                0,
                exclusions,
            ))
        }),
        ({
            let (cache2, r) = spec_load(w, loading, st.cache, c);
            r matches Ok(pom) ==> (pom.packaging != "pom"@ && w.jars.contains(c)
                ==> spec_resolve_fetched(w, loading, active, st, c, exclusions)
                == spec_resolve_dependencies(
                w,
                loading,
                active,
                PassView {
                    cache: cache2,
                    selected: st.selected.push(spec_ga_key(c.0, c.1)),
                    artifacts: st.artifacts.push((c, path_join(w.deps, c.1 + "-"@ + c.2 + ".jar"@))),
                },
                pom.dependencies,
                0,
                exclusions,
            ))
        }),
{
}

/// A dependency that is resolved carries the exclusions it inherits and
/// its own; one that they exclude is skipped; the next dependency is
/// resolved from the pass that the previous one left.
pub proof fn law_exclusions_are_inherited(
    w: WorldView,
    loading: Seq<bool>,
    active: Seq<bool>,
    st: PassView,
    deps: Seq<DependencyView>,
    k: nat,
    exclusions: Seq<(Seq<char>, Seq<char>)>,
)
    requires
        k < deps.len(),
        spec_should_include(deps[k as int]),
    ensures
        dependency_coordinate(deps[k as int]) matches Ok(child) ==> ({
            let inherited = exclusions + deps[k as int].exclusions;
            &&& excluded_by(inherited, child.0, child.1) ==> spec_resolve_dependencies(
                w,
                loading,
                active,
                st,
                deps,
                k,
                exclusions,
            ) == spec_resolve_dependencies(w, loading, active, st, deps, k + 1, exclusions)
            &&& !excluded_by(inherited, child.0, child.1) ==> spec_resolve_artifact(
                w,
                loading,
                active,
                st,
                child,
                inherited,
            ).1 is Err ==> spec_resolve_dependencies(w, loading, active, st, deps, k, exclusions)
                == spec_resolve_artifact(w, loading, active, st, child, inherited)
            &&& !excluded_by(inherited, child.0, child.1) ==> spec_resolve_artifact(
                w,
                loading,
                active,
                st,
                child,
                inherited,
            ).1 is Ok ==> spec_resolve_dependencies(w, loading, active, st, deps, k, exclusions)
                == spec_resolve_dependencies(
                w,
                loading,
                active,
                spec_resolve_artifact(w, loading, active, st, child, inherited).0,
                deps,
                k + 1,
                exclusions,
            )
        }),
{
}

/// A coordinate reached below an exclusion `*:artifactId` naming its
/// artifactId (or `*:*`) is never resolved: the pass is left as it was,
/// whatever its groupId; and a dependency whose own or inherited
/// exclusions hold such an entry is skipped.
pub proof fn law_wildcard_exclusion_skips(
    w: WorldView,
    loading: Seq<bool>,
    active: Seq<bool>,
    st: PassView,
    deps: Seq<DependencyView>,
    k: nat,
    c: CoordView,
    exclusions: Seq<(Seq<char>, Seq<char>)>,
)
    ensures
        exclusions.contains((seq!['*'], c.1)) || exclusions.contains((seq!['*'], seq!['*']))
            ==> spec_resolve_artifact(w, loading, active, st, c, exclusions) == (st, Ok::<
            (),
            HaltView,
        >(())),
        k < deps.len() && spec_should_include(deps[k as int]) ==> (dependency_coordinate(
            deps[k as int],
        ) matches Ok(child) ==> ((exclusions + deps[k as int].exclusions).contains(
            (seq!['*'], child.1),
        ) ==> spec_resolve_dependencies(w, loading, active, st, deps, k, exclusions)
            == spec_resolve_dependencies(w, loading, active, st, deps, k + 1, exclusions))),
{
    crate::maven::law_exclusion_wildcards(exclusions, (seq!['*'], c.1), c.0, c.1);
    crate::maven::law_exclusion_wildcards(exclusions, (seq!['*'], seq!['*']), c.0, c.1);
    if k < deps.len() && spec_should_include(deps[k as int]) {
        if let Ok(child) = dependency_coordinate(deps[k as int]) {
            crate::maven::law_exclusion_wildcards(
                exclusions + deps[k as int].exclusions,
                (seq!['*'], child.1),
                child.0,
                child.1,
            );
        }
    }
}

/// `pom_index_of` finds the first fetched POM of `c` from `i` on.
pub proof fn lemma_pom_index_of(poms: Seq<(CoordView, Seq<u8>)>, c: CoordView, i: int)
    requires
        0 <= i,
    ensures
        match pom_index_of(poms, c, i) {
            Some(j) => i <= j < poms.len() && poms[j].0 == c && forall|k: int|
                i <= k < j ==> poms[k].0 != c,
            None => forall|k: int| i <= k < poms.len() ==> poms[k].0 != c,
        },
    decreases poms.len() - i,
{
    if i < poms.len() && poms[i].0 != c {
        lemma_pom_index_of(poms, c, i + 1);
    }
}

/// `cache_index_of` finds the first loaded POM of `c` from `i` on.
pub proof fn lemma_cache_index_of(cache: PomCache, c: CoordView, i: int)
    requires
        0 <= i,
    ensures
        match cache_index_of(cache, c, i) {
            Some(j) => i <= j < cache.len() && cache[j].0 == c && forall|k: int|
                i <= k < j ==> cache[k].0 != c,
            None => forall|k: int| i <= k < cache.len() ==> cache[k].0 != c,
        },
    decreases cache.len() - i,
{
    if i < cache.len() && cache[i].0 != c {
        lemma_cache_index_of(cache, c, i + 1);
    }
}

/// Marking an unmarked entry lowers the count by one.
pub proof fn lemma_count_false_set(s: Seq<bool>, i: int)
    requires
        0 <= i < s.len(),
        !s[i],
    ensures
        count_false(s.update(i, true)) + 1 == count_false(s),
    decreases s.len(),
{
    if i == s.len() - 1 {
        assert(s.update(i, true).drop_last() =~= s.drop_last());
    } else {
        lemma_count_false_set(s.drop_last(), i);
        assert(s.update(i, true).drop_last() =~= s.drop_last().update(i, true));
    }
}

} // verus!
