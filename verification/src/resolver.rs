//! Transitive Maven dependency resolution.
//!
//! Resolution is a pure function of the POMs and jars fetched so far. A
//! resolver holds what has been fetched; `resolve_roots` walks the
//! dependency graph as far as that allows and either finishes with the
//! resolved artifacts or names the next file to fetch, which is always one
//! that has not been fetched yet. The caller fetches it, hands it over with
//! `provide_pom` or `provide_jar`, and resolves again.
use vstd::prelude::*;
use crate::config::Config;
use crate::order::{pair_views, sort_by_key, sort_pairs};
use crate::maven::{
    first_bad_repository, repositories_from_config, spec_parse_dependency, spec_repository_from_config,
    central_view, RepositoryView,
    clone_exclusions, is_excluded, is_snapshot, reject_snapshot, spec_ga_key, Coordinate,
    Exclusion, MavenRepository, MavenResult, ResolvedArtifact,
};
use crate::paths::{join, path_join};
use crate::pom::{
    add_project_properties, apply_management, clone_opt, clone_str_map, interpolate,
    resolve_all_properties, EffectiveDependency, ManagedDependency,
};
use crate::pom_xml::{parse_pom, RawPom};
use crate::strmap::StrMap;
use crate::text::{concat, contains_string, push_str, utf8_text, views};
use crate::resolution::{
    count_false, lemma_count_false_set, lemma_cache_index_of, lemma_pom_index_of, cache_index_of,
    pom_index_of, spec_load, spec_load_fetched, spec_build, spec_management, insert_pairs,
    with_parent_properties, with_project_properties, first_properties, raw_coordinate,
    spec_effective_dependencies, dependency_coordinate, managed_of, spec_resolve_artifact,
    spec_resolve_fetched, spec_resolve_dependencies, spec_resolve_roots, spec_resolve_roots_from,
    all_false, coord_text, ArtifactView, CoordView, EffPomView, HaltView, PassView, PomCache,
    ResolveView, WorldView,
};
use crate::pom::{str_map_view, managed_map_view};

verus! {

/// A POM with its properties resolved and its dependency management applied.
#[derive(Debug)]
pub struct EffectivePom {
    pub coordinate: Coordinate,
    pub packaging: String,
    pub properties: StrMap<String>,
    pub dependency_management: StrMap<ManagedDependency>,
    pub dependencies: Vec<EffectiveDependency>,
}

/// The views of a list of dependencies.
pub open spec fn dependency_views(v: Seq<EffectiveDependency>) -> Seq<crate::pom::DependencyView> {
    v.map_values(|d: EffectiveDependency| d@)
}

/// Entries with equal keys and equal views make equal maps.
proof fn lemma_managed_entries(a: Seq<(String, ManagedDependency)>, b: Seq<(String, ManagedDependency)>)
    requires
        a.len() == b.len(),
        forall|i: int| 0 <= i < a.len() ==> (#[trigger] a[i]).0@ == b[i].0@ && a[i].1@ == b[i].1@,
    ensures
        managed_map_view(crate::strmap::map_of(a)) == managed_map_view(crate::strmap::map_of(b)),
    decreases a.len(),
{
    if a.len() > 0 {
        lemma_managed_entries(a.drop_last(), b.drop_last());
        assert(managed_map_view(crate::strmap::map_of(a)) =~= managed_map_view(
            crate::strmap::map_of(a.drop_last()),
        ).insert(a.last().0@, a.last().1@));
        assert(managed_map_view(crate::strmap::map_of(b)) =~= managed_map_view(
            crate::strmap::map_of(b.drop_last()),
        ).insert(b.last().0@, b.last().1@));
    }
}

fn clone_managed_map(m: &StrMap<ManagedDependency>) -> (r: StrMap<ManagedDependency>)
    ensures
        managed_map_view(r@) == managed_map_view(m@),
{
    let mut entries: Vec<(String, ManagedDependency)> = Vec::new();
    let mut i: usize = 0;
    while i < m.entries.len()
        invariant
            i <= m.entries@.len(),
            entries@.len() == i,
            forall|k: int|
                0 <= k < i ==> (#[trigger] entries@[k]).0@ == m.entries@[k].0@ && entries@[k].1@
                    == m.entries@[k].1@,
        decreases m.entries.len() - i,
    {
        entries.push((m.entries[i].0.clone(), m.entries[i].1.clone()));
        i = i + 1;
    }
    proof {
        lemma_managed_entries(entries@, m.entries@);
    }
    StrMap { entries }
}

fn clone_dependencies(v: &Vec<EffectiveDependency>) -> (r: Vec<EffectiveDependency>)
    ensures
        r@.len() == v@.len(),
        forall|i: int| 0 <= i < v@.len() ==> (#[trigger] r@[i])@ == v@[i]@,
        dependency_views(r@) == dependency_views(v@),
{
    let mut r: Vec<EffectiveDependency> = Vec::new();
    let mut i: usize = 0;
    while i < v.len()
        invariant
            i <= v@.len(),
            r@.len() == i,
            forall|k: int| 0 <= k < i ==> (#[trigger] r@[k])@ == v@[k]@,
        decreases v.len() - i,
    {
        r.push(v[i].clone());
        i = i + 1;
    }
    assert(dependency_views(r@) =~= dependency_views(v@));
    r
}

impl View for EffectivePom {
    type V = EffPomView;

    open spec fn view(&self) -> EffPomView {
        EffPomView {
            coordinate: self.coordinate@,
            packaging: self.packaging@,
            properties: str_map_view(self.properties@),
            management: managed_map_view(self.dependency_management@),
            dependencies: dependency_views(self.dependencies@),
        }
    }
}

impl EffectivePom {
    fn duplicate(&self) -> (r: EffectivePom)
        ensures
            r@ == self@,
    {
        EffectivePom {
            coordinate: self.coordinate.clone(),
            packaging: self.packaging.clone(),
            properties: clone_str_map(&self.properties),
            dependency_management: clone_managed_map(&self.dependency_management),
            dependencies: clone_dependencies(&self.dependencies),
        }
    }
}

/// What a resolution pass ends with.
#[derive(Debug)]
pub enum ResolveStep {
    /// Every artifact is resolved, in resolution order.
    Done(Vec<ResolvedArtifact>),
    /// The POM of this coordinate has to be fetched first.
    FetchPom(Coordinate),
    /// The jar of this coordinate has to be fetched first.
    FetchJar(Coordinate),
}

/// Why a pass stopped early.
enum Halt {
    Fail(String),
    FetchPom(Coordinate),
    FetchJar(Coordinate),
}

/// The POMs and jars fetched so far, and where jars are kept.
#[derive(Debug)]
pub struct MavenResolver {
    repositories: Vec<MavenRepository>,
    deps_dir: String,
    poms: Vec<(Coordinate, Vec<u8>)>,
    jars: Vec<Coordinate>,
}

/// The state of one resolution pass.
struct Pass {
    pom_cache: Vec<(Coordinate, EffectivePom)>,
    loading: Vec<bool>,
    active: Vec<bool>,
    selected: Vec<String>,
    artifacts: Vec<ResolvedArtifact>,
}

impl MavenResolver {
    /// The coordinates whose POM has been fetched.
    pub closed spec fn fetched_poms(&self) -> Seq<(Seq<char>, Seq<char>, Seq<char>)> {
        self.poms@.map_values(|p: (Coordinate, Vec<u8>)| p.0@)
    }

    /// The coordinates whose jar has been fetched.
    pub closed spec fn fetched_jars(&self) -> Seq<(Seq<char>, Seq<char>, Seq<char>)> {
        self.jars@.map_values(|c: Coordinate| c@)
    }

    /// Where jars are kept.
    pub closed spec fn deps(&self) -> Seq<char> {
        self.deps_dir@
    }

    /// The repositories to fetch from, in order.
    pub closed spec fn repository_views(&self) -> Seq<RepositoryView> {
        self.repositories@.map_values(|r: MavenRepository| r@)
    }

    /// A resolver that has fetched nothing yet.
    pub fn new(repositories: Vec<MavenRepository>, deps_dir: String) -> (r: MavenResult<Self>)
        ensures
            r matches Ok(m) && m.fetched_poms().len() == 0 && m.fetched_jars().len() == 0
                && m.deps() == deps_dir@ && m.repository_views() == repositories@.map_values(
                |x: MavenRepository| x@,
            ) && m.world() == (WorldView { poms: Seq::empty(), jars: Seq::empty(), deps: deps_dir@ }),
    {
        let ghost rv = repositories@.map_values(|x: MavenRepository| x@);
        let r = MavenResolver { repositories, deps_dir, poms: Vec::new(), jars: Vec::new() };
        assert(r.fetched_poms() =~= Seq::empty());
        assert(r.fetched_jars() =~= Seq::empty());
        assert(r.repository_views() =~= rv);
        assert(r.world().poms =~= Seq::<(CoordView, Seq<u8>)>::empty());
        Ok(r)
    }

    /// The repositories to fetch from, in order.
    pub fn repositories(&self) -> (r: &Vec<MavenRepository>)
        ensures
            r@.map_values(|x: MavenRepository| x@) == self.repository_views(),
    {
        &self.repositories
    }

    /// Where jars are kept.
    pub fn deps_dir(&self) -> (r: &String)
        ensures
            r@ == self.deps(),
    {
        &self.deps_dir
    }

    /// Records the fetched POM of `coordinate`.
    pub fn provide_pom(&mut self, coordinate: Coordinate, bytes: Vec<u8>)
        ensures
            final(self).fetched_poms() == old(self).fetched_poms().push(coordinate@),
            final(self).fetched_jars() == old(self).fetched_jars(),
            final(self).deps() == old(self).deps(),
            final(self).repository_views() == old(self).repository_views(),
            final(self).world() == (WorldView {
                poms: old(self).world().poms.push((coordinate@, bytes@)),
                ..old(self).world()
            }),
    {
        let ghost c = coordinate@;
        let ghost b = bytes@;
        self.poms.push((coordinate, bytes));
        assert(self.fetched_poms() =~= old(self).fetched_poms().push(c));
        assert(self.world().poms =~= old(self).world().poms.push((c, b)));
    }

    /// Records that the jar of `coordinate` has been fetched.
    pub fn provide_jar(&mut self, coordinate: Coordinate)
        ensures
            final(self).fetched_jars() == old(self).fetched_jars().push(coordinate@),
            final(self).fetched_poms() == old(self).fetched_poms(),
            final(self).deps() == old(self).deps(),
            final(self).repository_views() == old(self).repository_views(),
            final(self).world() == (WorldView {
                jars: old(self).world().jars.push(coordinate@),
                ..old(self).world()
            }),
    {
        let ghost c = coordinate@;
        self.jars.push(coordinate);
        assert(self.fetched_jars() =~= old(self).fetched_jars().push(c));
    }

    /// What has been fetched, as plain values.
    pub closed spec fn world(&self) -> WorldView {
        WorldView {
            poms: self.poms@.map_values(|p: (Coordinate, Vec<u8>)| (p.0@, p.1@)),
            jars: self.fetched_jars(),
            deps: self.deps(),
        }
    }

    fn pom_index(&self, coordinate: &Coordinate) -> (r: Option<usize>)
        ensures
            match r {
                Some(i) => i < self.poms@.len() && self.poms@[i as int].0@ == coordinate@,
                None => !self.fetched_poms().contains(coordinate@),
            },
            r matches Some(i) ==> pom_index_of(self.world().poms, coordinate@, 0) == Some(i as int),
            r is None ==> pom_index_of(self.world().poms, coordinate@, 0) == None::<int>,
    {
        let ghost wp = self.world().poms;
        proof {
            lemma_pom_index_of(wp, coordinate@, 0);
        }
        let mut i: usize = 0;
        while i < self.poms.len()
            invariant
                i <= self.poms@.len(),
                wp == self.world().poms,
                wp.len() == self.poms@.len(),
                forall|k: int| 0 <= k < i ==> self.poms@[k].0@ != coordinate@,
                forall|k: int| 0 <= k < self.poms@.len() ==> #[trigger] wp[k].0 == self.poms@[k].0@,
            decreases self.poms.len() - i,
        {
            if self.poms[i].0.same(coordinate) {
                proof {
                    lemma_pom_index_of(wp, coordinate@, 0);
                    match pom_index_of(wp, coordinate@, 0) {
                        Some(j) => {
                            if j < i {
                                assert(wp[j].0 == self.poms@[j].0@);
                            } else if j > i {
                                assert(wp[i as int].0 == self.poms@[i as int].0@);
                            }
                        },
                        None => {
                            assert(wp[i as int].0 == self.poms@[i as int].0@);
                        },
                    }
                }
                return Some(i);
            }
            i = i + 1;
        }
        proof {
            match pom_index_of(wp, coordinate@, 0) {
                Some(j) => {
                    assert(wp[j].0 == self.poms@[j].0@);
                },
                None => {},
            }
            if self.fetched_poms().contains(coordinate@) {
                let k = choose|k: int|
                    0 <= k < self.fetched_poms().len() && self.fetched_poms()[k] == coordinate@;
                assert(self.poms@[k].0@ == coordinate@);
            }
        }
        None
    }

    fn has_jar(&self, coordinate: &Coordinate) -> (b: bool)
        ensures
            b == self.fetched_jars().contains(coordinate@),
    {
        let mut i: usize = 0;
        while i < self.jars.len()
            invariant
                i <= self.jars@.len(),
                forall|k: int| 0 <= k < i ==> self.jars@[k]@ != coordinate@,
            decreases self.jars.len() - i,
        {
            if self.jars[i].same(coordinate) {
                assert(self.fetched_jars()[i as int] == coordinate@);
                return true;
            }
            i = i + 1;
        }
        proof {
            if self.fetched_jars().contains(coordinate@) {
                let k = choose|k: int|
                    0 <= k < self.fetched_jars().len() && self.fetched_jars()[k] == coordinate@;
                assert(self.jars@[k]@ == coordinate@);
            }
        }
        false
    }
}


/// The jar file name of a coordinate.
pub open spec fn jar_name(c: (Seq<char>, Seq<char>, Seq<char>)) -> Seq<char> {
    c.1 + "-"@ + c.2 + ".jar"@
}

/// `groupId:artifactId` of an artifact.
pub open spec fn artifact_key(a: ResolvedArtifact) -> Seq<char> {
    spec_ga_key(a.coordinate@.0, a.coordinate@.1)
}

impl MavenResolver {
    /// An artifact that resolution may report: its jar has been fetched, it
    /// lies in the dependency directory under its jar name, and its version
    /// is not a snapshot.
    pub open spec fn artifact_ok(&self, a: ResolvedArtifact) -> bool {
        &&& self.fetched_jars().contains(a.coordinate@)
        &&& a.jar_path@ == path_join(self.deps(), jar_name(a.coordinate@))
        &&& !is_snapshot(a.coordinate@.2)
    }

    /// A valid result of resolution: every artifact may be reported, and no
    /// two artifacts share a `groupId:artifactId`.
    pub open spec fn artifacts_ok(&self, v: Seq<ResolvedArtifact>) -> bool {
        &&& forall|i: int| 0 <= i < v.len() ==> self.artifact_ok(#[trigger] v[i])
        &&& forall|i: int, j: int|
            0 <= i < j < v.len() ==> artifact_key(#[trigger] v[i]) != artifact_key(#[trigger] v[j])
    }

    spec fn pass_view(p: Pass) -> PassView {
        PassView {
            cache: p.pom_cache@.map_values(|e: (Coordinate, EffectivePom)| (e.0@, e.1@)),
            selected: views(p.selected@),
            artifacts: p.artifacts@.map_values(|a: ResolvedArtifact| (a.coordinate@, a.jar_path@)),
        }
    }

    spec fn cache_view(p: Pass) -> PomCache {
        p.pom_cache@.map_values(|e: (Coordinate, EffectivePom)| (e.0@, e.1@))
    }

    spec fn halt_view(h: Halt) -> HaltView {
        match h {
            Halt::Fail(m) => HaltView::Fail(m@),
            Halt::FetchPom(c) => HaltView::FetchPom(c@),
            Halt::FetchJar(c) => HaltView::FetchJar(c@),
        }
    }

    spec fn load_view(r: Result<EffectivePom, Halt>) -> Result<EffPomView, HaltView> {
        match r {
            Ok(p) => Ok(p@),
            Err(h) => Err(Self::halt_view(h)),
        }
    }

    spec fn unit_view(r: Result<(), Halt>) -> Result<(), HaltView> {
        match r {
            Ok(()) => Ok(()),
            Err(h) => Err(Self::halt_view(h)),
        }
    }

    spec fn halt_ok(&self, h: Halt) -> bool {
        match h {
            Halt::FetchPom(c) => !self.fetched_poms().contains(c@),
            Halt::FetchJar(c) => !self.fetched_jars().contains(c@),
            Halt::Fail(_) => true,
        }
    }

    spec fn pass_ok(&self, p: Pass) -> bool {
        &&& p.loading@.len() == self.poms@.len()
        &&& p.active@.len() == self.poms@.len()
        &&& forall|i: int|
            0 <= i < p.pom_cache@.len() ==> self.fetched_poms().contains(
                (#[trigger] p.pom_cache@[i]).0@,
            )
        &&& self.artifacts_ok(p.artifacts@)
        &&& forall|i: int|
            0 <= i < p.artifacts@.len() ==> p.selected@.map_values(|s: String| s@).contains(
                artifact_key(#[trigger] p.artifacts@[i]),
            )
    }

    /// The effective POM of `coordinate`, loading its parents and imported
    /// BOMs first.
    fn load_effective_pom(&self, pass: &mut Pass, coordinate: &Coordinate) -> (r: Result<
        EffectivePom,
        Halt,
    >)
        requires
            self.pass_ok(*old(pass)),
        ensures
            self.pass_ok(*final(pass)),
            final(pass).loading@ == old(pass).loading@,
            final(pass).active@ == old(pass).active@,
            final(pass).selected@ == old(pass).selected@,
            final(pass).artifacts@ == old(pass).artifacts@,
            r matches Ok(p) ==> self.fetched_poms().contains(coordinate@),
            r matches Err(h) ==> self.halt_ok(h),
            (Self::cache_view(*final(pass)), Self::load_view(r)) == spec_load(
                self.world(),
                old(pass).loading@,
                Self::cache_view(*old(pass)),
                coordinate@,
            ),
        decreases count_false(old(pass).loading@), 0nat,
    {
        let ghost cv = Self::cache_view(*pass);
        proof {
            lemma_cache_index_of(cv, coordinate@, 0);
        }
        let mut i: usize = 0;
        while i < pass.pom_cache.len()
            invariant
                self.pass_ok(*pass),
                pass == old(pass),
                cv == Self::cache_view(*pass),
                i <= pass.pom_cache@.len(),
                forall|k: int| 0 <= k < i ==> pass.pom_cache@[k].0@ != coordinate@,
            decreases pass.pom_cache.len() - i,
        {
            if pass.pom_cache[i].0.same(coordinate) {
                proof {
                    lemma_cache_index_of(cv, coordinate@, 0);
                    assert(cv[i as int] == (pass.pom_cache@[i as int].0@, pass.pom_cache@[i as int].1@));
                    match cache_index_of(cv, coordinate@, 0) {
                        Some(j) => {
                            assert(cv[j] == (pass.pom_cache@[j].0@, pass.pom_cache@[j].1@));
                        },
                        None => {},
                    }
                }
                return Ok(pass.pom_cache[i].1.duplicate());
            }
            i = i + 1;
        }
        proof {
            match cache_index_of(cv, coordinate@, 0) {
                Some(j) => {
                    assert(cv[j] == (pass.pom_cache@[j].0@, pass.pom_cache@[j].1@));
                },
                None => {},
            }
        }
        let idx = match self.pom_index(coordinate) {
            Some(i) => i,
            None => return Err(Halt::FetchPom(coordinate.clone())),
        };
        assert(self.fetched_poms()[idx as int] == coordinate@);
        if pass.loading[idx] {
            let shown = coordinate.to_string();
            return Err(Halt::Fail(concat("Detected a parent/BOM cycle while resolving ", shown.as_str())));
        }
        proof {
            lemma_count_false_set(pass.loading@, idx as int);
        }
        pass.loading.set(idx, true);
        let result = self.load_fetched(pass, coordinate, idx);
        pass.loading.set(idx, false);
        assert(pass.loading@ =~= old(pass).loading@);
        match result {
            Ok(p) => {
                let ghost before = Self::cache_view(*pass);
                pass.pom_cache.push((coordinate.clone(), p.duplicate()));
                assert(Self::cache_view(*pass) =~= before.push((coordinate@, p@)));
                Ok(p)
            },
            Err(h) => Err(h),
        }
    }

    fn load_fetched(&self, pass: &mut Pass, coordinate: &Coordinate, idx: usize) -> (r: Result<
        EffectivePom,
        Halt,
    >)
        requires
            self.pass_ok(*old(pass)),
            idx < self.poms@.len(),
        ensures
            self.pass_ok(*final(pass)),
            final(pass).loading@ == old(pass).loading@,
            final(pass).active@ == old(pass).active@,
            final(pass).selected@ == old(pass).selected@,
            final(pass).artifacts@ == old(pass).artifacts@,
            r matches Err(h) ==> self.halt_ok(h),
            (Self::cache_view(*final(pass)), Self::load_view(r)) == spec_load_fetched(
                self.world(),
                old(pass).loading@,
                Self::cache_view(*old(pass)),
                coordinate@,
                idx as int,
            ),
        decreases count_false(old(pass).loading@), 3nat,
    {
        assert(self.world().poms[idx as int] == (self.poms@[idx as int].0@, self.poms@[idx as int].1@));
        let text = match utf8_text(self.poms[idx].1.as_slice()) {
            Ok(t) => t,
            Err(e) => {
                let mut m = concat("POM for ", coordinate.to_string().as_str());
                push_str(&mut m, " is not valid UTF-8: ");
                push_str(&mut m, e.as_str());
                return Err(Halt::Fail(m));
            },
        };
        proof {
            vstd::utf8::encode_utf8_decode_utf8(text@);
        }
        let raw = match parse_pom(text.as_str()) {
            Ok(p) => p,
            Err(e) => return Err(Halt::Fail(e)),
        };
        let parent = match &raw.parent {
            Some(p) => {
                let pc = match Coordinate::new(
                    p.group_id.clone(),
                    p.artifact_id.clone(),
                    p.version.clone(),
                ) {
                    Ok(c) => c,
                    Err(e) => return Err(Halt::Fail(e)),
                };
                match self.load_effective_pom(pass, &pc) {
                    Ok(e) => Some(e),
                    Err(h) => return Err(h),
                }
            },
            None => None,
        };
        match &parent {
            Some(p) => self.build_effective_pom(pass, coordinate, raw, Some(p)),
            None => self.build_effective_pom(pass, coordinate, raw, None),
        }
    }

    /// The dependency management of a POM: its parent's, then its own
    /// entries from `raws` in order.
    fn management_of(
        &self,
        pass: &mut Pass,
        properties: &StrMap<String>,
        raws: &Vec<crate::pom::RawDependency>,
        base: StrMap<ManagedDependency>,
    ) -> (r: Result<StrMap<ManagedDependency>, Halt>)
        requires
            self.pass_ok(*old(pass)),
        ensures
            self.pass_ok(*final(pass)),
            final(pass).loading@ == old(pass).loading@,
            final(pass).active@ == old(pass).active@,
            final(pass).selected@ == old(pass).selected@,
            final(pass).artifacts@ == old(pass).artifacts@,
            r matches Err(h) ==> self.halt_ok(h),
            (
                Self::cache_view(*final(pass)),
                match r {
                    Ok(m) => Ok(managed_map_view(m@)),
                    Err(h) => Err(Self::halt_view(h)),
                },
            ) == spec_management(
                self.world(),
                old(pass).loading@,
                Self::cache_view(*old(pass)),
                str_map_view(properties@),
                crate::pom_xml::raw_dependency_views(raws@),
                0,
                managed_map_view(base@),
            ),
        decreases count_false(old(pass).loading@), 1nat,
    {
        let ghost props = str_map_view(properties@);
        let ghost rv = crate::pom_xml::raw_dependency_views(raws@);
        let mut dependency_management = base;
        let ghost target = spec_management(
            self.world(),
            old(pass).loading@,
            Self::cache_view(*old(pass)),
            props,
            rv,
            0,
            managed_map_view(dependency_management@),
        );
        let mut k: usize = 0;
        while k < raws.len()
            invariant
                self.pass_ok(*pass),
                pass.loading@ == old(pass).loading@,
                pass.active@ == old(pass).active@,
                pass.selected@ == old(pass).selected@,
                pass.artifacts@ == old(pass).artifacts@,
                k <= raws@.len(),
                rv == crate::pom_xml::raw_dependency_views(raws@),
                props == str_map_view(properties@),
                target == spec_management(
                    self.world(),
                    old(pass).loading@,
                    Self::cache_view(*old(pass)),
                    str_map_view(properties@),
                    crate::pom_xml::raw_dependency_views(raws@),
                    0,
                    managed_map_view(base@),
                ),
                target == spec_management(
                    self.world(),
                    old(pass).loading@,
                    Self::cache_view(*pass),
                    props,
                    rv,
                    k as nat,
                    managed_map_view(dependency_management@),
                ),
            decreases raws.len() - k,
        {
            assert(rv[k as int] == raws@[k as int]@);
            let mut dependency = match raws[k].resolve(properties) {
                Ok(d) => d,
                Err(e) => return Err(Halt::Fail(e)),
            };
            apply_management(&mut dependency, &dependency_management);
            if dependency.is_import_bom() {
                let bom = match dependency.to_coordinate() {
                    Ok(c) => c,
                    Err(e) => return Err(Halt::Fail(e)),
                };
                let bom_pom = match self.load_effective_pom(pass, &bom) {
                    Ok(p) => p,
                    Err(h) => return Err(h),
                };
                merge_management(&mut dependency_management, &bom_pom.dependency_management);
            } else {
                let key = dependency.ga_key();
                let ghost before = managed_map_view(dependency_management@);
                let m = ManagedDependency::from_dependency(&dependency);
                let ghost mv = m@;
                dependency_management.insert(key, m);
                assert(managed_map_view(dependency_management@) =~= before.insert(
                    spec_ga_key(dependency@.group_id, dependency@.artifact_id),
                    mv,
                ));
            }
            k = k + 1;
        }
        Ok(dependency_management)
    }

    /// The effective POM of `requested` from its raw contents and its
    /// parent's effective POM.
    fn build_effective_pom(
        &self,
        pass: &mut Pass,
        requested: &Coordinate,
        raw: RawPom,
        parent: Option<&EffectivePom>,
    ) -> (r: Result<EffectivePom, Halt>)
        requires
            self.pass_ok(*old(pass)),
        ensures
            self.pass_ok(*final(pass)),
            final(pass).loading@ == old(pass).loading@,
            final(pass).active@ == old(pass).active@,
            final(pass).selected@ == old(pass).selected@,
            final(pass).artifacts@ == old(pass).artifacts@,
            r matches Err(h) ==> self.halt_ok(h),
            (Self::cache_view(*final(pass)), Self::load_view(r)) == spec_build(
                self.world(),
                old(pass).loading@,
                Self::cache_view(*old(pass)),
                requested@,
                raw@,
                match parent {
                    Some(p) => Some(p@),
                    None => None,
                },
            ),
        decreases count_false(old(pass).loading@), 2nat,
    {
        let ghost pv: Option<EffPomView> = match parent {
            Some(p) => Some(p@),
            None => None,
        };
        let ghost rv = raw@;
        let mut properties = initial_properties(&raw, parent);
        let raw_group_id = match &raw.group_id {
            Some(g) => g.clone(),
            None => match parent {
                Some(p) => p.coordinate.group_id.clone(),
                None => requested.group_id.clone(),
            },
        };
        let raw_artifact_id = match &raw.artifact_id {
            Some(a) => a.clone(),
            None => requested.artifact_id.clone(),
        };
        let raw_version = match &raw.version {
            Some(v) => v.clone(),
            None => match parent {
                Some(p) => p.coordinate.version.clone(),
                None => requested.version.clone(),
            },
        };
        let ghost rc = raw_coordinate(rv, pv, requested@);
        assert(raw_group_id@ == rc.0 && raw_artifact_id@ == rc.1 && raw_version@ == rc.2);
        let ghost props = first_properties(rv, pv);
        let group_id = interpolate(raw_group_id.as_str(), &properties);
        let artifact_id = interpolate(raw_artifact_id.as_str(), &properties);
        let version = interpolate(raw_version.as_str(), &properties);
        match reject_snapshot(version.as_str()) {
            Ok(()) => {},
            Err(e) => return Err(Halt::Fail(e)),
        }
        let coordinate = match Coordinate::new(group_id, artifact_id, version) {
            Ok(c) => c,
            Err(e) => return Err(Halt::Fail(e)),
        };
        let ghost before_project = str_map_view(properties@);
        add_project_properties(&mut properties, &coordinate);
        assert(str_map_view(properties@) =~= with_project_properties(before_project, coordinate@));
        resolve_all_properties(&mut properties);
        let ghost props2 = str_map_view(properties@);
        let base = match parent {
            Some(p) => clone_managed_map(&p.dependency_management),
            None => StrMap::new(),
        };
        assert(managed_map_view(base@) =~= match pv {
            Some(p) => p.management,
            None => Map::<Seq<char>, crate::pom::ManagedView>::empty(),
        });
        let dependency_management = match self.management_of(pass, &properties, &raw.dependency_management, base) {
            Ok(m) => m,
            Err(h) => return Err(h),
        };
        let dependencies = match effective_dependencies(&raw.dependencies, &properties, &dependency_management) {
            Ok(d) => d,
            Err(e) => return Err(Halt::Fail(e)),
        };
        let packaging = match &raw.packaging {
            Some(p) => interpolate(p.as_str(), &properties),
            None => "jar".to_owned(),
        };
        proof {
            reveal_strlit("jar");
        }
        Ok(EffectivePom { coordinate, packaging, properties, dependency_management, dependencies })
    }
}

/// The properties a POM starts from: its parent's, its own, the
/// `project.parent.*` ones, all resolved.
fn initial_properties(raw: &RawPom, parent: Option<&EffectivePom>) -> (r: StrMap<String>)
    ensures
        str_map_view(r@) == first_properties(
            raw@,
            match parent {
                Some(p) => Some(p@),
                None => None,
            },
        ),
{
    let ghost pv: Option<EffPomView> = match parent {
        Some(p) => Some(p@),
        None => None,
    };
    let ghost rv = raw@;
    let mut properties = match parent {
        Some(p) => clone_str_map(&p.properties),
        None => StrMap::new(),
    };
    let ghost base_props: Map<Seq<char>, Seq<char>> = match pv {
        Some(p) => p.properties,
        None => Map::empty(),
    };
    assert(str_map_view(properties@) =~= base_props);
    let mut i: usize = 0;
    assert(rv.properties.subrange(0, 0) =~= Seq::<(Seq<char>, Seq<char>)>::empty());
    while i < raw.properties.len()
        invariant
            i <= raw.properties@.len(),
            rv == raw@,
            str_map_view(properties@) == insert_pairs(base_props, rv.properties.subrange(0, i as int)),
        decreases raw.properties.len() - i,
    {
        let ghost before = str_map_view(properties@);
        properties.insert(raw.properties[i].0.clone(), raw.properties[i].1.clone());
        assert(rv.properties.subrange(0, i + 1).drop_last() =~= rv.properties.subrange(0, i as int));
        assert(rv.properties[i as int] == (raw.properties@[i as int].0@, raw.properties@[i as int].1@));
        assert(str_map_view(properties@) =~= before.insert(
            raw.properties@[i as int].0@,
            raw.properties@[i as int].1@,
        ));
        i = i + 1;
    }
    assert(rv.properties.subrange(0, raw.properties@.len() as int) =~= rv.properties);
    if let Some(p) = parent {
        let ghost before = str_map_view(properties@);
        properties.insert("project.parent.groupId".to_owned(), p.coordinate.group_id.clone());
        properties.insert("project.parent.artifactId".to_owned(), p.coordinate.artifact_id.clone());
        properties.insert("project.parent.version".to_owned(), p.coordinate.version.clone());
        assert(str_map_view(properties@) =~= with_parent_properties(before, pv));
    }
    resolve_all_properties(&mut properties);
    properties
}

/// Adds every entry of a BOM's management, the BOM's winning.
fn merge_management(into: &mut StrMap<ManagedDependency>, from: &StrMap<ManagedDependency>)
    ensures
        managed_map_view(final(into)@) == managed_map_view(old(into)@).union_prefer_right(
            managed_map_view(from@),
        ),
{
    let ghost before = managed_map_view(into@);
    let ghost entries = from.entries@;
    let mut j: usize = 0;
    assert(entries.subrange(0, 0) =~= Seq::<(String, ManagedDependency)>::empty());
    assert(before.union_prefer_right(managed_map_view(crate::strmap::map_of(entries.subrange(0, 0))))
        =~= before);
    while j < from.entries.len()
        invariant
            entries == from.entries@,
            j <= entries.len(),
            before == managed_map_view(old(into)@),
            managed_map_view(into@) == before.union_prefer_right(
                managed_map_view(crate::strmap::map_of(entries.subrange(0, j as int))),
            ),
        decreases from.entries.len() - j,
    {
        let ghost prev = managed_map_view(into@);
        into.insert(from.entries[j].0.clone(), from.entries[j].1.clone());
        assert(entries.subrange(0, j + 1).drop_last() =~= entries.subrange(0, j as int));
        assert(managed_map_view(into@) =~= prev.insert(entries[j as int].0@, entries[j as int].1@));
        assert(managed_map_view(crate::strmap::map_of(entries.subrange(0, j + 1))) =~= managed_map_view(
            crate::strmap::map_of(entries.subrange(0, j as int)),
        ).insert(entries[j as int].0@, entries[j as int].1@));
        assert(managed_map_view(into@) =~= before.union_prefer_right(
            managed_map_view(crate::strmap::map_of(entries.subrange(0, j + 1))),
        ));
        j = j + 1;
    }
    assert(entries.subrange(0, entries.len() as int) =~= entries);
}

/// The dependencies of a POM, interpolated and managed, in order.
fn effective_dependencies(
    raws: &Vec<crate::pom::RawDependency>,
    properties: &StrMap<String>,
    management: &StrMap<ManagedDependency>,
) -> (r: Result<Vec<EffectiveDependency>, String>)
    ensures
        match spec_effective_dependencies(
            crate::pom_xml::raw_dependency_views(raws@),
            str_map_view(properties@),
            managed_map_view(management@),
        ) {
            Ok(v) => r matches Ok(d) && dependency_views(d@) == v,
            Err(m) => r matches Err(e) && e@ == m,
        },
{
    let ghost rv = crate::pom_xml::raw_dependency_views(raws@);
    let ghost props = str_map_view(properties@);
    let ghost mv = managed_map_view(management@);
    let mut dependencies: Vec<EffectiveDependency> = Vec::new();
    let mut k: usize = 0;
    assert(rv.subrange(0, 0) =~= Seq::<crate::pom::RawDependencyView>::empty());
    assert(dependency_views(dependencies@) =~= Seq::<crate::pom::DependencyView>::empty());
    while k < raws.len()
        invariant
            k <= raws@.len(),
            rv == crate::pom_xml::raw_dependency_views(raws@),
            props == str_map_view(properties@),
            mv == managed_map_view(management@),
            spec_effective_dependencies(rv.subrange(0, k as int), props, mv) == Ok::<
                Seq<crate::pom::DependencyView>,
                Seq<char>,
            >(dependency_views(dependencies@)),
        decreases raws.len() - k,
    {
        let ghost sub = rv.subrange(0, k + 1);
        assert(sub.drop_last() =~= rv.subrange(0, k as int));
        assert(sub.last() == raws@[k as int]@);
        let mut dependency = match raws[k].resolve(properties) {
            Ok(d) => d,
            Err(e) => {
                proof {
                    lemma_effective_dependencies_fail(rv, k as int + 1, props, mv);
                }
                return Err(e);
            },
        };
        apply_management(&mut dependency, management);
        let ghost before = dependency_views(dependencies@);
        dependencies.push(dependency);
        assert(dependency_views(dependencies@) =~= before.push(dependencies@.last()@));
        k = k + 1;
    }
    assert(rv.subrange(0, raws@.len() as int) =~= rv);
    Ok(dependencies)
}

/// A failure among the first `n` raw dependencies is the failure of them
/// all.
proof fn lemma_effective_dependencies_fail(
    raws: Seq<crate::pom::RawDependencyView>,
    n: int,
    props: Map<Seq<char>, Seq<char>>,
    management: Map<Seq<char>, crate::pom::ManagedView>,
)
    requires
        0 <= n <= raws.len(),
        spec_effective_dependencies(raws.subrange(0, n), props, management) is Err,
    ensures
        spec_effective_dependencies(raws, props, management) == spec_effective_dependencies(
            raws.subrange(0, n),
            props,
            management,
        ),
    decreases raws.len() - n,
{
    if n < raws.len() {
        let sub = raws.subrange(0, n + 1);
        assert(sub.drop_last() =~= raws.subrange(0, n));
        lemma_effective_dependencies_fail(raws, n + 1, props, management);
    } else {
        assert(raws.subrange(0, n) =~= raws);
    }
}


/// The exclusions `a` followed by `b`.
fn concat_exclusions(a: &Vec<Exclusion>, b: &Vec<Exclusion>) -> (r: Vec<Exclusion>)
    ensures
        crate::maven::exclusion_views(r@) == crate::maven::exclusion_views(a@)
            + crate::maven::exclusion_views(b@),
{
    let mut r = clone_exclusions(a);
    let mut i: usize = 0;
    while i < b.len()
        invariant
            i <= b@.len(),
            crate::maven::exclusion_views(r@) == crate::maven::exclusion_views(a@)
                + crate::maven::exclusion_views(b@).subrange(0, i as int),
        decreases b.len() - i,
    {
        let e = b[i].clone();
        let ghost prev = r@;
        r.push(e);
        assert(crate::maven::exclusion_views(r@) =~= crate::maven::exclusion_views(prev).push(
            b@[i as int]@,
        ));
        assert(crate::maven::exclusion_views(b@).subrange(0, i + 1) =~= crate::maven::exclusion_views(
            b@,
        ).subrange(0, i as int).push(b@[i as int]@));
        i = i + 1;
    }
    assert(crate::maven::exclusion_views(b@).subrange(0, b@.len() as int)
        =~= crate::maven::exclusion_views(b@));
    r
}

impl MavenResolver {
    /// Resolves `coordinate` and, depth first, the dependencies that it
    /// brings in, skipping what `inherited_exclusions` excludes and any
    /// `groupId:artifactId` already selected.
    fn resolve_artifact(
        &self,
        pass: &mut Pass,
        coordinate: &Coordinate,
        inherited_exclusions: &Vec<Exclusion>,
    ) -> (r: Result<(), Halt>)
        requires
            self.pass_ok(*old(pass)),
        ensures
            self.pass_ok(*final(pass)),
            final(pass).loading@ == old(pass).loading@,
            final(pass).active@ == old(pass).active@,
            r matches Err(h) ==> self.halt_ok(h),
            (Self::pass_view(*final(pass)), Self::unit_view(r)) == spec_resolve_artifact(
                self.world(),
                old(pass).loading@,
                old(pass).active@,
                Self::pass_view(*old(pass)),
                coordinate@,
                crate::maven::exclusion_views(inherited_exclusions@),
            ),
        decreases count_false(old(pass).active@), 0nat,
    {
        if is_excluded(inherited_exclusions.as_slice(), coordinate) {
            return Ok(());
        }
        match reject_snapshot(coordinate.version.as_str()) {
            Ok(()) => {},
            Err(e) => return Err(Halt::Fail(e)),
        }
        let ga_key = coordinate.ga_key();
        if contains_string(&pass.selected, &ga_key) {
            return Ok(());
        }
        let idx = match self.pom_index(coordinate) {
            Some(i) => i,
            None => return Err(Halt::FetchPom(coordinate.clone())),
        };
        if pass.active[idx] {
            return Ok(());
        }
        proof {
            lemma_count_false_set(pass.active@, idx as int);
        }
        pass.active.set(idx, true);
        let result = self.resolve_fetched(pass, coordinate, inherited_exclusions, ga_key);
        pass.active.set(idx, false);
        assert(pass.active@ =~= old(pass).active@);
        result
    }

    fn resolve_fetched(
        &self,
        pass: &mut Pass,
        coordinate: &Coordinate,
        inherited_exclusions: &Vec<Exclusion>,
        ga_key: String,
    ) -> (r: Result<(), Halt>)
        requires
            self.pass_ok(*old(pass)),
            ga_key@ == spec_ga_key(coordinate@.0, coordinate@.1),
            !old(pass).selected@.map_values(|x: String| x@).contains(ga_key@),
            !is_snapshot(coordinate@.2),
        ensures
            self.pass_ok(*final(pass)),
            final(pass).loading@ == old(pass).loading@,
            final(pass).active@ == old(pass).active@,
            r matches Err(h) ==> self.halt_ok(h),
            (Self::pass_view(*final(pass)), Self::unit_view(r)) == spec_resolve_fetched(
                self.world(),
                old(pass).loading@,
                old(pass).active@,
                Self::pass_view(*old(pass)),
                coordinate@,
                crate::maven::exclusion_views(inherited_exclusions@),
            ),
        decreases count_false(old(pass).active@), 2nat,
    {
        let ghost ex = crate::maven::exclusion_views(inherited_exclusions@);
        let pom = match self.load_effective_pom(pass, coordinate) {
            Ok(p) => p,
            Err(h) => return Err(h),
        };
        let ghost old_selected = pass.selected@;
        pass.selected.push(ga_key);
        assert(views(pass.selected@) =~= views(old_selected).push(spec_ga_key(coordinate@.0, coordinate@.1)));
        assert forall|i: int| 0 <= i < pass.artifacts@.len() implies pass.selected@.map_values(
            |s: String| s@,
        ).contains(artifact_key(#[trigger] pass.artifacts@[i])) by {
            let w0 = old_selected.map_values(|s: String| s@);
            let w1 = pass.selected@.map_values(|s: String| s@);
            let k = choose|k: int| 0 <= k < w0.len() && w0[k] == artifact_key(pass.artifacts@[i]);
            assert(w1[k] == w0[k]);
        }
        proof {
            reveal_strlit("pom");
        }
        let pom_packaging = "pom".to_owned();
        if !(pom.packaging == pom_packaging) {
            if !self.has_jar(coordinate) {
                return Err(Halt::FetchJar(coordinate.clone()));
            }
            let jar_path = join(self.deps_dir.as_str(), coordinate.jar_file_name().as_str());
            let ghost old_artifacts = pass.artifacts@;
            let artifact = ResolvedArtifact { coordinate: coordinate.clone(), jar_path };
            assert(artifact_key(artifact) == ga_key@);
            pass.artifacts.push(artifact);
            proof {
                let w1 = pass.selected@.map_values(|s: String| s@);
                assert(w1[w1.len() - 1] == ga_key@);
                assert forall|i: int, j: int|
                    0 <= i < j < pass.artifacts@.len() implies artifact_key(
                        #[trigger] pass.artifacts@[i],
                    ) != artifact_key(#[trigger] pass.artifacts@[j]) by {
                    if j == pass.artifacts@.len() - 1 {
                        let w0 = old_selected.map_values(|s: String| s@);
                        assert(w0.contains(artifact_key(old_artifacts[i])));
                    } else {
                        assert(pass.artifacts@[i] == old_artifacts[i]);
                        assert(pass.artifacts@[j] == old_artifacts[j]);
                    }
                }
                assert forall|i: int| 0 <= i < pass.artifacts@.len() implies pass.selected@.map_values(
                    |s: String| s@,
                ).contains(artifact_key(#[trigger] pass.artifacts@[i])) by {
                    if i == pass.artifacts@.len() - 1 {
                        assert(w1[w1.len() - 1] == artifact_key(pass.artifacts@[i]));
                    } else {
                        assert(pass.artifacts@[i] == old_artifacts[i]);
                    }
                }
                assert forall|i: int| 0 <= i < pass.artifacts@.len() implies self.artifact_ok(
                    #[trigger] pass.artifacts@[i],
                ) by {
                    if i < pass.artifacts@.len() - 1 {
                        assert(pass.artifacts@[i] == old_artifacts[i]);
                    }
                }
                assert(Self::pass_view(*pass).artifacts =~= old_artifacts.map_values(
                    |a: ResolvedArtifact| (a.coordinate@, a.jar_path@),
                ).push((coordinate@, path_join(self.deps(), coordinate@.1 + "-"@ + coordinate@.2 + ".jar"@))));
            }
        }
        let ghost deps = dependency_views(pom.dependencies@);
        let ghost target = spec_resolve_dependencies(
            self.world(),
            old(pass).loading@,
            old(pass).active@,
            Self::pass_view(*pass),
            deps,
            0,
            ex,
        );
        assert(spec_resolve_fetched(
            self.world(),
            old(pass).loading@,
            old(pass).active@,
            Self::pass_view(*old(pass)),
            coordinate@,
            ex,
        ) == target);
        let mut k: usize = 0;
        while k < pom.dependencies.len()
            invariant
                self.pass_ok(*pass),
                pass.loading@ == old(pass).loading@,
                pass.active@ == old(pass).active@,
                k <= pom.dependencies@.len(),
                spec_resolve_fetched(
                    self.world(),
                    old(pass).loading@,
                    old(pass).active@,
                    Self::pass_view(*old(pass)),
                    coordinate@,
                    ex,
                ) == target,
                deps == dependency_views(pom.dependencies@),
                ex == crate::maven::exclusion_views(inherited_exclusions@),
                target == spec_resolve_dependencies(
                    self.world(),
                    old(pass).loading@,
                    old(pass).active@,
                    Self::pass_view(*pass),
                    deps,
                    k as nat,
                    ex,
                ),
            decreases pom.dependencies.len() - k,
        {
            let dependency = &pom.dependencies[k];
            assert(deps[k as int] == dependency@);
            if dependency.should_include() {
                let child = match dependency.to_coordinate() {
                    Ok(c) => c,
                    Err(e) => return Err(Halt::Fail(e)),
                };
                let child_exclusions = concat_exclusions(inherited_exclusions, &dependency.exclusions);
                if !is_excluded(child_exclusions.as_slice(), &child) {
                    match self.resolve_artifact(pass, &child, &child_exclusions) {
                        Ok(()) => {},
                        Err(h) => return Err(h),
                    }
                }
            }
            k = k + 1;
        }
        Ok(())
    }

    /// One resolution pass over `roots`, in order: the resolved artifacts,
    /// the next POM or jar to fetch (one not fetched yet), or the error.
    pub fn resolve_roots(&self, roots: &[Coordinate]) -> (r: MavenResult<ResolveStep>)
        ensures
            match spec_resolve_roots(self.world(), roots@.map_values(|c: Coordinate| c@)) {
                Ok(ResolveView::Done(a)) => r matches Ok(ResolveStep::Done(v)) && v@.map_values(
                    |x: ResolvedArtifact| (x.coordinate@, x.jar_path@),
                ) == a,
                Ok(ResolveView::FetchPom(c)) => r matches Ok(ResolveStep::FetchPom(x)) && x@ == c,
                Ok(ResolveView::FetchJar(c)) => r matches Ok(ResolveStep::FetchJar(x)) && x@ == c,
                Err(m) => r matches Err(e) && e@ == m,
            },
            match r {
                Ok(ResolveStep::Done(v)) => self.artifacts_ok(v@),
                Ok(ResolveStep::FetchPom(c)) => !self.fetched_poms().contains(c@),
                Ok(ResolveStep::FetchJar(c)) => !self.fetched_jars().contains(c@),
                Err(_) => true,
            },
    {
        let ghost rv = roots@.map_values(|c: Coordinate| c@);
        let ghost n = self.world().poms.len();
        let mut loading: Vec<bool> = Vec::new();
        let mut active: Vec<bool> = Vec::new();
        let mut i: usize = 0;
        while i < self.poms.len()
            invariant
                i <= self.poms@.len(),
                loading@.len() == i,
                active@.len() == i,
                forall|k: int| 0 <= k < i ==> !loading@[k] && !active@[k],
            decreases self.poms.len() - i,
        {
            loading.push(false);
            active.push(false);
            i = i + 1;
        }
        assert(loading@ =~= all_false(n));
        assert(active@ =~= all_false(n));
        let mut pass = Pass {
            pom_cache: Vec::new(),
            loading,
            active,
            selected: Vec::new(),
            artifacts: Vec::new(),
        };
        assert(Self::pass_view(pass).cache =~= Seq::<(CoordView, EffPomView)>::empty());
        assert(Self::pass_view(pass).selected =~= Seq::<Seq<char>>::empty());
        assert(Self::pass_view(pass).artifacts =~= Seq::<ArtifactView>::empty());
        let no_exclusions: Vec<Exclusion> = Vec::new();
        assert(crate::maven::exclusion_views(no_exclusions@) =~= Seq::<(Seq<char>, Seq<char>)>::empty());
        let mut k: usize = 0;
        while k < roots.len()
            invariant
                self.pass_ok(pass),
                k <= roots@.len(),
                rv == roots@.map_values(|c: Coordinate| c@),
                pass.loading@ == all_false(n),
                pass.active@ == all_false(n),
                n == self.world().poms.len(),
                crate::maven::exclusion_views(no_exclusions@) == Seq::<(Seq<char>, Seq<char>)>::empty(),
                spec_resolve_roots(self.world(), rv) == spec_resolve_roots_from(
                    self.world(),
                    Self::pass_view(pass),
                    rv,
                    k as nat,
                ),
            decreases roots.len() - k,
        {
            assert(rv[k as int] == roots@[k as int]@);
            match self.resolve_artifact(&mut pass, &roots[k], &no_exclusions) {
                Ok(()) => {},
                Err(Halt::Fail(e)) => return Err(e),
                Err(Halt::FetchPom(c)) => return Ok(ResolveStep::FetchPom(c)),
                Err(Halt::FetchJar(c)) => return Ok(ResolveStep::FetchJar(c)),
            }
            k = k + 1;
        }
        assert(Self::pass_view(pass).artifacts == pass.artifacts@.map_values(
            |x: ResolvedArtifact| (x.coordinate@, x.jar_path@),
        ));
        Ok(ResolveStep::Done(pass.artifacts))
    }
}


/// The `[[repositories]]` entries of a configuration.
pub open spec fn configured_repositories(c: &Config) -> Seq<crate::config::Repository> {
    match c.toml().repositories {
        Some(v) => v@,
        None => Seq::empty(),
    }
}

/// The `[dependencies]` entries of a configuration.
pub open spec fn dependency_entries(c: &Config) -> Seq<(String, String)> {
    match c.toml().dependencies {
        Some(v) => v@,
        None => Seq::empty(),
    }
}

/// The first index of `s` (from `i`) whose entry is not a coordinate.
pub open spec fn first_bad_dependency(s: Seq<(Seq<char>, Seq<char>)>, i: int) -> Option<int>
    decreases s.len() - i,
{
    if i < 0 || i >= s.len() {
        None
    } else if spec_parse_dependency(s[i].0, s[i].1) is Err {
        Some(i)
    } else {
        first_bad_dependency(s, i + 1)
    }
}

/// The `[dependencies]` entries in key order.
pub open spec fn sorted_dependencies(c: &Config) -> Seq<(Seq<char>, Seq<char>)> {
    sort_pairs(pair_views(dependency_entries(c)))
}

/// The resolver for a project and the roots of its resolution: the
/// configured repositories and Maven Central, jars kept under
/// `target/deps`, and the `[dependencies]` entries in key order, each read
/// as a coordinate. Fails on the first refused repository, else on the
/// first entry (in key order) that is not a coordinate.
pub fn resolve_dependencies(config: &Config) -> (r: MavenResult<(MavenResolver, Vec<Coordinate>)>)
    ensures
        match first_bad_repository(configured_repositories(config), 0) {
            Some(i) => r matches Err(e) && spec_repository_from_config(
                (i + 1) as nat,
                configured_repositories(config)[i],
            ) == Err::<RepositoryView, Seq<char>>(e@),
            None => match first_bad_dependency(sorted_dependencies(config), 0) {
                Some(j) => r matches Err(e) && spec_parse_dependency(
                    sorted_dependencies(config)[j].0,
                    sorted_dependencies(config)[j].1,
                ) == Err::<(Seq<char>, Seq<char>, Seq<char>), Seq<char>>(e@),
                None => r matches Ok((m, roots)) && {
                    &&& m.deps() == path_join(config.root() + "/target"@, "deps"@)
                    &&& m.fetched_poms().len() == 0
                    &&& m.fetched_jars().len() == 0
                    &&& m.repository_views().len() == configured_repositories(config).len() + 1
                    &&& (forall|k: int|
                        0 <= k < configured_repositories(config).len() ==> spec_repository_from_config(
                            (k + 1) as nat,
                            #[trigger] configured_repositories(config)[k],
                        ) == Ok::<RepositoryView, Seq<char>>(m.repository_views()[k]))
                    &&& m.repository_views()[configured_repositories(config).len() as int]
                        == central_view()
                    &&& roots@.len() == sorted_dependencies(config).len()
                    &&& forall|i: int|
                        0 <= i < roots@.len() ==> spec_parse_dependency(
                            sorted_dependencies(config)[i].0,
                            sorted_dependencies(config)[i].1,
                        ) == Ok::<(Seq<char>, Seq<char>, Seq<char>), Seq<char>>(#[trigger] roots@[i]@)
                },
            },
        },
{
    let repositories = match repositories_from_config(config.repositories()) {
        Ok(r) => r,
        Err(e) => return Err(e),
    };
    let resolver = match MavenResolver::new(repositories, config.deps_dir()) {
        Ok(m) => m,
        Err(e) => return Err(e),
    };
    let mut entries: Vec<(String, String)> = Vec::new();
    if let Some(deps) = &config.config_toml().dependencies {
        let mut i: usize = 0;
        while i < deps.len()
            invariant
                i <= deps@.len(),
                entries@ == deps@.subrange(0, i as int),
            decreases deps.len() - i,
        {
            entries.push((deps[i].0.clone(), deps[i].1.clone()));
            assert(entries@ =~= deps@.subrange(0, i + 1));
            i = i + 1;
        }
        assert(deps@.subrange(0, deps@.len() as int) =~= deps@);
    }
    assert(entries@ == dependency_entries(config));
    let sorted = sort_by_key(entries);
    let ghost sd = sorted_dependencies(config);
    assert(pair_views(sorted@) == sd);
    let mut roots: Vec<Coordinate> = Vec::new();
    let mut i: usize = 0;
    while i < sorted.len()
        invariant
            i <= sorted@.len(),
            pair_views(sorted@) == sd,
            sd == sorted_dependencies(config),
            first_bad_repository(configured_repositories(config), 0) is None,
            roots@.len() == i,
            first_bad_dependency(sd, 0) == first_bad_dependency(sd, i as int),
            forall|k: int|
                0 <= k < i ==> spec_parse_dependency(sd[k].0, sd[k].1) == Ok::<
                    (Seq<char>, Seq<char>, Seq<char>),
                    Seq<char>,
                >(#[trigger] roots@[k]@),
        decreases sorted.len() - i,
    {
        assert(sd[i as int] == (sorted@[i as int].0@, sorted@[i as int].1@));
        match Coordinate::parse_dependency(sorted[i].0.as_str(), sorted[i].1.as_str()) {
            Ok(c) => roots.push(c),
            Err(e) => {
                assert(first_bad_dependency(sd, i as int) == Some(i as int));
                return Err(e);
            },
        }
        i = i + 1;
    }
    assert(first_bad_dependency(sd, i as int) == None::<int>);
    Ok((resolver, roots))
}

} // verus!
