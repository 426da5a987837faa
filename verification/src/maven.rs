//! Maven coordinates, repositories and the dependency rules of POMs.
use vstd::prelude::*;
use crate::config::Repository as ConfigRepository;
use crate::text::{
    concat, contains_seq, contains_str, eq_ignore_case, eq_ignore_case_str, is_blank, occurs_at,
    push_str, upper_char,
    replace_char, replace_char_str, split, split_str, starts_with, starts_with_str, to_upper,
    to_upper_str, trim, trim_end_char, trim_end_char_str, trim_str, views,
};

verus! {

/// Maven Central, tried after every configured repository.
pub const MAVEN_CENTRAL: &'static str = "https://repo1.maven.org/maven2";

pub type MavenResult<T> = Result<T, String>;

// ---------------------------------------------------------------------------
// Numbers
// ---------------------------------------------------------------------------

/// The decimal digit of `d` (`0 <= d < 10`).
pub open spec fn digit_char(d: nat) -> char {
    (('0' as nat) + d) as char
}

/// The decimal rendering of `n` (`usize`'s `Display`).
pub open spec fn decimal(n: nat) -> Seq<char>
    decreases n,
{
    if n < 10 {
        seq![digit_char(n)]
    } else {
        decimal(n / 10).push(digit_char(n % 10))
    }
}

/// The character of the decimal digit `d`.
pub fn digit(d: u8) -> (c: char)
    requires
        d < 10,
    ensures
        c == digit_char(d as nat),
{
    match d {
        0 => '0',
        1 => '1',
        2 => '2',
        3 => '3',
        4 => '4',
        5 => '5',
        6 => '6',
        7 => '7',
        8 => '8',
        _ => '9',
    }
}

/// The decimal rendering of `n`.
pub fn usize_to_decimal(n: usize) -> (r: String)
    ensures
        r@ == decimal(n as nat),
    decreases n,
{
    let c = digit((n % 10) as u8);
    if n < 10 {
        let mut r = String::new();
        r.push(c);
        assert(r@ =~= decimal(n as nat));
        r
    } else {
        let mut r = usize_to_decimal(n / 10);
        r.push(c);
        r
    }
}

// ---------------------------------------------------------------------------
// Coordinates
// ---------------------------------------------------------------------------

/// `groupId:artifactId:version`.
#[derive(Debug, Eq, Hash, PartialEq)]
pub struct Coordinate {
    pub group_id: String,
    pub artifact_id: String,
    pub version: String,
}

impl View for Coordinate {
    type V = (Seq<char>, Seq<char>, Seq<char>);

    open spec fn view(&self) -> (Seq<char>, Seq<char>, Seq<char>) {
        (self.group_id@, self.artifact_id@, self.version@)
    }
}

impl Clone for Coordinate {
    fn clone(&self) -> (r: Self)
        ensures
            r@ == self@,
    {
        Coordinate {
            group_id: self.group_id.clone(),
            artifact_id: self.artifact_id.clone(),
            version: self.version.clone(),
        }
    }
}

/// A version names a snapshot when it holds `SNAPSHOT`, ignoring ASCII case.
pub open spec fn is_snapshot(version: Seq<char>) -> bool {
    contains_seq(to_upper(version), "SNAPSHOT"@)
}

/// `SNAPSHOT`, letter by letter.
pub open spec fn snapshot_upper() -> Seq<char> {
    seq!['S', 'N', 'A', 'P', 'S', 'H', 'O', 'T']
}

/// `snapshot`, letter by letter.
pub open spec fn snapshot_lower() -> Seq<char> {
    seq!['s', 'n', 'a', 'p', 's', 'h', 'o', 't']
}

/// A version is a snapshot exactly when `SNAPSHOT` occurs in it in any mix
/// of ASCII case: `1.0-SNAPSHOT` and `1.0-snapshot` are, and a version
/// without an `s` or `S` (such as `1.2.3`) is not.
pub proof fn law_snapshot_versions(v: Seq<char>, i: int)
    ensures
        0 <= i && i + 8 <= v.len() && (forall|j: int|
            0 <= j < 8 ==> (v[i + j] == #[trigger] snapshot_upper()[j] || v[i + j]
                == snapshot_lower()[j])) ==> is_snapshot(v),
        (forall|j: int| 0 <= j < v.len() ==> v[j] != 'S' && v[j] != 's') ==> !is_snapshot(v),
{
    reveal_strlit("SNAPSHOT");
    let big = snapshot_upper();
    let small = snapshot_lower();
    assert("SNAPSHOT"@ =~= big);
    let u = to_upper(v);
    if 0 <= i && i + 8 <= v.len() && (forall|j: int| 0 <= j < 8 ==> (v[i + j] == #[trigger] big[j]
        || v[i + j] == small[j])) {
        assert forall|j: int| 0 <= j < 8 implies u.subrange(i, i + 8)[j] == big[j] by {
            assert(v[i + j] == big[j] || v[i + j] == small[j]);
            assert(u[i + j] == upper_char(v[i + j]));
        }
        assert(u.subrange(i, i + 8) =~= big);
        assert(occurs_at(u, "SNAPSHOT"@, i));
    }
    if (forall|j: int| 0 <= j < v.len() ==> v[j] != 'S' && v[j] != 's') && is_snapshot(v) {
        let k = choose|k: int| occurs_at(u, "SNAPSHOT"@, k);
        assert(u.subrange(k, k + 8)[0] == 'S');
        assert(u[k] == upper_char(v[k]));
        assert(v[k] != 'S' && v[k] != 's');
    }
}

/// The message for a snapshot version.
pub open spec fn snapshot_message(version: Seq<char>) -> Seq<char> {
    "SNAPSHOT dependency versions are not supported: `"@ + version + "`"@
}

/// The message for a coordinate with an empty part.
pub open spec fn incomplete_coordinate_message() -> Seq<char> {
    "Maven coordinates must include groupId, artifactId, and version"@
}

/// What `Coordinate::new` gives for the three parts.
pub open spec fn spec_new_coordinate(g: Seq<char>, a: Seq<char>, v: Seq<char>) -> Result<
    (Seq<char>, Seq<char>, Seq<char>),
    Seq<char>,
> {
    if trim(g).len() == 0 || trim(a).len() == 0 || trim(v).len() == 0 {
        Err(incomplete_coordinate_message())
    } else if is_snapshot(trim(v)) {
        Err(snapshot_message(trim(v)))
    } else {
        Ok((trim(g), trim(a), trim(v)))
    }
}

/// What `Coordinate::parse_dependency` gives for a `groupId:artifactId` key
/// and a version.
pub open spec fn spec_parse_dependency(name: Seq<char>, version: Seq<char>) -> Result<
    (Seq<char>, Seq<char>, Seq<char>),
    Seq<char>,
> {
    let parts = split(name, ':');
    if parts.len() != 2 {
        Err(
            "Invalid dependency coordinate `"@ + name + "`. Expected `groupId:artifactId`"@,
        )
    } else {
        spec_new_coordinate(parts[0], parts[1], version)
    }
}

/// The repository-relative path of an artifact file.
pub open spec fn spec_artifact_path(c: (Seq<char>, Seq<char>, Seq<char>), ext: Seq<char>) -> Seq<
    char,
> {
    replace_char(c.0, '.', "/"@) + "/"@ + c.1 + "/"@ + c.2 + "/"@ + c.1 + "-"@ + c.2 + "."@ + ext
}

/// `groupId:artifactId`.
pub open spec fn spec_ga_key(g: Seq<char>, a: Seq<char>) -> Seq<char> {
    g + ":"@ + a
}

/// Fails exactly on snapshot versions.
pub fn reject_snapshot(version: &str) -> (r: MavenResult<()>)
    ensures
        match r {
            Ok(()) => !is_snapshot(version@),
            Err(e) => is_snapshot(version@) && e@ == snapshot_message(version@),
        },
{
    let upper = to_upper_str(version);
    if contains_str(upper.as_str(), "SNAPSHOT") {
        let mut m = concat("SNAPSHOT dependency versions are not supported: `", version);
        push_str(&mut m, "`");
        return Err(m);
    }
    Ok(())
}

impl Coordinate {
    /// A coordinate from its three parts, each trimmed; fails when a part
    /// is empty or the version is a snapshot.
    pub fn new(group_id: String, artifact_id: String, version: String) -> (r: MavenResult<Self>)
        ensures
            match spec_new_coordinate(group_id@, artifact_id@, version@) {
                Ok(v) => r matches Ok(c) && c@ == v,
                Err(m) => r matches Err(e) && e@ == m,
            },
    {
        let coord = Coordinate {
            group_id: trim_str(group_id.as_str()),
            artifact_id: trim_str(artifact_id.as_str()),
            version: trim_str(version.as_str()),
        };
        if coord.group_id.as_str().unicode_len() == 0 || coord.artifact_id.as_str().unicode_len()
            == 0 || coord.version.as_str().unicode_len() == 0 {
            return Err("Maven coordinates must include groupId, artifactId, and version".to_owned());
        }
        match reject_snapshot(coord.version.as_str()) {
            Ok(()) => Ok(coord),
            Err(e) => Err(e),
        }
    }

    /// A coordinate from a `groupId:artifactId` key and a version.
    pub fn parse_dependency(name: &str, version: &str) -> (r: MavenResult<Self>)
        ensures
            match spec_parse_dependency(name@, version@) {
                Ok(v) => r matches Ok(c) && c@ == v,
                Err(m) => r matches Err(e) && e@ == m,
            },
    {
        let parts = split_str(name, ':');
        if parts.len() != 2 {
            let mut m = concat("Invalid dependency coordinate `", name);
            push_str(&mut m, "`. Expected `groupId:artifactId`");
            return Err(m);
        }
        assert(parts@[0]@ == split(name@, ':')[0]);
        assert(parts@[1]@ == split(name@, ':')[1]);
        Self::new(parts[0].clone(), parts[1].clone(), version.to_owned())
    }

    /// The repository-relative path of this artifact's file with extension `extension`.
    pub fn artifact_path(&self, extension: &str) -> (r: String)
        ensures
            r@ == spec_artifact_path(self@, extension@),
    {
        let mut r = replace_char_str(self.group_id.as_str(), '.', "/");
        push_str(&mut r, "/");
        push_str(&mut r, self.artifact_id.as_str());
        push_str(&mut r, "/");
        push_str(&mut r, self.version.as_str());
        push_str(&mut r, "/");
        push_str(&mut r, self.artifact_id.as_str());
        push_str(&mut r, "-");
        push_str(&mut r, self.version.as_str());
        push_str(&mut r, ".");
        push_str(&mut r, extension);
        r
    }

    /// `groupId:artifactId`.
    pub fn ga_key(&self) -> (r: String)
        ensures
            r@ == spec_ga_key(self@.0, self@.1),
    {
        let mut r = concat(self.group_id.as_str(), ":");
        push_str(&mut r, self.artifact_id.as_str());
        r
    }

    /// `<artifactId>-<version>.jar`.
    pub fn jar_file_name(&self) -> (r: String)
        ensures
            r@ == self@.1 + "-"@ + self@.2 + ".jar"@,
    {
        let mut r = concat(self.artifact_id.as_str(), "-");
        push_str(&mut r, self.version.as_str());
        push_str(&mut r, ".jar");
        r
    }

    /// `<groupId>-<artifactId>-<version>.pom`.
    pub fn pom_file_name(&self) -> (r: String)
        ensures
            r@ == self@.0 + "-"@ + self@.1 + "-"@ + self@.2 + ".pom"@,
    {
        let mut r = concat(self.group_id.as_str(), "-");
        push_str(&mut r, self.artifact_id.as_str());
        push_str(&mut r, "-");
        push_str(&mut r, self.version.as_str());
        push_str(&mut r, ".pom");
        r
    }

    /// `groupId:artifactId:version`.
    pub fn to_string(&self) -> (r: String)
        ensures
            r@ == self@.0 + ":"@ + self@.1 + ":"@ + self@.2,
    {
        let mut r = concat(self.group_id.as_str(), ":");
        push_str(&mut r, self.artifact_id.as_str());
        push_str(&mut r, ":");
        push_str(&mut r, self.version.as_str());
        r
    }

    /// The two coordinates name the same artifact version.
    pub fn same(&self, other: &Coordinate) -> (b: bool)
        ensures
            b == (self@ == other@),
    {
        self.group_id == other.group_id && self.artifact_id == other.artifact_id && self.version
            == other.version
    }
}

// ---------------------------------------------------------------------------
// Exclusions and resolved artifacts
// ---------------------------------------------------------------------------

/// A `<exclusion>`: `*` matches any group or artifact.
#[derive(Debug, Eq, PartialEq)]
pub struct Exclusion {
    pub group_id: String,
    pub artifact_id: String,
}

impl View for Exclusion {
    type V = (Seq<char>, Seq<char>);

    open spec fn view(&self) -> (Seq<char>, Seq<char>) {
        (self.group_id@, self.artifact_id@)
    }
}

impl Clone for Exclusion {
    fn clone(&self) -> (r: Self)
        ensures
            r@ == self@,
    {
        Exclusion { group_id: self.group_id.clone(), artifact_id: self.artifact_id.clone() }
    }
}

/// Exclusion `e` covers the artifact `g:a`.
pub open spec fn exclusion_matches(e: (Seq<char>, Seq<char>), g: Seq<char>, a: Seq<char>) -> bool {
    (e.0 == "*"@ || e.0 == g) && (e.1 == "*"@ || e.1 == a)
}

/// Some exclusion of `ex` covers `g:a`.
pub open spec fn excluded_by(ex: Seq<(Seq<char>, Seq<char>)>, g: Seq<char>, a: Seq<char>) -> bool {
    exists|i: int| 0 <= i < ex.len() && exclusion_matches(#[trigger] ex[i], g, a)
}

/// An exclusion covers `g:a` exactly when its groupId is `*` or `g` and
/// its artifactId is `*` or `a`: a `*` stands for any groupId or
/// artifactId. A list of exclusions covers `g:a` when one of them does.
pub proof fn law_exclusion_wildcards(
    ex: Seq<(Seq<char>, Seq<char>)>,
    e: (Seq<char>, Seq<char>),
    g: Seq<char>,
    a: Seq<char>,
)
    ensures
        e.0 == seq!['*'] && e.1 == seq!['*'] ==> exclusion_matches(e, g, a),
        e.0 == seq!['*'] && e.1 == a ==> exclusion_matches(e, g, a),
        e.0 == g && e.1 == seq!['*'] ==> exclusion_matches(e, g, a),
        e.0 == g && e.1 == a ==> exclusion_matches(e, g, a),
        e.0 != seq!['*'] && e.0 != g ==> !exclusion_matches(e, g, a),
        e.1 != seq!['*'] && e.1 != a ==> !exclusion_matches(e, g, a),
        ex.contains(e) && exclusion_matches(e, g, a) ==> excluded_by(ex, g, a),
        (forall|i: int| 0 <= i < ex.len() ==> !exclusion_matches(#[trigger] ex[i], g, a))
            ==> !excluded_by(ex, g, a),
{
    reveal_strlit("*");
    assert("*"@ =~= seq!['*']);
    if ex.contains(e) && exclusion_matches(e, g, a) {
        let i = choose|i: int| 0 <= i < ex.len() && ex[i] == e;
        assert(exclusion_matches(ex[i], g, a));
    }
}

/// The views of a list of exclusions.
pub open spec fn exclusion_views(v: Seq<Exclusion>) -> Seq<(Seq<char>, Seq<char>)> {
    v.map_values(|e: Exclusion| e@)
}

impl Exclusion {
    /// This exclusion covers the artifact `group_id:artifact_id`.
    pub fn matches(&self, group_id: &str, artifact_id: &str) -> (b: bool)
        ensures
            b == exclusion_matches(self@, group_id@, artifact_id@),
    {
        let star = "*".to_owned();
        (self.group_id == star || self.group_id == group_id.to_owned()) && (self.artifact_id
            == star || self.artifact_id == artifact_id.to_owned())
    }
}

/// A copy of a list of exclusions.
pub fn clone_exclusions(v: &Vec<Exclusion>) -> (r: Vec<Exclusion>)
    ensures
        exclusion_views(r@) == exclusion_views(v@),
{
    let mut r: Vec<Exclusion> = Vec::new();
    let mut i: usize = 0;
    while i < v.len()
        invariant
            i <= v@.len(),
            r@.len() == i,
            forall|k: int| 0 <= k < i ==> (#[trigger] r@[k])@ == v@[k]@,
        decreases v.len() - i,
    {
        let e = v[i].clone();
        r.push(e);
        i = i + 1;
    }
    assert(exclusion_views(r@) =~= exclusion_views(v@));
    r
}

/// Some exclusion of `exclusions` covers the coordinate.
pub fn is_excluded(exclusions: &[Exclusion], coordinate: &Coordinate) -> (b: bool)
    ensures
        b == excluded_by(exclusion_views(exclusions@), coordinate@.0, coordinate@.1),
{
    let mut i: usize = 0;
    while i < exclusions.len()
        invariant
            i <= exclusions@.len(),
            forall|k: int|
                0 <= k < i ==> !exclusion_matches(
                    #[trigger] exclusion_views(exclusions@)[k],
                    coordinate@.0,
                    coordinate@.1,
                ),
        decreases exclusions.len() - i,
    {
        if exclusions[i].matches(coordinate.group_id.as_str(), coordinate.artifact_id.as_str()) {
            assert(exclusion_views(exclusions@)[i as int] == exclusions@[i as int]@);
            return true;
        }
        assert(exclusion_views(exclusions@)[i as int] == exclusions@[i as int]@);
        i = i + 1;
    }
    false
}

/// An artifact chosen by resolution and the local file that holds its jar.
#[derive(Debug, Eq, PartialEq)]
pub struct ResolvedArtifact {
    pub coordinate: Coordinate,
    pub jar_path: String,
}

impl Clone for ResolvedArtifact {
    fn clone(&self) -> (r: Self)
        ensures
            r.coordinate@ == self.coordinate@,
            r.jar_path@ == self.jar_path@,
    {
        ResolvedArtifact { coordinate: self.coordinate.clone(), jar_path: self.jar_path.clone() }
    }
}

// ---------------------------------------------------------------------------
// Repositories
// ---------------------------------------------------------------------------

/// A repository that artifacts are fetched from.
#[derive(Debug, Eq, PartialEq)]
pub struct MavenRepository {
    pub name: String,
    pub url: String,
    pub username: Option<String>,
    pub password: Option<String>,
}

/// The optional string is present and not empty.
pub open spec fn present(o: Option<String>) -> bool {
    o matches Some(s) && s@.len() > 0
}

/// The optional string kept only when present and not empty.
pub open spec fn nonempty_view(o: Option<String>) -> Option<Seq<char>> {
    match o {
        Some(s) => if s@.len() > 0 {
            Some(s@)
        } else {
            None
        },
        None => None,
    }
}

/// The view of an optional string.
pub open spec fn opt_view(o: Option<String>) -> Option<Seq<char>> {
    match o {
        Some(s) => Some(s@),
        None => None,
    }
}

/// A repository's name, url, user and password, as plain values.
pub type RepositoryView = (Seq<char>, Seq<char>, Option<Seq<char>>, Option<Seq<char>>);

impl View for MavenRepository {
    type V = RepositoryView;

    open spec fn view(&self) -> RepositoryView {
        (self.name@, self.url@, opt_view(self.username), opt_view(self.password))
    }
}

/// What the `index`-th (from 1) configured repository becomes.
pub open spec fn spec_repository_from_config(index: nat, r: ConfigRepository) -> Result<
    RepositoryView,
    Seq<char>,
> {
    if present(r.username) != present(r.password) {
        Err(
            "Repository `"@ + match r.name {
                Some(n) => n@,
                None => r.url@,
            } + "` must configure both username and password for basic auth"@,
        )
    } else if trim(r.url@).len() == 0 {
        Err("Repository #"@ + decimal(index) + " has an empty url"@)
    } else {
        Ok(
            (
                match r.name {
                    Some(n) => n@,
                    None => "repository-"@ + decimal(index),
                },
                trim_end_char(r.url@, '/'),
                nonempty_view(r.username),
                nonempty_view(r.password),
            ),
        )
    }
}

/// Maven Central as a repository.
pub open spec fn central_view() -> RepositoryView {
    ("maven-central"@, MAVEN_CENTRAL@, None, None)
}

/// The first index of `rs` (from 1) whose repository is refused, if any.
pub open spec fn first_bad_repository(rs: Seq<ConfigRepository>, i: int) -> Option<int>
    decreases rs.len() - i,
{
    if i < 0 || i >= rs.len() {
        None
    } else if spec_repository_from_config((i + 1) as nat, rs[i]) is Err {
        Some(i)
    } else {
        first_bad_repository(rs, i + 1)
    }
}

fn clone_nonempty(o: &Option<String>) -> (r: Option<String>)
    ensures
        opt_view(r) == nonempty_view(*o),
{
    match o {
        Some(s) => if s.as_str().unicode_len() > 0 {
            Some(s.clone())
        } else {
            None
        },
        None => None,
    }
}

fn is_present(o: &Option<String>) -> (b: bool)
    ensures
        b == present(*o),
{
    match o {
        Some(s) => s.as_str().unicode_len() > 0,
        None => false,
    }
}

impl MavenRepository {
    /// The `index`-th configured repository.
    pub fn from_config(index: usize, repository: &ConfigRepository) -> (r: MavenResult<Self>)
        ensures
            match spec_repository_from_config(index as nat, *repository) {
                Ok(v) => r matches Ok(m) && m@ == v,
                Err(msg) => r matches Err(e) && e@ == msg,
            },
    {
        let has_username = is_present(&repository.username);
        let has_password = is_present(&repository.password);
        if has_username != has_password {
            let shown = match &repository.name {
                Some(n) => n.clone(),
                None => repository.url.clone(),
            };
            let mut m = concat("Repository `", shown.as_str());
            push_str(&mut m, "` must configure both username and password for basic auth");
            return Err(m);
        }
        if is_blank(repository.url.as_str()) {
            let mut m = concat("Repository #", usize_to_decimal(index).as_str());
            push_str(&mut m, " has an empty url");
            return Err(m);
        }
        let name = match &repository.name {
            Some(n) => n.clone(),
            None => concat("repository-", usize_to_decimal(index).as_str()),
        };
        Ok(MavenRepository {
            name,
            url: trim_end_char_str(repository.url.as_str(), '/'),
            username: clone_nonempty(&repository.username),
            password: clone_nonempty(&repository.password),
        })
    }

    /// Maven Central.
    pub fn central() -> (r: Self)
        ensures
            r@ == central_view(),
    {
        MavenRepository {
            name: "maven-central".to_owned(),
            url: MAVEN_CENTRAL.to_owned(),
            username: None,
            password: None,
        }
    }

    /// The URL of `artifact_path` in this repository.
    pub fn artifact_url(&self, artifact_path: &str) -> (r: String)
        ensures
            r@ == trim_end_char(self@.1, '/') + "/"@ + artifact_path@,
    {
        let mut r = trim_end_char_str(self.url.as_str(), '/');
        push_str(&mut r, "/");
        push_str(&mut r, artifact_path);
        r
    }

    /// The repository is a local directory (`file://`).
    pub fn is_file_repository(&self) -> (b: bool)
        ensures
            b == starts_with(self@.1, "file://"@),
    {
        starts_with_str(self.url.as_str(), "file://")
    }

    /// The local directory of a `file://` repository.
    pub fn file_base_path(&self) -> (r: String)
        ensures
            r@ == trim_start_str(self@.1, "file://"@),
    {
        trim_start_matches(self.url.as_str(), "file://")
    }
}

/// `s` without the leading copies of `p` (`str::trim_start_matches`).
pub open spec fn trim_start_str(s: Seq<char>, p: Seq<char>) -> Seq<char>
    decreases s.len(),
{
    if p.len() > 0 && starts_with(s, p) {
        trim_start_str(s.subrange(p.len() as int, s.len() as int), p)
    } else {
        s
    }
}

/// `s` without the leading copies of `p`.
pub fn trim_start_matches(s: &str, p: &str) -> (r: String)
    ensures
        r@ == trim_start_str(s@, p@),
{
    let sv = crate::text::to_chars(s);
    let pv = crate::text::to_chars(p);
    let mut i: usize = 0;
    let n = sv.len();
    assert(s@.subrange(0, s@.len() as int) =~= s@);
    while pv.len() > 0 && crate::text::occurs_at_exec(sv.as_slice(), pv.as_slice(), i)
        invariant
            sv@ == s@,
            pv@ == p@,
            n == sv@.len(),
            i <= s@.len(),
            trim_start_str(s@, p@) == trim_start_str(s@.subrange(i as int, s@.len() as int), p@),
        decreases s@.len() - i,
    {
        let ghost rest = s@.subrange(i as int, s@.len() as int);
        assert(rest.subrange(0, p@.len() as int) =~= s@.subrange(i as int, i + p@.len()));
        assert(rest.subrange(p@.len() as int, rest.len() as int) =~= s@.subrange(
            i + p@.len(),
            s@.len() as int,
        ));
        i = i + pv.len();
    }
    let ghost rest = s@.subrange(i as int, s@.len() as int);
    assert(!(p@.len() > 0 && starts_with(rest, p@))) by {
        if p@.len() > 0 && starts_with(rest, p@) {
            assert(s@.subrange(i as int, i + p@.len()) =~= rest.subrange(0, p@.len() as int));
        }
    }
    crate::text::sub_string(sv.as_slice(), i, sv.len())
}

/// The configured repositories in order, then Maven Central; fails on the
/// first refused one.
pub fn repositories_from_config(repositories: &[ConfigRepository]) -> (r: MavenResult<
    Vec<MavenRepository>,
>)
    ensures
        match first_bad_repository(repositories@, 0) {
            Some(i) => r matches Err(e) && spec_repository_from_config(
                (i + 1) as nat,
                repositories@[i],
            ) == Err::<RepositoryView, Seq<char>>(e@),
            None => r matches Ok(v) && v@.len() == repositories@.len() + 1 && (forall|k: int|
                0 <= k < repositories@.len() ==> spec_repository_from_config(
                    (k + 1) as nat,
                    #[trigger] repositories@[k],
                ) == Ok::<RepositoryView, Seq<char>>(v@[k]@)) && v@[repositories@.len() as int]@
                == central_view(),
        },
{
    let mut resolved: Vec<MavenRepository> = Vec::new();
    let mut i: usize = 0;
    while i < repositories.len()
        invariant
            i <= repositories@.len(),
            resolved@.len() == i,
            first_bad_repository(repositories@, 0) == first_bad_repository(repositories@, i as int),
            forall|k: int|
                0 <= k < i ==> spec_repository_from_config(
                    (k + 1) as nat,
                    #[trigger] repositories@[k],
                ) == Ok::<RepositoryView, Seq<char>>(resolved@[k]@),
        decreases repositories.len() - i,
    {
        match MavenRepository::from_config(i + 1, &repositories[i]) {
            Ok(m) => {
                resolved.push(m);
            },
            Err(e) => {
                return Err(e);
            },
        }
        i = i + 1;
    }
    resolved.push(MavenRepository::central());
    Ok(resolved)
}

} // verus!
