//! The project configuration read from `ax.toml`.
//!
//! `ConfigToml` and its parts mirror the file's tables. A `Config` pairs
//! them with the project root; it can only be made through `Config::new`,
//! which checks that `[package].main` is a fully qualified Java class
//! name, and every `Config` keeps that property (its type invariant).
//! All locations are strings, joined as `Path::join` joins them.
use vstd::prelude::*;
use crate::paths::{join, path_join};
use crate::text::{
    concat, contains_char, ends_with, ends_with_str, is_ascii_alnum, is_ascii_alpha, is_blank,
    push_str, replace_char, replace_char_str, split, split_str, to_chars, trim, trim_end, trim_start,
    views,
};

verus! {

/// How the project jar is packaged.
#[derive(Clone, Copy, Debug, PartialEq, Eq, Structural)]
pub enum JarMode {
    /// The manifest's `Class-Path` points at the dependency jars.
    Classpath,
    /// One merged jar holding the project and all dependency contents.
    Fat,
}

impl Default for JarMode {
    fn default() -> (m: Self)
        ensures
            m == JarMode::Classpath,
    {
        JarMode::Classpath
    }
}

/// The `[package]` table.
#[derive(Debug)]
pub struct Package {
    pub name: String,
    pub main: Option<String>,
    pub root: Option<String>,
    pub test_root: Option<String>,
    pub version: Option<String>,
    pub jar_name: Option<String>,
}

/// The `[build]` table.
#[derive(Debug)]
pub struct Build {
    pub jar_mode: Option<JarMode>,
}

/// The `[resources]` table.
#[derive(Debug)]
pub struct Resources {
    pub dirs: Option<Vec<String>>,
}

/// One `[[repositories]]` entry.
#[derive(Debug, PartialEq, Eq)]
pub struct Repository {
    pub name: Option<String>,
    pub url: String,
    pub username: Option<String>,
    pub password: Option<String>,
}

/// The whole of `ax.toml`. `dependencies` holds the `[dependencies]`
/// table as (`"groupId:artifactId"`, version) pairs.
#[derive(Debug)]
pub struct ConfigToml {
    pub package: Package,
    pub dependencies: Option<Vec<(String, String)>>,
    pub build: Option<Build>,
    pub repositories: Option<Vec<Repository>>,
    pub resources: Option<Resources>,
}

/// A project: its root directory and its validated configuration.
#[derive(Debug)]
pub struct Config {
    root: String,
    config_toml: ConfigToml,
}

/// A copy of an optional string.
pub fn clone_opt_string(o: &Option<String>) -> (r: Option<String>)
    ensures
        r == *o,
{
    match o {
        Some(s) => Some(s.clone()),
        None => None,
    }
}

impl Clone for Package {
    fn clone(&self) -> (r: Self)
        ensures
            r == *self,
    {
        Package {
            name: self.name.clone(),
            main: clone_opt_string(&self.main),
            root: clone_opt_string(&self.root),
            test_root: clone_opt_string(&self.test_root),
            version: clone_opt_string(&self.version),
            jar_name: clone_opt_string(&self.jar_name),
        }
    }
}

impl Clone for Build {
    fn clone(&self) -> (r: Self)
        ensures
            r == *self,
    {
        Build { jar_mode: self.jar_mode }
    }
}

impl Clone for Repository {
    fn clone(&self) -> (r: Self)
        ensures
            r == *self,
    {
        Repository {
            name: clone_opt_string(&self.name),
            url: self.url.clone(),
            username: clone_opt_string(&self.username),
            password: clone_opt_string(&self.password),
        }
    }
}

/// The contents of an optional list.
pub open spec fn opt_seq<T>(o: Option<Vec<T>>) -> Option<Seq<T>> {
    match o {
        Some(v) => Some(v@),
        None => None,
    }
}

/// A copy of a list whose items are copied exactly.
fn clone_items<T: Clone>(v: &Vec<T>) -> (r: Vec<T>)
    requires
        forall|a: T, b: T| #[trigger] call_ensures(T::clone, (&a,), b) ==> a == b,
    ensures
        r@ == v@,
{
    let mut r: Vec<T> = Vec::new();
    let mut i: usize = 0;
    while i < v.len()
        invariant
            i <= v@.len(),
            r@ == v@.subrange(0, i as int),
            forall|a: T, b: T| #[trigger] call_ensures(T::clone, (&a,), b) ==> a == b,
        decreases v.len() - i,
    {
        let x = v[i].clone();
        r.push(x);
        assert(r@ =~= v@.subrange(0, i + 1));
        i = i + 1;
    }
    assert(v@.subrange(0, v@.len() as int) =~= v@);
    r
}

/// A copy of an optional list whose items are copied exactly.
fn clone_opt_items<T: Clone>(o: &Option<Vec<T>>) -> (r: Option<Vec<T>>)
    requires
        forall|a: T, b: T| #[trigger] call_ensures(T::clone, (&a,), b) ==> a == b,
    ensures
        opt_seq(r) == opt_seq(*o),
{
    match o {
        Some(v) => Some(clone_items(v)),
        None => None,
    }
}

/// A copy of a pair of strings.
fn clone_pair(p: &(String, String)) -> (r: (String, String))
    ensures
        r == *p,
{
    (p.0.clone(), p.1.clone())
}

impl Clone for Resources {
    fn clone(&self) -> (r: Self)
        ensures
            opt_seq(r.dirs) == opt_seq(self.dirs),
    {
        Resources { dirs: clone_opt_items(&self.dirs) }
    }
}

/// Two configurations hold the same values: the same tables, and lists
/// with the same items.
pub open spec fn same_toml(a: ConfigToml, b: ConfigToml) -> bool {
    &&& a.package == b.package
    &&& opt_seq(a.dependencies) == opt_seq(b.dependencies)
    &&& a.build == b.build
    &&& opt_seq(a.repositories) == opt_seq(b.repositories)
    &&& match (a.resources, b.resources) {
        (Some(x), Some(y)) => opt_seq(x.dirs) == opt_seq(y.dirs),
        (None, None) => true,
        _ => false,
    }
}

impl Clone for ConfigToml {
    fn clone(&self) -> (r: Self)
        ensures
            same_toml(r, *self),
    {
        let dependencies = match &self.dependencies {
            Some(v) => {
                let mut out: Vec<(String, String)> = Vec::new();
                let mut i: usize = 0;
                while i < v.len()
                    invariant
                        i <= v@.len(),
                        out@ == v@.subrange(0, i as int),
                    decreases v.len() - i,
                {
                    out.push(clone_pair(&v[i]));
                    assert(out@ =~= v@.subrange(0, i + 1));
                    i = i + 1;
                }
                assert(v@.subrange(0, v@.len() as int) =~= v@);
                Some(out)
            },
            None => None,
        };
        let build = match &self.build {
            Some(b) => Some(b.clone()),
            None => None,
        };
        let resources = match &self.resources {
            Some(x) => Some(x.clone()),
            None => None,
        };
        ConfigToml {
            package: self.package.clone(),
            dependencies,
            build,
            repositories: clone_opt_items(&self.repositories),
            resources,
        }
    }
}

impl Clone for Config {
    fn clone(&self) -> (r: Self)
        ensures
            r.root() == self.root(),
            same_toml(r.toml(), self.toml()),
    {
        proof {
            use_type_invariant(self);
        }
        Config { root: self.root.clone(), config_toml: self.config_toml.clone() }
    }
}

// ---------------------------------------------------------------------------
// Specifications
// ---------------------------------------------------------------------------

/// A character that may start a Java identifier here.
pub open spec fn ident_start(c: char) -> bool {
    is_ascii_alpha(c) || c == '_' || c == '$'
}

/// A character that may continue a Java identifier here.
pub open spec fn ident_part(c: char) -> bool {
    is_ascii_alnum(c) || c == '_' || c == '$'
}

/// `s` is an ASCII Java identifier.
pub open spec fn is_identifier(s: Seq<char>) -> bool {
    &&& s.len() > 0
    &&& ident_start(s[0])
    &&& forall|i: int| 1 <= i < s.len() ==> ident_part(s[i])
}

/// A segment is an identifier exactly when it is not empty, starts with an
/// ASCII letter of either case, `_` or `$`, and goes on with ASCII letters
/// of either case, digits, `_` or `$` (so `HelloWorld` and `MyApp2` are
/// identifiers, `1Main` and `a-b` are not).
pub proof fn law_identifier_characters(s: Seq<char>)
    ensures
        is_identifier(s) <==> {
            &&& s.len() > 0
            &&& ('a' <= s[0] <= 'z' || 'A' <= s[0] <= 'Z' || s[0] == '_' || s[0] == '$')
            &&& forall|i: int|
                1 <= i < s.len() ==> ('a' <= #[trigger] s[i] <= 'z' || 'A' <= s[i] <= 'Z' || '0'
                    <= s[i] <= '9' || s[i] == '_' || s[i] == '$')
        },
{
}

/// A main class is accepted when it has no surrounding whitespace, no path
/// separator, no `.java` ending, and each of its dot-separated segments is
/// an identifier by the characters above.
pub proof fn law_class_name_accepted(main: Seq<char>)
    requires
        main.len() > 0,
        trim(main) == main,
        !main.contains('/'),
        !main.contains('\\'),
        !ends_with(main, ".java"@),
        forall|j: int|
            0 <= j < split(main, '.').len() ==> {
                let s = #[trigger] split(main, '.')[j];
                &&& s.len() > 0
                &&& ('a' <= s[0] <= 'z' || 'A' <= s[0] <= 'Z' || s[0] == '_' || s[0] == '$')
                &&& forall|i: int|
                    1 <= i < s.len() ==> ('a' <= #[trigger] s[i] <= 'z' || 'A' <= s[i] <= 'Z'
                        || '0' <= s[i] <= '9' || s[i] == '_' || s[i] == '$')
            },
    ensures
        main_class_error(main) is None,
{
    let segs = split(main, '.');
    assert forall|j: int| 0 <= j < segs.len() implies is_identifier(#[trigger] segs[j]) by {
        law_identifier_characters(segs[j]);
    }
    lemma_no_bad_segment(segs, 0);
}

proof fn lemma_no_bad_segment(segs: Seq<Seq<char>>, i: int)
    requires
        0 <= i,
        forall|j: int| 0 <= j < segs.len() ==> is_identifier(#[trigger] segs[j]),
    ensures
        first_bad_segment(segs, i) is None,
    decreases segs.len() - i,
{
    if i < segs.len() {
        lemma_no_bad_segment(segs, i + 1);
    }
}

/// The first segment of `segs`, from index `i` on, that is not an identifier.
pub open spec fn first_bad_segment(segs: Seq<Seq<char>>, i: int) -> Option<Seq<char>>
    decreases segs.len() - i,
{
    if i < 0 || i >= segs.len() {
        None
    } else if !is_identifier(segs[i]) {
        Some(segs[i])
    } else {
        first_bad_segment(segs, i + 1)
    }
}

/// The message for a `main` that names a source path.
pub open spec fn source_path_message(main: Seq<char>) -> Seq<char> {
    "`[package].main` must be a fully qualified Java class name like `com.example.Main`, not a source path: `"@
        + main + "`"@
}

/// The message for an empty or padded `main`.
pub open spec fn blank_main_message() -> Seq<char> {
    "`[package].main` must not be empty or contain surrounding whitespace"@
}

/// The message for a `main` with a segment that is not an identifier.
pub open spec fn bad_segment_message(segment: Seq<char>, main: Seq<char>) -> Seq<char> {
    "`[package].main` must be a fully qualified Java class name like `com.example.Main`: invalid segment `"@
        + segment + "` in `"@ + main + "`"@
}

/// `main` looks like a source path rather than a class name.
pub open spec fn looks_like_path(main: Seq<char>) -> bool {
    main.contains('/') || main.contains('\\') || ends_with(main, ".java"@)
}

/// What checking `[package].main` gives: `None` when it is a valid class
/// name, else the error message.
pub open spec fn main_class_error(main: Seq<char>) -> Option<Seq<char>> {
    if looks_like_path(main) {
        Some(source_path_message(main))
    } else if trim(main) != main || main.len() == 0 {
        Some(blank_main_message())
    } else {
        match first_bad_segment(split(main, '.'), 0) {
            Some(seg) => Some(bad_segment_message(seg, main)),
            None => None,
        }
    }
}

/// The main class that a configuration names (default `com.example.Main`).
pub open spec fn spec_main_class(t: ConfigToml) -> Seq<char> {
    match t.package.main {
        Some(m) => m@,
        None => "com.example.Main"@,
    }
}

/// The source root, relative to the project root (default `./src`).
pub open spec fn spec_src_rel(t: ConfigToml) -> Seq<char> {
    match t.package.root {
        Some(r) => r@,
        None => "./src"@,
    }
}

/// The test root, relative to the project root (default `./src/test/java`).
pub open spec fn spec_test_rel(t: ConfigToml) -> Seq<char> {
    match t.package.test_root {
        Some(r) => r@,
        None => "./src/test/java"@,
    }
}

/// The jar file name (default `<name>-<version>.jar`, version `0.0.1`).
pub open spec fn spec_jar_name(t: ConfigToml) -> Seq<char> {
    match t.package.jar_name {
        Some(j) => j@,
        None => t.package.name@ + "-"@ + match t.package.version {
            Some(v) => v@,
            None => "0.0.1"@,
        } + ".jar"@,
    }
}

/// The source file of a class name: dots become separators, plus `.java`.
pub open spec fn class_source_path(main: Seq<char>) -> Seq<char> {
    replace_char(main, '.', "/"@) + ".java"@
}

/// The packaging mode (default classpath).
pub open spec fn spec_jar_mode(t: ConfigToml) -> JarMode {
    match t.build {
        Some(b) => match b.jar_mode {
            Some(m) => m,
            None => JarMode::Classpath,
        },
        None => JarMode::Classpath,
    }
}

/// The configured resource directory names.
pub open spec fn spec_resource_dirs(t: ConfigToml) -> Seq<Seq<char>> {
    match t.resources {
        Some(r) => match r.dirs {
            Some(d) => views(d@),
            None => Seq::empty(),
        },
        None => Seq::empty(),
    }
}

// ---------------------------------------------------------------------------
// Validation
// ---------------------------------------------------------------------------

/// `segment` is an ASCII Java identifier.
pub fn is_java_identifier(segment: &str) -> (b: bool)
    ensures
        b == is_identifier(segment@),
{
    let c = to_chars(segment);
    if c.len() == 0 {
        return false;
    }
    let first = c[0];
    if !(('a' <= first && first <= 'z') || ('A' <= first && first <= 'Z') || first == '_' || first
        == '$') {
        return false;
    }
    let mut i: usize = 1;
    while i < c.len()
        invariant
            c@ == segment@,
            1 <= i <= c@.len(),
            forall|k: int| 1 <= k < i ==> ident_part(segment@[k]),
        decreases c.len() - i,
    {
        let ch = c[i];
        if !(('a' <= ch && ch <= 'z') || ('A' <= ch && ch <= 'Z') || ('0' <= ch && ch <= '9') || ch
            == '_' || ch == '$') {
            return false;
        }
        i = i + 1;
    }
    true
}

/// Checks that `main` is a fully qualified Java class name.
pub fn validate_main_class_name(main: &str) -> (r: Result<(), String>)
    ensures
        match main_class_error(main@) {
            None => r is Ok,
            Some(msg) => r matches Err(e) && e@ == msg,
        },
{
    if contains_char(main, '/') || contains_char(main, '\\') || ends_with_str(main, ".java") {
        let mut m = concat(
            "`[package].main` must be a fully qualified Java class name like `com.example.Main`, not a source path: `",
            main,
        );
        push_str(&mut m, "`");
        return Err(m);
    }
    let t = crate::text::trim_str(main);
    let same = t == main.to_owned();
    if !same || main.unicode_len() == 0 {
        return Err(
            "`[package].main` must not be empty or contain surrounding whitespace".to_owned(),
        );
    }
    let segments = split_str(main, '.');
    let ghost segs = split(main@, '.');
    let mut i: usize = 0;
    while i < segments.len()
        invariant
            views(segments@) == segs,
            segs == split(main@, '.'),
            i <= segments@.len(),
            first_bad_segment(segs, 0) == first_bad_segment(segs, i as int),
            !looks_like_path(main@),
            !(trim(main@) != main@ || main@.len() == 0),
        decreases segments.len() - i,
    {
        if !is_java_identifier(segments[i].as_str()) {
            let mut m = concat(
                "`[package].main` must be a fully qualified Java class name like `com.example.Main`: invalid segment `",
                segments[i].as_str(),
            );
            push_str(&mut m, "` in `");
            push_str(&mut m, main);
            push_str(&mut m, "`");
            assert(segs[i as int] == segments@[i as int]@);
            assert(first_bad_segment(segs, i as int) == Some(segs[i as int]));
            return Err(m);
        }
        assert(segs[i as int] == segments@[i as int]@);
        i = i + 1;
    }
    Ok(())
}

// ---------------------------------------------------------------------------
// Config
// ---------------------------------------------------------------------------

impl Config {
    /// Every configuration names a valid main class.
    #[verifier::type_invariant]
    spec fn wf(self) -> bool {
        main_class_error(spec_main_class(self.config_toml)) is None
    }

    /// The project root directory.
    pub closed spec fn root(&self) -> Seq<char> {
        self.root@
    }

    /// The parsed configuration.
    pub closed spec fn toml(&self) -> ConfigToml {
        self.config_toml
    }

    /// The source root.
    pub open spec fn src_dir_view(&self) -> Seq<char> {
        path_join(self.root(), spec_src_rel(self.toml()))
    }

    /// The test source root.
    pub open spec fn test_root_view(&self) -> Seq<char> {
        path_join(self.root(), spec_test_rel(self.toml()))
    }

    /// The build output directory.
    pub open spec fn target_view(&self) -> Seq<char> {
        self.root() + "/target"@
    }

    /// Compiled project classes.
    pub open spec fn classes_dir_view(&self) -> Seq<char> {
        path_join(self.target_view(), "classes"@)
    }

    /// Compiled test classes.
    pub open spec fn test_classes_view(&self) -> Seq<char> {
        path_join(self.target_view(), "test-classes"@)
    }

    /// Makes the configuration of the project at `root`, checking
    /// `[package].main`.
    pub fn new(root: String, config_toml: ConfigToml) -> (r: Result<Config, String>)
        ensures
            match main_class_error(spec_main_class(config_toml)) {
                None => r matches Ok(c) && c.root() == root@ && c.toml() == config_toml,
                Some(msg) => r matches Err(e) && e@ == msg,
            },
    {
        let main = match &config_toml.package.main {
            Some(m) => m.clone(),
            None => "com.example.Main".to_owned(),
        };
        match validate_main_class_name(main.as_str()) {
            Ok(()) => Ok(Config { root, config_toml }),
            Err(e) => Err(e),
        }
    }

    /// The project root directory.
    pub fn root_str(&self) -> (r: &String)
        ensures
            r@ == self.root(),
    {
        &self.root
    }

    /// The parsed configuration.
    pub fn config_toml(&self) -> (r: &ConfigToml)
        ensures
            *r == self.toml(),
    {
        &self.config_toml
    }

    fn project_path(&self, relative: &str) -> (r: String)
        ensures
            r@ == path_join(self.root(), relative@),
    {
        join(self.root.as_str(), relative)
    }

    /// The source root.
    pub fn src_dir(&self) -> (r: String)
        ensures
            r@ == path_join(self.root(), spec_src_rel(self.toml())),
    {
        match &self.config_toml.package.root {
            Some(r) => self.project_path(r.as_str()),
            None => self.project_path("./src"),
        }
    }

    /// The source root, as a string.
    pub fn src_path(&self) -> (r: String)
        ensures
            r@ == path_join(self.root(), spec_src_rel(self.toml())),
    {
        self.src_dir()
    }

    /// The test source root.
    pub fn test_root_dir(&self) -> (r: String)
        ensures
            r@ == path_join(self.root(), spec_test_rel(self.toml())),
    {
        match &self.config_toml.package.test_root {
            Some(r) => self.project_path(r.as_str()),
            None => self.project_path("./src/test/java"),
        }
    }

    /// The jar file: `<root>/<jar name>`.
    pub fn jar_path(&self) -> (r: String)
        ensures
            r@ == self.root() + "/"@ + spec_jar_name(self.toml()),
    {
        let package = &self.config_toml.package;
        let jar_name = match &package.jar_name {
            Some(j) => j.clone(),
            None => {
                let mut n = concat(package.name.as_str(), "-");
                match &package.version {
                    Some(v) => push_str(&mut n, v.as_str()),
                    None => push_str(&mut n, "0.0.1"),
                }
                push_str(&mut n, ".jar");
                n
            },
        };
        let mut r = concat(self.root.as_str(), "/");
        push_str(&mut r, jar_name.as_str());
        r
    }

    /// The jar file.
    pub fn jar_file(&self) -> (r: String)
        ensures
            r@ == self.root() + "/"@ + spec_jar_name(self.toml()),
    {
        self.jar_path()
    }

    /// The main class name (default `com.example.Main`).
    pub fn main_class_name(&self) -> (r: String)
        ensures
            r@ == spec_main_class(self.toml()),
            main_class_error(r@) is None,
    {
        proof {
            use_type_invariant(self);
        }
        match &self.config_toml.package.main {
            Some(m) => m.clone(),
            None => "com.example.Main".to_owned(),
        }
    }

    /// The main class's source file under the source root.
    pub fn main_file(&self) -> (r: String)
        ensures
            r@ == path_join(
                path_join(self.root(), spec_src_rel(self.toml())),
                class_source_path(spec_main_class(self.toml())),
            ),
    {
        let main = self.main_class_name();
        let mut relative = replace_char_str(main.as_str(), '.', "/");
        push_str(&mut relative, ".java");
        let src = self.src_dir();
        join(src.as_str(), relative.as_str())
    }

    /// The main class's source file, as a string.
    pub fn main_path(&self) -> (r: String)
        ensures
            r@ == path_join(
                path_join(self.root(), spec_src_rel(self.toml())),
                class_source_path(spec_main_class(self.toml())),
            ),
    {
        self.main_file()
    }

    /// The build output directory: `<root>/target`.
    pub fn target_path(&self) -> (r: String)
        ensures
            r@ == self.root() + "/target"@,
    {
        concat(self.root.as_str(), "/target")
    }

    /// The build output directory.
    pub fn target_dir(&self) -> (r: String)
        ensures
            r@ == self.root() + "/target"@,
    {
        self.target_path()
    }

    /// Compiled project classes.
    pub fn classes_dir(&self) -> (r: String)
        ensures
            r@ == path_join(self.root() + "/target"@, "classes"@),
    {
        join(self.target_dir().as_str(), "classes")
    }

    /// Compiled test classes.
    pub fn test_classes_dir(&self) -> (r: String)
        ensures
            r@ == path_join(self.root() + "/target"@, "test-classes"@),
    {
        join(self.target_dir().as_str(), "test-classes")
    }

    /// Downloaded dependency jars and POMs.
    pub fn deps_dir(&self) -> (r: String)
        ensures
            r@ == path_join(self.root() + "/target"@, "deps"@),
    {
        join(self.target_dir().as_str(), "deps")
    }

    /// Tool jars (test runner, formatters).
    pub fn tools_dir(&self) -> (r: String)
        ensures
            r@ == path_join(self.root() + "/target"@, "tools"@),
    {
        join(self.target_dir().as_str(), "tools")
    }

    /// The manifest file location.
    pub fn manifest_path(&self) -> (r: String)
        ensures
            r@ == path_join(self.root() + "/target"@, "MANIFEST.MF"@),
    {
        join(self.target_dir().as_str(), "MANIFEST.MF")
    }

    /// The packaging mode.
    pub fn jar_mode(&self) -> (m: JarMode)
        ensures
            m == spec_jar_mode(self.toml()),
    {
        match &self.config_toml.build {
            Some(b) => match b.jar_mode {
                Some(m) => m,
                None => JarMode::default(),
            },
            None => JarMode::default(),
        }
    }

    /// The configured repositories (none when the table is absent).
    pub fn repositories(&self) -> (r: &[Repository])
        ensures
            r@ == match self.toml().repositories {
                Some(v) => v@,
                None => Seq::empty(),
            },
    {
        match &self.config_toml.repositories {
            Some(v) => v.as_slice(),
            None => &[],
        }
    }

    /// The configured resource directories, under the project root.
    pub fn resource_dirs(&self) -> (r: Vec<String>)
        ensures
            r@.len() == spec_resource_dirs(self.toml()).len(),
            forall|i: int|
                0 <= i < r@.len() ==> #[trigger] r@[i]@ == path_join(
                    self.root(),
                    spec_resource_dirs(self.toml())[i],
                ),
    {
        let mut out: Vec<String> = Vec::new();
        let dirs: &Vec<String> = match &self.config_toml.resources {
            Some(res) => match &res.dirs {
                Some(d) => d,
                None => return out,
            },
            None => return out,
        };
        let mut i: usize = 0;
        while i < dirs.len()
            invariant
                spec_resource_dirs(self.toml()) == views(dirs@),
                i <= dirs@.len(),
                out@.len() == i,
                forall|k: int|
                    0 <= k < i ==> #[trigger] out@[k]@ == path_join(self.root(), dirs@[k]@),
            decreases dirs.len() - i,
        {
            out.push(self.project_path(dirs[i].as_str()));
            i = i + 1;
        }
        out
    }
}

} // verus!
verus! {

/// The values of the `ax.toml` that `init` writes: package `hello-world`,
/// version `0.0.1`, sources under `./src`, main class `com.example.Main`,
/// and an empty `[dependencies]` table.
pub open spec fn is_init_config(t: ConfigToml) -> bool {
    &&& t.package.name@ == "hello-world"@
    &&& t.package.version matches Some(v) && v@ == "0.0.1"@
    &&& t.package.root matches Some(r) && r@ == "./src"@
    &&& t.package.main matches Some(m) && m@ == "com.example.Main"@
    &&& t.package.test_root is None
    &&& t.package.jar_name is None
    &&& opt_seq(t.dependencies) == Some(Seq::<(String, String)>::empty())
    &&& t.build is None
    &&& t.repositories is None
    &&& t.resources is None
}

/// The configuration that `init` writes is accepted, and names the main
/// class `com.example.Main` in `./src/com/example/Main.java`, the jar
/// `hello-world-0.0.1.jar`, classpath packaging and no dependencies.
pub proof fn law_init_config(t: ConfigToml)
    requires
        is_init_config(t),
    ensures
        main_class_error(spec_main_class(t)) is None,
        spec_main_class(t) == "com.example.Main"@,
        spec_src_rel(t) == "./src"@,
        class_source_path(spec_main_class(t)) == "com/example/Main.java"@,
        spec_jar_name(t) == "hello-world-0.0.1.jar"@,
        spec_jar_mode(t) == JarMode::Classpath,
        opt_seq(t.dependencies) == Some(Seq::<(String, String)>::empty()),
{
    reveal_strlit("com.example.Main");
    let m = "com.example.Main"@;
    assert(!m.contains('/'));
    assert(!m.contains('\\'));
    assert(!ends_with(m, ".java"@)) by {
        reveal_strlit(".java");
        assert(m.subrange(11, 16)[4] != ".java"@[4]);
    }
    assert(trim_start(m) == m);
    assert(trim_end(m) == m);
    reveal_strlit("com");
    reveal_strlit("example");
    reveal_strlit("Main");
    let c = "com"@;
    let e = "example"@;
    let n = "Main"@;
    assert(m =~= c + seq!['.'] + (e + seq!['.'] + n));
    assert(split(m, '.') =~= seq![c, e, n]) by {
        crate::text::lemma_split_prefix(c, '.', e + seq!['.'] + n);
        crate::text::lemma_split_prefix(e, '.', n);
        crate::text::lemma_split_whole(n, '.');
    }
    let segs = seq![c, e, n];
    assert(is_identifier(segs[0]));
    assert(is_identifier(segs[1]));
    assert(is_identifier(segs[2]));
    assert(first_bad_segment(segs, 3) is None);
    assert(first_bad_segment(segs, 2) is None);
    assert(first_bad_segment(segs, 1) is None);
    assert(first_bad_segment(segs, 0) is None);
    assert(replace_char(m, '.', "/"@) =~= c + "/"@ + e + "/"@ + n) by {
        crate::text::lemma_replace_char_concat(c + seq!['.'] + e + seq!['.'], n, '.', "/"@);
        crate::text::lemma_replace_char_concat(c + seq!['.'] + e, seq!['.'], '.', "/"@);
        crate::text::lemma_replace_char_concat(c + seq!['.'], e, '.', "/"@);
        crate::text::lemma_replace_char_concat(c, seq!['.'], '.', "/"@);
        crate::text::lemma_replace_char_absent(c, '.', "/"@);
        crate::text::lemma_replace_char_absent(e, '.', "/"@);
        crate::text::lemma_replace_char_absent(n, '.', "/"@);
        let dot = seq!['.'];
        assert(dot.drop_last() =~= Seq::<char>::empty());
        assert(dot.last() == '.');
        assert(replace_char(dot.drop_last(), '.', "/"@) =~= Seq::<char>::empty());
        assert(replace_char(dot, '.', "/"@) =~= "/"@);
        assert(c + seq!['.'] + (e + seq!['.'] + n) =~= c + seq!['.'] + e + seq!['.'] + n);
    }
    reveal_strlit("/");
    reveal_strlit(".java");
    reveal_strlit("com/example/Main.java");
    assert(c + "/"@ + e + "/"@ + n + ".java"@ =~= "com/example/Main.java"@);
    reveal_strlit("hello-world");
    reveal_strlit("-");
    reveal_strlit("0.0.1");
    reveal_strlit(".jar");
    reveal_strlit("hello-world-0.0.1.jar");
    assert("hello-world"@ + "-"@ + "0.0.1"@ + ".jar"@ =~= "hello-world-0.0.1.jar"@);
}

} // verus!
