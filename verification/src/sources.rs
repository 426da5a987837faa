//! Which files a build reads and writes: the Java sources it compiles and
//! formats, the resources it copies, and the files `ax init` and `ax clean`
//! touch. The application walks the directories and asks the library at
//! each step; the library decides.
use vstd::prelude::*;
use crate::config::{class_source_path, spec_main_class, spec_src_rel, Config};
use crate::order::{paths_sorted, sort_paths, sort_paths_spec};
use crate::paths::{
    is_same_or_child, normalize_path, normal_components, path_join, render_components,
    spec_java_file, spec_same_or_child, strip_components,
};
use crate::text::{concat, push_str, views};

verus! {

broadcast use vstd::seq_lib::group_to_multiset_ensures;

// ---------------------------------------------------------------------------
// Sources to compile
// ---------------------------------------------------------------------------

/// The directories under the source root that hold no production sources:
/// the test root and the build output, when they lie under it.
pub open spec fn spec_production_excludes(src: Seq<char>, test_root: Seq<char>, target: Seq<char>) -> Seq<
    Seq<char>,
> {
    (if spec_same_or_child(test_root, src) {
        seq![test_root]
    } else {
        Seq::empty()
    }) + (if spec_same_or_child(target, src) {
        seq![target]
    } else {
        Seq::empty()
    })
}

/// The directories that compiling the project skips.
pub fn production_excludes(config: &Config) -> (r: Vec<String>)
    ensures
        views(r@) == spec_production_excludes(
            config.src_dir_view(),
            config.test_root_view(),
            config.target_view(),
        ),
{
    let src_dir = config.src_dir();
    let test_root = config.test_root_dir();
    let target_dir = config.target_dir();
    let mut r: Vec<String> = Vec::new();
    let ghost a: Seq<Seq<char>> = if spec_same_or_child(test_root@, src_dir@) {
        seq![test_root@]
    } else {
        Seq::empty()
    };
    if is_same_or_child(test_root.as_str(), src_dir.as_str()) {
        r.push(test_root);
    }
    assert(views(r@) =~= a);
    let ghost before = r@;
    if is_same_or_child(target_dir.as_str(), src_dir.as_str()) {
        r.push(target_dir);
        assert(views(r@) =~= views(before).push(config.target_view()));
    }
    assert(views(r@) =~= spec_production_excludes(
        config.src_dir_view(),
        config.test_root_view(),
        config.target_view(),
    ));
    r
}

/// `dir` is one of `excludes` or lies under one.
pub open spec fn spec_excluded(dir: Seq<char>, excludes: Seq<Seq<char>>) -> bool {
    exists|k: int| 0 <= k < excludes.len() && spec_same_or_child(dir, #[trigger] excludes[k])
}

/// What walking a source directory does: skip it when it is excluded,
/// fail when it does not exist, else read it.
pub open spec fn spec_visit_source_dir(dir: Seq<char>, excludes: Seq<Seq<char>>, exists: bool) -> Result<
    bool,
    Seq<char>,
> {
    if spec_excluded(dir, excludes) {
        Ok(false)
    } else if !exists {
        Err("Source directory `"@ + dir + "` does not exist"@)
    } else {
        Ok(true)
    }
}

/// Whether to read the source directory `dir` (`Ok(true)`), skip it
/// (`Ok(false)`), or fail.
pub fn visit_source_dir(dir: &str, excludes: &Vec<String>, exists: bool) -> (r: Result<bool, String>)
    ensures
        match spec_visit_source_dir(dir@, views(excludes@), exists) {
            Ok(b) => r == Ok::<bool, String>(b),
            Err(m) => r matches Err(e) && e@ == m,
        },
{
    let mut k: usize = 0;
    while k < excludes.len()
        invariant
            k <= excludes@.len(),
            forall|j: int| 0 <= j < k ==> !spec_same_or_child(dir@, #[trigger] views(excludes@)[j]),
        decreases excludes.len() - k,
    {
        assert(views(excludes@)[k as int] == excludes@[k as int]@);
        if is_same_or_child(dir, excludes[k].as_str()) {
            return Ok(false);
        }
        k = k + 1;
    }
    if !exists {
        let mut m = concat("Source directory `", dir);
        push_str(&mut m, "` does not exist");
        return Err(m);
    }
    Ok(true)
}

/// The message when the main class's source file is missing.
pub open spec fn missing_main_message(config: &Config) -> Seq<char> {
    "Main source file `"@ + path_join(
        config.src_dir_view(),
        class_source_path(spec_main_class(config.toml())),
    ) + "` does not exist. `[package].main` is `"@ + spec_main_class(config.toml())
        + "` and `[package].root` is `"@ + config.src_dir_view() + "`"@
}

/// Compiling fails first when the main class's source file is missing.
pub fn check_main_file(config: &Config, main_file_exists: bool) -> (r: Result<(), String>)
    ensures
        main_file_exists ==> r is Ok,
        !main_file_exists ==> (r matches Err(e) && e@ == missing_main_message(config)),
{
    if main_file_exists {
        return Ok(());
    }
    let main_file = config.main_file();
    let mut m = concat("Main source file `", main_file.as_str());
    push_str(&mut m, "` does not exist. `[package].main` is `");
    let main = config.main_class_name();
    push_str(&mut m, main.as_str());
    push_str(&mut m, "` and `[package].root` is `");
    let src = config.src_dir();
    push_str(&mut m, src.as_str());
    push_str(&mut m, "`");
    Err(m)
}

/// The sources to compile, in path order; compiling fails when there are
/// none.
pub fn compile_source_list(config: &Config, java_files: &Vec<String>) -> (r: Result<Vec<String>, String>)
    ensures
        java_files@.len() == 0 ==> (r matches Err(e) && e@ == "No Java source files found in `"@
            + config.src_dir_view() + "`"@),
        java_files@.len() > 0 ==> (r matches Ok(v) && views(v@) == sort_paths_spec(views(java_files@))),
{
    if java_files.len() == 0 {
        let src = config.src_dir();
        let mut m = concat("No Java source files found in `", src.as_str());
        push_str(&mut m, "`");
        return Err(m);
    }
    Ok(sort_paths(java_files))
}

// ---------------------------------------------------------------------------
// Sources to format
// ---------------------------------------------------------------------------

/// What formatting does with one of its two roots (the source root first,
/// then the test root): a missing source root fails, a missing test root
/// is skipped.
pub open spec fn spec_visit_format_root(root: Seq<char>, src: Seq<char>, exists: bool) -> Result<bool, Seq<char>> {
    if exists {
        Ok(true)
    } else if root == src {
        Err("Source directory `"@ + root + "` does not exist"@)
    } else {
        Ok(false)
    }
}

/// Whether to read a formatting root (`Ok(true)`), skip it, or fail.
pub fn visit_format_root(config: &Config, root: &str, exists: bool) -> (r: Result<bool, String>)
    ensures
        match spec_visit_format_root(root@, config.src_dir_view(), exists) {
            Ok(b) => r == Ok::<bool, String>(b),
            Err(m) => r matches Err(e) && e@ == m,
        },
{
    if exists {
        return Ok(true);
    }
    let src = config.src_dir();
    if root.to_owned() == src {
        let mut m = concat("Source directory `", root);
        push_str(&mut m, "` does not exist");
        Err(m)
    } else {
        Ok(false)
    }
}

/// The roots that `ax fmt` formats: the source root, then the test root.
pub fn format_roots(config: &Config) -> (r: Vec<String>)
    ensures
        views(r@) == seq![config.src_dir_view(), config.test_root_view()],
{
    let r = vec![config.src_dir(), config.test_root_dir()];
    assert(views(r@) =~= seq![config.src_dir_view(), config.test_root_view()]);
    r
}

/// The files of `s` whose normalized path no earlier file has.
pub open spec fn first_by_normal_form(s: Seq<Seq<char>>) -> Seq<Seq<char>>
    decreases s.len(),
{
    if s.len() == 0 {
        s
    } else {
        let prev = first_by_normal_form(s.drop_last());
        if exists|k: int|
            0 <= k < s.len() - 1 && #[trigger] normal_components(s[k]) == normal_components(s.last()) {
            prev
        } else {
            prev.push(s.last())
        }
    }
}

/// The Java files that `ax fmt` formats: each file once (by normalized
/// path, the first kept), in path order.
pub fn format_file_list(java_files: &Vec<String>) -> (r: Vec<String>)
    ensures
        views(r@) == sort_paths_spec(first_by_normal_form(views(java_files@))),
        paths_sorted(views(r@)),
{
    let ghost fv = views(java_files@);
    let mut kept: Vec<String> = Vec::new();
    let mut seen: Vec<Vec<String>> = Vec::new();
    let mut i: usize = 0;
    assert(fv.subrange(0, 0) =~= Seq::<Seq<char>>::empty());
    while i < java_files.len()
        invariant
            i <= java_files@.len(),
            fv == views(java_files@),
            seen@.len() == i,
            forall|k: int| 0 <= k < i ==> views(#[trigger] seen@[k]@) == normal_components(fv[k]),
            views(kept@) == first_by_normal_form(fv.subrange(0, i as int)),
        decreases java_files.len() - i,
    {
        let f = &java_files[i];
        assert(fv[i as int] == f@);
        let key = crate::paths::normal_list_of(f.as_str());
        let mut dup = false;
        let mut k: usize = 0;
        while k < seen.len()
            invariant
                k <= seen@.len(),
                seen@.len() == i,
                views(key@) == normal_components(fv[i as int]),
                forall|j: int| 0 <= j < i ==> views(#[trigger] seen@[j]@) == normal_components(fv[j]),
                dup <==> exists|j: int|
                    0 <= j < k && #[trigger] normal_components(fv[j]) == normal_components(fv[i as int]),
            decreases seen.len() - k,
        {
            let same = crate::paths::same_components(&seen[k], &key);
            if same {
                dup = true;
            }
            proof {
                assert(views(seen@[k as int]@) == normal_components(fv[k as int]));
            }
            k = k + 1;
        }
        let ghost sub = fv.subrange(0, i + 1);
        assert(sub.drop_last() =~= fv.subrange(0, i as int));
        assert(sub.last() == fv[i as int]);
        assert((exists|j: int|
            0 <= j < sub.len() - 1 && #[trigger] normal_components(sub[j]) == normal_components(
                sub.last(),
            )) == dup) by {
            if dup {
                let j = choose|j: int|
                    0 <= j < i && #[trigger] normal_components(fv[j]) == normal_components(fv[i as int]);
                assert(sub[j] == fv[j]);
            }
            if exists|j: int|
                0 <= j < sub.len() - 1 && #[trigger] normal_components(sub[j]) == normal_components(
                    sub.last(),
                ) {
                let j = choose|j: int|
                    0 <= j < sub.len() - 1 && #[trigger] normal_components(sub[j])
                        == normal_components(sub.last());
                assert(sub[j] == fv[j]);
            }
        }
        if !dup {
            crate::text::push_clone(&mut kept, f);
        }
        seen.push(key);
        i = i + 1;
    }
    assert(fv.subrange(0, java_files@.len() as int) =~= fv);
    sort_paths(&kept)
}

/// The normalized form under which `ax fmt` recognizes a file it has seen.
pub fn format_file_key(path: &str) -> (r: String)
    ensures
        r@ == render_components(normal_components(path@)),
{
    normalize_path(path)
}

// ---------------------------------------------------------------------------
// Resources
// ---------------------------------------------------------------------------

/// The message for a missing resource directory.
pub open spec fn missing_resource_dir_message(dir: Seq<char>) -> Seq<char> {
    "Resource directory `"@ + dir + "` does not exist"@
}

/// Copying resources fails on a configured directory that does not exist.
pub fn check_resource_dir(dir: &str, exists: bool) -> (r: Result<(), String>)
    ensures
        exists ==> r is Ok,
        !exists ==> (r matches Err(e) && e@ == missing_resource_dir_message(dir@)),
{
    if exists {
        Ok(())
    } else {
        let mut m = concat("Resource directory `", dir);
        push_str(&mut m, "` does not exist");
        Err(m)
    }
}

/// A file under a resource directory is copied unless it is a Java source.
pub fn is_copied_resource(path: &str) -> (b: bool)
    ensures
        b == !spec_java_file(path@),
{
    !crate::paths::has_java_extension(path)
}

/// Where a resource file is copied: its path under the resource directory,
/// joined to the classes directory.
pub open spec fn spec_resource_output(root: Seq<char>, path: Seq<char>, classes: Seq<char>) -> Result<
    Seq<char>,
    Seq<char>,
> {
    match strip_components(path, root) {
        Some(rest) => Ok(path_join(classes, crate::text::join(rest, "/"@))),
        None => Err(
            "Failed to calculate resource path for `"@ + path + "` relative to `"@ + root
                + "`: prefix not found"@,
        ),
    }
}

/// Where the resource file `path` under `root` is copied.
pub fn resource_output(root: &str, path: &str, classes_dir: &str) -> (r: Result<String, String>)
    ensures
        match spec_resource_output(root@, path@, classes_dir@) {
            Ok(p) => r matches Ok(s) && s@ == p,
            Err(m) => r matches Err(e) && e@ == m,
        },
{
    match crate::jar::strip_prefix(path, root) {
        Some(rest) => {
            let rel = crate::text::join_strs(&rest, "/");
            Ok(crate::paths::join(classes_dir, rel.as_str()))
        },
        None => {
            let mut m = concat("Failed to calculate resource path for `", path);
            push_str(&mut m, "` relative to `");
            push_str(&mut m, root);
            push_str(&mut m, "`: prefix not found");
            Err(m)
        },
    }
}

// ---------------------------------------------------------------------------
// `ax clean` and `ax init`
// ---------------------------------------------------------------------------

/// The build output directory of the project at `root`.
pub fn clean_target(root: &str) -> (r: String)
    ensures
        r@ == path_join(root@, "target"@),
{
    crate::paths::join(root, "target")
}

/// What `ax clean` does with the target directory: nothing when it is
/// missing (`Ok(false)`), fail when it is not a directory, else remove it
/// (`Ok(true)`).
pub fn clean_decision(target: &str, exists: bool, is_dir: bool) -> (r: Result<bool, String>)
    ensures
        !exists ==> r == Ok::<bool, String>(false),
        exists && !is_dir ==> (r matches Err(e) && e@ == "`"@ + target@
            + "` exists but is not a directory"@),
        exists && is_dir ==> r == Ok::<bool, String>(true),
{
    if !exists {
        return Ok(false);
    }
    if !is_dir {
        let mut m = concat("`", target);
        push_str(&mut m, "` exists but is not a directory");
        return Err(m);
    }
    Ok(true)
}

/// The main class that `ax init` writes.
pub open spec fn init_main_java() -> Seq<char> {
    "package com.example;\n\npublic class Main {\n    public static void main(String[] args) {\n        System.out.println(\"Hello, world!\");\n    }\n}"@
}

/// The project file that `ax init` writes.
pub open spec fn init_ax_toml() -> Seq<char> {
    "[package]\nname = \"hello-world\"\nversion = \"0.0.1\"\nroot = \"./src\"\nmain = \"com.example.Main\"\n\n[dependencies]"@
}

/// What `ax init` creates under `root`: the package directory, then the
/// files with their contents.
pub struct InitPlan {
    pub source_dir: String,
    pub files: Vec<(String, String)>,
}

/// The directory and files of a new project at `root`.
pub fn init_plan(root: &str) -> (p: InitPlan)
    ensures
        p.source_dir@ == root@ + "/src/com/example"@,
        crate::order::pair_views(p.files@) == seq![
            (root@ + "/src/com/example/Main.java"@, init_main_java()),
            (root@ + "/ax.toml"@, init_ax_toml()),
        ],
{
    let source_dir = concat(root, "/src/com/example");
    let main = concat(root, "/src/com/example/Main.java");
    let toml = concat(root, "/ax.toml");
    let files = vec![
        (main, "package com.example;\n\npublic class Main {\n    public static void main(String[] args) {\n        System.out.println(\"Hello, world!\");\n    }\n}".to_owned()),
        (toml, "[package]\nname = \"hello-world\"\nversion = \"0.0.1\"\nroot = \"./src\"\nmain = \"com.example.Main\"\n\n[dependencies]".to_owned()),
    ];
    assert(crate::order::pair_views(files@) =~= seq![
        (root@ + "/src/com/example/Main.java"@, init_main_java()),
        (root@ + "/ax.toml"@, init_ax_toml()),
    ]);
    InitPlan { source_dir, files }
}

} // verus!
