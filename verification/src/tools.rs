//! The tools a project runs: `javac`, the JUnit console launcher and the
//! two formatters. The library names the tools' artifacts, assembles their
//! class paths and command lines, and turns what they print into messages;
//! the application starts the processes.
use vstd::prelude::*;
use crate::config::Config;
use crate::maven::{Coordinate, ResolvedArtifact};
use crate::stages::FormatTool;
use crate::order::{pair_views, sort_by_key, sort_pairs};
use crate::xml::{attribute, attribute_from, node_view, nodes_view, parse_xml, xml_document, NodeView};
use crate::text::{
    concat, ends_with_char, is_blank, lossy_text, push_str, replace_char, replace_char_str, trim,
    trim_end, trim_str, utf8_lossy, views,
};

verus! {

// ---------------------------------------------------------------------------
// Tool artifacts
// ---------------------------------------------------------------------------

/// The JUnit console launcher that `ax test` runs.
pub open spec fn junit_console_view() -> (Seq<char>, Seq<char>, Seq<char>) {
    ("org.junit.platform"@, "junit-platform-console-standalone"@, "1.14.0"@)
}

/// The artifact of each formatter.
pub open spec fn formatter_view(tool: FormatTool) -> (Seq<char>, Seq<char>, Seq<char>) {
    match tool {
        FormatTool::GoogleJavaFormat => (
            "com.google.googlejavaformat"@,
            "google-java-format"@,
            "1.35.0"@,
        ),
        FormatTool::EclipseJdt => ("org.eclipse.jdt"@, "org.eclipse.jdt.core"@, "3.45.0"@),
    }
}

/// The coordinate of the JUnit console launcher.
pub fn junit_console_coordinate() -> (c: Coordinate)
    ensures
        c@ == junit_console_view(),
{
    Coordinate {
        group_id: "org.junit.platform".to_owned(),
        artifact_id: "junit-platform-console-standalone".to_owned(),
        version: "1.14.0".to_owned(),
    }
}

/// The coordinate of a formatter.
pub fn formatter_coordinate(tool: FormatTool) -> (c: Coordinate)
    ensures
        c@ == formatter_view(tool),
{
    match tool {
        FormatTool::GoogleJavaFormat => Coordinate {
            group_id: "com.google.googlejavaformat".to_owned(),
            artifact_id: "google-java-format".to_owned(),
            version: "1.35.0".to_owned(),
        },
        FormatTool::EclipseJdt => Coordinate {
            group_id: "org.eclipse.jdt".to_owned(),
            artifact_id: "org.eclipse.jdt.core".to_owned(),
            version: "3.45.0".to_owned(),
        },
    }
}

/// `ax fmt` formats with Eclipse JDT when the project has an
/// `eclipse-formatter.xml`, else with google-java-format; with no Java
/// file it formats nothing.
pub open spec fn spec_format_tool(file_count: nat, eclipse_config_exists: bool) -> Option<FormatTool> {
    if file_count == 0 {
        None
    } else if eclipse_config_exists {
        Some(FormatTool::EclipseJdt)
    } else {
        Some(FormatTool::GoogleJavaFormat)
    }
}

/// Which formatter `ax fmt` runs on `file_count` files.
pub fn choose_format_tool(file_count: usize, eclipse_config_exists: bool) -> (t: Option<FormatTool>)
    ensures
        t == spec_format_tool(file_count as nat, eclipse_config_exists),
{
    if file_count == 0 {
        None
    } else if eclipse_config_exists {
        Some(FormatTool::EclipseJdt)
    } else {
        Some(FormatTool::GoogleJavaFormat)
    }
}

// ---------------------------------------------------------------------------
// Class paths
// ---------------------------------------------------------------------------

/// The jar files of resolved artifacts, in order.
pub open spec fn jar_paths(artifacts: Seq<ResolvedArtifact>) -> Seq<Seq<char>> {
    artifacts.map_values(|a: ResolvedArtifact| a.jar_path@)
}

/// Appends the artifacts' jar files to `entries`.
fn push_jar_paths(entries: &mut Vec<String>, artifacts: &[ResolvedArtifact])
    ensures
        views(final(entries)@) == views(old(entries)@) + jar_paths(artifacts@),
{
    let mut i: usize = 0;
    while i < artifacts.len()
        invariant
            i <= artifacts@.len(),
            views(entries@) == views(old(entries)@) + jar_paths(artifacts@).subrange(0, i as int),
        decreases artifacts.len() - i,
    {
        let ghost before = entries@;
        entries.push(artifacts[i].jar_path.clone());
        assert(views(entries@) =~= views(before).push(artifacts@[i as int].jar_path@));
        assert(jar_paths(artifacts@).subrange(0, i + 1) =~= jar_paths(artifacts@).subrange(
            0,
            i as int,
        ).push(artifacts@[i as int].jar_path@));
        i = i + 1;
    }
    assert(jar_paths(artifacts@).subrange(0, artifacts@.len() as int) =~= jar_paths(artifacts@));
}

/// The jar files of resolved artifacts.
pub fn artifact_paths(artifacts: &[ResolvedArtifact]) -> (r: Vec<String>)
    ensures
        views(r@) == jar_paths(artifacts@),
{
    let mut r: Vec<String> = Vec::new();
    assert(views(r@) =~= Seq::<Seq<char>>::empty());
    push_jar_paths(&mut r, artifacts);
    assert(views(r@) =~= jar_paths(artifacts@));
    r
}

/// The class path that compiles the project: its source root, then the
/// dependency jars.
pub fn compile_classpath(config: &Config, artifacts: &[ResolvedArtifact]) -> (r: Vec<String>)
    ensures
        views(r@) == seq![config.src_dir_view()] + jar_paths(artifacts@),
{
    let mut r: Vec<String> = Vec::new();
    r.push(config.src_dir());
    assert(views(r@) =~= seq![config.src_dir_view()]);
    push_jar_paths(&mut r, artifacts);
    r
}

/// The class path that compiles the tests: the project's classes, the test
/// root, the source root, the dependency jars, then the tool jars.
pub fn test_compile_classpath(
    config: &Config,
    artifacts: &[ResolvedArtifact],
    tool_artifacts: &[ResolvedArtifact],
) -> (r: Vec<String>)
    ensures
        views(r@) == seq![config.classes_dir_view(), config.test_root_view(), config.src_dir_view()]
            + jar_paths(artifacts@) + jar_paths(tool_artifacts@),
{
    let mut r: Vec<String> = Vec::new();
    r.push(config.classes_dir());
    r.push(config.test_root_dir());
    r.push(config.src_dir());
    assert(views(r@) =~= seq![
        config.classes_dir_view(),
        config.test_root_view(),
        config.src_dir_view(),
    ]);
    push_jar_paths(&mut r, artifacts);
    push_jar_paths(&mut r, tool_artifacts);
    r
}

/// The class path that runs the tests: the project's classes, the test
/// classes, the dependency jars, then the tool jars.
pub fn junit_classpath(
    config: &Config,
    artifacts: &[ResolvedArtifact],
    tool_artifacts: &[ResolvedArtifact],
) -> (r: Vec<String>)
    ensures
        views(r@) == seq![config.classes_dir_view(), config.test_classes_view()] + jar_paths(
            artifacts@,
        ) + jar_paths(tool_artifacts@),
{
    let mut r: Vec<String> = Vec::new();
    r.push(config.classes_dir());
    r.push(config.test_classes_dir());
    assert(views(r@) =~= seq![config.classes_dir_view(), config.test_classes_view()]);
    push_jar_paths(&mut r, artifacts);
    push_jar_paths(&mut r, tool_artifacts);
    r
}

// ---------------------------------------------------------------------------
// Command lines
// ---------------------------------------------------------------------------

/// Appends copies of `items` to `v`.
fn push_all(v: &mut Vec<String>, items: &Vec<String>)
    ensures
        views(final(v)@) == views(old(v)@) + views(items@),
{
    let mut i: usize = 0;
    while i < items.len()
        invariant
            i <= items@.len(),
            views(v@) == views(old(v)@) + views(items@).subrange(0, i as int),
        decreases items.len() - i,
    {
        let ghost before = v@;
        v.push(items[i].clone());
        assert(views(v@) =~= views(before).push(items@[i as int]@));
        assert(views(items@).subrange(0, i + 1) =~= views(items@).subrange(0, i as int).push(
            items@[i as int]@,
        ));
        i = i + 1;
    }
    assert(views(items@).subrange(0, items@.len() as int) =~= views(items@));
}

/// `javac -cp <classpath> -d <classes_dir> <files...>`: the arguments.
pub fn javac_arguments(classpath: &str, classes_dir: &str, java_files: &Vec<String>) -> (r: Vec<String>)
    ensures
        views(r@) == seq!["-cp"@, classpath@, "-d"@, classes_dir@] + views(java_files@),
{
    let mut r: Vec<String> = Vec::new();
    r.push("-cp".to_owned());
    r.push(classpath.to_owned());
    r.push("-d".to_owned());
    r.push(classes_dir.to_owned());
    assert(views(r@) =~= seq!["-cp"@, classpath@, "-d"@, classes_dir@]);
    push_all(&mut r, java_files);
    r
}

/// The arguments of `java` that run the JUnit console launcher over the
/// class path.
pub fn junit_arguments(classpath: &str) -> (r: Vec<String>)
    ensures
        views(r@) == seq![
            "-cp"@,
            classpath@,
            "org.junit.platform.console.ConsoleLauncher"@,
            "--scan-class-path"@,
        ],
{
    let mut r: Vec<String> = Vec::new();
    r.push("-cp".to_owned());
    r.push(classpath.to_owned());
    r.push("org.junit.platform.console.ConsoleLauncher".to_owned());
    r.push("--scan-class-path".to_owned());
    assert(views(r@) =~= seq![
        "-cp"@,
        classpath@,
        "org.junit.platform.console.ConsoleLauncher"@,
        "--scan-class-path"@,
    ]);
    r
}

/// The `--add-exports` options that google-java-format needs on recent JDKs.
pub open spec fn spec_module_exports() -> Seq<Seq<char>> {
    seq![
        "--add-exports=jdk.compiler/com.sun.tools.javac.api=ALL-UNNAMED"@,
        "--add-exports=jdk.compiler/com.sun.tools.javac.code=ALL-UNNAMED"@,
        "--add-exports=jdk.compiler/com.sun.tools.javac.file=ALL-UNNAMED"@,
        "--add-exports=jdk.compiler/com.sun.tools.javac.parser=ALL-UNNAMED"@,
        "--add-exports=jdk.compiler/com.sun.tools.javac.tree=ALL-UNNAMED"@,
        "--add-exports=jdk.compiler/com.sun.tools.javac.util=ALL-UNNAMED"@,
    ]
}

/// The `--add-exports` options that google-java-format needs.
pub fn google_java_format_module_exports() -> (r: Vec<String>)
    ensures
        views(r@) == spec_module_exports(),
{
    let mut r: Vec<String> = Vec::new();
    r.push("--add-exports=jdk.compiler/com.sun.tools.javac.api=ALL-UNNAMED".to_owned());
    r.push("--add-exports=jdk.compiler/com.sun.tools.javac.code=ALL-UNNAMED".to_owned());
    r.push("--add-exports=jdk.compiler/com.sun.tools.javac.file=ALL-UNNAMED".to_owned());
    r.push("--add-exports=jdk.compiler/com.sun.tools.javac.parser=ALL-UNNAMED".to_owned());
    r.push("--add-exports=jdk.compiler/com.sun.tools.javac.tree=ALL-UNNAMED".to_owned());
    r.push("--add-exports=jdk.compiler/com.sun.tools.javac.util=ALL-UNNAMED".to_owned());
    assert(views(r@) =~= spec_module_exports());
    r
}

/// The arguments of `java` that run google-java-format in place on the
/// files.
pub fn google_java_format_arguments(classpath: &str, java_files: &Vec<String>) -> (r: Vec<String>)
    ensures
        views(r@) == spec_module_exports() + seq![
            "-cp"@,
            classpath@,
            "com.google.googlejavaformat.java.Main"@,
            "--replace"@,
        ] + views(java_files@),
{
    let mut r = google_java_format_module_exports();
    let ghost exports = views(r@);
    r.push("-cp".to_owned());
    r.push(classpath.to_owned());
    r.push("com.google.googlejavaformat.java.Main".to_owned());
    r.push("--replace".to_owned());
    assert(views(r@) =~= exports + seq![
        "-cp"@,
        classpath@,
        "com.google.googlejavaformat.java.Main"@,
        "--replace"@,
    ]);
    push_all(&mut r, java_files);
    r
}

/// The arguments of `java` that run the Eclipse formatter runner with the
/// options file on the files.
pub fn eclipse_formatter_arguments(classpath: &str, options_path: &str, java_files: &Vec<String>) -> (r:
    Vec<String>)
    ensures
        views(r@) == seq![
            "-cp"@,
            classpath@,
            "dev.aurex.tools.EclipseFormatterRunner"@,
            options_path@,
        ] + views(java_files@),
{
    let mut r: Vec<String> = Vec::new();
    r.push("-cp".to_owned());
    r.push(classpath.to_owned());
    r.push("dev.aurex.tools.EclipseFormatterRunner".to_owned());
    r.push(options_path.to_owned());
    assert(views(r@) =~= seq![
        "-cp"@,
        classpath@,
        "dev.aurex.tools.EclipseFormatterRunner"@,
        options_path@,
    ]);
    push_all(&mut r, java_files);
    r
}

// ---------------------------------------------------------------------------
// What the tools print
// ---------------------------------------------------------------------------

/// `text` followed by the text of a stream: nothing for an empty stream,
/// else a newline first when `text` is neither empty nor ends with one.
pub open spec fn spec_append_stream(text: Seq<char>, stream: Seq<u8>) -> Seq<char> {
    if stream.len() == 0 {
        text
    } else if text.len() > 0 && text.last() != '\n' {
        text + seq!['\n'] + lossy_text(stream)
    } else {
        text + lossy_text(stream)
    }
}

/// Appends the text of a process's output stream.
pub fn append_output_stream(text: &mut String, stream: &[u8])
    ensures
        final(text)@ == spec_append_stream(old(text)@, stream@),
{
    if stream.len() == 0 {
        return;
    }
    if text.as_str().unicode_len() > 0 && !ends_with_char(text.as_str(), '\n') {
        text.push('\n');
    }
    let s = utf8_lossy(stream);
    push_str(text, s.as_str());
}

/// What a process printed: its standard output, then its error output.
pub open spec fn spec_command_output(stdout: Seq<u8>, stderr: Seq<u8>) -> Seq<char> {
    spec_append_stream(spec_append_stream(Seq::empty(), stdout), stderr)
}

/// What a process printed.
pub fn command_output_text(stdout: &[u8], stderr: &[u8]) -> (r: String)
    ensures
        r@ == spec_command_output(stdout@, stderr@),
{
    let mut text = String::new();
    append_output_stream(&mut text, stdout);
    append_output_stream(&mut text, stderr);
    text
}

/// `message` followed, when the output is not blank, by `:`, a newline
/// and the output without trailing whitespace.
pub open spec fn spec_with_output(message: Seq<char>, output: Seq<char>) -> Seq<char> {
    if trim(output).len() == 0 {
        message
    } else {
        message + ":\n"@ + trim_end(output)
    }
}

/// Appends a failed process's output to an error message.
pub fn append_command_output(message: &mut String, output: &str)
    ensures
        final(message)@ == spec_with_output(old(message)@, output@),
{
    if !is_blank(output) {
        push_str(message, ":\n");
        let t = crate::text::trim_end_str(output);
        push_str(message, t.as_str());
    }
}

/// The message when `java -version` fails: its status, then what it
/// printed on its error stream, trimmed, when that is not blank.
pub open spec fn spec_java_version_failure(status: Seq<char>, stderr: Seq<u8>) -> Seq<char> {
    let err = lossy_text(stderr);
    let m = "java -version failed with status "@ + status;
    if trim(err).len() == 0 {
        m
    } else {
        m + ": "@ + trim(err)
    }
}

/// The message when `java -version` fails with `status`.
pub fn java_version_failure(status: &str, stderr: &[u8]) -> (r: String)
    ensures
        r@ == spec_java_version_failure(status@, stderr@),
{
    let err = utf8_lossy(stderr);
    let mut m = concat("java -version failed with status ", status);
    if !is_blank(err.as_str()) {
        push_str(&mut m, ": ");
        let t = trim_str(err.as_str());
        push_str(&mut m, t.as_str());
    }
    m
}

/// What `java -version` printed: its standard output, a newline when that
/// does not end one and error output follows, the error output, and a
/// final newline when missing.
pub open spec fn spec_java_version_output(stdout: Seq<u8>, stderr: Seq<u8>) -> Seq<char> {
    let out = lossy_text(stdout);
    let err = lossy_text(stderr);
    let a = if out.len() > 0 && out.last() != '\n' && err.len() > 0 {
        out + seq!['\n']
    } else {
        out
    };
    let b = a + err;
    if b.len() > 0 && b.last() == '\n' {
        b
    } else {
        b + seq!['\n']
    }
}

/// What `java -version` printed, as `ax java` shows it.
pub fn java_version_output(stdout: &[u8], stderr: &[u8]) -> (r: String)
    ensures
        r@ == spec_java_version_output(stdout@, stderr@),
{
    let mut v = utf8_lossy(stdout);
    let err = utf8_lossy(stderr);
    if v.as_str().unicode_len() > 0 && !ends_with_char(v.as_str(), '\n') && err.as_str().unicode_len()
        > 0 {
        v.push('\n');
    }
    push_str(&mut v, err.as_str());
    if !ends_with_char(v.as_str(), '\n') {
        v.push('\n');
    }
    v
}

// ---------------------------------------------------------------------------
// Eclipse formatter options
// ---------------------------------------------------------------------------

/// A value escaped for a Java properties file: backslashes doubled,
/// carriage returns and newlines written as `\r` and `\n`.
pub open spec fn spec_properties_escape(value: Seq<char>) -> Seq<char> {
    replace_char(replace_char(replace_char(value, '\\', "\\\\"@), '\r', "\\r"@), '\n', "\\n"@)
}

/// Escapes a value for a Java properties file.
pub fn java_properties_escape(value: &str) -> (r: String)
    ensures
        r@ == spec_properties_escape(value@),
{
    let a = replace_char_str(value, '\\', "\\\\");
    let b = replace_char_str(a.as_str(), '\r', "\\r");
    replace_char_str(b.as_str(), '\n', "\\n")
}

/// The lines `key=value` of a properties file, both escaped.
pub open spec fn spec_properties(options: Seq<(Seq<char>, Seq<char>)>) -> Seq<char>
    decreases options.len(),
{
    if options.len() == 0 {
        Seq::empty()
    } else {
        let o = options.last();
        spec_properties(options.drop_last()) + spec_properties_escape(o.0) + "="@
            + spec_properties_escape(o.1) + "\n"@
    }
}

/// The properties file that passes formatter options to the runner.
pub fn eclipse_options_properties(options: &Vec<(String, String)>) -> (r: String)
    ensures
        r@ == spec_properties(pair_views(options@)),
{
    let ghost ov = crate::order::pair_views(options@);
    let mut r = String::new();
    let mut i: usize = 0;
    while i < options.len()
        invariant
            i <= options@.len(),
            ov == crate::order::pair_views(options@),
            r@ == spec_properties(ov.subrange(0, i as int)),
        decreases options.len() - i,
    {
        assert(ov.subrange(0, i + 1).drop_last() =~= ov.subrange(0, i as int));
        assert(ov.subrange(0, i + 1).last() == (options@[i as int].0@, options@[i as int].1@));
        let k = java_properties_escape(options[i].0.as_str());
        let v = java_properties_escape(options[i].1.as_str());
        push_str(&mut r, k.as_str());
        push_str(&mut r, "=");
        push_str(&mut r, v.as_str());
        push_str(&mut r, "\n");
        i = i + 1;
    }
    assert(ov.subrange(0, options@.len() as int) =~= ov);
    r
}

/// The `(id, value)` of each `setting` element that has both, in document
/// order.
pub open spec fn setting_options(nodes: Seq<NodeView>) -> Seq<(Seq<char>, Seq<char>)>
    decreases nodes.len(),
{
    if nodes.len() == 0 {
        Seq::empty()
    } else {
        let prev = setting_options(nodes.drop_last());
        let n = nodes.last();
        if n.element && n.name == "setting"@ {
            match (attribute_from(n.attributes, "id"@, 0), attribute_from(n.attributes, "value"@, 0)) {
                (Some(id), Some(v)) => prev.push((id, v)),
                _ => prev,
            }
        } else {
            prev
        }
    }
}

/// What reading an Eclipse formatter profile gives: the settings ordered
/// by id (settings with equal ids keep their order), or the parser's
/// message.
pub open spec fn spec_formatter_options(xml: Seq<char>, path: Seq<char>) -> Result<
    Seq<(Seq<char>, Seq<char>)>,
    Seq<char>,
> {
    match xml_document(xml) {
        Ok(nodes) => Ok(sort_pairs(setting_options(nodes))),
        Err(msg) => Err("Failed to parse `"@ + path + "`: "@ + msg),
    }
}

/// The formatter options of the Eclipse profile `xml` read from `path`.
pub fn parse_eclipse_formatter_options(xml: &str, path: &str) -> (r: Result<Vec<(String, String)>, String>)
    ensures
        match spec_formatter_options(xml@, path@) {
            Ok(o) => r matches Ok(v) && pair_views(v@) == o,
            Err(m) => r matches Err(e) && e@ == m,
        },
{
    let nodes = match parse_xml(xml) {
        Ok(n) => n,
        Err(e) => {
            let mut m = concat("Failed to parse `", path);
            push_str(&mut m, "`: ");
            push_str(&mut m, e.as_str());
            return Err(m);
        },
    };
    let ghost nv = nodes_view(nodes@);
    let mut options: Vec<(String, String)> = Vec::new();
    let mut i: usize = 0;
    assert(nv.subrange(0, 0) =~= Seq::<NodeView>::empty());
    while i < nodes.len()
        invariant
            i <= nodes@.len(),
            nv == nodes_view(nodes@),
            pair_views(options@) == setting_options(nv.subrange(0, i as int)),
        decreases nodes.len() - i,
    {
        assert(nv.subrange(0, i + 1).drop_last() =~= nv.subrange(0, i as int));
        assert(nv.subrange(0, i + 1).last() == node_view(nodes@[i as int]));
        let n = &nodes[i];
        if n.element && n.name == "setting".to_owned() {
            match (attribute(n, "id"), attribute(n, "value")) {
                (Some(id), Some(v)) => {
                    let ghost before = options@;
                    options.push((id, v));
                    assert(pair_views(options@) =~= pair_views(before).push(
                        (options@.last().0@, options@.last().1@),
                    ));
                },
                _ => {},
            }
        }
        i = i + 1;
    }
    assert(nv.subrange(0, nodes@.len() as int) =~= nv);
    Ok(sort_by_key(options))
}

} // verus!
