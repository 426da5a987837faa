use aurex::config::{Config, ConfigToml, Package};
use aurex::maven::{Coordinate, ResolvedArtifact};
use aurex::order::sort_paths;
use aurex::paths::{has_java_extension, is_same_or_child, normalize_path};
use aurex::sources::{
    check_main_file, clean_decision, compile_source_list, format_file_list, init_plan,
    production_excludes, resource_output, visit_format_root, visit_source_dir,
};
use aurex::stages::FormatTool;
use aurex::tools::{
    append_command_output, append_output_stream, choose_format_tool, command_output_text,
    compile_classpath, eclipse_options_properties, formatter_coordinate,
    google_java_format_arguments, java_properties_escape, java_version_failure,
    java_version_output, javac_arguments, junit_arguments, junit_console_coordinate,
    parse_eclipse_formatter_options,
};

fn config(root: &str, src: Option<&str>, test_root: Option<&str>) -> Config {
    Config::new(
        root.to_string(),
        ConfigToml {
            package: Package {
                name: "demo".to_string(),
                main: None,
                root: src.map(|s| s.to_string()),
                test_root: test_root.map(|s| s.to_string()),
                version: None,
                jar_name: None,
            },
            dependencies: None,
            build: None,
            repositories: None,
            resources: None,
        },
    )
    .unwrap()
}

#[test]
fn tool_coordinates() {
    assert_eq!(
        junit_console_coordinate().to_string(),
        "org.junit.platform:junit-platform-console-standalone:1.14.0"
    );
    assert_eq!(
        formatter_coordinate(FormatTool::GoogleJavaFormat).to_string(),
        "com.google.googlejavaformat:google-java-format:1.35.0"
    );
    assert_eq!(
        formatter_coordinate(FormatTool::EclipseJdt).to_string(),
        "org.eclipse.jdt:org.eclipse.jdt.core:3.45.0"
    );
    assert_eq!(choose_format_tool(0, true), None);
    assert_eq!(choose_format_tool(2, true), Some(FormatTool::EclipseJdt));
    assert_eq!(choose_format_tool(2, false), Some(FormatTool::GoogleJavaFormat));
}

#[test]
fn command_lines() {
    let files = vec!["A.java".to_string(), "B.java".to_string()];
    assert_eq!(
        javac_arguments("cp", "out", &files),
        vec!["-cp", "cp", "-d", "out", "A.java", "B.java"]
    );
    assert_eq!(
        junit_arguments("cp"),
        vec!["-cp", "cp", "org.junit.platform.console.ConsoleLauncher", "--scan-class-path"]
    );
    let google = google_java_format_arguments("cp", &files);
    assert_eq!(google.len(), 6 + 4 + 2);
    assert_eq!(google[6], "-cp");
    assert_eq!(google[9], "--replace");
    let artifacts = vec![ResolvedArtifact {
        coordinate: Coordinate::new("g".to_string(), "a".to_string(), "1".to_string()).unwrap(),
        jar_path: "deps/a-1.jar".to_string(),
    }];
    let c = config("p", None, None);
    assert_eq!(compile_classpath(&c, &artifacts), vec!["p/./src", "deps/a-1.jar"]);
}

#[test]
fn process_output_texts() {
    let mut text = "out".to_string();
    append_output_stream(&mut text, b"err");
    assert_eq!(text, "out\nerr");
    append_output_stream(&mut text, b"");
    assert_eq!(text, "out\nerr");
    assert_eq!(command_output_text(b"a\n", b"b"), "a\nb");
    assert_eq!(command_output_text(b"", b"\xff"), "\u{fffd}");
    let mut message = "javac failed".to_string();
    append_command_output(&mut message, "line\n\n");
    assert_eq!(message, "javac failed:\nline");
    let mut quiet = "x".to_string();
    append_command_output(&mut quiet, " \n");
    assert_eq!(quiet, "x");
    assert_eq!(
        java_version_failure("exit status: 1", b"  boom \n"),
        "java -version failed with status exit status: 1: boom"
    );
    assert_eq!(java_version_output(b"", b"openjdk 21"), "openjdk 21\n");
    assert_eq!(java_version_output(b"a", b"b\n"), "a\nb\n");
}

#[test]
fn eclipse_options() {
    assert_eq!(java_properties_escape("a\\b\r\nc"), "a\\\\b\\r\\nc");
    let xml = r#"<profiles><profile>
        <setting id="z.key" value="1"/>
        <setting id="a.key" value="x&#10;y"/>
        <setting id="no.value"/>
        <other id="b" value="2"/>
    </profile></profiles>"#;
    let options = parse_eclipse_formatter_options(xml, "eclipse-formatter.xml").unwrap();
    assert_eq!(
        options,
        vec![
            ("a.key".to_string(), "x\ny".to_string()),
            ("z.key".to_string(), "1".to_string())
        ]
    );
    assert_eq!(eclipse_options_properties(&options), "a.key=x\\ny\nz.key=1\n");
    let error = parse_eclipse_formatter_options("<a>", "f.xml").unwrap_err();
    assert!(error.starts_with("Failed to parse `f.xml`: "));
}

#[test]
fn paths_normalize_and_nest() {
    assert_eq!(normalize_path("./a/../b/./c"), "b/c");
    assert_eq!(normalize_path("/x/../.."), "/..");
    assert_eq!(normalize_path("../.."), "");
    assert!(is_same_or_child("p/src/test/java", "p/./src"));
    assert!(is_same_or_child("p/src", "p/src/"));
    assert!(!is_same_or_child("p/srcx", "p/src"));
    assert!(has_java_extension("src/A.java"));
    assert!(!has_java_extension("src/.java"));
    assert!(!has_java_extension("src/A.javax"));
}

#[test]
fn sources_are_sorted_by_path_components() {
    let files = vec!["a-b".to_string(), "a/b".to_string(), "a".to_string()];
    assert_eq!(sort_paths(&files), vec!["a", "a/b", "a-b"]);
    let c = config("p", None, None);
    assert_eq!(
        compile_source_list(&c, &vec!["p/src/B.java".to_string(), "p/src/A.java".to_string()])
            .unwrap(),
        vec!["p/src/A.java", "p/src/B.java"]
    );
    assert_eq!(
        compile_source_list(&c, &Vec::new()).unwrap_err(),
        "No Java source files found in `p/./src`"
    );
    assert_eq!(
        format_file_list(&vec!["p/./x/A.java".to_string(), "p/x/A.java".to_string()]),
        vec!["p/./x/A.java"]
    );
}

#[test]
fn source_walk_decisions() {
    let c = config("p", Some("."), Some("./test"));
    assert_eq!(production_excludes(&c), vec!["p/./test", "p/target"]);
    let excludes = production_excludes(&c);
    assert_eq!(visit_source_dir("p/test/x", &excludes, true), Ok(false));
    assert_eq!(visit_source_dir("p/src", &excludes, true), Ok(true));
    assert_eq!(
        visit_source_dir("p/src", &excludes, false),
        Err("Source directory `p/src` does not exist".to_string())
    );
    assert_eq!(visit_format_root(&c, "p/./test", false), Ok(false));
    assert!(visit_format_root(&c, "p/.", false).is_err());
    let missing = check_main_file(&c, false).unwrap_err();
    assert_eq!(
        missing,
        "Main source file `p/./com/example/Main.java` does not exist. `[package].main` is `com.example.Main` and `[package].root` is `p/.`"
    );
}

#[test]
fn resources_init_and_clean() {
    assert_eq!(
        resource_output("res", "res/conf/a.txt", "t/classes"),
        Ok("t/classes/conf/a.txt".to_string())
    );
    assert!(resource_output("res", "other/a.txt", "t/classes").is_err());
    let plan = init_plan(".");
    assert_eq!(plan.source_dir, "./src/com/example");
    assert_eq!(plan.files[0].0, "./src/com/example/Main.java");
    assert!(plan.files[0].1.contains("System.out.println(\"Hello, world!\");"));
    assert_eq!(plan.files[1].0, "./ax.toml");
    assert!(plan.files[1].1.starts_with("[package]\nname = \"hello-world\""));
    assert_eq!(clean_decision("t", false, false), Ok(false));
    assert_eq!(clean_decision("t", true, true), Ok(true));
    assert_eq!(
        clean_decision("t", true, false),
        Err("`t` exists but is not a directory".to_string())
    );
}
