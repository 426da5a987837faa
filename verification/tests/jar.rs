use aurex::config::Config;
use aurex::jar::{
    build_manifest, class_path_entries, create_classpath_jar, create_fat_jar, is_line_wrappable,
    is_service_file, manifest_fits, manifest_line, manifest_relative_path, path_to_slash_string,
    should_skip_dependency_entry, wrap_manifest_line, zip_name, DependencyEntry, JarEntry,
    MANIFEST_ENTRY,
};
use aurex::maven::{Coordinate, ResolvedArtifact};
use aurex::paths::join;

fn artifact(group_id: &str, artifact_id: &str, version: &str, jar_path: String) -> ResolvedArtifact {
    ResolvedArtifact {
        coordinate: Coordinate::new(
            group_id.to_string(),
            artifact_id.to_string(),
            version.to_string(),
        )
        .unwrap(),
        jar_path,
    }
}

fn entry(name: &str, contents: &[u8]) -> JarEntry {
    JarEntry { name: name.to_string(), contents: contents.to_vec() }
}

fn dependency(name: &str, contents: &[u8]) -> DependencyEntry {
    DependencyEntry { name: name.to_string(), is_dir: false, contents: contents.to_vec() }
}

fn text_of(entries: &[JarEntry], name: &str) -> String {
    let found = entries.iter().find(|e| e.name == name).expect("entry present");
    String::from_utf8(found.contents.clone()).unwrap()
}

fn bytes_of(entries: &[JarEntry], name: &str) -> Vec<u8> {
    entries.iter().find(|e| e.name == name).expect("entry present").contents.clone()
}

#[test]
fn wraps_long_manifest_lines() {
    let line = manifest_line(
        "Class-Path",
        "target/deps/a-1.0.0.jar target/deps/b-1.0.0.jar target/deps/c-1.0.0.jar",
    );

    assert!(line.lines().all(|line| line.len() <= 72));
    assert!(line.lines().skip(1).all(|line| line.starts_with(' ')));
}

#[test]
fn skips_signature_files_in_fat_jars() {
    assert!(should_skip_dependency_entry("META-INF/TEST.SF"));
    assert!(should_skip_dependency_entry("META-INF/TEST.RSA"));
    assert!(should_skip_dependency_entry("META-INF/MANIFEST.MF"));
    assert!(!should_skip_dependency_entry("com/example/Main.class"));
}

#[test]
fn renders_manifest_paths_with_slashes() {
    let path = join(&join("target", "deps"), "demo-1.0.jar");

    assert_eq!(path_to_slash_string(&path), "target/deps/demo-1.0.jar");
}

#[test]
fn creates_classpath_jar_with_manifest_and_project_classes() {
    let root = "target/jar-tests/classpath".to_string();
    let jar_path = join(&root, "app.jar");
    let class_files = vec![entry("com/example/Main.class", b"app-main")];
    let artifacts = vec![artifact(
        "org.example",
        "demo",
        "1.0.0",
        join(&root, "target/deps/demo-1.0.0.jar"),
    )];

    let entries = create_classpath_jar(&jar_path, "com.example.Main", &artifacts, &class_files);

    let manifest = text_of(&entries, "META-INF/MANIFEST.MF");
    assert!(manifest.contains("Manifest-Version: 1.0\n"));
    assert!(manifest.contains("Main-Class: com.example.Main\n"));
    assert!(manifest.contains("Class-Path: target/deps/demo-1.0.0.jar\n"));
    assert_eq!(bytes_of(&entries, "com/example/Main.class"), b"app-main");
}

#[test]
fn creates_fat_jar_with_dependency_classes_and_without_classpath() {
    let class_files = vec![entry("com/example/Main.class", b"app-main")];
    let dependency_jars = vec![vec![
        dependency("META-INF/MANIFEST.MF", b"Manifest-Version: 1.0\n"),
        dependency("META-INF/DEMO.SF", b"signature"),
        dependency("com/example/Main.class", b"dependency-main"),
        dependency("com/acme/Message.class", b"message"),
    ]];

    let entries = create_fat_jar("com.example.Main", &class_files, &dependency_jars);

    let manifest = text_of(&entries, "META-INF/MANIFEST.MF");
    assert!(manifest.contains("Main-Class: com.example.Main\n"));
    assert!(!manifest.contains("Class-Path:"));
    assert!(entries.iter().any(|e| e.name == "com/acme/Message.class"));
    assert!(!entries.iter().any(|e| e.name == "META-INF/DEMO.SF"));
    assert_eq!(bytes_of(&entries, "com/example/Main.class"), b"app-main");
}

#[test]
fn merges_service_files_in_fat_jars() {
    let class_files = vec![entry(
        "META-INF/services/com.example.Plugin",
        b"com.example.AppPlugin\n",
    )];
    let dependency_jars = vec![vec![dependency(
        "META-INF/services/com.example.Plugin",
        b"com.example.DependencyPlugin",
    )]];

    let entries = create_fat_jar("com.example.Main", &class_files, &dependency_jars);

    assert_eq!(
        text_of(&entries, "META-INF/services/com.example.Plugin"),
        "com.example.AppPlugin\ncom.example.DependencyPlugin\n"
    );
}

#[test]
fn manifest_lists_version_main_class_and_class_path_in_order() {
    let manifest = build_manifest("com.example.Main", &vec!["a.jar".to_string(), "b.jar".to_string()]);
    assert_eq!(
        manifest,
        "Manifest-Version: 1.0\nMain-Class: com.example.Main\nClass-Path: a.jar b.jar\n\n"
    );
    let no_path = build_manifest("com.example.Main", &Vec::new());
    assert_eq!(no_path, "Manifest-Version: 1.0\nMain-Class: com.example.Main\n\n");
}

#[test]
fn long_lines_are_cut_at_seventy_two_bytes_with_continuations() {
    let line = "x".repeat(72 + 71 + 5);
    let wrapped = wrap_manifest_line(&line);
    let lines: Vec<&str> = wrapped.lines().collect();
    assert_eq!(lines.len(), 3);
    assert_eq!(lines[0].len(), 72);
    assert_eq!(lines[1], format!(" {}", "x".repeat(71)));
    assert_eq!(lines[2], format!(" {}", "x".repeat(5)));
    assert_eq!(wrap_manifest_line("short"), "short\n");
}

#[test]
fn wrapping_refuses_cuts_inside_a_character() {
    let mut line = "a".repeat(71);
    line.push('é');
    assert!(!is_line_wrappable(&line));
    assert!(is_line_wrappable(&"a".repeat(200)));
    assert!(!manifest_fits(&format!("com.example.a{}", "é".repeat(40)), &Vec::new()));
    assert!(manifest_fits(&format!("com.example.{}", "é".repeat(40)), &Vec::new()));
    assert!(manifest_fits("com.example.Main", &Vec::new()));
}

#[test]
fn manifest_paths_are_relative_to_the_jar_directory() {
    assert_eq!(
        manifest_relative_path("build/app.jar", "build/target/deps/x.jar"),
        "target/deps/x.jar"
    );
    assert_eq!(manifest_relative_path("build/app.jar", "/opt/x.jar"), "//opt/x.jar");
    assert_eq!(manifest_relative_path("app.jar", "./deps/x.jar"), "./deps/x.jar");
    let artifacts = vec![artifact("g", "a", "1", "out/deps/a-1.jar".to_string())];
    assert_eq!(class_path_entries("out/app.jar", &artifacts), vec!["deps/a-1.jar".to_string()]);
}

#[test]
fn zip_names_are_relative_with_slashes() {
    assert_eq!(zip_name("target/classes", "target/classes/com/A.class").unwrap(), "com/A.class");
    assert!(zip_name("target/classes", "other/A.class").is_err());
}

#[test]
fn service_files_need_a_name_after_the_prefix() {
    assert!(is_service_file("META-INF/services/x.Y"));
    assert!(!is_service_file("META-INF/services/"));
    assert!(!is_service_file("META-INF/MANIFEST.MF"));
    assert!(should_skip_dependency_entry("meta-inf/key.dsa"));
    assert!(should_skip_dependency_entry("META-INF/INDEX.LIST"));
    assert!(!should_skip_dependency_entry("META-INF/LICENSE"));
}

#[test]
fn first_entry_of_a_name_wins_and_manifest_comes_first() {
    let class_files = vec![
        entry("a.txt", b"first"),
        entry("META-INF/MANIFEST.MF", b"ignored"),
        entry("a.txt", b"second"),
    ];
    let entries = create_classpath_jar("app.jar", "com.example.Main", &[], &class_files);
    assert_eq!(entries[0].name, MANIFEST_ENTRY);
    assert_eq!(entries.len(), 2);
    assert_eq!(bytes_of(&entries, "a.txt"), b"first");
}

#[test]
fn fat_jar_takes_dependency_entries_in_order_and_skips_directories() {
    let dependency_jars = vec![
        vec![
            DependencyEntry { name: "com/".to_string(), is_dir: true, contents: Vec::new() },
            dependency("com\\x\\A.class", b"one"),
        ],
        vec![dependency("com/x/A.class", b"two"), dependency("META-INF/services/s.S", b"b\n")],
        vec![dependency("META-INF/services/s.S", b"c")],
    ];
    let entries = create_fat_jar("com.example.Main", &Vec::new(), &dependency_jars);
    assert!(!entries.iter().any(|e| e.name == "com/"));
    assert_eq!(bytes_of(&entries, "com/x/A.class"), b"one");
    assert_eq!(text_of(&entries, "META-INF/services/s.S"), "b\nc\n");
}

#[test]
fn config_jar_mode_defaults_to_classpath() {
    let config = Config::new(
        "proj".to_string(),
        aurex::config::ConfigToml {
            package: aurex::config::Package {
                name: "demo".to_string(),
                main: None,
                root: None,
                test_root: None,
                version: None,
                jar_name: None,
            },
            dependencies: None,
            build: None,
            repositories: None,
            resources: None,
        },
    )
    .unwrap();
    assert_eq!(config.jar_mode(), aurex::config::JarMode::Classpath);
    assert_eq!(config.jar_file(), "proj/demo-0.0.1.jar");
}

#[test]
fn wrapped_manifest_line_reads_back_as_the_original() {
    let value = "target/deps/a-1.0.0.jar target/deps/b-1.0.0.jar target/deps/c-1.0.0.jar target/deps/d-1.0.0.jar";
    let line = manifest_line("Class-Path", value);
    assert!(line.ends_with('\n'));
    assert!(line.lines().count() >= 2);
    assert!(line.lines().all(|l| l.len() <= 72));
    let unfolded = line.trim_end_matches('\n').replace("\n ", "");
    assert_eq!(unfolded, format!("Class-Path: {value}"));
}
