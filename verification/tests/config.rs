use aurex::config::{
    is_java_identifier, validate_main_class_name, Build, Config, ConfigToml, JarMode, Package,
    Resources,
};

fn toml(main: Option<&str>, root: Option<&str>, test_root: Option<&str>) -> ConfigToml {
    ConfigToml {
        package: Package {
            name: "demo".to_string(),
            main: main.map(|m| m.to_string()),
            root: root.map(|r| r.to_string()),
            test_root: test_root.map(|r| r.to_string()),
            version: None,
            jar_name: None,
        },
        dependencies: Some(Vec::new()),
        build: None,
        repositories: None,
        resources: None,
    }
}

#[test]
fn package_defaults_use_class_name_and_src_roots() {
    let root = "target/config-tests/defaults";
    let config = Config::new(root.to_string(), toml(None, None, None)).unwrap();

    assert_eq!(config.main_class_name(), "com.example.Main");
    assert_eq!(config.src_dir(), format!("{root}/./src"));
    assert_eq!(config.test_root_dir(), format!("{root}/./src/test/java"));
    assert_eq!(config.main_path(), format!("{root}/./src/com/example/Main.java"));
}

#[test]
fn package_root_and_test_root_are_configurable() {
    let root = "target/config-tests/custom-roots";
    let config = Config::new(
        root.to_string(),
        toml(Some("io.github.sammers.pla.Main"), Some("./app/src"), Some("./tests/java")),
    )
    .unwrap();

    assert_eq!(config.main_class_name(), "io.github.sammers.pla.Main");
    assert_eq!(config.src_dir(), format!("{root}/./app/src"));
    assert_eq!(config.test_root_dir(), format!("{root}/./tests/java"));
    assert_eq!(
        config.main_path(),
        format!("{root}/./app/src/io/github/sammers/pla/Main.java")
    );
}

#[test]
fn package_main_rejects_path_style_values() {
    let error = Config::new(
        "target/config-tests/path-main".to_string(),
        toml(Some("com/example/Main.java"), None, None),
    )
    .unwrap_err();

    assert!(error.contains("fully qualified Java class name"));
    assert!(error.contains("not a source path"));
}

#[test]
fn package_main_rejects_invalid_class_names() {
    let error = Config::new(
        "target/config-tests/bad-class".to_string(),
        toml(Some("com.example.1Main"), None, None),
    )
    .unwrap_err();

    assert!(error.contains("invalid segment"));
}

#[test]
fn main_class_names_are_checked_segment_by_segment() {
    assert!(validate_main_class_name("com.example.Main").is_ok());
    assert!(validate_main_class_name("$x._y.Z1").is_ok());
    assert_eq!(
        validate_main_class_name(" com.Main").unwrap_err(),
        "`[package].main` must not be empty or contain surrounding whitespace"
    );
    assert!(validate_main_class_name("").is_err());
    assert_eq!(
        validate_main_class_name("com..Main").unwrap_err(),
        "`[package].main` must be a fully qualified Java class name like `com.example.Main`: invalid segment `` in `com..Main`"
    );
    assert!(is_java_identifier("_a1"));
    assert!(!is_java_identifier("1a"));
    assert!(!is_java_identifier("a-b"));
}

#[test]
fn project_locations_follow_the_root() {
    let mut t = toml(None, None, None);
    t.package.version = Some("2.0".to_string());
    t.build = Some(Build { jar_mode: Some(JarMode::Fat) });
    t.resources = Some(Resources { dirs: Some(vec!["res".to_string(), "/abs".to_string()]) });
    let config = Config::new("proj".to_string(), t).unwrap();
    assert_eq!(config.jar_path(), "proj/demo-2.0.jar");
    assert_eq!(config.target_dir(), "proj/target");
    assert_eq!(config.classes_dir(), "proj/target/classes");
    assert_eq!(config.test_classes_dir(), "proj/target/test-classes");
    assert_eq!(config.deps_dir(), "proj/target/deps");
    assert_eq!(config.tools_dir(), "proj/target/tools");
    assert_eq!(config.manifest_path(), "proj/target/MANIFEST.MF");
    assert_eq!(config.jar_mode(), JarMode::Fat);
    assert_eq!(config.resource_dirs(), vec!["proj/res".to_string(), "/abs".to_string()]);
    assert!(config.repositories().is_empty());
}

#[test]
fn init_configuration_names_the_hello_world_project() {
    let root = "target/config-tests/init";
    let mut t = toml(Some("com.example.Main"), Some("./src"), None);
    t.package.name = "hello-world".to_string();
    t.package.version = Some("0.0.1".to_string());
    let config = Config::new(root.to_string(), t).unwrap();

    assert_eq!(config.main_class_name(), "com.example.Main");
    assert_eq!(config.main_file(), format!("{root}/./src/com/example/Main.java"));
    assert_eq!(config.jar_path(), format!("{root}/hello-world-0.0.1.jar"));
    assert_eq!(config.jar_mode(), JarMode::Classpath);
    let cloned = config.clone();
    assert_eq!(cloned.jar_path(), config.jar_path());
    assert_eq!(cloned.config_toml().dependencies, Some(Vec::new()));
}

#[test]
fn cloned_configuration_keeps_every_table() {
    let mut t = toml(None, None, None);
    t.dependencies = Some(vec![("g:a".to_string(), "1".to_string())]);
    t.build = Some(Build { jar_mode: Some(JarMode::Fat) });
    t.resources = Some(Resources { dirs: Some(vec!["settings".to_string()]) });
    let config = Config::new("target/config-tests/clone".to_string(), t).unwrap();
    let cloned = config.clone();
    assert_eq!(cloned.config_toml().dependencies, Some(vec![("g:a".to_string(), "1".to_string())]));
    assert_eq!(cloned.jar_mode(), JarMode::Fat);
    assert_eq!(cloned.config_toml().resources.as_ref().unwrap().dirs, Some(vec!["settings".to_string()]));
}
