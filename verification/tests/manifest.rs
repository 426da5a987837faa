use aurex::manifest::{
    add_dependencies_to_text, parse_add_spec, parse_group_artifact, parse_remove_spec,
    remove_dependencies_from_text, DependencySpec,
};

#[test]
fn parses_add_specs() {
    let spec = parse_add_spec("org.example:demo@1.2.3").unwrap();

    assert_eq!(
        spec,
        DependencySpec {
            key: "org.example:demo".to_string(),
            version: "1.2.3".to_string()
        }
    );
}

#[test]
fn rejects_add_specs_without_versions() {
    let error = parse_add_spec("org.example:demo").unwrap_err();

    assert!(error.contains("group:artifact@version"));
}

#[test]
fn parses_remove_specs() {
    assert_eq!(
        parse_remove_spec("org.example:demo").unwrap(),
        "org.example:demo"
    );
}

#[test]
fn rejects_remove_specs_with_versions() {
    let error = parse_remove_spec("org.example:demo@1.2.3").unwrap_err();

    assert!(error.contains("group:artifact"));
}

#[test]
fn add_spec_trims_parts_and_rejects_snapshots() {
    let spec = parse_add_spec(" org.example : demo @ 1.0 ").unwrap();
    assert_eq!(spec.key, "org.example:demo");
    assert_eq!(spec.version, "1.0");
    assert!(parse_add_spec("org.example:demo@1.0-SNAPSHOT")
        .unwrap_err()
        .contains("SNAPSHOT dependency versions are not supported"));
    assert!(parse_add_spec("org.example@1.0").unwrap_err().contains("Expected `groupId:artifactId`"));
    assert_eq!(
        parse_group_artifact("a : b").unwrap(),
        ("a".to_string(), "b".to_string())
    );
    assert!(parse_group_artifact("a:").is_err());
}

#[test]
fn adding_writes_the_dependencies_table() {
    let text = "[package]\nname = \"demo\"\n\n[dependencies]\n\"org.old:lib\" = \"1.0.0\"\n";
    let specs = vec!["org.example:demo@1.2.3".to_string(), "org.old:lib@2.0.0".to_string()];
    let (updated, added) = add_dependencies_to_text(text, "ax.toml", &specs).unwrap();
    assert_eq!(added.len(), 2);
    assert!(updated.contains("\"org.example:demo\" = \"1.2.3\""));
    assert!(updated.contains("\"org.old:lib\" = \"2.0.0\""));
    assert!(updated.contains("name = \"demo\""));
}

#[test]
fn adding_creates_a_missing_table_and_refuses_other_items() {
    let (updated, _) =
        add_dependencies_to_text("[package]\nname = \"demo\"\n", "ax.toml", &["g:a@1".to_string()])
            .unwrap();
    assert!(updated.contains("[dependencies]"));
    assert!(updated.contains("\"g:a\" = \"1\""));
    let error = add_dependencies_to_text("dependencies = 3\n", "ax.toml", &["g:a@1".to_string()])
        .unwrap_err();
    assert_eq!(error, "`dependencies` exists but is not a table");
    let error = add_dependencies_to_text("[package\n", "p/ax.toml", &["g:a@1".to_string()]).unwrap_err();
    assert!(error.starts_with("Failed to parse `p/ax.toml`: "));
}

#[test]
fn removing_checks_every_key_first() {
    let text = "[dependencies]\n\"g:a\" = \"1\"\n\"g:b\" = \"2\"\n";
    let (updated, removed) =
        remove_dependencies_from_text(text, "ax.toml", &["g:a".to_string()]).unwrap();
    assert_eq!(removed, vec!["g:a".to_string()]);
    assert!(!updated.contains("\"g:a\""));
    assert!(updated.contains("\"g:b\" = \"2\""));
    let error = remove_dependencies_from_text(text, "ax.toml", &["g:b".to_string(), "g:zz".to_string()])
        .unwrap_err();
    assert_eq!(error, "Dependency `g:zz` is not present in `ax.toml`");
    let error = remove_dependencies_from_text("[package]\n", "ax.toml", &["g:a".to_string()]).unwrap_err();
    assert_eq!(error, "`ax.toml` does not contain a `[dependencies]` table");
}

#[test]
fn removing_what_was_added_leaves_the_other_entries() {
    let text = "[package]\nname = \"demo\"\n\n[dependencies]\n\"org.old:lib\" = \"1.0.0\"\n";
    let (added_text, _) =
        add_dependencies_to_text(text, "ax.toml", &["org.example:demo@1.2.3".to_string()]).unwrap();
    assert!(added_text.contains("\"org.example:demo\" = \"1.2.3\""));
    let (removed_text, _) =
        remove_dependencies_from_text(&added_text, "ax.toml", &["org.example:demo".to_string()])
            .unwrap();
    assert!(!removed_text.contains("org.example:demo"));
    assert!(removed_text.contains("\"org.old:lib\" = \"1.0.0\""));
    assert!(removed_text.contains("name = \"demo\""));
}

#[test]
fn editing_dependencies_keeps_the_other_tables() {
    let text = "# project\n[package]\nname = \"demo\" # the name\n\n[build]\njar_mode = \"fat\"\n\n[dependencies]\n\"g:a\" = \"1\"\n";
    let (added, _) = add_dependencies_to_text(text, "ax.toml", &["g:b@2".to_string()]).unwrap();
    assert!(added.starts_with("# project\n[package]\nname = \"demo\" # the name\n\n[build]\njar_mode = \"fat\"\n"));
    let (removed, _) = remove_dependencies_from_text(&added, "ax.toml", &["g:b".to_string()]).unwrap();
    assert_eq!(removed, text);
}
