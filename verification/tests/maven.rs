use std::collections::HashMap;

use aurex::config::Repository as ConfigRepository;
use aurex::fetch::{fetch_source, FetchSource};
use aurex::maven::{
    is_excluded, repositories_from_config, Coordinate, Exclusion, MavenRepository,
    ResolvedArtifact,
};
use aurex::pom::{apply_management, EffectiveDependency, ManagedDependency};
use aurex::pom_xml::parse_pom;
use aurex::resolver::{MavenResolver, ResolveStep};
use aurex::strmap::StrMap;

#[test]
fn parses_dependency_coordinate() {
    let coordinate = Coordinate::parse_dependency("org.example:demo", "1.2.3").unwrap();

    assert_eq!(coordinate.group_id, "org.example");
    assert_eq!(coordinate.artifact_id, "demo");
    assert_eq!(coordinate.version, "1.2.3");
    assert_eq!(
        coordinate.artifact_path("jar"),
        "org/example/demo/1.2.3/demo-1.2.3.jar"
    );
}

#[test]
fn rejects_snapshot_versions() {
    let error = Coordinate::parse_dependency("org.example:demo", "1.0.0-SNAPSHOT").unwrap_err();

    assert!(error.contains("SNAPSHOT dependency versions are not supported"));
}

#[test]
fn validates_repository_auth_pair() {
    let repositories = [ConfigRepository {
        name: Some("internal".to_string()),
        url: "https://repo.example.com/maven2".to_string(),
        username: Some("user".to_string()),
        password: None,
    }];

    let error = repositories_from_config(&repositories).unwrap_err();

    assert!(error.contains("must configure both username and password"));
}

#[test]
fn builds_repository_artifact_urls() {
    let repository = MavenRepository {
        name: "internal".to_string(),
        url: "https://repo.example.com/maven2/".to_string(),
        username: None,
        password: None,
    };

    assert_eq!(
        repository.artifact_url("org/example/demo/1.0/demo-1.0.pom"),
        "https://repo.example.com/maven2/org/example/demo/1.0/demo-1.0.pom"
    );
}

fn properties_of(entries: &[(String, String)]) -> StrMap<String> {
    let mut map = StrMap::new();
    for (key, value) in entries {
        map.insert(key.clone(), value.clone());
    }
    map
}

#[test]
fn parses_pom_dependencies_and_exclusions() {
    let pom = parse_pom(
        r#"
            <project>
              <modelVersion>4.0.0</modelVersion>
              <groupId>org.example</groupId>
              <artifactId>demo</artifactId>
              <version>1.0.0</version>
              <dependencies>
                <dependency>
                  <groupId>org.libs</groupId>
                  <artifactId>lib</artifactId>
                  <version>${lib.version}</version>
                  <scope>runtime</scope>
                  <exclusions>
                    <exclusion>
                      <groupId>org.skip</groupId>
                      <artifactId>bad</artifactId>
                    </exclusion>
                  </exclusions>
                </dependency>
              </dependencies>
              <properties>
                <lib.version>2.0.0</lib.version>
              </properties>
            </project>
            "#,
    )
    .unwrap();

    let dependency = pom.dependencies[0].resolve(&properties_of(&pom.properties)).unwrap();

    assert_eq!(dependency.group_id, "org.libs");
    assert_eq!(dependency.artifact_id, "lib");
    assert_eq!(dependency.version.as_deref(), Some("2.0.0"));
    assert_eq!(dependency.scope.as_deref(), Some("runtime"));
    assert_eq!(
        dependency.exclusions,
        vec![Exclusion {
            group_id: "org.skip".to_string(),
            artifact_id: "bad".to_string()
        }]
    );
}

fn compile_dependency() -> EffectiveDependency {
    EffectiveDependency {
        group_id: "g".to_string(),
        artifact_id: "a".to_string(),
        version: Some("1".to_string()),
        scope: None,
        optional: false,
        dep_type: None,
        classifier: None,
        exclusions: vec![],
    }
}

#[test]
fn filters_dependency_scopes_and_optional_flags() {
    let compile = compile_dependency();
    let provided = EffectiveDependency {
        scope: Some("provided".to_string()),
        ..compile.clone()
    };
    let optional = EffectiveDependency {
        optional: true,
        ..compile.clone()
    };
    let runtime = EffectiveDependency {
        scope: Some("runtime".to_string()),
        ..compile.clone()
    };
    let test = EffectiveDependency {
        scope: Some("test".to_string()),
        ..compile.clone()
    };
    let classifier = EffectiveDependency {
        classifier: Some("sources".to_string()),
        ..compile.clone()
    };
    let non_jar = EffectiveDependency {
        dep_type: Some("pom".to_string()),
        ..compile.clone()
    };

    assert!(compile.should_include());
    assert!(runtime.should_include());
    assert!(!provided.should_include());
    assert!(!optional.should_include());
    assert!(!test.should_include());
    assert!(!classifier.should_include());
    assert!(!non_jar.should_include());
}

#[test]
fn applies_dependency_management_versions() {
    let mut dependency = EffectiveDependency {
        group_id: "org.example".to_string(),
        artifact_id: "managed".to_string(),
        version: None,
        scope: None,
        optional: false,
        dep_type: None,
        classifier: None,
        exclusions: vec![],
    };
    let mut management = StrMap::new();
    management.insert(
        dependency.ga_key(),
        ManagedDependency {
            version: Some("3.1.4".to_string()),
            scope: Some("runtime".to_string()),
            optional: None,
            dep_type: None,
            exclusions: vec![Exclusion {
                group_id: "org.skip".to_string(),
                artifact_id: "*".to_string(),
            }],
        },
    );

    apply_management(&mut dependency, &management);

    assert_eq!(dependency.version.as_deref(), Some("3.1.4"));
    assert_eq!(dependency.scope.as_deref(), Some("runtime"));
    assert!(is_excluded(
        &dependency.exclusions,
        &Coordinate::new(
            "org.skip".to_string(),
            "anything".to_string(),
            "1".to_string()
        )
        .unwrap()
    ));
}

/// A `file://` repository held in memory: file path to contents.
struct MemoryRepository {
    files: HashMap<String, String>,
}

impl MemoryRepository {
    fn new() -> Self {
        MemoryRepository { files: HashMap::new() }
    }

    fn write_artifact(&mut self, group_id: &str, artifact_id: &str, version: &str, pom: &str) {
        let dir = format!("/repo/{}/{artifact_id}/{version}", group_id.replace('.', "/"));
        self.files
            .insert(format!("{dir}/{artifact_id}-{version}.pom"), pom.to_string());
        self.files.insert(
            format!("{dir}/{artifact_id}-{version}.jar"),
            format!("{group_id}:{artifact_id}:{version}"),
        );
    }

    fn read(&self, repository: &MavenRepository, artifact_path: &str) -> Result<Vec<u8>, String> {
        match fetch_source(repository, artifact_path) {
            FetchSource::File(path) => self
                .files
                .get(&path)
                .map(|text| text.as_bytes().to_vec())
                .ok_or_else(|| format!("Could not find Maven artifact `{artifact_path}`")),
            FetchSource::Http { .. } => Err("not a file repository".to_string()),
        }
    }
}

fn local_resolver() -> MavenResolver {
    let repositories = repositories_from_config(&[ConfigRepository {
        name: Some("local".to_string()),
        url: "file:///repo".to_string(),
        username: None,
        password: None,
    }])
    .unwrap();
    MavenResolver::new(repositories, "deps".to_string()).unwrap()
}

/// Resolution passes, fetching from the memory repository, until done;
/// the artifacts and the jar files fetched.
fn resolve(
    repo: &MemoryRepository,
    roots: &[Coordinate],
) -> Result<(Vec<ResolvedArtifact>, Vec<String>), String> {
    let mut resolver = local_resolver();
    let mut jars = Vec::new();
    loop {
        match resolver.resolve_roots(roots)? {
            ResolveStep::Done(artifacts) => return Ok((artifacts, jars)),
            ResolveStep::FetchPom(coordinate) => {
                let bytes = repo.read(&resolver.repositories()[0], &coordinate.artifact_path("pom"))?;
                resolver.provide_pom(coordinate, bytes);
            }
            ResolveStep::FetchJar(coordinate) => {
                repo.read(&resolver.repositories()[0], &coordinate.artifact_path("jar"))?;
                jars.push(coordinate.jar_file_name());
                resolver.provide_jar(coordinate);
            }
        }
    }
}

fn artifact_coordinates(artifacts: &[ResolvedArtifact]) -> Vec<String> {
    artifacts
        .iter()
        .map(|artifact| artifact.coordinate.to_string())
        .collect()
}

fn app_root() -> Coordinate {
    Coordinate::new("com.acme".to_string(), "app".to_string(), "1.0.0".to_string()).unwrap()
}

#[test]
fn resolves_transitive_dependencies_from_file_repository() {
    let mut repo = MemoryRepository::new();
    repo.write_artifact(
        "com.acme",
        "app",
        "1.0.0",
        r#"<project>
  <modelVersion>4.0.0</modelVersion>
  <groupId>com.acme</groupId>
  <artifactId>app</artifactId>
  <version>1.0.0</version>
  <dependencies>
    <dependency>
      <groupId>com.acme</groupId>
      <artifactId>core</artifactId>
      <version>1.0.0</version>
    </dependency>
  </dependencies>
</project>
"#,
    );
    repo.write_artifact(
        "com.acme",
        "core",
        "1.0.0",
        r#"<project>
  <modelVersion>4.0.0</modelVersion>
  <groupId>com.acme</groupId>
  <artifactId>core</artifactId>
  <version>1.0.0</version>
</project>
"#,
    );

    let (artifacts, jars) = resolve(&repo, &[app_root()]).unwrap();

    assert_eq!(
        artifact_coordinates(&artifacts),
        vec!["com.acme:app:1.0.0", "com.acme:core:1.0.0"]
    );
    assert!(jars.contains(&"app-1.0.0.jar".to_string()));
    assert!(jars.contains(&"core-1.0.0.jar".to_string()));
    assert_eq!(artifacts[0].jar_path, "deps/app-1.0.0.jar");
}

#[test]
fn resolves_parent_and_imported_bom_dependency_management() {
    let mut repo = MemoryRepository::new();
    repo.write_artifact(
        "com.acme",
        "parent",
        "1.0.0",
        r#"<project>
  <modelVersion>4.0.0</modelVersion>
  <groupId>com.acme</groupId>
  <artifactId>parent</artifactId>
  <version>1.0.0</version>
  <packaging>pom</packaging>
  <properties>
    <managed.version>1.0.0</managed.version>
  </properties>
  <dependencyManagement>
    <dependencies>
      <dependency>
        <groupId>com.libs</groupId>
        <artifactId>managed</artifactId>
        <version>${managed.version}</version>
      </dependency>
    </dependencies>
  </dependencyManagement>
</project>
"#,
    );
    repo.write_artifact(
        "com.acme",
        "versions-bom",
        "1.0.0",
        r#"<project>
  <modelVersion>4.0.0</modelVersion>
  <groupId>com.acme</groupId>
  <artifactId>versions-bom</artifactId>
  <version>1.0.0</version>
  <packaging>pom</packaging>
  <dependencyManagement>
    <dependencies>
      <dependency>
        <groupId>com.libs</groupId>
        <artifactId>bom-managed</artifactId>
        <version>1.0.0</version>
      </dependency>
    </dependencies>
  </dependencyManagement>
</project>
"#,
    );
    repo.write_artifact(
        "com.acme",
        "app",
        "1.0.0",
        r#"<project>
  <modelVersion>4.0.0</modelVersion>
  <parent>
    <groupId>com.acme</groupId>
    <artifactId>parent</artifactId>
    <version>1.0.0</version>
  </parent>
  <artifactId>app</artifactId>
  <dependencyManagement>
    <dependencies>
      <dependency>
        <groupId>com.acme</groupId>
        <artifactId>versions-bom</artifactId>
        <version>1.0.0</version>
        <type>pom</type>
        <scope>import</scope>
      </dependency>
    </dependencies>
  </dependencyManagement>
  <dependencies>
    <dependency>
      <groupId>com.libs</groupId>
      <artifactId>managed</artifactId>
    </dependency>
    <dependency>
      <groupId>com.libs</groupId>
      <artifactId>bom-managed</artifactId>
    </dependency>
  </dependencies>
</project>
"#,
    );
    repo.write_artifact(
        "com.libs",
        "managed",
        "1.0.0",
        r#"<project>
  <modelVersion>4.0.0</modelVersion>
  <groupId>com.libs</groupId>
  <artifactId>managed</artifactId>
  <version>1.0.0</version>
</project>
"#,
    );
    repo.write_artifact(
        "com.libs",
        "bom-managed",
        "1.0.0",
        r#"<project>
  <modelVersion>4.0.0</modelVersion>
  <groupId>com.libs</groupId>
  <artifactId>bom-managed</artifactId>
  <version>1.0.0</version>
</project>
"#,
    );

    let (artifacts, jars) = resolve(&repo, &[app_root()]).unwrap();

    assert_eq!(
        artifact_coordinates(&artifacts),
        vec![
            "com.acme:app:1.0.0",
            "com.libs:managed:1.0.0",
            "com.libs:bom-managed:1.0.0"
        ]
    );
    assert!(!jars.contains(&"parent-1.0.0.jar".to_string()));
    assert!(!jars.contains(&"versions-bom-1.0.0.jar".to_string()));
}

#[test]
fn reports_dependencies_missing_versions_after_management() {
    let mut repo = MemoryRepository::new();
    repo.write_artifact(
        "com.acme",
        "app",
        "1.0.0",
        r#"<project>
  <modelVersion>4.0.0</modelVersion>
  <groupId>com.acme</groupId>
  <artifactId>app</artifactId>
  <version>1.0.0</version>
  <dependencies>
    <dependency>
      <groupId>com.libs</groupId>
      <artifactId>missing</artifactId>
    </dependency>
  </dependencies>
</project>
"#,
    );

    let error = resolve(&repo, &[app_root()]).unwrap_err();

    assert!(error.contains("is missing a version"));
}

#[test]
fn first_selected_version_wins_and_exclusions_apply() {
    let mut repo = MemoryRepository::new();
    repo.write_artifact(
        "com.acme",
        "app",
        "1.0.0",
        r#"<project>
  <groupId>com.acme</groupId>
  <artifactId>app</artifactId>
  <version>1.0.0</version>
  <dependencies>
    <dependency>
      <groupId>com.libs</groupId>
      <artifactId>a</artifactId>
      <version>1.0.0</version>
      <exclusions>
        <exclusion><groupId>com.libs</groupId><artifactId>skipped</artifactId></exclusion>
      </exclusions>
    </dependency>
    <dependency>
      <groupId>com.libs</groupId>
      <artifactId>b</artifactId>
      <version>2.0.0</version>
    </dependency>
  </dependencies>
</project>
"#,
    );
    repo.write_artifact(
        "com.libs",
        "a",
        "1.0.0",
        r#"<project>
  <groupId>com.libs</groupId>
  <artifactId>a</artifactId>
  <version>1.0.0</version>
  <dependencies>
    <dependency><groupId>com.libs</groupId><artifactId>b</artifactId><version>1.0.0</version></dependency>
    <dependency><groupId>com.libs</groupId><artifactId>skipped</artifactId><version>1.0.0</version></dependency>
  </dependencies>
</project>
"#,
    );
    repo.write_artifact(
        "com.libs",
        "b",
        "1.0.0",
        "<project><groupId>com.libs</groupId><artifactId>b</artifactId><version>1.0.0</version></project>",
    );

    let (artifacts, _) = resolve(&repo, &[app_root()]).unwrap();

    assert_eq!(
        artifact_coordinates(&artifacts),
        vec!["com.acme:app:1.0.0", "com.libs:a:1.0.0", "com.libs:b:1.0.0"]
    );
}

#[test]
fn repositories_end_with_maven_central() {
    let repositories = repositories_from_config(&[ConfigRepository {
        name: None,
        url: "https://repo.example.com/m2//".to_string(),
        username: None,
        password: None,
    }])
    .unwrap();
    assert_eq!(repositories.len(), 2);
    assert_eq!(repositories[0].name, "repository-1");
    assert_eq!(repositories[0].url, "https://repo.example.com/m2");
    assert_eq!(repositories[1].name, "maven-central");
    assert_eq!(repositories[1].url, "https://repo1.maven.org/maven2");
    let error = repositories_from_config(&[ConfigRepository {
        name: None,
        url: "  ".to_string(),
        username: None,
        password: None,
    }])
    .unwrap_err();
    assert_eq!(error, "Repository #1 has an empty url");
}
