use aurex::fetch::{
    fetch_source, file_outcome, status_outcome, FetchOutcome, FetchSearch, FetchSource, FetchStep,
};
use aurex::maven::MavenRepository;
use aurex::report::{
    animated_detail, plain_detail, set_active, set_done, stage_index, stage_rows, BuildUiStyle,
    PlainReport, StageState,
};
use aurex::stages::{
    advance_build, start_build, BuildAction, BuildEvent, BuildEventDetail, BuildStage,
    StageResult,
};

fn events_of(step: &aurex::stages::BuildStep) -> Vec<BuildEvent> {
    step.events.clone()
}

#[test]
fn stage_names() {
    assert_eq!(BuildStage::Resolve.as_str(), "resolve");
    assert_eq!(BuildStage::Compile.as_str(), "compile");
    assert_eq!(BuildStage::Resources.as_str(), "resources");
    assert_eq!(BuildStage::Package.as_str(), "package");
    assert_eq!(stage_index(BuildStage::Package), 3);
}

#[test]
fn a_successful_build_reports_every_stage_in_order() {
    let mut log = Vec::new();
    let mut step = start_build();
    let results = vec![
        StageResult::Resolved(2),
        StageResult::Compiled { source_count: 3, output: "warning: x\n".to_string() },
        StageResult::Copied(1),
        StageResult::Packaged("proj/app.jar".to_string()),
    ];
    let mut results = results.into_iter();
    let jar = loop {
        log.extend(events_of(&step));
        match step.action {
            BuildAction::Run(stage) => step = advance_build(stage, results.next().unwrap()),
            BuildAction::Finish(jar) => break jar,
            BuildAction::Fail(error) => panic!("{error}"),
        }
    };
    assert_eq!(jar, "proj/app.jar");
    assert_eq!(
        log,
        vec![
            BuildEvent::Started(BuildStage::Resolve),
            BuildEvent::Finished(BuildStage::Resolve, BuildEventDetail::Artifacts(2)),
            BuildEvent::Started(BuildStage::Compile),
            BuildEvent::Output { stage: BuildStage::Compile, text: "warning: x\n".to_string() },
            BuildEvent::Finished(BuildStage::Compile, BuildEventDetail::Sources(3)),
            BuildEvent::Started(BuildStage::Resources),
            BuildEvent::Finished(BuildStage::Resources, BuildEventDetail::Resources(1)),
            BuildEvent::Started(BuildStage::Package),
            BuildEvent::Finished(BuildStage::Package, BuildEventDetail::Artifact("proj/app.jar".to_string())),
            BuildEvent::Done { jar_path: "proj/app.jar".to_string() },
        ]
    );
}

#[test]
fn blank_compiler_output_is_not_reported_and_failures_stop_the_build() {
    let step = advance_build(
        BuildStage::Compile,
        StageResult::Compiled { source_count: 1, output: " \n\t".to_string() },
    );
    assert_eq!(
        events_of(&step),
        vec![
            BuildEvent::Finished(BuildStage::Compile, BuildEventDetail::Sources(1)),
            BuildEvent::Started(BuildStage::Resources),
        ]
    );
    let failed = advance_build(BuildStage::Resolve, StageResult::Failed("boom".to_string()));
    assert!(failed.events.is_empty());
    assert!(matches!(failed.action, BuildAction::Fail(ref e) if e == "boom"));
}

#[test]
fn plain_reporter_prints_the_header_once() {
    let mut report = PlainReport::new("ax build", BuildUiStyle::Full);
    assert_eq!(report.report(&BuildEvent::Started(BuildStage::Resolve)), "ax build\nresolve ...\n");
    assert_eq!(
        report.report(&BuildEvent::Finished(BuildStage::Resolve, BuildEventDetail::Artifacts(0))),
        "resolve ok (0 artifacts)\n"
    );
    assert_eq!(
        report.report(&BuildEvent::Output { stage: BuildStage::Compile, text: "w".to_string() }),
        "w\n"
    );
    assert_eq!(
        report.report(&BuildEvent::Done { jar_path: "a.jar".to_string() }),
        "done a.jar\n"
    );
    assert!(report.finished);
    let mut quiet = PlainReport::new("ax run", BuildUiStyle::Quiet);
    assert_eq!(quiet.report(&BuildEvent::Started(BuildStage::Resolve)), "ax run\n");
    assert_eq!(quiet.finish_error("bad"), "error: bad\n");
    let mut fresh = PlainReport::new("ax run", BuildUiStyle::Quiet);
    assert_eq!(fresh.finish_error("bad"), "ax run\nerror: bad\n");
}

#[test]
fn details_read_as_the_reporters_show_them() {
    assert_eq!(plain_detail(&BuildEventDetail::Sources(12)), "12 sources");
    assert_eq!(plain_detail(&BuildEventDetail::NoDetail), "complete");
    assert_eq!(plain_detail(&BuildEventDetail::Artifact("x.jar".to_string())), "x.jar");
    assert_eq!(animated_detail(&BuildEventDetail::Artifacts(0)), "no external artifacts");
    assert_eq!(animated_detail(&BuildEventDetail::Artifacts(1)), "1 artifact available");
    assert_eq!(animated_detail(&BuildEventDetail::Artifacts(7)), "7 artifacts available");
    assert_eq!(animated_detail(&BuildEventDetail::Sources(1)), "1 source compiled");
    assert_eq!(animated_detail(&BuildEventDetail::Resources(0)), "no resources configured");
    assert_eq!(animated_detail(&BuildEventDetail::Resources(3)), "3 resources copied");
    assert_eq!(animated_detail(&BuildEventDetail::Artifact("x.jar".to_string())), "wrote x.jar");
}

#[test]
fn stage_rows_follow_the_build() {
    let mut rows = stage_rows();
    assert_eq!(rows.len(), 4);
    assert_eq!(rows[1].detail, "javac source set");
    set_active(&mut rows, BuildStage::Compile);
    assert_eq!(rows[1].state, StageState::Active);
    assert_eq!(rows[0].state, StageState::Pending);
    set_done(&mut rows, BuildStage::Compile, &BuildEventDetail::Sources(2));
    assert_eq!(rows[1].state, StageState::Done);
    assert_eq!(rows[1].detail, "2 sources compiled");
    set_active(&mut rows, BuildStage::Compile);
    assert_eq!(rows[1].state, StageState::Done);
}

fn repository(url: &str, username: Option<&str>) -> MavenRepository {
    MavenRepository {
        name: "r".to_string(),
        url: url.to_string(),
        username: username.map(|u| u.to_string()),
        password: Some("p".to_string()),
    }
}

#[test]
fn fetch_sources_are_files_or_urls() {
    match fetch_source(&repository("file:///srv/m2", None), "g/a/1/a-1.pom") {
        FetchSource::File(path) => assert_eq!(path, "/srv/m2/g/a/1/a-1.pom"),
        _ => panic!("expected a file"),
    }
    match fetch_source(&repository("https://h/m2/", Some("u")), "x.pom") {
        FetchSource::Http { url, auth } => {
            assert_eq!(url, "https://h/m2/x.pom");
            assert_eq!(auth, Some(("u".to_string(), Some("p".to_string()))));
        }
        _ => panic!("expected a url"),
    }
    match fetch_source(&repository("https://h/m2", None), "x.pom") {
        FetchSource::Http { auth, .. } => assert_eq!(auth, None),
        _ => panic!("expected a url"),
    }
}

#[test]
fn http_statuses_decide_the_outcome() {
    assert!(matches!(status_outcome("r", "u", 200, "200 OK"), FetchOutcome::Found));
    assert!(matches!(status_outcome("r", "u", 404, "404 Not Found"), FetchOutcome::NotFound));
    match status_outcome("r", "u", 403, "403 Forbidden") {
        FetchOutcome::Fatal(m) => assert_eq!(m, "r denied access to `u` with status 403 Forbidden"),
        _ => panic!("expected fatal"),
    }
    match status_outcome("r", "u", 500, "500 Internal Server Error") {
        FetchOutcome::Failed(m) => {
            assert_eq!(m, "r returned status 500 Internal Server Error for `u`")
        }
        _ => panic!("expected failure"),
    }
    assert!(matches!(file_outcome("r", "p", false, true, ""), FetchOutcome::NotFound));
}

#[test]
fn the_search_tries_repositories_in_order() {
    let (mut search, step) = FetchSearch::start(3, "a.pom");
    assert!(matches!(step, FetchStep::Try(0)));
    let step = search.after("a.pom", FetchOutcome::Failed("one".to_string()));
    assert!(matches!(step, FetchStep::Try(1)));
    let step = search.after("a.pom", FetchOutcome::NotFound);
    assert!(matches!(step, FetchStep::Try(2)));
    match search.after("a.pom", FetchOutcome::Failed("two".to_string())) {
        FetchStep::Fail(m) => assert_eq!(m, "Could not download Maven artifact `a.pom`: one; two"),
        _ => panic!("expected failure"),
    }
    let (mut search, _) = FetchSearch::start(1, "b.pom");
    match search.after("b.pom", FetchOutcome::NotFound) {
        FetchStep::Fail(m) => assert_eq!(
            m,
            "Could not find Maven artifact `b.pom` in configured repositories or Maven Central"
        ),
        _ => panic!("expected failure"),
    }
    let (mut search, _) = FetchSearch::start(2, "c.pom");
    assert!(matches!(search.after("c.pom", FetchOutcome::Found), FetchStep::Found));
    let (mut search, _) = FetchSearch::start(2, "c.pom");
    assert!(matches!(
        search.after("c.pom", FetchOutcome::Fatal("denied".to_string())),
        FetchStep::Fail(ref m) if m == "denied"
    ));
}

#[test]
fn plain_log_of_a_successful_build() {
    let mut report = PlainReport::new("ax build", BuildUiStyle::Full);
    let mut log = String::new();
    let mut step = start_build();
    let results = vec![
        StageResult::Resolved(0),
        StageResult::Compiled { source_count: 1, output: String::new() },
        StageResult::Copied(0),
        StageResult::Packaged("target/app.jar".to_string()),
    ];
    for result in results {
        for event in events_of(&step) {
            log.push_str(&report.report(&event));
        }
        let stage = match &step.action {
            BuildAction::Run(stage) => *stage,
            _ => panic!("the build stopped early"),
        };
        step = advance_build(stage, result);
    }
    for event in events_of(&step) {
        log.push_str(&report.report(&event));
    }
    assert_eq!(
        log,
        "ax build\nresolve ...\nresolve ok (0 artifacts)\ncompile ...\ncompile ok (1 sources)\nresources ...\nresources ok (0 resources)\npackage ...\npackage ok (target/app.jar)\ndone target/app.jar\n"
    );
    assert!(!log.contains('\u{1b}'));
    assert!(matches!(step.action, BuildAction::Finish(_)));
}

#[test]
fn long_manifest_lines_take_one_continuation_per_71_bytes() {
    let value = "x".repeat(200);
    let line = aurex::jar::manifest_line("Class-Path", &value);
    let total = "Class-Path: ".len() + 200;
    assert_eq!(line.lines().count(), 1 + (total - 72 + 70) / 71);
}
