//! The build sequence.
//!
//! A build runs four stages in order: resolve, compile, resources and
//! package. The application performs each stage's work; the library decides
//! what is reported after each stage and what runs next. A failed stage
//! ends the build with its error and nothing more is reported.
use vstd::prelude::*;
use crate::text::{is_blank, trim};

verus! {

/// The formatter that `ax fmt` used.
#[derive(Clone, Copy, Debug, PartialEq, Eq, Structural)]
pub enum FormatTool {
    GoogleJavaFormat,
    EclipseJdt,
}

/// What `ax fmt` did: how many files it formatted, and with which tool.
#[derive(Clone, Copy, Debug, PartialEq, Eq, Structural)]
pub struct FormatOutcome {
    pub file_count: usize,
    pub tool: Option<FormatTool>,
}

/// A stage of the build.
#[derive(Clone, Copy, Debug, PartialEq, Eq, Structural)]
pub enum BuildStage {
    Resolve,
    Compile,
    Resources,
    Package,
}

impl BuildStage {
    /// The stage's name as the reporters print it.
    pub open spec fn name(self) -> Seq<char> {
        match self {
            BuildStage::Resolve => "resolve"@,
            BuildStage::Compile => "compile"@,
            BuildStage::Resources => "resources"@,
            BuildStage::Package => "package"@,
        }
    }

    /// The stage's name.
    pub fn as_str(self) -> (r: &'static str)
        ensures
            r@ == self.name(),
    {
        proof {
            reveal_strlit("resolve");
            reveal_strlit("compile");
            reveal_strlit("resources");
            reveal_strlit("package");
        }
        match self {
            BuildStage::Resolve => "resolve",
            BuildStage::Compile => "compile",
            BuildStage::Resources => "resources",
            BuildStage::Package => "package",
        }
    }
}

/// What a finished stage produced.
#[derive(Clone, Debug, PartialEq, Eq)]
pub enum BuildEventDetail {
    NoDetail,
    Artifacts(usize),
    Sources(usize),
    Resources(usize),
    Artifact(String),
}

/// What a build reports as it goes.
#[derive(Clone, Debug, PartialEq, Eq)]
pub enum BuildEvent {
    Started(BuildStage),
    Finished(BuildStage, BuildEventDetail),
    Output { stage: BuildStage, text: String },
    Done { jar_path: String },
}

/// A finished stage's detail, its text taken by its view.
pub enum DetailView {
    NoDetail,
    Artifacts(usize),
    Sources(usize),
    Resources(usize),
    Artifact(Seq<char>),
}

/// A build event, its texts taken by their views.
pub enum EventView {
    Started(BuildStage),
    Finished(BuildStage, DetailView),
    Output(BuildStage, Seq<char>),
    Done(Seq<char>),
}

impl View for BuildEventDetail {
    type V = DetailView;

    open spec fn view(&self) -> DetailView {
        match self {
            BuildEventDetail::NoDetail => DetailView::NoDetail,
            BuildEventDetail::Artifacts(n) => DetailView::Artifacts(*n),
            BuildEventDetail::Sources(n) => DetailView::Sources(*n),
            BuildEventDetail::Resources(n) => DetailView::Resources(*n),
            BuildEventDetail::Artifact(p) => DetailView::Artifact(p@),
        }
    }
}

impl View for BuildEvent {
    type V = EventView;

    open spec fn view(&self) -> EventView {
        match self {
            BuildEvent::Started(s) => EventView::Started(*s),
            BuildEvent::Finished(s, d) => EventView::Finished(*s, d@),
            BuildEvent::Output { stage, text } => EventView::Output(*stage, text@),
            BuildEvent::Done { jar_path } => EventView::Done(jar_path@),
        }
    }
}

/// The views of a sequence of events.
pub open spec fn event_views(v: Seq<BuildEvent>) -> Seq<EventView> {
    v.map_values(|e: BuildEvent| e@)
}

/// Receives the events of a build. `tick` is called while a stage runs.
pub trait BuildReporter {
    fn report(&mut self, event: BuildEvent);

    fn tick(&mut self) {
    }
}

/// A reporter that ignores every event.
pub struct NoopBuildReporter;

impl BuildReporter for NoopBuildReporter {
    fn report(&mut self, event: BuildEvent) {
    }
}

/// The Java runtime: the executable found on the `PATH` and what
/// `java -version` printed.
#[derive(Clone, Debug, PartialEq, Eq)]
pub struct JavaInfo {
    pub executable: String,
    pub version_output: String,
}

// ---------------------------------------------------------------------------
// The sequence of stages
// ---------------------------------------------------------------------------

/// What a stage's work came to.
pub enum StageResult {
    /// Dependencies resolved: how many artifacts.
    Resolved(usize),
    /// Sources compiled: how many, and what the compiler printed.
    Compiled { source_count: usize, output: String },
    /// Resources copied: how many files.
    Copied(usize),
    /// The jar written: its path.
    Packaged(String),
    /// The stage failed with this error.
    Failed(String),
}

/// What to do after reporting.
pub enum BuildAction {
    /// Run this stage's work.
    Run(BuildStage),
    /// The build is done; it produced the jar at this path.
    Finish(String),
    /// The build failed with this error.
    Fail(String),
}

/// A stage's result as plain values.
pub enum ResultView {
    Resolved(usize),
    Compiled(usize, Seq<char>),
    Copied(usize),
    Packaged(Seq<char>),
    Failed(Seq<char>),
}

/// An action as plain values.
pub enum ActionView {
    Run(BuildStage),
    Finish(Seq<char>),
    Fail(Seq<char>),
}

impl View for StageResult {
    type V = ResultView;

    open spec fn view(&self) -> ResultView {
        match self {
            StageResult::Resolved(n) => ResultView::Resolved(*n),
            StageResult::Compiled { source_count, output } => ResultView::Compiled(
                *source_count,
                output@,
            ),
            StageResult::Copied(n) => ResultView::Copied(*n),
            StageResult::Packaged(p) => ResultView::Packaged(p@),
            StageResult::Failed(e) => ResultView::Failed(e@),
        }
    }
}

impl View for BuildAction {
    type V = ActionView;

    open spec fn view(&self) -> ActionView {
        match self {
            BuildAction::Run(s) => ActionView::Run(*s),
            BuildAction::Finish(p) => ActionView::Finish(p@),
            BuildAction::Fail(e) => ActionView::Fail(e@),
        }
    }
}

/// The events to report and the action to take next.
pub struct BuildStep {
    pub events: Vec<BuildEvent>,
    pub action: BuildAction,
}

/// The result that `stage` produces when it succeeds.
pub open spec fn fits_stage(stage: BuildStage, r: ResultView) -> bool {
    match r {
        ResultView::Resolved(_) => stage == BuildStage::Resolve,
        ResultView::Compiled(_, _) => stage == BuildStage::Compile,
        ResultView::Copied(_) => stage == BuildStage::Resources,
        ResultView::Packaged(_) => stage == BuildStage::Package,
        ResultView::Failed(_) => true,
    }
}

/// How a build begins: the resolve stage is reported and run.
pub open spec fn spec_start() -> (Seq<EventView>, ActionView) {
    (seq![EventView::Started(BuildStage::Resolve)], ActionView::Run(BuildStage::Resolve))
}

/// What follows a stage's result: a failure ends the build with its error
/// and nothing reported; a success reports the stage finished, with the
/// compiler's output first when it is not blank, then starts the next stage,
/// and after packaging reports the build done.
pub open spec fn spec_advance(r: ResultView) -> (Seq<EventView>, ActionView) {
    match r {
        ResultView::Resolved(n) => (
            seq![
                EventView::Finished(BuildStage::Resolve, DetailView::Artifacts(n)),
                EventView::Started(BuildStage::Compile),
            ],
            ActionView::Run(BuildStage::Compile),
        ),
        ResultView::Compiled(n, out) => (
            (if trim(out).len() == 0 {
                Seq::empty()
            } else {
                seq![EventView::Output(BuildStage::Compile, out)]
            }) + seq![
                EventView::Finished(BuildStage::Compile, DetailView::Sources(n)),
                EventView::Started(BuildStage::Resources),
            ],
            ActionView::Run(BuildStage::Resources),
        ),
        ResultView::Copied(n) => (
            seq![
                EventView::Finished(BuildStage::Resources, DetailView::Resources(n)),
                EventView::Started(BuildStage::Package),
            ],
            ActionView::Run(BuildStage::Package),
        ),
        ResultView::Packaged(p) => (
            seq![
                EventView::Finished(BuildStage::Package, DetailView::Artifact(p)),
                EventView::Done(p),
            ],
            ActionView::Finish(p),
        ),
        ResultView::Failed(e) => (Seq::empty(), ActionView::Fail(e)),
    }
}

/// How a build begins.
pub fn start_build() -> (step: BuildStep)
    ensures
        (event_views(step.events@), step.action@) == spec_start(),
{
    let events = vec![BuildEvent::Started(BuildStage::Resolve)];
    assert(event_views(events@) =~= spec_start().0);
    BuildStep { events, action: BuildAction::Run(BuildStage::Resolve) }
}

/// What follows the result of `stage`.
pub fn advance_build(stage: BuildStage, result: StageResult) -> (step: BuildStep)
    requires
        fits_stage(stage, result@),
    ensures
        (event_views(step.events@), step.action@) == spec_advance(result@),
{
    let ghost r = result@;
    match result {
        StageResult::Resolved(n) => {
            let events = vec![
                BuildEvent::Finished(BuildStage::Resolve, BuildEventDetail::Artifacts(n)),
                BuildEvent::Started(BuildStage::Compile),
            ];
            assert(event_views(events@) =~= spec_advance(r).0);
            BuildStep { events, action: BuildAction::Run(BuildStage::Compile) }
        },
        StageResult::Compiled { source_count, output } => {
            let mut events: Vec<BuildEvent> = Vec::new();
            let ghost out = output@;
            if !is_blank(output.as_str()) {
                events.push(BuildEvent::Output { stage: BuildStage::Compile, text: output });
            }
            events.push(BuildEvent::Finished(BuildStage::Compile, BuildEventDetail::Sources(source_count)));
            events.push(BuildEvent::Started(BuildStage::Resources));
            assert(event_views(events@) =~= spec_advance(r).0);
            BuildStep { events, action: BuildAction::Run(BuildStage::Resources) }
        },
        StageResult::Copied(n) => {
            let events = vec![
                BuildEvent::Finished(BuildStage::Resources, BuildEventDetail::Resources(n)),
                BuildEvent::Started(BuildStage::Package),
            ];
            assert(event_views(events@) =~= spec_advance(r).0);
            BuildStep { events, action: BuildAction::Run(BuildStage::Package) }
        },
        StageResult::Packaged(p) => {
            let done = p.clone();
            let fin = p.clone();
            let events = vec![
                BuildEvent::Finished(BuildStage::Package, BuildEventDetail::Artifact(p)),
                BuildEvent::Done { jar_path: done },
            ];
            assert(event_views(events@) =~= spec_advance(r).0);
            BuildStep { events, action: BuildAction::Finish(fin) }
        },
        StageResult::Failed(e) => {
            let events: Vec<BuildEvent> = Vec::new();
            assert(event_views(events@) =~= spec_advance(r).0);
            BuildStep { events, action: BuildAction::Fail(e) }
        },
    }
}

/// Everything a successful build reports, in order: each stage started
/// and finished before the next starts, the compiler's output (when not
/// blank) just before compilation is reported finished, and finally the
/// jar.
pub open spec fn successful_build_log(
    artifacts: usize,
    sources: usize,
    output: Seq<char>,
    resources: usize,
    jar: Seq<char>,
) -> Seq<EventView> {
    seq![
        EventView::Started(BuildStage::Resolve),
        EventView::Finished(BuildStage::Resolve, DetailView::Artifacts(artifacts)),
        EventView::Started(BuildStage::Compile),
    ] + (if trim(output).len() == 0 {
        Seq::empty()
    } else {
        seq![EventView::Output(BuildStage::Compile, output)]
    }) + seq![
        EventView::Finished(BuildStage::Compile, DetailView::Sources(sources)),
        EventView::Started(BuildStage::Resources),
        EventView::Finished(BuildStage::Resources, DetailView::Resources(resources)),
        EventView::Started(BuildStage::Package),
        EventView::Finished(BuildStage::Package, DetailView::Artifact(jar)),
        EventView::Done(jar),
    ]
}

/// A build whose four stages succeed runs them in order (each step names
/// the next stage to run), reports exactly the successful build's log, and
/// finishes with the jar's path.
pub proof fn law_successful_build(
    artifacts: usize,
    sources: usize,
    output: Seq<char>,
    resources: usize,
    jar: Seq<char>,
)
    ensures
        spec_start().1 == ActionView::Run(BuildStage::Resolve),
        spec_advance(ResultView::Resolved(artifacts)).1 == ActionView::Run(BuildStage::Compile),
        spec_advance(ResultView::Compiled(sources, output)).1 == ActionView::Run(
            BuildStage::Resources,
        ),
        spec_advance(ResultView::Copied(resources)).1 == ActionView::Run(BuildStage::Package),
        spec_advance(ResultView::Packaged(jar)).1 == ActionView::Finish(jar),
        spec_start().0 + spec_advance(ResultView::Resolved(artifacts)).0 + spec_advance(
            ResultView::Compiled(sources, output),
        ).0 + spec_advance(ResultView::Copied(resources)).0 + spec_advance(
            ResultView::Packaged(jar),
        ).0 == successful_build_log(artifacts, sources, output, resources, jar),
{
    assert(spec_start().0 + spec_advance(ResultView::Resolved(artifacts)).0 + spec_advance(
        ResultView::Compiled(sources, output),
    ).0 + spec_advance(ResultView::Copied(resources)).0 + spec_advance(
        ResultView::Packaged(jar),
    ).0 =~= successful_build_log(artifacts, sources, output, resources, jar));
}

/// A failed stage ends the build with its error: nothing more is reported.
pub proof fn law_failure_stops(error: Seq<char>)
    ensures
        spec_advance(ResultView::Failed(error)) == (Seq::<EventView>::empty(), ActionView::Fail(error)),
{
}

} // verus!
