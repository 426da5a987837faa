//! What the command line shows of a build.
//!
//! The plain reporter writes one line per event to the error stream; the
//! library decides the text, the application writes it. The animated
//! reporter keeps a row per stage; the library keeps the rows, the
//! application draws them.
use vstd::prelude::*;
use crate::maven::{decimal, usize_to_decimal};
use crate::stages::{successful_build_log, BuildEvent, BuildEventDetail, BuildStage, DetailView, EventView};
use crate::text::{concat, ends_with_char, push_str, trim};

verus! {

/// How much a build shows: every stage start, or only what finished.
#[derive(Clone, Copy, Debug, PartialEq, Eq, Structural)]
pub enum BuildUiStyle {
    Full,
    Quiet,
}

/// The position of a stage in the build.
pub open spec fn spec_stage_index(stage: BuildStage) -> nat {
    match stage {
        BuildStage::Resolve => 0,
        BuildStage::Compile => 1,
        BuildStage::Resources => 2,
        BuildStage::Package => 3,
    }
}

/// The position of a stage in the build.
pub fn stage_index(stage: BuildStage) -> (i: usize)
    ensures
        i == spec_stage_index(stage),
{
    match stage {
        BuildStage::Resolve => 0,
        BuildStage::Compile => 1,
        BuildStage::Resources => 2,
        BuildStage::Package => 3,
    }
}

// ---------------------------------------------------------------------------
// Details
// ---------------------------------------------------------------------------

/// A finished stage's detail as the plain reporter prints it.
pub open spec fn spec_plain_detail(d: DetailView) -> Seq<char> {
    match d {
        DetailView::NoDetail => "complete"@,
        DetailView::Artifacts(n) => decimal(n as nat) + " artifacts"@,
        DetailView::Sources(n) => decimal(n as nat) + " sources"@,
        DetailView::Resources(n) => decimal(n as nat) + " resources"@,
        DetailView::Artifact(p) => p,
    }
}

/// A finished stage's detail as the plain reporter prints it.
pub fn plain_detail(detail: &BuildEventDetail) -> (r: String)
    ensures
        r@ == spec_plain_detail(detail@),
{
    match detail {
        BuildEventDetail::NoDetail => "complete".to_owned(),
        BuildEventDetail::Artifacts(n) => {
            let mut r = usize_to_decimal(*n);
            push_str(&mut r, " artifacts");
            r
        },
        BuildEventDetail::Sources(n) => {
            let mut r = usize_to_decimal(*n);
            push_str(&mut r, " sources");
            r
        },
        BuildEventDetail::Resources(n) => {
            let mut r = usize_to_decimal(*n);
            push_str(&mut r, " resources");
            r
        },
        BuildEventDetail::Artifact(p) => p.clone(),
    }
}

/// `n` followed by a noun in the singular for one, else in the plural.
pub open spec fn counted(n: usize, one: Seq<char>, many: Seq<char>) -> Seq<char> {
    if n == 1 {
        one
    } else {
        decimal(n as nat) + many
    }
}

/// A finished stage's detail as the animated reporter shows it.
pub open spec fn spec_animated_detail(d: DetailView) -> Seq<char> {
    match d {
        DetailView::NoDetail => "complete"@,
        DetailView::Artifacts(n) => if n == 0 {
            "no external artifacts"@
        } else {
            counted(n, "1 artifact available"@, " artifacts available"@)
        },
        DetailView::Sources(n) => counted(n, "1 source compiled"@, " sources compiled"@),
        DetailView::Resources(n) => if n == 0 {
            "no resources configured"@
        } else {
            counted(n, "1 resource copied"@, " resources copied"@)
        },
        DetailView::Artifact(p) => "wrote "@ + p,
    }
}

fn counted_text(n: usize, one: &str, many: &str) -> (r: String)
    ensures
        r@ == counted(n, one@, many@),
{
    if n == 1 {
        one.to_owned()
    } else {
        let mut r = usize_to_decimal(n);
        push_str(&mut r, many);
        r
    }
}

/// A finished stage's detail as the animated reporter shows it.
pub fn animated_detail(detail: &BuildEventDetail) -> (r: String)
    ensures
        r@ == spec_animated_detail(detail@),
{
    match detail {
        BuildEventDetail::NoDetail => "complete".to_owned(),
        BuildEventDetail::Artifacts(n) => if *n == 0 {
            "no external artifacts".to_owned()
        } else {
            counted_text(*n, "1 artifact available", " artifacts available")
        },
        BuildEventDetail::Sources(n) => counted_text(*n, "1 source compiled", " sources compiled"),
        BuildEventDetail::Resources(n) => if *n == 0 {
            "no resources configured".to_owned()
        } else {
            counted_text(*n, "1 resource copied", " resources copied")
        },
        BuildEventDetail::Artifact(p) => concat("wrote ", p.as_str()),
    }
}

// ---------------------------------------------------------------------------
// The plain reporter
// ---------------------------------------------------------------------------

/// The state of the plain reporter: the command it reports on, its style,
/// whether it printed the command yet, and whether the build is over.
pub struct PlainReport {
    pub command: String,
    pub style: BuildUiStyle,
    pub printed_header: bool,
    pub finished: bool,
}

/// The command's line, when not printed yet.
pub open spec fn header_text(printed: bool, command: Seq<char>) -> Seq<char> {
    if printed {
        Seq::empty()
    } else {
        command + "\n"@
    }
}

/// The line(s) an event adds after the header.
pub open spec fn spec_event_text(style: BuildUiStyle, e: EventView) -> Seq<char> {
    match e {
        EventView::Started(s) => if style == BuildUiStyle::Full {
            s.name() + " ...\n"@
        } else {
            Seq::empty()
        },
        EventView::Finished(s, d) => s.name() + " ok ("@ + spec_plain_detail(d) + ")\n"@,
        EventView::Output(_, t) => if t.len() > 0 && t.last() == '\n' {
            t
        } else {
            t + "\n"@
        },
        EventView::Done(p) => "done "@ + p + "\n"@,
    }
}

/// What a plain reporter writes for `events`, reported one call each in
/// order, starting with the header printed or not: the header before the
/// first event's text when not printed yet, then each event's text. Each
/// call of `PlainReport::report` adds exactly the part of its event.
pub open spec fn plain_log_text(
    style: BuildUiStyle,
    printed: bool,
    command: Seq<char>,
    events: Seq<EventView>,
) -> Seq<char>
    decreases events.len(),
{
    if events.len() == 0 {
        Seq::empty()
    } else {
        plain_log_text(style, printed, command, events.drop_last()) + header_text(
            printed || events.len() > 1,
            command,
        ) + spec_event_text(style, events.last())
    }
}

/// Reporting two lists of events one after the other writes their texts
/// one after the other, the header at most once.
proof fn lemma_plain_log_concat(
    style: BuildUiStyle,
    printed: bool,
    command: Seq<char>,
    a: Seq<EventView>,
    b: Seq<EventView>,
)
    ensures
        plain_log_text(style, printed, command, a + b) == plain_log_text(style, printed, command, a)
            + plain_log_text(style, printed || a.len() > 0, command, b),
    decreases b.len(),
{
    if b.len() == 0 {
        assert(a + b =~= a);
        assert(plain_log_text(style, printed, command, a) + Seq::<char>::empty() =~= plain_log_text(
            style,
            printed,
            command,
            a,
        ));
    } else {
        lemma_plain_log_concat(style, printed, command, a, b.drop_last());
        assert((a + b).drop_last() =~= a + b.drop_last());
        assert((a + b).last() == b.last());
        assert(header_text(printed || (a + b).len() > 1, command) == header_text(
            (printed || a.len() > 0) || b.len() > 1,
            command,
        ));
        assert(plain_log_text(style, printed, command, a + b) =~= plain_log_text(
            style,
            printed,
            command,
            a,
        ) + plain_log_text(style, printed || a.len() > 0, command, b));
    }
}

/// The text of a build's first three events: the header, then resolve
/// started and finished and compile started.
proof fn lemma_plain_log_first(command: Seq<char>, artifacts: usize)
    ensures
        plain_log_text(BuildUiStyle::Full, false, command, seq![
            EventView::Started(BuildStage::Resolve),
            EventView::Finished(BuildStage::Resolve, DetailView::Artifacts(artifacts)),
            EventView::Started(BuildStage::Compile),
        ]) == command + "\n"@ + "resolve ...\n"@ + ("resolve ok ("@ + decimal(artifacts as nat)
        + " artifacts)\n"@) + "compile ...\n"@,
{
    let first = seq![
        EventView::Started(BuildStage::Resolve),
        EventView::Finished(BuildStage::Resolve, DetailView::Artifacts(artifacts)),
        EventView::Started(BuildStage::Compile),
    ];
    reveal_with_fuel(plain_log_text, 4);
    assert(first.drop_last().drop_last().drop_last() =~= Seq::<EventView>::empty());
    assert(first.drop_last().drop_last() =~= seq![first[0]]);
    assert(first.drop_last() =~= seq![first[0], first[1]]);
    reveal_strlit("resolve");
    reveal_strlit("compile");
    reveal_strlit(" ...\n");
    reveal_strlit(" ok (");
    reveal_strlit(")\n");
    reveal_strlit(" artifacts");
    reveal_strlit("resolve ...\n");
    reveal_strlit("compile ...\n");
    reveal_strlit("resolve ok (");
    reveal_strlit(" artifacts)\n");
    assert("resolve"@ + " ...\n"@ =~= "resolve ...\n"@);
    assert("compile"@ + " ...\n"@ =~= "compile ...\n"@);
    assert("resolve"@ + " ok ("@ + (decimal(artifacts as nat) + " artifacts"@) + ")\n"@
        =~= "resolve ok ("@ + decimal(artifacts as nat) + " artifacts)\n"@);
}

/// The text of a successful build's last six events, after the header.
proof fn lemma_plain_log_last(command: Seq<char>, sources: usize, resources: usize, jar: Seq<char>)
    ensures
        plain_log_text(BuildUiStyle::Full, true, command, seq![
            EventView::Finished(BuildStage::Compile, DetailView::Sources(sources)),
            EventView::Started(BuildStage::Resources),
            EventView::Finished(BuildStage::Resources, DetailView::Resources(resources)),
            EventView::Started(BuildStage::Package),
            EventView::Finished(BuildStage::Package, DetailView::Artifact(jar)),
            EventView::Done(jar),
        ]) == ("compile ok ("@ + decimal(sources as nat) + " sources)\n"@) + "resources ...\n"@ + (
    "resources ok ("@ + decimal(resources as nat) + " resources)\n"@) + "package ...\n"@ + (
    "package ok ("@ + jar + ")\n"@) + ("done "@ + jar + "\n"@),
{
    let last = seq![
        EventView::Finished(BuildStage::Compile, DetailView::Sources(sources)),
        EventView::Started(BuildStage::Resources),
        EventView::Finished(BuildStage::Resources, DetailView::Resources(resources)),
        EventView::Started(BuildStage::Package),
        EventView::Finished(BuildStage::Package, DetailView::Artifact(jar)),
        EventView::Done(jar),
    ];
    reveal_with_fuel(plain_log_text, 7);
    assert(last.drop_last().drop_last().drop_last().drop_last().drop_last().drop_last()
        =~= Seq::<EventView>::empty());
    assert(last.drop_last().drop_last().drop_last().drop_last().drop_last() =~= seq![last[0]]);
    assert(last.drop_last().drop_last().drop_last().drop_last() =~= seq![last[0], last[1]]);
    assert(last.drop_last().drop_last().drop_last() =~= seq![last[0], last[1], last[2]]);
    assert(last.drop_last().drop_last() =~= seq![last[0], last[1], last[2], last[3]]);
    assert(last.drop_last() =~= seq![last[0], last[1], last[2], last[3], last[4]]);
    reveal_strlit("compile");
    reveal_strlit("resources");
    reveal_strlit("package");
    reveal_strlit(" ...\n");
    reveal_strlit(" ok (");
    reveal_strlit(")\n");
    reveal_strlit(" sources");
    reveal_strlit(" resources");
    reveal_strlit("compile ok (");
    reveal_strlit(" sources)\n");
    reveal_strlit("resources ...\n");
    reveal_strlit("resources ok (");
    reveal_strlit(" resources)\n");
    reveal_strlit("package ...\n");
    reveal_strlit("package ok (");
    assert("compile"@ + " ok ("@ + (decimal(sources as nat) + " sources"@) + ")\n"@
        =~= "compile ok ("@ + decimal(sources as nat) + " sources)\n"@);
    assert("resources"@ + " ...\n"@ =~= "resources ...\n"@);
    assert("resources"@ + " ok ("@ + (decimal(resources as nat) + " resources"@) + ")\n"@
        =~= "resources ok ("@ + decimal(resources as nat) + " resources)\n"@);
    assert("package"@ + " ...\n"@ =~= "package ...\n"@);
    assert("package"@ + " ok ("@ + jar + ")\n"@ =~= "package ok ("@ + jar + ")\n"@);
}

/// The compiler's output as the plain reporter writes it: nothing when it
/// is blank, else the text ending with a line break.
pub open spec fn output_text(output: Seq<char>) -> Seq<char> {
    if trim(output).len() == 0 {
        Seq::empty()
    } else if output.len() > 0 && output.last() == '\n' {
        output
    } else {
        output + "\n"@
    }
}

/// The text of the compiler's output event, when there is one.
proof fn lemma_plain_log_output(command: Seq<char>, output: Seq<char>)
    ensures
        plain_log_text(
            BuildUiStyle::Full,
            true,
            command,
            if trim(output).len() == 0 {
                Seq::<EventView>::empty()
            } else {
                seq![EventView::Output(BuildStage::Compile, output)]
            },
        ) == output_text(output),
{
    if trim(output).len() > 0 {
        reveal_with_fuel(plain_log_text, 2);
        assert(seq![EventView::Output(BuildStage::Compile, output)].drop_last()
            =~= Seq::<EventView>::empty());
    }
}

/// A successful build reported in full mode writes the command's line
/// once, then each stage's start and result, the compiler's output when
/// not blank (with a final line break), and the jar's path.
pub proof fn law_plain_build_log(
    command: Seq<char>,
    artifacts: usize,
    sources: usize,
    output: Seq<char>,
    resources: usize,
    jar: Seq<char>,
)
    ensures
        plain_log_text(
            BuildUiStyle::Full,
            false,
            command,
            successful_build_log(artifacts, sources, output, resources, jar),
        ) == (command + "\n"@ + "resolve ...\n"@ + ("resolve ok ("@ + decimal(artifacts as nat)
            + " artifacts)\n"@) + "compile ...\n"@) + output_text(output) + (("compile ok ("@
            + decimal(sources as nat) + " sources)\n"@) + "resources ...\n"@ + ("resources ok ("@
            + decimal(resources as nat) + " resources)\n"@) + "package ...\n"@ + ("package ok ("@
            + jar + ")\n"@) + ("done "@ + jar + "\n"@)),
{
    let style = BuildUiStyle::Full;
    let first = seq![
        EventView::Started(BuildStage::Resolve),
        EventView::Finished(BuildStage::Resolve, DetailView::Artifacts(artifacts)),
        EventView::Started(BuildStage::Compile),
    ];
    let middle = if trim(output).len() == 0 {
        Seq::<EventView>::empty()
    } else {
        seq![EventView::Output(BuildStage::Compile, output)]
    };
    let last = seq![
        EventView::Finished(BuildStage::Compile, DetailView::Sources(sources)),
        EventView::Started(BuildStage::Resources),
        EventView::Finished(BuildStage::Resources, DetailView::Resources(resources)),
        EventView::Started(BuildStage::Package),
        EventView::Finished(BuildStage::Package, DetailView::Artifact(jar)),
        EventView::Done(jar),
    ];
    assert(successful_build_log(artifacts, sources, output, resources, jar) =~= first + middle
        + last);
    lemma_plain_log_concat(style, false, command, first + middle, last);
    lemma_plain_log_concat(style, false, command, first, middle);
    lemma_plain_log_first(command, artifacts);
    lemma_plain_log_output(command, output);
    lemma_plain_log_last(command, sources, resources, jar);
}

impl PlainReport {
    /// A reporter for `command` that has printed nothing.
    pub fn new(command: &str, style: BuildUiStyle) -> (r: Self)
        ensures
            r.command@ == command@,
            r.style == style,
            !r.printed_header,
            !r.finished,
    {
        PlainReport { command: command.to_owned(), style, printed_header: false, finished: false }
    }

    fn header(&mut self) -> (r: String)
        ensures
            r@ == header_text(old(self).printed_header, old(self).command@),
            final(self).printed_header,
            final(self).command@ == old(self).command@,
            final(self).style == old(self).style,
            final(self).finished == old(self).finished,
    {
        if self.printed_header {
            String::new()
        } else {
            self.printed_header = true;
            concat(self.command.as_str(), "\n")
        }
    }

    /// The text to print for `event`: the command's line before the first
    /// event, then the event's line. After `Done` the build is over.
    pub fn report(&mut self, event: &BuildEvent) -> (r: String)
        ensures
            r@ == header_text(old(self).printed_header, old(self).command@) + spec_event_text(
                old(self).style,
                event@,
            ),
            final(self).printed_header,
            final(self).command@ == old(self).command@,
            final(self).style == old(self).style,
            final(self).finished == (old(self).finished || event@ is Done),
    {
        let mut out = self.header();
        let ghost h = out@;
        match event {
            BuildEvent::Started(stage) => {
                if self.style == BuildUiStyle::Full {
                    push_str(&mut out, stage.as_str());
                    push_str(&mut out, " ...\n");
                }
            },
            BuildEvent::Finished(stage, detail) => {
                push_str(&mut out, stage.as_str());
                push_str(&mut out, " ok (");
                let d = plain_detail(detail);
                push_str(&mut out, d.as_str());
                push_str(&mut out, ")\n");
            },
            BuildEvent::Output { text, .. } => {
                push_str(&mut out, text.as_str());
                if !ends_with_char(text.as_str(), '\n') {
                    push_str(&mut out, "\n");
                }
            },
            BuildEvent::Done { jar_path } => {
                push_str(&mut out, "done ");
                push_str(&mut out, jar_path.as_str());
                push_str(&mut out, "\n");
                self.finished = true;
            },
        }
        out
    }

    /// The text to print when the build fails: the command's line if not
    /// printed yet, then the error.
    pub fn finish_error(&mut self, error: &str) -> (r: String)
        ensures
            r@ == header_text(old(self).printed_header, old(self).command@) + "error: "@ + error@
                + "\n"@,
            final(self).printed_header,
            final(self).finished,
            final(self).command@ == old(self).command@,
            final(self).style == old(self).style,
    {
        let mut out = self.header();
        push_str(&mut out, "error: ");
        push_str(&mut out, error);
        push_str(&mut out, "\n");
        self.finished = true;
        out
    }

    /// The build succeeded; nothing more is printed.
    pub fn finish_success(&mut self)
        ensures
            final(self).finished,
            final(self).printed_header == old(self).printed_header,
            final(self).command@ == old(self).command@,
            final(self).style == old(self).style,
    {
        self.finished = true;
    }
}

// ---------------------------------------------------------------------------
// The animated reporter's rows
// ---------------------------------------------------------------------------

/// Where a stage's row stands.
#[derive(Clone, Copy, Debug, PartialEq, Eq, Structural)]
pub enum StageState {
    Pending,
    Active,
    Done,
}

/// A stage's row: its stage, its state and the text beside it.
pub struct StageRow {
    pub stage: BuildStage,
    pub state: StageState,
    pub detail: String,
}

/// A row as plain values.
pub type RowView = (BuildStage, StageState, Seq<char>);

pub open spec fn row_views(rows: Seq<StageRow>) -> Seq<RowView> {
    rows.map_values(|r: StageRow| (r.stage, r.state, r.detail@))
}

/// The rows before anything ran: each stage pending, with what it works on.
pub open spec fn initial_rows() -> Seq<RowView> {
    seq![
        (BuildStage::Resolve, StageState::Pending, "Maven dependencies"@),
        (BuildStage::Compile, StageState::Pending, "javac source set"@),
        (BuildStage::Resources, StageState::Pending, "configured resource dirs"@),
        (BuildStage::Package, StageState::Pending, "jar archive"@),
    ]
}

/// The rows before anything ran.
pub fn stage_rows() -> (r: Vec<StageRow>)
    ensures
        row_views(r@) == initial_rows(),
{
    let r = vec![
        StageRow {
            stage: BuildStage::Resolve,
            state: StageState::Pending,
            detail: "Maven dependencies".to_owned(),
        },
        StageRow {
            stage: BuildStage::Compile,
            state: StageState::Pending,
            detail: "javac source set".to_owned(),
        },
        StageRow {
            stage: BuildStage::Resources,
            state: StageState::Pending,
            detail: "configured resource dirs".to_owned(),
        },
        StageRow {
            stage: BuildStage::Package,
            state: StageState::Pending,
            detail: "jar archive".to_owned(),
        },
    ];
    assert(row_views(r@) =~= initial_rows());
    r
}

/// A stage started: its rows become active unless already done.
pub open spec fn spec_set_active(rows: Seq<RowView>, stage: BuildStage) -> Seq<RowView> {
    rows.map_values(
        |r: RowView|
            if r.0 == stage && r.1 != StageState::Done {
                (r.0, StageState::Active, r.2)
            } else {
                r
            },
    )
}

/// A stage finished: its rows are done and show the detail.
pub open spec fn spec_set_done(rows: Seq<RowView>, stage: BuildStage, detail: DetailView) -> Seq<
    RowView,
> {
    rows.map_values(
        |r: RowView|
            if r.0 == stage {
                (r.0, StageState::Done, spec_animated_detail(detail))
            } else {
                r
            },
    )
}

/// Marks the rows of a started stage active.
pub fn set_active(rows: &mut Vec<StageRow>, stage: BuildStage)
    ensures
        row_views(final(rows)@) == spec_set_active(row_views(old(rows)@), stage),
{
    let ghost target = spec_set_active(row_views(old(rows)@), stage);
    let mut i: usize = 0;
    while i < rows.len()
        invariant
            i <= rows@.len(),
            rows@.len() == old(rows)@.len(),
            target == spec_set_active(row_views(old(rows)@), stage),
            forall|k: int| 0 <= k < i ==> #[trigger] row_views(rows@)[k] == target[k],
            forall|k: int| i <= k < rows@.len() ==> #[trigger] rows@[k] == old(rows)@[k],
        decreases rows.len() - i,
    {
        let ghost before = rows@;
        if rows[i].stage == stage && rows[i].state != StageState::Done {
            let d = rows[i].detail.clone();
            rows.set(i, StageRow { stage, state: StageState::Active, detail: d });
        }
        assert(row_views(rows@)[i as int] == target[i as int]);
        assert forall|k: int| 0 <= k < i implies #[trigger] row_views(rows@)[k] == target[k] by {
            assert(rows@[k] == before[k]);
            assert(row_views(before)[k] == target[k]);
        }
        i = i + 1;
    }
    assert(row_views(rows@) =~= target);
}

/// Marks the rows of a finished stage done, with the detail's text.
pub fn set_done(rows: &mut Vec<StageRow>, stage: BuildStage, detail: &BuildEventDetail)
    ensures
        row_views(final(rows)@) == spec_set_done(row_views(old(rows)@), stage, detail@),
{
    let ghost target = spec_set_done(row_views(old(rows)@), stage, detail@);
    let text = animated_detail(detail);
    let mut i: usize = 0;
    while i < rows.len()
        invariant
            i <= rows@.len(),
            rows@.len() == old(rows)@.len(),
            text@ == spec_animated_detail(detail@),
            target == spec_set_done(row_views(old(rows)@), stage, detail@),
            forall|k: int| 0 <= k < i ==> #[trigger] row_views(rows@)[k] == target[k],
            forall|k: int| i <= k < rows@.len() ==> #[trigger] rows@[k] == old(rows)@[k],
        decreases rows.len() - i,
    {
        let ghost before = rows@;
        if rows[i].stage == stage {
            rows.set(i, StageRow { stage, state: StageState::Done, detail: text.clone() });
        }
        assert(row_views(rows@)[i as int] == target[i as int]);
        assert forall|k: int| 0 <= k < i implies #[trigger] row_views(rows@)[k] == target[k] by {
            assert(rows@[k] == before[k]);
            assert(row_views(before)[k] == target[k]);
        }
        i = i + 1;
    }
    assert(row_views(rows@) =~= target);
}

} // verus!
