//! Fetching an artifact file from the repositories.
//!
//! The repositories are tried in order. The first that has the file gives
//! it; an answer that denies access stops the search; a missing file or a
//! failure moves on to the next repository. When none gives the file, the
//! error lists the failures, or says that no repository has it. The
//! application performs each request; the library decides what to ask for
//! and what comes next.
use vstd::prelude::*;
use crate::maven::{trim_start_str, MavenRepository};
use crate::paths::path_join;
use crate::text::{concat, join, push_str, starts_with, trim_end_char, views};

verus! {

// ---------------------------------------------------------------------------
// Requests
// ---------------------------------------------------------------------------

/// Where a repository keeps a file: a local path, or a URL with the user
/// and password for basic authentication when a user is configured.
pub enum FetchSource {
    File(String),
    Http { url: String, auth: Option<(String, Option<String>)> },
}

/// A source as plain values.
pub enum SourceView {
    File(Seq<char>),
    Http(Seq<char>, Option<(Seq<char>, Option<Seq<char>>)>),
}

impl View for FetchSource {
    type V = SourceView;

    open spec fn view(&self) -> SourceView {
        match self {
            FetchSource::File(p) => SourceView::File(p@),
            FetchSource::Http { url, auth } => SourceView::Http(
                url@,
                match auth {
                    Some((u, p)) => Some(
                        (
                            u@,
                            match p {
                                Some(s) => Some(s@),
                                None => None,
                            },
                        ),
                    ),
                    None => None,
                },
            ),
        }
    }
}

/// Where the repository keeps the file at `artifact_path`: under its
/// directory for a `file://` repository, else at its URL.
pub open spec fn spec_fetch_source(repo: (Seq<char>, Seq<char>, Option<Seq<char>>, Option<Seq<char>>), artifact_path: Seq<char>) -> SourceView {
    if starts_with(repo.1, "file://"@) {
        SourceView::File(path_join(trim_start_str(repo.1, "file://"@), artifact_path))
    } else {
        SourceView::Http(
            trim_end_char(repo.1, '/') + "/"@ + artifact_path,
            match repo.2 {
                Some(u) => Some((u, repo.3)),
                None => None,
            },
        )
    }
}

/// Where the repository keeps the file at `artifact_path`.
pub fn fetch_source(repository: &MavenRepository, artifact_path: &str) -> (r: FetchSource)
    ensures
        r@ == spec_fetch_source(repository@, artifact_path@),
{
    if repository.is_file_repository() {
        let base = repository.file_base_path();
        return FetchSource::File(crate::paths::join(base.as_str(), artifact_path));
    }
    let url = repository.artifact_url(artifact_path);
    let auth = match &repository.username {
        Some(u) => Some((u.clone(), crate::config::clone_opt_string(&repository.password))),
        None => None,
    };
    FetchSource::Http { url, auth }
}

// ---------------------------------------------------------------------------
// Answers
// ---------------------------------------------------------------------------

/// What one repository answered.
pub enum FetchOutcome {
    /// It has the file.
    Found,
    /// It does not have the file.
    NotFound,
    /// The request failed; try the next repository.
    Failed(String),
    /// Access was denied; stop.
    Fatal(String),
}

/// An answer as plain values.
pub enum OutcomeView {
    Found,
    NotFound,
    Failed(Seq<char>),
    Fatal(Seq<char>),
}

impl View for FetchOutcome {
    type V = OutcomeView;

    open spec fn view(&self) -> OutcomeView {
        match self {
            FetchOutcome::Found => OutcomeView::Found,
            FetchOutcome::NotFound => OutcomeView::NotFound,
            FetchOutcome::Failed(m) => OutcomeView::Failed(m@),
            FetchOutcome::Fatal(m) => OutcomeView::Fatal(m@),
        }
    }
}

/// What an HTTP status means: success has the file, 404 does not, 401 and
/// 403 deny access, anything else failed. `status_text` is how the status
/// is shown (`404 Not Found`).
pub open spec fn spec_status_outcome(name: Seq<char>, url: Seq<char>, status: u16, status_text: Seq<char>) -> OutcomeView {
    if 200 <= status < 300 {
        OutcomeView::Found
    } else if status == 404 {
        OutcomeView::NotFound
    } else if status == 401 || status == 403 {
        OutcomeView::Fatal(name + " denied access to `"@ + url + "` with status "@ + status_text)
    } else {
        OutcomeView::Failed(name + " returned status "@ + status_text + " for `"@ + url + "`"@)
    }
}

/// What the HTTP status of the answer from repository `name` means.
pub fn status_outcome(name: &str, url: &str, status: u16, status_text: &str) -> (r: FetchOutcome)
    ensures
        r@ == spec_status_outcome(name@, url@, status, status_text@),
{
    if 200 <= status && status < 300 {
        FetchOutcome::Found
    } else if status == 404 {
        FetchOutcome::NotFound
    } else if status == 401 || status == 403 {
        let mut m = concat(name, " denied access to `");
        push_str(&mut m, url);
        push_str(&mut m, "` with status ");
        push_str(&mut m, status_text);
        FetchOutcome::Fatal(m)
    } else {
        let mut m = concat(name, " returned status ");
        push_str(&mut m, status_text);
        push_str(&mut m, " for `");
        push_str(&mut m, url);
        push_str(&mut m, "`");
        FetchOutcome::Failed(m)
    }
}

/// A request to repository `name` for `url` failed.
pub fn request_failure(name: &str, url: &str, err: &str) -> (r: FetchOutcome)
    ensures
        r@ == OutcomeView::Failed(name@ + " failed to fetch `"@ + url@ + "`: "@ + err@),
{
    let mut m = concat(name, " failed to fetch `");
    push_str(&mut m, url);
    push_str(&mut m, "`: ");
    push_str(&mut m, err);
    FetchOutcome::Failed(m)
}

/// The body of the answer of repository `name` for `url` could not be read.
pub fn body_failure(name: &str, url: &str, err: &str) -> (r: FetchOutcome)
    ensures
        r@ == OutcomeView::Failed(name@ + " failed to read `"@ + url@ + "` response body: "@ + err@),
{
    let mut m = concat(name, " failed to read `");
    push_str(&mut m, url);
    push_str(&mut m, "` response body: ");
    push_str(&mut m, err);
    FetchOutcome::Failed(m)
}

/// What reading the file of a `file://` repository came to: found, missing
/// (`missing`), or failed with an error.
pub fn file_outcome(name: &str, path: &str, found: bool, missing: bool, err: &str) -> (r: FetchOutcome)
    ensures
        found ==> r@ == OutcomeView::Found,
        !found && missing ==> r@ == OutcomeView::NotFound,
        !found && !missing ==> r@ == OutcomeView::Failed(
            name@ + " failed to read `"@ + path@ + "`: "@ + err@,
        ),
{
    if found {
        FetchOutcome::Found
    } else if missing {
        FetchOutcome::NotFound
    } else {
        let mut m = concat(name, " failed to read `");
        push_str(&mut m, path);
        push_str(&mut m, "`: ");
        push_str(&mut m, err);
        FetchOutcome::Failed(m)
    }
}

// ---------------------------------------------------------------------------
// The search
// ---------------------------------------------------------------------------

/// What to do next.
pub enum FetchStep {
    /// Ask the repository with this index.
    Try(usize),
    /// The last repository asked has the file.
    Found,
    /// The search failed with this error.
    Fail(String),
}

/// A step as plain values.
pub enum StepView {
    Try(nat),
    Found,
    Fail(Seq<char>),
}

impl View for FetchStep {
    type V = StepView;

    open spec fn view(&self) -> StepView {
        match self {
            FetchStep::Try(i) => StepView::Try(*i as nat),
            FetchStep::Found => StepView::Found,
            FetchStep::Fail(m) => StepView::Fail(m@),
        }
    }
}

/// The search so far: the repository asked last, the number of
/// repositories, and the failures met.
pub struct FetchSearch {
    pub current: usize,
    pub count: usize,
    pub failures: Vec<String>,
}

/// The error when no repository gives the file.
pub open spec fn spec_exhausted(artifact_path: Seq<char>, failures: Seq<Seq<char>>) -> Seq<char> {
    if failures.len() == 0 {
        "Could not find Maven artifact `"@ + artifact_path
            + "` in configured repositories or Maven Central"@
    } else {
        "Could not download Maven artifact `"@ + artifact_path + "`: "@ + join(failures, "; "@)
    }
}

/// What comes after repository `current` of `count` answered, with the
/// failures met before: the failures then, and the next step.
pub open spec fn spec_after(
    current: nat,
    count: nat,
    failures: Seq<Seq<char>>,
    artifact_path: Seq<char>,
    outcome: OutcomeView,
) -> (Seq<Seq<char>>, StepView) {
    match outcome {
        OutcomeView::Found => (failures, StepView::Found),
        OutcomeView::Fatal(m) => (failures, StepView::Fail(m)),
        _ => {
            let f = match outcome {
                OutcomeView::Failed(m) => failures.push(m),
                _ => failures,
            };
            if current + 1 < count {
                (f, StepView::Try(current + 1))
            } else {
                (f, StepView::Fail(spec_exhausted(artifact_path, f)))
            }
        },
    }
}

impl FetchSearch {
    /// The start of a search over `count` repositories: ask the first, or
    /// fail at once when there is none.
    pub fn start(count: usize, artifact_path: &str) -> (r: (FetchSearch, FetchStep))
        ensures
            r.0.current == 0,
            r.0.count == count,
            r.0.failures@.len() == 0,
            count > 0 ==> r.1@ == StepView::Try(0),
            count == 0 ==> r.1@ == StepView::Fail(spec_exhausted(artifact_path@, Seq::empty())),
    {
        let search = FetchSearch { current: 0, count, failures: Vec::new() };
        if count > 0 {
            (search, FetchStep::Try(0))
        } else {
            let empty: Vec<String> = Vec::new();
            assert(views(empty@) =~= Seq::<Seq<char>>::empty());
            let m = exhausted_message(artifact_path, &empty);
            (search, FetchStep::Fail(m))
        }
    }

    /// The next step after the current repository answered `outcome`.
    pub fn after(&mut self, artifact_path: &str, outcome: FetchOutcome) -> (step: FetchStep)
        requires
            old(self).current < old(self).count,
        ensures
            (views(final(self).failures@), step@) == spec_after(
                old(self).current as nat,
                old(self).count as nat,
                views(old(self).failures@),
                artifact_path@,
                outcome@,
            ),
            final(self).count == old(self).count,
            step@ matches StepView::Try(i) ==> final(self).current == i && i < final(self).count,
    {
        match outcome {
            FetchOutcome::Found => FetchStep::Found,
            FetchOutcome::Fatal(m) => FetchStep::Fail(m),
            FetchOutcome::NotFound => self.move_on(artifact_path),
            FetchOutcome::Failed(m) => {
                let ghost before = views(self.failures@);
                self.failures.push(m);
                assert(views(self.failures@) =~= before.push(self.failures@.last()@));
                self.move_on(artifact_path)
            },
        }
    }

    fn move_on(&mut self, artifact_path: &str) -> (step: FetchStep)
        requires
            old(self).current < old(self).count,
        ensures
            final(self).failures@ == old(self).failures@,
            final(self).count == old(self).count,
            old(self).current + 1 < old(self).count ==> step@ == StepView::Try(
                (old(self).current + 1) as nat,
            ) && final(self).current == old(self).current + 1,
            old(self).current + 1 >= old(self).count ==> step@ == StepView::Fail(
                spec_exhausted(artifact_path@, views(old(self).failures@)),
            ),
    {
        if self.current + 1 < self.count {
            self.current = self.current + 1;
            FetchStep::Try(self.current)
        } else {
            FetchStep::Fail(exhausted_message(artifact_path, &self.failures))
        }
    }
}

/// The error when no repository gives the file.
fn exhausted_message(artifact_path: &str, failures: &Vec<String>) -> (r: String)
    ensures
        r@ == spec_exhausted(artifact_path@, views(failures@)),
{
    if failures.len() == 0 {
        let mut m = concat("Could not find Maven artifact `", artifact_path);
        push_str(&mut m, "` in configured repositories or Maven Central");
        m
    } else {
        let mut m = concat("Could not download Maven artifact `", artifact_path);
        push_str(&mut m, "`: ");
        let j = crate::text::join_strs(failures, "; ");
        push_str(&mut m, j.as_str());
        m
    }
}

/// The search over the answers `outcomes` of the repositories from
/// `current` on, with the failures met before: where it stops.
pub open spec fn spec_search(
    current: nat,
    count: nat,
    failures: Seq<Seq<char>>,
    artifact_path: Seq<char>,
    outcomes: Seq<OutcomeView>,
) -> StepView
    decreases count - current,
{
    if current >= count || current >= outcomes.len() {
        StepView::Fail(spec_exhausted(artifact_path, failures))
    } else {
        let (f, s) = spec_after(current, count, failures, artifact_path, outcomes[current as int]);
        match s {
            StepView::Try(_) => spec_search(current + 1, count, f, artifact_path, outcomes),
            _ => s,
        }
    }
}

/// The failures among the answers from `from` to `to`, in order.
pub open spec fn failures_between(outcomes: Seq<OutcomeView>, from: int, to: int) -> Seq<Seq<char>>
    decreases to - from,
{
    if from >= to {
        Seq::empty()
    } else {
        let prev = failures_between(outcomes, from, to - 1);
        match outcomes[to - 1] {
            OutcomeView::Failed(m) => prev.push(m),
            _ => prev,
        }
    }
}

/// The first answer from `i` on that has the file or denies access.
pub open spec fn first_decisive(outcomes: Seq<OutcomeView>, i: int) -> Option<int>
    decreases outcomes.len() - i,
{
    if i < 0 || i >= outcomes.len() {
        None
    } else if outcomes[i] is Found || outcomes[i] is Fatal {
        Some(i)
    } else {
        first_decisive(outcomes, i + 1)
    }
}

/// Asked in order, the repositories settle the search at the first answer
/// that has the file (found) or denies access (that error); when every
/// repository lacks the file or fails, the search fails with all the
/// failures in order, or says that no repository has the file.
pub proof fn law_first_decisive_answer_wins(artifact_path: Seq<char>, outcomes: Seq<OutcomeView>)
    requires
        outcomes.len() > 0,
    ensures
        spec_search(0, outcomes.len(), Seq::empty(), artifact_path, outcomes) == match first_decisive(
            outcomes,
            0,
        ) {
            Some(i) => match outcomes[i] {
                OutcomeView::Fatal(m) => StepView::Fail(m),
                _ => StepView::Found,
            },
            None => StepView::Fail(
                spec_exhausted(artifact_path, failures_between(outcomes, 0, outcomes.len() as int)),
            ),
        },
{
    lemma_search_from(0, artifact_path, outcomes);
}

proof fn lemma_search_from(i: nat, artifact_path: Seq<char>, outcomes: Seq<OutcomeView>)
    requires
        i < outcomes.len(),
        first_decisive(outcomes, 0) == first_decisive(outcomes, i as int),
    ensures
        spec_search(i, outcomes.len(), failures_between(outcomes, 0, i as int), artifact_path, outcomes)
            == match first_decisive(outcomes, i as int) {
            Some(j) => match outcomes[j] {
                OutcomeView::Fatal(m) => StepView::Fail(m),
                _ => StepView::Found,
            },
            None => StepView::Fail(
                spec_exhausted(artifact_path, failures_between(outcomes, 0, outcomes.len() as int)),
            ),
        },
    decreases outcomes.len() - i,
{
    let f = failures_between(outcomes, 0, i as int);
    let o = outcomes[i as int];
    assert(failures_between(outcomes, 0, (i + 1) as int) == match o {
        OutcomeView::Failed(m) => f.push(m),
        _ => f,
    });
    if o is Found || o is Fatal {
    } else if i + 1 < outcomes.len() {
        lemma_search_from(i + 1, artifact_path, outcomes);
    } else {
        assert(first_decisive(outcomes, (i + 1) as int) == None::<int>);
    }
}

} // verus!
