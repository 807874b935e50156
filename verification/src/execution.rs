//! The course of a step: its jobs, checks before fixes, and the staging of
//! what fixers changed.

use vstd::prelude::*;
use vstd::string::*;
use crate::files::{is_globlike, looks_like_glob};
use crate::hook_context::{HookContext, HookContextView};
use crate::paths::{sort_paths, sorted_paths};
use crate::plan::{Job, JobView};
use crate::seqs::{lemma_either, lemma_last_or_before, lemma_pushed, opt_text, texts, views};
use crate::step::{AllowFailure, AllowFailureView, RunType, Step, StepView};
use crate::table::{lemma_push_all_new, push_all_new, Dup, NameSet};
use crate::text::{
    after, dup_list, ends, ends_with, list_has, same, starts, strip_end, strip_prefix, stripped_end,
};

verus! {

broadcast use crate::seqs::group_text;

/// The value of an expression.
#[derive(Clone, Copy, Debug, PartialEq, Eq, Structural)]
pub enum ExprValue {
    Bool(bool),
    /// A value that is no truth value.
    Other,
}

/// What evaluating an expression gave: a value, or why there is none.
pub open spec fn expr_result(r: Result<ExprValue, String>) -> Result<ExprValue, Seq<char>> {
    match r {
        Ok(v) => Ok(v),
        Err(e) => Err(e@),
    }
}

/// Whether a failure of a step is allowed, or why that cannot be said.
pub open spec fn allowed_failure(
    step: StepView,
    value: Result<ExprValue, Seq<char>>,
) -> Result<bool, Seq<char>> {
    match step.allow_failure {
        AllowFailureView::Bool(allow) => Ok(allow),
        AllowFailureView::Expression(_) => match value {
            Ok(ExprValue::Bool(allow)) => Ok(allow),
            Ok(ExprValue::Other) => Err(
                step.name + ": allow_failure expression must evaluate to a boolean"@,
            ),
            Err(e) => Err(e),
        },
    }
}

/// What a result with a flag stands for.
pub open spec fn flag_result(r: Result<bool, String>) -> Result<bool, Seq<char>> {
    match r {
        Ok(b) => Ok(b),
        Err(e) => Err(e@),
    }
}

impl Step {
    /// Whether a failure of the step is allowed, where `value` is what its
    /// expression gave if it has one.
    pub fn failure_is_allowed(&self, value: Result<ExprValue, String>) -> (r: Result<bool, String>)
        ensures
            flag_result(r) == allowed_failure(self@, expr_result(value)),
    {
        match &self.allow_failure {
            AllowFailure::Bool(allow) => Ok(*allow),
            AllowFailure::Expression(_) => match value {
                Ok(ExprValue::Bool(allow)) => Ok(allow),
                Ok(ExprValue::Other) => {
                    let mut m = self.name.clone();
                    m.append(": allow_failure expression must evaluate to a boolean");
                    Err(m)
                },
                Err(e) => Err(e),
            },
        }
    }
}

/// A step that waits gives its permit up at the first thing it has to wait for.
pub fn keeps_permit(has_permit: bool, done: &Vec<bool>) -> (r: bool)
    ensures
        r == (has_permit && forall|i: int| 0 <= i < done@.len() ==> #[trigger] done@[i]),
{
    let mut keeps = has_permit;
    for i in 0..done.len()
        invariant
            keeps == (has_permit && forall|k: int| 0 <= k < i ==> #[trigger] done@[k]),
    {
        keeps = keeps && done[i];
    }
    keeps
}

/// The account after a step turned out to have `jobs` jobs: the one that was
/// counted for it is replaced by as many.
pub open spec fn jobs_counted(c: HookContextView, jobs: nat) -> HookContextView {
    if jobs > 0 {
        HookContextView { total_jobs: (c.total_jobs + jobs - 1) as usize, ..c }
    } else {
        HookContextView {
            total_jobs: if c.total_jobs > 0 {
                (c.total_jobs - 1) as usize
            } else {
                0
            },
            ..c
        }
    }
}

impl HookContext {
    /// Replaces the one job that was counted for a step by `jobs`.
    pub fn count_jobs(&mut self, jobs: usize)
        requires
            old(self)@.total_jobs + jobs <= usize::MAX,
        ensures
            final(self)@ == jobs_counted(old(self)@, jobs as nat),
    {
        if jobs > 0 {
            self.inc_total_jobs(jobs - 1);
        } else {
            self.dec_total_jobs(1);
        }
    }
}

/// The command that a job checks with before it fixes.
#[derive(Clone, Copy, Debug, PartialEq, Eq, Structural)]
pub enum FirstCheck {
    Plain,
    /// It prints a patch.
    Diff,
    /// It lists the files that fail.
    ListFiles,
}

/// What is settled before a job begins.
#[derive(Clone, Copy)]
pub struct JobSetup {
    pub skipped: bool,
    pub check_first: bool,
    pub run_type: RunType,
    pub first_check: FirstCheck,
    /// Files that fail the first check are checked again by themselves.
    pub check_failed_files: bool,
    /// The files are checked again once a patch has been applied.
    pub check_after_diff: bool,
}

impl JobSetup {
    /// A failing first check is followed by a check of the files that failed.
    pub open spec fn focuses(self) -> bool {
        self.check_failed_files && self.run_type == RunType::Check
    }
}

/// How far a job has come, with its files.
pub enum JobState {
    Start(Vec<String>),
    Checking(Vec<String>),
    /// A patch is being applied; all files, and those that failed.
    Applying(Vec<String>, Vec<String>),
    /// The files are checked again; those that the patch changed.
    Rechecking(Vec<String>),
    /// The files that failed are split into batches.
    Batching(Vec<String>),
    /// The batch at a position of so many runs; whether a check has failed already, and the files that earlier batches went over.
    Running(usize, usize, bool, Vec<String>),
    Done,
}

/// What [`JobState`] stands for.
pub enum JobStateView {
    Start(Seq<Seq<char>>),
    Checking(Seq<Seq<char>>),
    Applying(Seq<Seq<char>>, Seq<Seq<char>>),
    Rechecking(Seq<Seq<char>>),
    Batching(Seq<Seq<char>>),
    Running(usize, usize, bool, Seq<Seq<char>>),
    Done,
}

impl View for JobState {
    type V = JobStateView;

    open spec fn view(&self) -> JobStateView {
        match self {
            JobState::Start(x0) => JobStateView::Start(texts(x0@)),
            JobState::Checking(x0) => JobStateView::Checking(texts(x0@)),
            JobState::Applying(x0, x1) => JobStateView::Applying(texts(x0@), texts(x1@)),
            JobState::Rechecking(x0) => JobStateView::Rechecking(texts(x0@)),
            JobState::Batching(x0) => JobStateView::Batching(texts(x0@)),
            JobState::Running(x0, x1, x2, x3) => JobStateView::Running(*x0, *x1, *x2, texts(x3@)),
            JobState::Done => JobStateView::Done,
        }
    }
}

/// What happened.
pub enum JobEvent {
    Begin,
    CheckPassed,
    /// The first check failed and named files; the error.
    CheckListed(Vec<String>, String),
    /// The first check failed without naming files.
    CheckFailed,
    /// The patch was applied, or could not be.
    DiffApplied(bool),
    /// The directory of the patch could not be told.
    DirFailed(String),
    Rechecked(Option<String>),
    Batched(usize),
    BatchingFailed(String),
    /// The files of the batch, whether its command ran, and the error.
    BatchRan(Vec<String>, bool, Option<String>),
    /// The run was cancelled, after the last batch.
    Cancelled,
    NotCancelled,
}

/// What [`JobEvent`] stands for.
pub enum JobEventView {
    Begin,
    CheckPassed,
    CheckListed(Seq<Seq<char>>, Seq<char>),
    CheckFailed,
    DiffApplied(bool),
    DirFailed(Seq<char>),
    Rechecked(Option<Seq<char>>),
    Batched(usize),
    BatchingFailed(Seq<char>),
    BatchRan(Seq<Seq<char>>, bool, Option<Seq<char>>),
    Cancelled,
    NotCancelled,
}

impl View for JobEvent {
    type V = JobEventView;

    open spec fn view(&self) -> JobEventView {
        match self {
            JobEvent::Begin => JobEventView::Begin,
            JobEvent::CheckPassed => JobEventView::CheckPassed,
            JobEvent::CheckListed(x0, x1) => JobEventView::CheckListed(texts(x0@), x1@),
            JobEvent::CheckFailed => JobEventView::CheckFailed,
            JobEvent::DiffApplied(x0) => JobEventView::DiffApplied(*x0),
            JobEvent::DirFailed(x0) => JobEventView::DirFailed(x0@),
            JobEvent::Rechecked(x0) => JobEventView::Rechecked(opt_text(*x0)),
            JobEvent::Batched(x0) => JobEventView::Batched(*x0),
            JobEvent::BatchingFailed(x0) => JobEventView::BatchingFailed(x0@),
            JobEvent::BatchRan(x0, x1, x2) => JobEventView::BatchRan(texts(x0@), *x1, opt_text(*x2)),
            JobEvent::Cancelled => JobEventView::Cancelled,
            JobEvent::NotCancelled => JobEventView::NotCancelled,
        }
    }
}

/// What is done next.
pub enum JobAction {
    Nothing,
    /// Count one job less.
    Skip,
    Check(Vec<String>),
    ApplyDiff,
    Recheck(Vec<String>),
    Batch(Vec<String>),
    /// Run the command on the files.
    Run(Vec<String>),
    /// Run the command on the batch at a position.
    RunBatch(usize),
    AskCancelled,
    /// Count the job as done; the files that it went over.
    Succeed(Vec<String>),
    Fail(String),
    /// The listed files passed on their own: the checks contradict each other.
    FailMismatch,
}

/// What [`JobAction`] stands for.
pub enum JobActionView {
    Nothing,
    Skip,
    Check(Seq<Seq<char>>),
    ApplyDiff,
    Recheck(Seq<Seq<char>>),
    Batch(Seq<Seq<char>>),
    Run(Seq<Seq<char>>),
    RunBatch(usize),
    AskCancelled,
    Succeed(Seq<Seq<char>>),
    Fail(Seq<char>),
    FailMismatch,
}

impl View for JobAction {
    type V = JobActionView;

    open spec fn view(&self) -> JobActionView {
        match self {
            JobAction::Nothing => JobActionView::Nothing,
            JobAction::Skip => JobActionView::Skip,
            JobAction::Check(x0) => JobActionView::Check(texts(x0@)),
            JobAction::ApplyDiff => JobActionView::ApplyDiff,
            JobAction::Recheck(x0) => JobActionView::Recheck(texts(x0@)),
            JobAction::Batch(x0) => JobActionView::Batch(texts(x0@)),
            JobAction::Run(x0) => JobActionView::Run(texts(x0@)),
            JobAction::RunBatch(x0) => JobActionView::RunBatch(*x0),
            JobAction::AskCancelled => JobActionView::AskCancelled,
            JobAction::Succeed(x0) => JobActionView::Succeed(texts(x0@)),
            JobAction::Fail(x0) => JobActionView::Fail(x0@),
            JobAction::FailMismatch => JobActionView::FailMismatch,
        }
    }
}

/// What follows where a job comes to its own command.
pub open spec fn run_main(
    setup: JobSetup,
    files: Seq<Seq<char>>,
    focused: bool,
) -> (JobStateView, JobActionView) {
    if focused {
        (JobStateView::Batching(files), JobActionView::Batch(files))
    } else {
        (JobStateView::Running(0, 1, false, seq![]), JobActionView::Run(files))
    }
}

/// What follows a first check that failed and named `listed` files.
pub open spec fn after_listing(
    setup: JobSetup,
    files: Seq<Seq<char>>,
    listed: Seq<Seq<char>>,
    error: Seq<char>,
) -> (JobStateView, JobActionView) {
    if listed.len() == 0 && setup.first_check == FirstCheck::ListFiles {
        (JobStateView::Done, JobActionView::Fail(error))
    } else {
        let chosen = if listed.len() == 0 && setup.first_check == FirstCheck::Diff {
            files
        } else {
            listed
        };
        if setup.first_check == FirstCheck::Diff && setup.run_type == RunType::Fix {
            (JobStateView::Applying(files, chosen), JobActionView::ApplyDiff)
        } else {
            run_main(setup, chosen, setup.focuses())
        }
    }
}

/// What follows the batch at `index` of `count`.
pub open spec fn after_batch(
    index: usize,
    count: usize,
    focused: bool,
    seen: Seq<Seq<char>>,
    files: Seq<Seq<char>>,
    ran: bool,
    error: Option<Seq<char>>,
) -> (JobStateView, JobActionView) {
    let now = if ran {
        push_all_new(seen, files)
    } else {
        seen
    };
    match error {
        Some(e) => (JobStateView::Done, JobActionView::Fail(e)),
        None => if index + 1 < count {
            (
                JobStateView::Running((index + 1) as usize, count, focused, now),
                JobActionView::RunBatch((index + 1) as usize),
            )
        } else if focused {
            (JobStateView::Running(count, count, focused, now), JobActionView::AskCancelled)
        } else {
            (JobStateView::Done, JobActionView::Succeed(now))
        },
    }
}

/// What a job does next: how far it then is, and the next action. An event
/// that does not fit leaves the job where it is.
pub open spec fn job_advanced(
    setup: JobSetup,
    state: JobStateView,
    event: JobEventView,
) -> (JobStateView, JobActionView) {
    match (state, event) {
        (JobStateView::Start(files), JobEventView::Begin) => if setup.skipped {
            (JobStateView::Done, JobActionView::Skip)
        } else if setup.check_first {
            (JobStateView::Checking(files), JobActionView::Check(files))
        } else {
            run_main(setup, files, false)
        },
        (JobStateView::Checking(_), JobEventView::CheckPassed) => (
            JobStateView::Done,
            JobActionView::Succeed(seq![]),
        ),
        (JobStateView::Checking(files), JobEventView::CheckFailed) => run_main(setup, files, false),
        (JobStateView::Checking(files), JobEventView::CheckListed(listed, e)) => after_listing(
            setup,
            files,
            listed,
            e,
        ),
        (JobStateView::Applying(files, chosen), JobEventView::DiffApplied(applied)) => if applied {
            if setup.check_after_diff {
                (JobStateView::Rechecking(chosen), JobActionView::Recheck(files))
            } else {
                (JobStateView::Done, JobActionView::Succeed(chosen))
            }
        } else {
            run_main(setup, chosen, false)
        },
        (JobStateView::Applying(_, _), JobEventView::DirFailed(e)) => (
            JobStateView::Done,
            JobActionView::Fail(e),
        ),
        (JobStateView::Rechecking(chosen), JobEventView::Rechecked(error)) => (
            JobStateView::Done,
            match error {
                Some(e) => JobActionView::Fail(e),
                None => JobActionView::Succeed(chosen),
            },
        ),
        (JobStateView::Batching(_), JobEventView::Batched(count)) => if count == 0 {
            (JobStateView::Running(0, 0, true, seq![]), JobActionView::AskCancelled)
        } else {
            (JobStateView::Running(0, count, true, seq![]), JobActionView::RunBatch(0))
        },
        (JobStateView::Batching(_), JobEventView::BatchingFailed(e)) => (
            JobStateView::Done,
            JobActionView::Fail(e),
        ),
        (
            JobStateView::Running(index, count, focused, seen),
            JobEventView::BatchRan(files, ran, error),
        ) => if index < count {
            after_batch(index, count, focused, seen, files, ran, error)
        } else {
            (state, JobActionView::Nothing)
        },
        (JobStateView::Running(index, count, focused, seen), JobEventView::Cancelled) => if focused
            && index == count {
            (JobStateView::Done, JobActionView::Succeed(seen))
        } else {
            (state, JobActionView::Nothing)
        },
        (JobStateView::Running(index, count, focused, seen), JobEventView::NotCancelled) => if focused
            && index == count {
            (JobStateView::Done, JobActionView::FailMismatch)
        } else {
            (state, JobActionView::Nothing)
        },
        _ => (state, JobActionView::Nothing),
    }
}

fn no_files() -> (r: Vec<String>)
    ensures
        texts(r@) == Seq::<Seq<char>>::empty(),
{
    let r: Vec<String> = Vec::new();
    assert(texts(r@) =~= seq![]);
    r
}

impl JobSetup {
    fn main_command(&self, files: Vec<String>, focused: bool) -> (r: (JobState, JobAction))
        ensures
            (r.0@, r.1@) == run_main(*self, texts(files@), focused),
    {
        if focused {
            let copy = dup_list(&files);
            (JobState::Batching(files), JobAction::Batch(copy))
        } else {
            (JobState::Running(0, 1, false, no_files()), JobAction::Run(files))
        }
    }

    fn listing(&self, files: Vec<String>, listed: Vec<String>, error: String) -> (r: (
        JobState,
        JobAction,
    ))
        ensures
            (r.0@, r.1@) == after_listing(*self, texts(files@), texts(listed@), error@),
    {
        if listed.len() == 0 && self.first_check == FirstCheck::ListFiles {
            return (JobState::Done, JobAction::Fail(error));
        }
        let chosen = if listed.len() == 0 && self.first_check == FirstCheck::Diff {
            dup_list(&files)
        } else {
            listed
        };
        if self.first_check == FirstCheck::Diff && self.run_type == RunType::Fix {
            (JobState::Applying(files, chosen), JobAction::ApplyDiff)
        } else {
            let focused = self.check_failed_files && self.run_type == RunType::Check;
            self.main_command(chosen, focused)
        }
    }

    /// What a job does next.
    pub fn advance(&self, state: JobState, event: JobEvent) -> (r: (JobState, JobAction))
        ensures
            (r.0@, r.1@) == job_advanced(*self, state@, event@),
    {
        match (state, event) {
            (JobState::Start(files), JobEvent::Begin) => if self.skipped {
                (JobState::Done, JobAction::Skip)
            } else if self.check_first {
                let copy = dup_list(&files);
                (JobState::Checking(files), JobAction::Check(copy))
            } else {
                self.main_command(files, false)
            },
            (JobState::Checking(_), JobEvent::CheckPassed) => (
                JobState::Done,
                JobAction::Succeed(no_files()),
            ),
            (JobState::Checking(files), JobEvent::CheckFailed) => self.main_command(files, false),
            (JobState::Checking(files), JobEvent::CheckListed(listed, e)) => self.listing(
                files,
                listed,
                e,
            ),
            (JobState::Applying(files, chosen), JobEvent::DiffApplied(applied)) => if applied {
                if self.check_after_diff {
                    (JobState::Rechecking(chosen), JobAction::Recheck(files))
                } else {
                    (JobState::Done, JobAction::Succeed(chosen))
                }
            } else {
                self.main_command(chosen, false)
            },
            (JobState::Applying(_, _), JobEvent::DirFailed(e)) => (
                JobState::Done,
                JobAction::Fail(e),
            ),
            (JobState::Rechecking(chosen), JobEvent::Rechecked(error)) => {
                let action = match error {
                    Some(e) => JobAction::Fail(e),
                    None => JobAction::Succeed(chosen),
                };
                (JobState::Done, action)
            },
            (JobState::Batching(_), JobEvent::Batched(count)) => if count == 0 {
                (JobState::Running(0, 0, true, no_files()), JobAction::AskCancelled)
            } else {
                (JobState::Running(0, count, true, no_files()), JobAction::RunBatch(0))
            },
            (JobState::Batching(_), JobEvent::BatchingFailed(e)) => (
                JobState::Done,
                JobAction::Fail(e),
            ),
            (
                JobState::Running(index, count, focused, seen),
                JobEvent::BatchRan(files, ran, error),
            ) => {
                if index < count {
                    batch_done(index, count, focused, seen, files, ran, error)
                } else {
                    (JobState::Running(index, count, focused, seen), JobAction::Nothing)
                }
            },
            (JobState::Running(index, count, focused, seen), JobEvent::Cancelled) => {
                if focused && index == count {
                    (JobState::Done, JobAction::Succeed(seen))
                } else {
                    (JobState::Running(index, count, focused, seen), JobAction::Nothing)
                }
            },
            (JobState::Running(index, count, focused, seen), JobEvent::NotCancelled) => {
                if focused && index == count {
                    (JobState::Done, JobAction::FailMismatch)
                } else {
                    (JobState::Running(index, count, focused, seen), JobAction::Nothing)
                }
            },
            (state, _) => (state, JobAction::Nothing),
        }
    }
}

fn add_all_new(seen: &Vec<String>, files: &Vec<String>) -> (r: Vec<String>)
    ensures
        texts(r@) == push_all_new(texts(seen@), texts(files@)),
{
    let mut out = dup_list(seen);
    for i in 0..files.len()
        invariant
            texts(out@) == push_all_new(texts(seen@), texts(files@).take(i as int)),
    {
        if !list_has(&out, files[i].as_str()) {
            out.push(files[i].clone());
        }
    }
    assert(texts(files@).take(files@.len() as int) =~= texts(files@));
    out
}

fn batch_done(
    index: usize,
    count: usize,
    focused: bool,
    seen: Vec<String>,
    files: Vec<String>,
    ran: bool,
    error: Option<String>,
) -> (r: (JobState, JobAction))
    requires
        index < count,
    ensures
        (r.0@, r.1@) == after_batch(
            index,
            count,
            focused,
            texts(seen@),
            texts(files@),
            ran,
            opt_text(error),
        ),
{
    let now = if ran {
        add_all_new(&seen, &files)
    } else {
        seen
    };
    match error {
        Some(e) => (JobState::Done, JobAction::Fail(e)),
        None => {
            if index + 1 < count {
                (
                    JobState::Running(index + 1, count, focused, now),
                    JobAction::RunBatch(index + 1),
                )
            } else if focused {
                (JobState::Running(count, count, focused, now), JobAction::AskCancelled)
            } else {
                (JobState::Done, JobAction::Succeed(now))
            }
        },
    }
}

/// How far a job is after `events`, and what it has done.
pub open spec fn job_traced(
    setup: JobSetup,
    files: Seq<Seq<char>>,
    events: Seq<JobEventView>,
) -> (JobStateView, Seq<JobActionView>)
    decreases events.len(),
{
    if events.len() == 0 {
        (JobStateView::Start(files), seq![])
    } else {
        let (state, actions) = job_traced(setup, files, events.drop_last());
        let (next, action) = job_advanced(setup, state, events.last());
        (next, actions.push(action))
    }
}

/// A job whose first check passes is done: its own command does not run.
pub proof fn law_passing_check_skips_the_command(setup: JobSetup, files: Seq<Seq<char>>)
    requires
        !setup.skipped,
        setup.check_first,
    ensures
        ({
            let (s1, a1) = job_advanced(setup, JobStateView::Start(files), JobEventView::Begin);
            let (s2, a2) = job_advanced(setup, s1, JobEventView::CheckPassed);
            a1 == JobActionView::Check(files) && s2 is Done && a2 == JobActionView::Succeed(seq![])
        }),
{
}

/// The command that lists failing files and lists none has failed itself: the
/// job fails with its error, and nothing is fixed.
pub proof fn law_empty_listing_is_an_error(
    setup: JobSetup,
    files: Seq<Seq<char>>,
    error: Seq<char>,
)
    requires
        setup.first_check == FirstCheck::ListFiles,
    ensures
        job_advanced(setup, JobStateView::Checking(files), JobEventView::CheckListed(seq![], error))
            == (JobStateView::Done, JobActionView::Fail(error)),
{
}

/// Where the files that failed a first check are checked on their own, that
/// they pass does not make the job succeed: it ends with a failure, unless the
/// run is cancelled.
pub proof fn law_first_check_is_authoritative(
    setup: JobSetup,
    state: JobStateView,
    event: JobEventView,
)
    requires
        match state {
            JobStateView::Batching(_) => true,
            JobStateView::Running(_, _, focused, _) => focused,
            _ => false,
        },
        !(event is Cancelled),
    ensures
        !(job_advanced(setup, state, event).1 is Succeed),
{
}

/// A job whose command fails fails with its error.
pub proof fn law_failing_commands_fail_the_job(
    setup: JobSetup,
    state: JobStateView,
    files: Seq<Seq<char>>,
    ran: bool,
    error: Seq<char>,
)
    requires
        state matches JobStateView::Running(index, count, _, _) && index < count,
    ensures
        job_advanced(setup, state, JobEventView::BatchRan(files, ran, Some(error))) == (
            JobStateView::Done,
            JobActionView::Fail(error),
        ),
{
}

/// What an action that ends a job makes of it: the files that it went over, or its error,
/// which is `mismatch` where what was listed passes on its own.
pub open spec fn job_outcome(action: JobActionView, mismatch: Seq<char>) -> Option<
    Result<Seq<Seq<char>>, Seq<char>>,
> {
    match action {
        JobActionView::Skip => Some(Ok(seq![])),
        JobActionView::Succeed(files) => Some(Ok(files)),
        JobActionView::Fail(e) => Some(Err(e)),
        JobActionView::FailMismatch => Some(Err(mismatch)),
        _ => None,
    }
}

/// What an outcome of a job stands for.
pub open spec fn outcome_view(o: Result<Vec<String>, String>) -> Result<Seq<Seq<char>>, Seq<char>> {
    match o {
        Ok(files) => Ok(texts(files@)),
        Err(e) => Err(e@),
    }
}

impl JobAction {
    /// What the action makes of the job, if it ends it.
    pub fn outcome(self, mismatch: String) -> (r: Option<Result<Vec<String>, String>>)
        ensures
            (match r {
                Some(o) => Some(outcome_view(o)),
                None => None,
            }) == job_outcome(self@, mismatch@),
    {
        match self {
            JobAction::Skip => Some(Ok(no_files())),
            JobAction::Succeed(files) => Some(Ok(files)),
            JobAction::Fail(e) => Some(Err(e)),
            JobAction::FailMismatch => Some(Err(mismatch)),
            _ => None,
        }
    }
}

/// Whether a step begins: not where its condition is false, and not where that cannot
/// be evaluated, which is an error of the step.
pub open spec fn begins(condition: Option<Result<ExprValue, Seq<char>>>) -> Result<bool, Seq<char>> {
    match condition {
        None => Ok(true),
        Some(Ok(value)) => Ok(value != ExprValue::Bool(false)),
        Some(Err(e)) => Err(e),
    }
}

/// What the evaluation of a condition stands for.
pub open spec fn condition_view(
    condition: Option<Result<ExprValue, String>>,
) -> Option<Result<ExprValue, Seq<char>>> {
    match condition {
        Some(r) => Some(expr_result(r)),
        None => None,
    }
}

/// Whether a step begins, where `condition` is what evaluating its condition gave if it
/// has one.
pub fn step_begins(condition: Option<Result<ExprValue, String>>) -> (r: Result<bool, String>)
    ensures
        flag_result(r) == begins(condition_view(condition)),
{
    match condition {
        None => Ok(true),
        Some(Ok(ExprValue::Bool(b))) => Ok(b),
        Some(Ok(ExprValue::Other)) => Ok(true),
        Some(Err(e)) => Err(e),
    }
}

/// What the outcomes of jobs stand for: the files that each went over, or its error.
pub open spec fn outcome_views(
    outcomes: Seq<Result<Vec<String>, String>>,
) -> Seq<Result<Seq<Seq<char>>, Seq<char>>> {
    outcomes.map_values(|o: Result<Vec<String>, String>| outcome_view(o))
}

/// The first error among outcomes.
pub open spec fn first_error(outcomes: Seq<Result<Seq<Seq<char>>, Seq<char>>>) -> Option<Seq<char>>
    decreases outcomes.len(),
{
    if outcomes.len() == 0 {
        None
    } else {
        match first_error(outcomes.drop_last()) {
            Some(e) => Some(e),
            None => match outcomes.last() {
                Ok(_) => None,
                Err(e) => Some(e),
            },
        }
    }
}

/// The files that jobs went over, each once.
pub open spec fn touched_files(
    outcomes: Seq<Result<Seq<Seq<char>>, Seq<char>>>,
) -> Seq<Seq<char>>
    decreases outcomes.len(),
{
    if outcomes.len() == 0 {
        seq![]
    } else {
        let before = touched_files(outcomes.drop_last());
        match outcomes.last() {
            Ok(files) => push_all_new(before, files),
            Err(_) => before,
        }
    }
}

/// How many jobs are not skipped.
pub open spec fn unskipped(jobs: Seq<JobView>) -> nat
    decreases jobs.len(),
{
    if jobs.len() == 0 {
        0
    } else {
        unskipped(jobs.drop_last()) + if jobs.last().skip_reason is None {
            1nat
        } else {
            0
        }
    }
}

/// How many jobs are not skipped.
pub fn count_unskipped(jobs: &Vec<Job>) -> (r: usize)
    ensures
        r == unskipped(views(jobs@)),
{
    let ghost all = views(jobs@);
    let mut n: usize = 0;
    for i in 0..jobs.len()
        invariant
            all == views(jobs@),
            n == unskipped(all.take(i as int)),
            n <= i,
    {
        assert(all.take(i + 1).drop_last() =~= all.take(i as int));
        assert(all.take(i + 1).last() == jobs@[i as int]@);
        if jobs[i].skip_reason.is_none() {
            n += 1;
        }
    }
    assert(all.take(jobs@.len() as int) =~= all);
    n
}

/// How the jobs of a step ended.
pub enum StepEnding {
    /// The first error of a job.
    Fail(String),
    NothingToStage,
    Stage(Vec<String>),
}

/// What [`StepEnding`] stands for.
pub enum StepEndingView {
    Fail(Seq<char>),
    NothingToStage,
    Stage(Seq<Seq<char>>),
}

impl View for StepEnding {
    type V = StepEndingView;

    open spec fn view(&self) -> StepEndingView {
        match self {
            StepEnding::Fail(e) => StepEndingView::Fail(e@),
            StepEnding::NothingToStage => StepEndingView::NothingToStage,
            StepEnding::Stage(files) => StepEndingView::Stage(texts(files@)),
        }
    }
}

/// How the jobs of a step ended: with the first error, or with the files that have to be
/// staged, which only a fixing run has.
pub open spec fn ending(
    outcomes: Seq<Result<Seq<Seq<char>>, Seq<char>>>,
    run_type: RunType,
) -> StepEndingView {
    match first_error(outcomes) {
        Some(e) => StepEndingView::Fail(e),
        None => if run_type == RunType::Fix && touched_files(outcomes).len() > 0 {
            StepEndingView::Stage(touched_files(outcomes))
        } else {
            StepEndingView::NothingToStage
        },
    }
}

/// How the jobs of a step ended, where `outcomes` holds the files that each job went over
/// or its error, in the order in which the jobs ended.
pub fn step_ends(outcomes: &Vec<Result<Vec<String>, String>>, run_type: RunType) -> (r: StepEnding)
    ensures
        r@ == ending(outcome_views(outcomes@), run_type),
{
    let ghost all = outcome_views(outcomes@);
    let mut failure: Option<String> = None;
    let mut touched = NameSet::new();
    for i in 0..outcomes.len()
        invariant
            all == outcome_views(outcomes@),
            opt_text(failure) == first_error(all.take(i as int)),
            touched@ == touched_files(all.take(i as int)),
    {
        assert(all.take(i + 1).drop_last() =~= all.take(i as int));
        match &outcomes[i] {
            Ok(files) => {
                assert(all.take(i + 1).last() == Ok::<Seq<Seq<char>>, Seq<char>>(texts(files@)));
                touched.insert_all(files);
            },
            Err(e) => {
                assert(all.take(i + 1).last() == Err::<Seq<Seq<char>>, Seq<char>>(e@));
                if failure.is_none() {
                    failure = Some(e.clone());
                }
            },
        }
    }
    assert(all.take(outcomes@.len() as int) =~= all);
    match failure {
        Some(e) => StepEnding::Fail(e),
        None => if run_type == RunType::Fix && !touched.is_empty() {
            StepEnding::Stage(touched.to_list())
        } else {
            StepEnding::NothingToStage
        },
    }
}

/// How far a step has come.
#[derive(Clone, Copy, Debug, PartialEq, Eq, Structural)]
pub enum StepState {
    Start,
    /// It waits for the steps that it depends on.
    Waiting,
    Evaluating,
    Building,
    /// So many jobs of it run.
    Running(usize),
    Staging,
    Done,
}

/// What happened to a step.
pub enum StepEvent {
    Begin,
    /// The steps that it depends on are done, or could not be waited for.
    Waited(Option<String>),
    Evaluated(Result<ExprValue, String>),
    /// So many jobs have to run, or the jobs could not be built.
    Built(Result<usize, String>),
    /// All jobs have ended; their outcomes, and whether the run was cancelled.
    Ended(Vec<Result<Vec<String>, String>>, bool),
    Staged(Option<String>),
}

/// What [`StepEvent`] stands for.
pub enum StepEventView {
    Begin,
    Waited(Option<Seq<char>>),
    Evaluated(Result<ExprValue, Seq<char>>),
    Built(Result<usize, Seq<char>>),
    Ended(Seq<Result<Seq<Seq<char>>, Seq<char>>>, bool),
    Staged(Option<Seq<char>>),
}

/// What a result with a number stands for.
pub open spec fn count_result(r: Result<usize, String>) -> Result<usize, Seq<char>> {
    match r {
        Ok(n) => Ok(n),
        Err(e) => Err(e@),
    }
}

impl View for StepEvent {
    type V = StepEventView;

    open spec fn view(&self) -> StepEventView {
        match self {
            StepEvent::Begin => StepEventView::Begin,
            StepEvent::Waited(e) => StepEventView::Waited(opt_text(*e)),
            StepEvent::Evaluated(r) => StepEventView::Evaluated(expr_result(*r)),
            StepEvent::Built(r) => StepEventView::Built(count_result(*r)),
            StepEvent::Ended(o, c) => StepEventView::Ended(outcome_views(o@), *c),
            StepEvent::Staged(e) => StepEventView::Staged(opt_text(*e)),
        }
    }
}

/// What is done next of a step.
pub enum StepAction {
    Nothing,
    Wait,
    Evaluate,
    /// The condition is false: the step counts as skipped.
    Skip,
    Build,
    RunJobs,
    Stage(Vec<String>),
    /// The run was cancelled: the step ends without an error and is not done.
    Abort,
    /// Every job was skipped: the step ends without an error and is not done.
    Leave,
    /// The step is done.
    Finish,
    Fail(String),
}

/// What [`StepAction`] stands for.
pub enum StepActionView {
    Nothing,
    Wait,
    Evaluate,
    Skip,
    Build,
    RunJobs,
    Stage(Seq<Seq<char>>),
    Abort,
    Leave,
    Finish,
    Fail(Seq<char>),
}

impl View for StepAction {
    type V = StepActionView;

    open spec fn view(&self) -> StepActionView {
        match self {
            StepAction::Nothing => StepActionView::Nothing,
            StepAction::Wait => StepActionView::Wait,
            StepAction::Evaluate => StepActionView::Evaluate,
            StepAction::Skip => StepActionView::Skip,
            StepAction::Build => StepActionView::Build,
            StepAction::RunJobs => StepActionView::RunJobs,
            StepAction::Stage(files) => StepActionView::Stage(texts(files@)),
            StepAction::Abort => StepActionView::Abort,
            StepAction::Leave => StepActionView::Leave,
            StepAction::Finish => StepActionView::Finish,
            StepAction::Fail(e) => StepActionView::Fail(e@),
        }
    }
}

/// What is settled before a step begins.
#[derive(Clone, Copy, Debug, PartialEq, Eq, Structural)]
pub struct StepSetup {
    pub has_condition: bool,
    pub run_type: RunType,
}

/// What follows the jobs of a step, of which `running` were not skipped.
pub open spec fn jobs_ended(
    setup: StepSetup,
    running: usize,
    outcomes: Seq<Result<Seq<Seq<char>>, Seq<char>>>,
    cancelled: bool,
) -> (StepState, StepActionView) {
    match ending(outcomes, setup.run_type) {
        StepEndingView::Fail(e) => (StepState::Done, StepActionView::Fail(e)),
        end => if cancelled {
            (StepState::Done, StepActionView::Abort)
        } else if running == 0 {
            (StepState::Done, StepActionView::Leave)
        } else if end is Stage {
            (StepState::Staging, StepActionView::Stage(end->Stage_0))
        } else {
            (StepState::Done, StepActionView::Finish)
        },
    }
}

/// What a step does next: how far it then is, and the next action. An event that does
/// not fit leaves the step where it is.
pub open spec fn step_advanced(
    setup: StepSetup,
    state: StepState,
    event: StepEventView,
) -> (StepState, StepActionView) {
    match (state, event) {
        (StepState::Start, StepEventView::Begin) => (StepState::Waiting, StepActionView::Wait),
        (StepState::Waiting, StepEventView::Waited(error)) => match error {
            Some(e) => (StepState::Done, StepActionView::Fail(e)),
            None => if setup.has_condition {
                (StepState::Evaluating, StepActionView::Evaluate)
            } else {
                (StepState::Building, StepActionView::Build)
            },
        },
        (StepState::Evaluating, StepEventView::Evaluated(value)) => match begins(Some(value)) {
            Ok(true) => (StepState::Building, StepActionView::Build),
            Ok(false) => (StepState::Done, StepActionView::Skip),
            Err(e) => (StepState::Done, StepActionView::Fail(e)),
        },
        (StepState::Building, StepEventView::Built(running)) => match running {
            Ok(n) => (StepState::Running(n), StepActionView::RunJobs),
            Err(e) => (StepState::Done, StepActionView::Fail(e)),
        },
        (StepState::Running(n), StepEventView::Ended(outcomes, cancelled)) => jobs_ended(
            setup,
            n,
            outcomes,
            cancelled,
        ),
        (StepState::Staging, StepEventView::Staged(error)) => (
            StepState::Done,
            match error {
                Some(e) => StepActionView::Fail(e),
                None => StepActionView::Finish,
            },
        ),
        _ => (state, StepActionView::Nothing),
    }
}

impl StepSetup {
    /// What the step does next.
    pub fn advance(&self, state: StepState, event: StepEvent) -> (r: (StepState, StepAction))
        ensures
            (r.0, r.1@) == step_advanced(*self, state, event@),
    {
        match (state, event) {
            (StepState::Start, StepEvent::Begin) => (StepState::Waiting, StepAction::Wait),
            (StepState::Waiting, StepEvent::Waited(error)) => match error {
                Some(e) => (StepState::Done, StepAction::Fail(e)),
                None => if self.has_condition {
                    (StepState::Evaluating, StepAction::Evaluate)
                } else {
                    (StepState::Building, StepAction::Build)
                },
            },
            (StepState::Evaluating, StepEvent::Evaluated(value)) => match step_begins(Some(value)) {
                Ok(begins) => if begins {
                    (StepState::Building, StepAction::Build)
                } else {
                    (StepState::Done, StepAction::Skip)
                },
                Err(e) => (StepState::Done, StepAction::Fail(e)),
            },
            (StepState::Building, StepEvent::Built(running)) => match running {
                Ok(n) => (StepState::Running(n), StepAction::RunJobs),
                Err(e) => (StepState::Done, StepAction::Fail(e)),
            },
            (StepState::Running(n), StepEvent::Ended(outcomes, cancelled)) => {
                match step_ends(&outcomes, self.run_type) {
                    StepEnding::Fail(e) => (StepState::Done, StepAction::Fail(e)),
                    end => if cancelled {
                        (StepState::Done, StepAction::Abort)
                    } else if n == 0 {
                        (StepState::Done, StepAction::Leave)
                    } else {
                        match end {
                            StepEnding::Stage(files) => (StepState::Staging, StepAction::Stage(files)),
                            _ => (StepState::Done, StepAction::Finish),
                        }
                    },
                }
            },
            (StepState::Staging, StepEvent::Staged(error)) => match error {
                Some(e) => (StepState::Done, StepAction::Fail(e)),
                None => (StepState::Done, StepAction::Finish),
            },
            (state, _) => (state, StepAction::Nothing),
        }
    }
}

/// How far a step is after `events`, and what it has done.
pub open spec fn step_traced(
    setup: StepSetup,
    events: Seq<StepEventView>,
) -> (StepState, Seq<StepActionView>)
    decreases events.len(),
{
    if events.len() == 0 {
        (StepState::Start, seq![])
    } else {
        let (state, actions) = step_traced(setup, events.drop_last());
        let (next, action) = step_advanced(setup, state, events.last());
        (next, actions.push(action))
    }
}

/// A step whose condition is false, or cannot be evaluated, ends there: it is skipped, or
/// fails with the error of the evaluation.
pub proof fn law_conditions_gate_the_step(setup: StepSetup, value: Result<ExprValue, Seq<char>>)
    ensures
        step_advanced(setup, StepState::Evaluating, StepEventView::Evaluated(value)) == match value {
            Ok(v) => if v == ExprValue::Bool(false) {
                (StepState::Done, StepActionView::Skip)
            } else {
                (StepState::Building, StepActionView::Build)
            },
            Err(e) => (StepState::Done, StepActionView::Fail(e)),
        },
{
}

/// A step that is skipped for its condition has run no job and staged nothing, whatever
/// happens afterwards.
pub proof fn law_skipped_steps_do_nothing(setup: StepSetup, events: Seq<StepEventView>, i: int, j: int)
    requires
        0 <= i < step_traced(setup, events).1.len(),
        step_traced(setup, events).1[i] is Skip,
        0 <= j < step_traced(setup, events).1.len(),
    ensures
        !(step_traced(setup, events).1[j] is RunJobs),
        !(step_traced(setup, events).1[j] is Stage),
{
    lemma_skipped(setup, events);
    assert(is_idle(step_traced(setup, events).1[j]));
}

spec fn is_idle(action: StepActionView) -> bool {
    !(action is RunJobs) && !(action is Stage)
}

proof fn lemma_skipped(setup: StepSetup, events: Seq<StepEventView>)
    ensures
        ({
            let (state, actions) = step_traced(setup, events);
            &&& (exists|i: int| 0 <= i < actions.len() && #[trigger] actions[i] is Skip) ==> state
                == StepState::Done && forall|j: int| 0 <= j < actions.len() ==> is_idle(#[trigger] actions[j])
            &&& (state is Start || state is Waiting || state is Evaluating) ==> forall|j: int|
                0 <= j < actions.len() ==> is_idle(#[trigger] actions[j])
        }),
    decreases events.len(),
{
    if events.len() > 0 {
        lemma_skipped(setup, events.drop_last());
        let (state, actions) = step_traced(setup, events.drop_last());
        let (next, action) = step_advanced(setup, state, events.last());
        let all = step_traced(setup, events).1;
        if exists|i: int| 0 <= i < all.len() && #[trigger] all[i] is Skip {
            let i = choose|i: int| 0 <= i < all.len() && #[trigger] all[i] is Skip;
            if i < actions.len() {
                assert(actions[i] is Skip);
            }
            assert forall|j: int| 0 <= j < all.len() implies is_idle(#[trigger] all[j]) by {
                if j < actions.len() {
                    assert(is_idle(actions[j]));
                }
            }
        }
        if next is Start || next is Waiting || next is Evaluating {
            assert forall|j: int| 0 <= j < all.len() implies is_idle(#[trigger] all[j]) by {
                if j < actions.len() {
                    assert(is_idle(actions[j]));
                }
            }
        }
    }
}

/// A step fails where one of its jobs does, with the first error.
pub proof fn law_failing_jobs_fail_the_step(
    setup: StepSetup,
    running: usize,
    outcomes: Seq<Result<Seq<Seq<char>>, Seq<char>>>,
    cancelled: bool,
    i: int,
)
    requires
        0 <= i < outcomes.len(),
        outcomes[i] is Err,
        forall|k: int| 0 <= k < i ==> (#[trigger] outcomes[k]) is Ok,
    ensures
        step_advanced(
            setup,
            StepState::Running(running),
            StepEventView::Ended(outcomes, cancelled),
        ) == (StepState::Done, StepActionView::Fail(outcomes[i]->Err_0)),
{
    lemma_first_error(outcomes, i);
}

proof fn lemma_first_error(outcomes: Seq<Result<Seq<Seq<char>>, Seq<char>>>, i: int)
    requires
        0 <= i < outcomes.len(),
        outcomes[i] is Err,
        forall|k: int| 0 <= k < i ==> (#[trigger] outcomes[k]) is Ok,
    ensures
        first_error(outcomes) == Some(outcomes[i]->Err_0),
    decreases outcomes.len(),
{
    let init = outcomes.drop_last();
    if i < init.len() {
        assert(init[i] == outcomes[i]);
        assert forall|k: int| 0 <= k < i implies (#[trigger] init[k]) is Ok by {
            assert(outcomes[k] is Ok);
        }
        lemma_first_error(init, i);
    } else {
        assert forall|k: int| 0 <= k < init.len() implies (#[trigger] init[k]) is Ok by {
            assert(outcomes[k] is Ok);
        }
        lemma_no_error(init);
    }
}

proof fn lemma_no_error(outcomes: Seq<Result<Seq<Seq<char>>, Seq<char>>>)
    ensures
        first_error(outcomes) is None <==> forall|k: int|
            0 <= k < outcomes.len() ==> (#[trigger] outcomes[k]) is Ok,
    decreases outcomes.len(),
{
    if outcomes.len() > 0 {
        let init = outcomes.drop_last();
        lemma_no_error(init);
        if first_error(outcomes) is None {
            assert forall|k: int| 0 <= k < outcomes.len() implies (#[trigger] outcomes[k]) is Ok by {
                if k < init.len() {
                    assert(init[k] is Ok);
                }
            }
        }
        if forall|k: int| 0 <= k < outcomes.len() ==> (#[trigger] outcomes[k]) is Ok {
            assert forall|k: int| 0 <= k < init.len() implies (#[trigger] init[k]) is Ok by {
                assert(outcomes[k] is Ok);
            }
            assert(outcomes[outcomes.len() - 1] is Ok);
        }
    }
}

/// A step fails where one of its jobs ends with a failure, be it that what a first check
/// listed passes on its own.
pub proof fn law_steps_fail_with_their_jobs(
    setup: StepSetup,
    running: usize,
    ends: Seq<JobActionView>,
    mismatch: Seq<char>,
    cancelled: bool,
    i: int,
)
    requires
        forall|k: int|
            0 <= k < ends.len() ==> job_outcome(#[trigger] ends[k], mismatch) is Some,
        0 <= i < ends.len(),
        ends[i] is Fail || ends[i] is FailMismatch,
    ensures
        ({
            let outcomes = ends.map_values(|a: JobActionView| job_outcome(a, mismatch)->0);
            let (state, action) = step_advanced(
                setup,
                StepState::Running(running),
                StepEventView::Ended(outcomes, cancelled),
            );
            state == StepState::Done && action is Fail
        }),
{
    let outcomes = ends.map_values(|a: JobActionView| job_outcome(a, mismatch)->0);
    lemma_no_error(outcomes);
    assert(outcomes[i] is Err);
}

/// A step stages only in a fixing run that was not cancelled, only once all its jobs have
/// succeeded, and exactly the files that they went over.
pub proof fn law_staging_waits_for_every_job(setup: StepSetup, state: StepState, event: StepEventView)
    requires
        step_advanced(setup, state, event).1 is Stage,
    ensures
        setup.run_type == RunType::Fix,
        state is Running && event is Ended,
        !event->Ended_1,
        forall|k: int| 0 <= k < event->Ended_0.len() ==> (#[trigger] event->Ended_0[k]) is Ok,
        step_advanced(setup, state, event).1 == StepActionView::Stage(touched_files(event->Ended_0)),
{
    lemma_no_error(event->Ended_0);
}

/// The patterns by which a step stages: its own where it has some, the files of
/// its jobs where it can fix, none where the run does not stage.
pub open spec fn stage_patterns(step: StepView, should_stage: bool) -> Option<Seq<Seq<char>>> {
    if !should_stage {
        None
    } else if step.stage is Some {
        step.stage
    } else if step.fix is Some || step.check_diff is Some {
        Some(seq!["<JOB_FILES>"@])
    } else {
        None
    }
}

/// The patterns are the files of the jobs and nothing else.
pub open spec fn is_job_files(patterns: Option<Seq<Seq<char>>>) -> bool {
    match patterns {
        Some(p) => p.len() == 1 && p[0] == "<JOB_FILES>"@,
        None => false,
    }
}

impl Step {
    /// The patterns by which the step stages.
    pub fn effective_stage(&self, should_stage: bool) -> (r: Option<Vec<String>>)
        ensures
            crate::seqs::opt_texts(r) == stage_patterns(self@, should_stage),
    {
        if !should_stage {
            None
        } else if let Some(own) = &self.stage {
            Some(dup_list(own))
        } else if self.fix.is_some() || self.check_diff.is_some() {
            let mut p: Vec<String> = Vec::new();
            p.push("<JOB_FILES>".to_owned());
            assert(texts(p@) =~= seq!["<JOB_FILES>"@]);
            Some(p)
        } else {
            None
        }
    }
}

/// Whether the patterns are the files of the jobs and nothing else.
pub fn stages_job_files(patterns: &Option<Vec<String>>) -> (r: bool)
    ensures
        r == is_job_files(crate::seqs::opt_texts(*patterns)),
{
    match patterns {
        Some(p) => {
            if p.len() == 1 {
                assert(texts(p@)[0] == p@[0]@);
                same(p[0].as_str(), "<JOB_FILES>")
            } else {
                false
            }
        },
        None => false,
    }
}

/// A pattern below a root; the repository root adds nothing.
pub open spec fn below_root(root: Seq<char>, pattern: Seq<char>) -> Seq<char> {
    let dir = stripped_end(root, '/');
    if dir.len() == 0 || dir == "."@ {
        pattern
    } else {
        dir + "/"@ + pattern
    }
}

/// The globs with `pattern` below each root, or bare where there is none.
pub open spec fn globs_with(
    globs: Seq<Seq<char>>,
    roots: Seq<Seq<char>>,
    pattern: Seq<char>,
) -> Seq<Seq<char>> {
    if roots.len() == 0 {
        globs.push(pattern)
    } else {
        globs + roots.map_values(|root: Seq<char>| below_root(root, pattern))
    }
}

/// Adds `pat` below each root, or bare where there is none.
pub fn push_stage_globs(globs: &mut Vec<String>, roots: &[String], pat: &str)
    ensures
        texts(final(globs)@) == globs_with(texts(old(globs)@), texts(roots@), pat@),
{
    if roots.len() == 0 {
        globs.push(pat.to_owned());
        return;
    }
    let ghost start = texts(globs@);
    let ghost all = texts(roots@).map_values(|root: Seq<char>| below_root(root, pat@));
    assert(texts(globs@) =~= start + all.take(0));
    for i in 0..roots.len()
        invariant
            all == texts(roots@).map_values(|root: Seq<char>| below_root(root, pat@)),
            texts(globs@) =~= start + all.take(i as int),
    {
        let root = strip_end(roots[i].as_str(), '/');
        assert(texts(roots@)[i as int] == roots@[i as int]@);
        if root.as_str().is_empty() || same(root.as_str(), ".") {
            globs.push(pat.to_owned());
        } else {
            let mut g = root;
            g.append("/");
            g.append(pat);
            globs.push(g);
        }
    }
    assert(all.take(all.len() as int) =~= all);
}

/// The globs of all patterns. A pattern that begins with `**/` also stands for
/// what is directly below the root.
pub open spec fn all_globs(patterns: Seq<Seq<char>>, roots: Seq<Seq<char>>) -> Seq<Seq<char>>
    decreases patterns.len(),
{
    if patterns.len() == 0 {
        seq![]
    } else {
        let pattern = patterns.last();
        let base = globs_with(all_globs(patterns.drop_last(), roots), roots, pattern);
        if starts(pattern, "**/"@) && pattern.len() > 3 {
            globs_with(base, roots, after(pattern, 3))
        } else {
            base
        }
    }
}

/// The globs that name files: neither empty nor a directory.
pub open spec fn file_globs(globs: Seq<Seq<char>>) -> Seq<Seq<char>>
    decreases globs.len(),
{
    if globs.len() == 0 {
        seq![]
    } else {
        let before = file_globs(globs.drop_last());
        if globs.last().len() == 0 || ends(globs.last(), "/"@) {
            before
        } else {
            before.push(globs.last())
        }
    }
}

/// The globs by which a step stages, below each directory that its jobs ran in.
pub fn stage_globs(patterns: &Vec<String>, roots: &Vec<String>) -> (r: Vec<String>)
    ensures
        texts(r@) == file_globs(all_globs(texts(patterns@), texts(roots@))),
{
    let mut globs: Vec<String> = Vec::new();
    proof {
        reveal_strlit("**/");
    }
    assert(texts(globs@) =~= all_globs(texts(patterns@).take(0), texts(roots@)));
    for i in 0..patterns.len()
        invariant
            "**/"@.len() == 3,
            texts(globs@) == all_globs(texts(patterns@).take(i as int), texts(roots@)),
    {
        let pat = patterns[i].as_str();
        push_stage_globs(&mut globs, roots, pat);
        if let Some(rest) = strip_prefix(pat, "**/") {
            if !rest.as_str().is_empty() {
                push_stage_globs(&mut globs, roots, rest.as_str());
            }
        }
    }
    assert(texts(patterns@).take(patterns@.len() as int) =~= texts(patterns@));
    let mut out: Vec<String> = Vec::new();
    assert(texts(out@) =~= file_globs(texts(globs@).take(0)));
    for i in 0..globs.len()
        invariant
            texts(out@) == file_globs(texts(globs@).take(i as int)),
    {
        let g = globs[i].as_str();
        if !g.is_empty() && !ends_with(g, "/") {
            out.push(globs[i].clone());
        }
    }
    assert(texts(globs@).take(globs@.len() as int) =~= texts(globs@));
    out
}

/// The globs that are paths themselves and exist.
pub open spec fn literal_paths(
    globs: Seq<Seq<char>>,
    existing: Seq<Seq<char>>,
) -> Seq<Seq<char>>
    decreases globs.len(),
{
    if globs.len() == 0 {
        seq![]
    } else {
        let before = literal_paths(globs.drop_last(), existing);
        if !is_globlike(globs.last()) && existing.contains(globs.last()) {
            before.push(globs.last())
        } else {
            before
        }
    }
}

/// The files that may be staged by globs: those of the jobs, the paths that
/// stand among the globs, and what the status lists for the globs.
pub open spec fn glob_candidates(
    job_files: Seq<Seq<char>>,
    globs: Seq<Seq<char>>,
    existing: Seq<Seq<char>>,
    untracked: Seq<Seq<char>>,
    unstaged: Seq<Seq<char>>,
) -> Seq<Seq<char>> {
    push_all_new(
        push_all_new(
            push_all_new(job_files, literal_paths(globs, existing)),
            untracked,
        ),
        unstaged,
    )
}

/// The files that may be staged by globs.
pub fn stage_candidates(
    job_files: &NameSet,
    globs: &Vec<String>,
    existing: &NameSet,
    untracked: &Vec<String>,
    unstaged: &Vec<String>,
) -> (r: NameSet)
    ensures
        r@ == glob_candidates(
            job_files@,
            texts(globs@),
            existing@,
            texts(untracked@),
            texts(unstaged@),
        ),
{
    let mut literal: Vec<String> = Vec::new();
    assert(texts(literal@) =~= literal_paths(texts(globs@).take(0), existing@));
    for i in 0..globs.len()
        invariant
            texts(literal@) == literal_paths(texts(globs@).take(i as int), existing@),
    {
        let g = globs[i].as_str();
        if !looks_like_glob(g) && existing.contains(g) {
            literal.push(globs[i].clone());
        }
    }
    assert(texts(globs@).take(globs@.len() as int) =~= texts(globs@));
    let mut out = job_files.dup();
    out.insert_all(&literal);
    out.insert_all(untracked);
    out.insert_all(unstaged);
    out
}

/// A file is staged: it has unstaged changes, or it is untracked; the files of
/// the jobs alone never bring in a file that was untracked from the start.
pub open spec fn is_staged(
    file: Seq<char>,
    untracked: Seq<Seq<char>>,
    unstaged: Seq<Seq<char>>,
    initial_untracked: Seq<Seq<char>>,
    job_files_only: bool,
) -> bool {
    if untracked.contains(file) {
        !(job_files_only && initial_untracked.contains(file))
    } else {
        unstaged.contains(file)
    }
}

/// The candidates that are staged.
pub open spec fn staged_files(
    candidates: Seq<Seq<char>>,
    untracked: Seq<Seq<char>>,
    unstaged: Seq<Seq<char>>,
    initial_untracked: Seq<Seq<char>>,
    job_files_only: bool,
) -> Seq<Seq<char>>
    decreases candidates.len(),
{
    if candidates.len() == 0 {
        seq![]
    } else {
        let before = staged_files(
            candidates.drop_last(),
            untracked,
            unstaged,
            initial_untracked,
            job_files_only,
        );
        if is_staged(candidates.last(), untracked, unstaged, initial_untracked, job_files_only) {
            before.push(candidates.last())
        } else {
            before
        }
    }
}

/// The candidates that are staged. `candidates` are the files of the jobs, or
/// those among the candidates that the globs match.
pub fn filter_staged(
    candidates: &Vec<String>,
    untracked: &Vec<String>,
    unstaged: &Vec<String>,
    initial_untracked: &NameSet,
    job_files_only: bool,
) -> (r: Vec<String>)
    ensures
        texts(r@) == staged_files(
            texts(candidates@),
            texts(untracked@),
            texts(unstaged@),
            initial_untracked@,
            job_files_only,
        ),
{
    let mut out: Vec<String> = Vec::new();
    assert(texts(out@) =~= staged_files(
        texts(candidates@).take(0),
        texts(untracked@),
        texts(unstaged@),
        initial_untracked@,
        job_files_only,
    ));
    for i in 0..candidates.len()
        invariant
            texts(out@) == staged_files(
                texts(candidates@).take(i as int),
                texts(untracked@),
                texts(unstaged@),
                initial_untracked@,
                job_files_only,
            ),
    {
        let f = candidates[i].as_str();
        let keep = if list_has(untracked, f) {
            !(job_files_only && initial_untracked.contains(f))
        } else {
            list_has(unstaged, f)
        };
        if keep {
            out.push(candidates[i].clone());
        }
    }
    assert(texts(candidates@).take(candidates@.len() as int) =~= texts(candidates@));
    out
}

/// The files among `staged` that are untracked, or those that are not.
pub open spec fn classified(
    staged: Seq<Seq<char>>,
    untracked: Seq<Seq<char>>,
    created: bool,
) -> Seq<Seq<char>>
    decreases staged.len(),
{
    if staged.len() == 0 {
        seq![]
    } else {
        let before = classified(staged.drop_last(), untracked, created);
        if untracked.contains(staged.last()) == created {
            before.push(staged.last())
        } else {
            before
        }
    }
}

/// The staged files that fixers changed, and those that they created, in order.
pub fn classify(staged: &Vec<String>, untracked: &Vec<String>) -> (r: (Vec<String>, Vec<String>))
    ensures
        texts(r.0@) == sorted_paths(classified(texts(staged@), texts(untracked@), false)),
        texts(r.1@) == sorted_paths(classified(texts(staged@), texts(untracked@), true)),
{
    let mut added: Vec<String> = Vec::new();
    let mut created: Vec<String> = Vec::new();
    assert(texts(added@) =~= classified(texts(staged@).take(0), texts(untracked@), false));
    assert(texts(created@) =~= classified(texts(staged@).take(0), texts(untracked@), true));
    for i in 0..staged.len()
        invariant
            texts(added@) == classified(texts(staged@).take(i as int), texts(untracked@), false),
            texts(created@) == classified(texts(staged@).take(i as int), texts(untracked@), true),
    {
        if list_has(untracked, staged[i].as_str()) {
            created.push(staged[i].clone());
        } else {
            added.push(staged[i].clone());
        }
    }
    assert(texts(staged@).take(staged@.len() as int) =~= texts(staged@));
    (sort_paths(&added), sort_paths(&created))
}

proof fn lemma_staged_files(
    candidates: Seq<Seq<char>>,
    untracked: Seq<Seq<char>>,
    unstaged: Seq<Seq<char>>,
    initial_untracked: Seq<Seq<char>>,
    job_files_only: bool,
    file: Seq<char>,
)
    ensures
        staged_files(candidates, untracked, unstaged, initial_untracked, job_files_only).contains(
            file,
        ) <==> (candidates.contains(file) && is_staged(
            file,
            untracked,
            unstaged,
            initial_untracked,
            job_files_only,
        )),
    decreases candidates.len(),
{
    if candidates.len() > 0 {
        let init = candidates.drop_last();
        lemma_staged_files(init, untracked, unstaged, initial_untracked, job_files_only, file);
        let before = staged_files(init, untracked, unstaged, initial_untracked, job_files_only);
        let all = staged_files(candidates, untracked, unstaged, initial_untracked, job_files_only);
        assert(candidates[candidates.len() - 1] == candidates.last());
        if candidates.contains(file) && file != candidates.last() {
            let i = choose|i: int| 0 <= i < candidates.len() && candidates[i] == file;
            assert(init[i] == file);
        }
        if init.contains(file) {
            let i = choose|i: int| 0 <= i < init.len() && init[i] == file;
            assert(candidates[i] == file);
        }
        if before.contains(file) {
            let i = choose|i: int| 0 <= i < before.len() && before[i] == file;
            assert(all[i] == file);
        }
        if all.contains(file) {
            let i = choose|i: int| 0 <= i < all.len() && all[i] == file;
            if i < before.len() {
                assert(before[i] == file);
            }
        }
        if is_staged(
            candidates.last(),
            untracked,
            unstaged,
            initial_untracked,
            job_files_only,
        ) {
            assert(all[all.len() - 1] == candidates.last());
        }
    }
}

/// A run that stages the files of its jobs stages only files that a job went
/// over and that changed, and none that was untracked before the run.
pub proof fn law_staging_is_scoped_to_job_files(
    job_files: Seq<Seq<char>>,
    untracked: Seq<Seq<char>>,
    unstaged: Seq<Seq<char>>,
    initial_untracked: Seq<Seq<char>>,
    file: Seq<char>,
)
    requires
        staged_files(job_files, untracked, unstaged, initial_untracked, true).contains(file),
    ensures
        job_files.contains(file),
        untracked.contains(file) || unstaged.contains(file),
        untracked.contains(file) ==> !initial_untracked.contains(file),
{
    lemma_staged_files(job_files, untracked, unstaged, initial_untracked, true, file);
}

/// A run that does not stage has no patterns to stage by.
pub proof fn law_patterns_never_turn_staging_on(step: StepView)
    ensures
        stage_patterns(step, false) is None,
{
}

/// A command of the job was run.
pub open spec fn has_run(actions: Seq<JobActionView>) -> bool {
    exists|k: int| 0 <= k < actions.len() && (#[trigger] actions[k] is Run || actions[k] is RunBatch)
}

/// The first check of the job was run.
pub open spec fn has_checked(actions: Seq<JobActionView>) -> bool {
    exists|k: int| 0 <= k < actions.len() && #[trigger] actions[k] is Check
}

/// A patch was about to be applied.
pub open spec fn has_patched(actions: Seq<JobActionView>) -> bool {
    exists|k: int| 0 <= k < actions.len() && #[trigger] actions[k] is ApplyDiff
}

/// The event came.
pub open spec fn has_come(events: Seq<JobEventView>, event: JobEventView) -> bool {
    exists|k: int| 0 <= k < events.len() && #[trigger] events[k] == event
}

proof fn lemma_job_actions_grow(actions: Seq<JobActionView>, action: JobActionView)
    ensures
        has_run(actions) ==> has_run(actions.push(action)),
        has_checked(actions) ==> has_checked(actions.push(action)),
        has_patched(actions) ==> has_patched(actions.push(action)),
        action is Run || action is RunBatch ==> has_run(actions.push(action)),
        action is Check ==> has_checked(actions.push(action)),
        action is ApplyDiff ==> has_patched(actions.push(action)),
{
    let now = actions.push(action);
    assert(now[actions.len() as int] == action);
    if has_run(actions) {
        let k = choose|k: int|
            0 <= k < actions.len() && (#[trigger] actions[k] is Run || actions[k] is RunBatch);
        assert(now[k] == actions[k]);
    }
    if has_checked(actions) {
        let k = choose|k: int| 0 <= k < actions.len() && #[trigger] actions[k] is Check;
        assert(now[k] == actions[k]);
    }
    if has_patched(actions) {
        let k = choose|k: int| 0 <= k < actions.len() && #[trigger] actions[k] is ApplyDiff;
        assert(now[k] == actions[k]);
    }
}

proof fn lemma_job_events_grow(events: Seq<JobEventView>)
    requires
        events.len() > 0,
    ensures
        has_come(events, events.last()),
        forall|e: JobEventView| has_come(events.drop_last(), e) ==> #[trigger] has_come(events, e),
{
    assert(events[events.len() - 1] == events.last());
    assert forall|e: JobEventView| has_come(events.drop_last(), e) implies #[trigger] has_come(
        events,
        e,
    ) by {
        let k = choose|k: int|
            0 <= k < events.drop_last().len() && #[trigger] events.drop_last()[k] == e;
        assert(events[k] == e);
    }
}

/// The job has done what can make it succeed.
spec fn has_worked(actions: Seq<JobActionView>, events: Seq<JobEventView>) -> bool {
    ||| has_run(actions)
    ||| has_checked(actions) && has_come(events, JobEventView::CheckPassed)
    ||| has_patched(actions) && has_come(events, JobEventView::DiffApplied(true))
    ||| has_checked(actions) && has_come(events, JobEventView::Cancelled)
}

proof fn lemma_job_works(setup: JobSetup, files: Seq<Seq<char>>, events: Seq<JobEventView>)
    ensures
        ({
            let (state, actions) = job_traced(setup, files, events);
            &&& state is Checking || state is Applying || state is Batching ==> has_checked(actions)
            &&& state is Applying ==> has_patched(actions)
            &&& state is Rechecking ==> has_patched(actions) && has_come(
                events,
                JobEventView::DiffApplied(true),
            )
            &&& state is Running ==> if state->Running_1 > 0 {
                has_run(actions)
            } else {
                has_checked(actions)
            }
            &&& actions.len() > 0 && actions.last() is Succeed ==> has_worked(actions, events)
        }),
    decreases events.len(),
{
    if events.len() > 0 {
        let init = events.drop_last();
        lemma_job_works(setup, files, init);
        lemma_job_events_grow(events);
        let (state, actions) = job_traced(setup, files, init);
        let (next, action) = job_advanced(setup, state, events.last());
        lemma_job_actions_grow(actions, action);
        assert(job_traced(setup, files, events) == (next, actions.push(action)));
    }
}

/// A job succeeds only after its command was run, its first check passed or its patch was
/// applied, or where the run was cancelled after its first check.
pub proof fn law_jobs_succeed_only_by_work(
    setup: JobSetup,
    files: Seq<Seq<char>>,
    events: Seq<JobEventView>,
)
    requires
        events.len() > 0,
        job_traced(setup, files, events).1.last() is Succeed,
    ensures
        ({
            let actions = job_traced(setup, files, events).1;
            ||| has_run(actions)
            ||| has_checked(actions) && has_come(events, JobEventView::CheckPassed)
            ||| has_patched(actions) && has_come(events, JobEventView::DiffApplied(true))
            ||| has_checked(actions) && has_come(events, JobEventView::Cancelled)
        }),
{
    lemma_job_works(setup, files, events);
}

/// A job begins with its command on all its files, or with its check on them where it
/// checks first; one that is skipped does neither.
pub proof fn law_jobs_begin_on_all_their_files(setup: JobSetup, files: Seq<Seq<char>>)
    ensures
        ({
            let (state, action) = job_advanced(setup, JobStateView::Start(files), JobEventView::Begin);
            &&& action is Skip <==> setup.skipped
            &&& !setup.skipped && !setup.check_first ==> action == JobActionView::Run(files)
            &&& !setup.skipped && setup.check_first ==> action == JobActionView::Check(files)
            &&& setup.skipped ==> forall|event: JobEventView|
                (#[trigger] job_advanced(setup, state, event)).1 == JobActionView::Nothing
        }),
{
}

/// The command of a job decides: where it fails, the job fails with its error, and where
/// it succeeds the job has gone over the files that it ran on.
pub proof fn law_the_command_decides(
    setup: JobSetup,
    files: Seq<Seq<char>>,
    ran_on: Seq<Seq<char>>,
    ran: bool,
    error: Option<Seq<char>>,
    file: Seq<char>,
)
    requires
        !setup.skipped,
        !setup.check_first,
    ensures
        ({
            let (_, actions) = job_traced(
                setup,
                files,
                seq![JobEventView::Begin, JobEventView::BatchRan(ran_on, ran, error)],
            );
            &&& actions[0] == JobActionView::Run(files)
            &&& match error {
                Some(e) => actions[1] == JobActionView::Fail(e),
                None => actions[1] is Succeed && (actions[1]->Succeed_0.contains(file) <==> ran
                    && ran_on.contains(file)),
            }
        }),
{
    let e0 = seq![JobEventView::Begin];
    let e1 = seq![JobEventView::Begin, JobEventView::BatchRan(ran_on, ran, error)];
    assert(e1.drop_last() =~= e0);
    assert(e0.drop_last() =~= Seq::<JobEventView>::empty());
    reveal_with_fuel(job_traced, 3);
    lemma_push_all_new(seq![], ran_on);
}

/// A first check that fails without naming files is followed by the command on all files.
/// One that names files is followed by the command on those.
pub proof fn law_what_failed_the_check_is_worked_on(
    setup: JobSetup,
    files: Seq<Seq<char>>,
    listed: Seq<Seq<char>>,
    error: Seq<char>,
)
    requires
        !setup.skipped,
        setup.check_first,
    ensures
        ({
            let begun = job_advanced(setup, JobStateView::Start(files), JobEventView::Begin).0;
            let bare = job_advanced(setup, begun, JobEventView::CheckFailed);
            let named = job_advanced(setup, begun, JobEventView::CheckListed(listed, error));
            &&& bare.1 == JobActionView::Run(files)
            &&& setup.first_check != FirstCheck::Diff && listed.len() > 0 && setup.run_type
                == RunType::Fix ==> named.1 == JobActionView::Run(listed)
            &&& setup.first_check != FirstCheck::Diff && listed.len() > 0 && setup.run_type
                == RunType::Check ==> named.1 == if setup.check_failed_files {
                JobActionView::Batch(listed)
            } else {
                JobActionView::Run(listed)
            }
            &&& setup.first_check == FirstCheck::Diff && setup.run_type == RunType::Fix ==> named.1
                == JobActionView::ApplyDiff
        }),
{
}

/// A patch that was applied saves the command: the job has gone over the files that the
/// patch names, or all where it names none, once a check on all files passes where one is
/// asked for. A patch that could not be applied is followed by the command on them.
pub proof fn law_patches_save_the_command(
    setup: JobSetup,
    files: Seq<Seq<char>>,
    listed: Seq<Seq<char>>,
    error: Seq<char>,
    recheck: Option<Seq<char>>,
)
    requires
        !setup.skipped,
        setup.check_first,
        setup.first_check == FirstCheck::Diff,
        setup.run_type == RunType::Fix,
    ensures
        ({
            let named = if listed.len() > 0 {
                listed
            } else {
                files
            };
            let s1 = job_advanced(setup, JobStateView::Start(files), JobEventView::Begin).0;
            let s2 = job_advanced(setup, s1, JobEventView::CheckListed(listed, error)).0;
            let good = job_advanced(setup, s2, JobEventView::DiffApplied(true));
            let bad = job_advanced(setup, s2, JobEventView::DiffApplied(false));
            let again = job_advanced(setup, good.0, JobEventView::Rechecked(recheck));
            &&& bad.1 == JobActionView::Run(named)
            &&& !setup.check_after_diff ==> good.1 == JobActionView::Succeed(named)
            &&& setup.check_after_diff ==> good.1 == JobActionView::Recheck(files) && again.1
                == match recheck {
                Some(e) => JobActionView::Fail(e),
                None => JobActionView::Succeed(named),
            }
        }),
{
}

/// Where the files that failed are checked on their own, every batch of them is run until
/// one fails; once all have passed, the job still fails, unless the run was cancelled.
pub proof fn law_batches_run_in_order(
    setup: JobSetup,
    files: Seq<Seq<char>>,
    index: usize,
    count: usize,
    seen: Seq<Seq<char>>,
    batch: Seq<Seq<char>>,
    ran: bool,
)
    requires
        index < count,
    ensures
        job_advanced(setup, JobStateView::Batching(files), JobEventView::Batched(count)).1
            == JobActionView::RunBatch(0),
        ({
            let (next, action) = job_advanced(
                setup,
                JobStateView::Running(index, count, true, seen),
                JobEventView::BatchRan(batch, ran, None),
            );
            &&& index + 1 < count ==> action == JobActionView::RunBatch((index + 1) as usize)
            &&& index + 1 == count ==> {
                &&& action is AskCancelled
                &&& job_advanced(setup, next, JobEventView::NotCancelled).1 is FailMismatch
                &&& job_advanced(setup, next, JobEventView::Cancelled).1 is Succeed
            }
        }),
{
}

/// What jobs went over is what some job of theirs went over.
pub proof fn law_touched_files_are_those_of_jobs(
    outcomes: Seq<Result<Seq<Seq<char>>, Seq<char>>>,
    file: Seq<char>,
)
    ensures
        touched_files(outcomes).contains(file) <==> exists|k: int|
            0 <= k < outcomes.len() && (#[trigger] outcomes[k]) is Ok && outcomes[k]->Ok_0.contains(
                file,
            ),
    decreases outcomes.len(),
{
    if outcomes.len() > 0 {
        let init = outcomes.drop_last();
        law_touched_files_are_those_of_jobs(init, file);
        let n = outcomes.len() - 1;
        assert(outcomes[n] == outcomes.last());
        if outcomes.last() is Ok {
            lemma_push_all_new(touched_files(init), outcomes.last()->Ok_0);
        }
        if touched_files(init).contains(file) {
            let k = choose|k: int|
                0 <= k < init.len() && (#[trigger] init[k]) is Ok && init[k]->Ok_0.contains(file);
            assert(outcomes[k] == init[k]);
        }
        if exists|k: int|
            0 <= k < outcomes.len() && (#[trigger] outcomes[k]) is Ok && outcomes[k]->Ok_0.contains(
                file,
            ) {
            let k = choose|k: int|
                0 <= k < outcomes.len() && (#[trigger] outcomes[k]) is Ok
                    && outcomes[k]->Ok_0.contains(file);
            if k < n {
                assert(init[k] == outcomes[k]);
            }
        }
    }
}

/// A step goes through its stages in order: it waits, evaluates its condition where it has
/// one, builds its jobs and runs them.
pub proof fn law_steps_come_to_their_jobs(setup: StepSetup, value: ExprValue, running: usize)
    requires
        value != ExprValue::Bool(false),
    ensures
        ({
            let begun = step_advanced(setup, StepState::Start, StepEventView::Begin);
            let waited = step_advanced(setup, begun.0, StepEventView::Waited(None));
            let ready = if setup.has_condition {
                step_advanced(setup, waited.0, StepEventView::Evaluated(Ok(value)))
            } else {
                waited
            };
            let built = step_advanced(setup, ready.0, StepEventView::Built(Ok(running)));
            &&& begun.1 is Wait
            &&& setup.has_condition ==> waited.1 is Evaluate
            &&& ready.1 is Build
            &&& built == (StepState::Running(running), StepActionView::RunJobs)
        }),
{
}

/// What keeps a step from its jobs is the error of the step.
pub proof fn law_steps_fail_before_their_jobs(setup: StepSetup, e: Seq<char>)
    ensures
        step_advanced(setup, StepState::Waiting, StepEventView::Waited(Some(e))).1
            == StepActionView::Fail(e),
        step_advanced(setup, StepState::Building, StepEventView::Built(Err(e))).1
            == StepActionView::Fail(e),
        step_advanced(setup, StepState::Staging, StepEventView::Staged(Some(e))).1
            == StepActionView::Fail(e),
{
}

/// A step whose jobs all succeeded stages what they went over in a fixing run, and is done
/// with that; in a checking run it is done at once.
pub proof fn law_fixes_are_staged(
    setup: StepSetup,
    running: usize,
    outcomes: Seq<Result<Seq<Seq<char>>, Seq<char>>>,
    file: Seq<char>,
)
    requires
        running > 0,
        forall|k: int| 0 <= k < outcomes.len() ==> (#[trigger] outcomes[k]) is Ok,
    ensures
        ({
            let (state, action) = step_advanced(
                setup,
                StepState::Running(running),
                StepEventView::Ended(outcomes, false),
            );
            let touched = exists|k: int|
                0 <= k < outcomes.len() && (#[trigger] outcomes[k]) is Ok
                    && outcomes[k]->Ok_0.contains(file);
            &&& setup.run_type == RunType::Check ==> action is Finish
            &&& setup.run_type == RunType::Fix && touched ==> action is Stage
                && action->Stage_0.contains(file)
            &&& action is Stage ==> (action->Stage_0.contains(file) ==> touched) && step_advanced(
                setup,
                state,
                StepEventView::Staged(None),
            ).1 is Finish
            &&& action is Stage || action is Finish
        }),
{
    lemma_no_error(outcomes);
    law_touched_files_are_those_of_jobs(outcomes, file);
}

/// A run that was cancelled ends its steps without an error; so does a step with no job
/// that runs.
pub proof fn law_idle_steps_end_quietly(
    setup: StepSetup,
    running: usize,
    outcomes: Seq<Result<Seq<Seq<char>>, Seq<char>>>,
)
    requires
        forall|k: int| 0 <= k < outcomes.len() ==> (#[trigger] outcomes[k]) is Ok,
    ensures
        step_advanced(
            setup,
            StepState::Running(running),
            StepEventView::Ended(outcomes, true),
        ).1 is Abort,
        step_advanced(setup, StepState::Running(0), StepEventView::Ended(outcomes, false)).1
            is Leave,
{
    lemma_no_error(outcomes);
}

/// The jobs that count are exactly those without a reason to be skipped.
pub proof fn law_unskipped_jobs_count(jobs: Seq<JobView>)
    ensures
        unskipped(jobs) == jobs.filter(|j: JobView| j.skip_reason is None).len(),
    decreases jobs.len(),
{
    reveal(Seq::filter);
    if jobs.len() > 0 {
        law_unskipped_jobs_count(jobs.drop_last());
    }
}

/// Staging is complete: of the files that may be staged, exactly those are that are
/// untracked or have unstaged changes; where only the files of the jobs are staged, not
/// those that were untracked from the start.
pub proof fn law_staging_is_complete(
    candidates: Seq<Seq<char>>,
    untracked: Seq<Seq<char>>,
    unstaged: Seq<Seq<char>>,
    initial_untracked: Seq<Seq<char>>,
    file: Seq<char>,
)
    ensures
        staged_files(candidates, untracked, unstaged, initial_untracked, true).contains(file) <==> (
        candidates.contains(file) && ((untracked.contains(file) && !initial_untracked.contains(file))
            || (!untracked.contains(file) && unstaged.contains(file)))),
        staged_files(candidates, untracked, unstaged, initial_untracked, false).contains(file)
            <==> (candidates.contains(file) && (untracked.contains(file) || unstaged.contains(
            file,
        ))),
{
    lemma_staged_files(candidates, untracked, unstaged, initial_untracked, true, file);
    lemma_staged_files(candidates, untracked, unstaged, initial_untracked, false, file);
}

/// A step that stages does so by its own patterns, else by the files of its jobs where it
/// can change files; a step that only checks stages nothing.
pub proof fn law_fixers_stage_the_files_of_their_jobs(step: StepView)
    ensures
        step.stage is Some ==> stage_patterns(step, true) == step.stage,
        step.stage is None && (step.fix is Some || step.check_diff is Some) ==> is_job_files(
            stage_patterns(step, true),
        ),
        step.stage is None && step.fix is None && step.check_diff is None ==> stage_patterns(
            step,
            true,
        ) is None,
{
}

/// A file may be staged by globs where a job went over it, where it is named and exists,
/// or where the status lists it; nothing else may be.
pub proof fn law_candidates_for_staging(
    job_files: Seq<Seq<char>>,
    globs: Seq<Seq<char>>,
    existing: Seq<Seq<char>>,
    untracked: Seq<Seq<char>>,
    unstaged: Seq<Seq<char>>,
    file: Seq<char>,
)
    ensures
        glob_candidates(job_files, globs, existing, untracked, unstaged).contains(file) <==> (
        job_files.contains(file) || untracked.contains(file) || unstaged.contains(file) || (
        globs.contains(file) && existing.contains(file) && !file.contains('*') && !file.contains('?')
            && !file.contains('['))),
{
    let literal = literal_paths(globs, existing);
    lemma_literal_paths(globs, existing, file);
    lemma_push_all_new(job_files, literal);
    let a = push_all_new(job_files, literal);
    lemma_push_all_new(a, untracked);
    lemma_push_all_new(push_all_new(a, untracked), unstaged);
}

proof fn lemma_literal_paths(globs: Seq<Seq<char>>, existing: Seq<Seq<char>>, file: Seq<char>)
    ensures
        literal_paths(globs, existing).contains(file) <==> (globs.contains(file) && existing.contains(
            file,
        ) && !is_globlike(file)),
    decreases globs.len(),
{
    if globs.len() > 0 {
        let init = globs.drop_last();
        lemma_literal_paths(init, existing, file);
        lemma_last_or_before(globs, file);
        lemma_pushed(literal_paths(init, existing), globs.last(), file);
    }
}

/// The files that were staged fall into those that were changed and those that were
/// created, by whether they were untracked.
pub proof fn law_staged_files_are_changed_or_created(
    staged: Seq<Seq<char>>,
    untracked: Seq<Seq<char>>,
    file: Seq<char>,
)
    ensures
        classified(staged, untracked, true).contains(file) <==> (staged.contains(file)
            && untracked.contains(file)),
        classified(staged, untracked, false).contains(file) <==> (staged.contains(file)
            && !untracked.contains(file)),
    decreases staged.len(),
{
    if staged.len() > 0 {
        let init = staged.drop_last();
        law_staged_files_are_changed_or_created(init, untracked, file);
        lemma_last_or_before(staged, file);
        lemma_pushed(classified(init, untracked, true), staged.last(), file);
        lemma_pushed(classified(init, untracked, false), staged.last(), file);
    }
}

/// The glob is `pattern` below one of the directories, or `pattern` itself where there is
/// no directory, or where the directory is that of the repository.
pub open spec fn is_below(roots: Seq<Seq<char>>, pattern: Seq<char>, glob: Seq<char>) -> bool {
    ||| roots.len() == 0 && glob == pattern
    ||| exists|i: int|
        0 <= i < roots.len() && glob == (if stripped_end(#[trigger] roots[i], '/').len() == 0
            || stripped_end(roots[i], '/') == seq!['.'] {
            pattern
        } else {
            stripped_end(roots[i], '/') + seq!['/'] + pattern
        })
}

proof fn lemma_globs_with(
    globs: Seq<Seq<char>>,
    roots: Seq<Seq<char>>,
    pattern: Seq<char>,
    glob: Seq<char>,
)
    ensures
        globs_with(globs, roots, pattern).contains(glob) <==> (globs.contains(glob) || is_below(
            roots,
            pattern,
            glob,
        )),
{
    reveal_strlit(".");
    reveal_strlit("/");
    assert("."@ =~= seq!['.']);
    assert("/"@ =~= seq!['/']);
    if roots.len() == 0 {
        lemma_pushed(globs, pattern, glob);
    } else {
        let more = roots.map_values(|root: Seq<char>| below_root(root, pattern));
        lemma_either(globs, more, glob);
        if more.contains(glob) {
            let i = choose|i: int| 0 <= i < more.len() && more[i] == glob;
            assert(glob == below_root(roots[i], pattern));
            assert(stripped_end(roots[i], '/') == stripped_end(roots[i], '/'));
        }
        if is_below(roots, pattern, glob) {
            let i = choose|i: int|
                0 <= i < roots.len() && glob == (if stripped_end(#[trigger] roots[i], '/').len()
                    == 0 || stripped_end(roots[i], '/') == seq!['.'] {
                    pattern
                } else {
                    stripped_end(roots[i], '/') + seq!['/'] + pattern
                });
            assert(more[i] == glob);
        }
    }
}

/// A step stages by each of its patterns below each directory that its jobs ran in; a
/// pattern that begins with `**/` also stands for what lies directly in the directory.
/// Patterns that name no file are left out, and no other glob is added.
pub proof fn law_stage_globs_stand_below_the_roots(
    patterns: Seq<Seq<char>>,
    roots: Seq<Seq<char>>,
    glob: Seq<char>,
)
    ensures
        file_globs(all_globs(patterns, roots)).contains(glob) <==> (glob.len() > 0 && glob.last()
            != '/' && exists|i: int|
            0 <= i < patterns.len() && (is_below(roots, #[trigger] patterns[i], glob) || (
            patterns[i].len() > 3 && patterns[i].take(3) == seq!['*', '*', '/'] && is_below(
                roots,
                patterns[i].skip(3),
                glob,
            )))),
{
    lemma_all_globs(patterns, roots, glob);
    lemma_file_globs(all_globs(patterns, roots), glob);
}

proof fn lemma_file_globs(globs: Seq<Seq<char>>, glob: Seq<char>)
    ensures
        file_globs(globs).contains(glob) <==> (globs.contains(glob) && glob.len() > 0 && glob.last()
            != '/'),
    decreases globs.len(),
{
    if globs.len() > 0 {
        let init = globs.drop_last();
        lemma_file_globs(init, glob);
        lemma_last_or_before(globs, glob);
        lemma_pushed(file_globs(init), globs.last(), glob);
        reveal_strlit("/");
        let g = globs.last();
        if g.len() > 0 {
            assert(ends(g, "/"@) <==> g.last() == '/') by {
                assert(g.subrange(g.len() - 1, g.len() as int) =~= seq![g.last()]);
                assert("/"@ =~= seq!['/']);
                if seq![g.last()] == seq!['/'] {
                    assert(seq![g.last()][0] == seq!['/'][0]);
                }
            }
        }
    }
}

spec fn gives_glob(pattern: Seq<char>, roots: Seq<Seq<char>>, glob: Seq<char>) -> bool {
    is_below(roots, pattern, glob) || (pattern.len() > 3 && pattern.take(3) == seq!['*', '*', '/']
        && is_below(roots, pattern.skip(3), glob))
}

proof fn lemma_all_globs(patterns: Seq<Seq<char>>, roots: Seq<Seq<char>>, glob: Seq<char>)
    ensures
        all_globs(patterns, roots).contains(glob) <==> exists|i: int|
            0 <= i < patterns.len() && gives_glob(#[trigger] patterns[i], roots, glob),
    decreases patterns.len(),
{
    if patterns.len() > 0 {
        let init = patterns.drop_last();
        let p = patterns.last();
        lemma_all_globs(init, roots, glob);
        let before = all_globs(init, roots);
        let base = globs_with(before, roots, p);
        lemma_globs_with(before, roots, p, glob);
        reveal_strlit("**/");
        assert("**/"@ =~= seq!['*', '*', '/']);
        if p.len() > 3 {
            assert(p.subrange(0, 3) =~= p.take(3));
            assert(after(p, 3) =~= p.skip(3));
            lemma_globs_with(base, roots, p.skip(3), glob);
        }
        assert(patterns[patterns.len() - 1] == p);
        if before.contains(glob) {
            let i = choose|i: int| 0 <= i < init.len() && gives_glob(#[trigger] init[i], roots, glob);
            assert(gives_glob(patterns[i], roots, glob));
        }
        if exists|i: int| 0 <= i < patterns.len() && gives_glob(#[trigger] patterns[i], roots, glob) {
            let i = choose|i: int|
                0 <= i < patterns.len() && gives_glob(#[trigger] patterns[i], roots, glob);
            if i < init.len() {
                assert(gives_glob(init[i], roots, glob));
            }
        }
    }
}

/// Counting the jobs of a step replaces the one that stood for it by as many as there are.
pub proof fn law_jobs_replace_their_placeholder(c: HookContextView, jobs: nat)
    requires
        c.total_jobs > 0,
        c.total_jobs + jobs <= usize::MAX,
    ensures
        jobs_counted(c, jobs).total_jobs == c.total_jobs - 1 + jobs,
        jobs_counted(c, jobs) == (HookContextView {
            total_jobs: jobs_counted(c, jobs).total_jobs,
            ..c
        }),
{
}

/// A failure of a step is allowed exactly where the step says so, or its expression; one
/// that gives no such word, or nothing, is an error.
pub proof fn law_failures_are_allowed_as_said(step: StepView, value: Result<ExprValue, Seq<char>>, b: bool)
    ensures
        step.allow_failure == AllowFailureView::Bool(b) ==> allowed_failure(step, value) == Ok::<
            bool,
            Seq<char>,
        >(b),
        step.allow_failure is Expression && value == Ok::<ExprValue, Seq<char>>(ExprValue::Bool(b))
            ==> allowed_failure(step, value) == Ok::<bool, Seq<char>>(b),
        step.allow_failure is Expression && value == Ok::<ExprValue, Seq<char>>(ExprValue::Other)
            ==> allowed_failure(step, value) is Err,
        step.allow_failure is Expression && value is Err ==> allowed_failure(step, value) == Err::<
            bool,
            Seq<char>,
        >(value->Err_0),
{
}

/// A step begins unless its condition is false; one that cannot be evaluated is an error.
pub proof fn law_only_false_conditions_hold_back(value: ExprValue, fault: Seq<char>)
    ensures
        begins(None) == Ok::<bool, Seq<char>>(true),
        begins(Some(Ok(value))) == Ok::<bool, Seq<char>>(false) <==> value == ExprValue::Bool(false),
        begins(Some(Ok(value))) == Ok::<bool, Seq<char>>(true) <==> value != ExprValue::Bool(false),
        begins(Some(Err(fault))) == Err::<bool, Seq<char>>(fault),
{
}

/// The patterns are the files of the jobs exactly where the word for them stands alone.
pub proof fn law_the_word_for_job_files_stands_alone(patterns: Option<Seq<Seq<char>>>)
    ensures
        is_job_files(patterns) <==> patterns is Some && patterns->0 == seq!["<JOB_FILES>"@],
{
    if let Some(p) = patterns {
        if is_job_files(patterns) {
            assert(p =~= seq!["<JOB_FILES>"@]);
        }
        if p == seq!["<JOB_FILES>"@] {
            assert(p.len() == 1 && p[0] == "<JOB_FILES>"@);
        }
    }
}

/// Whether a run was cancelled decides over a job exactly where all batches of what failed
/// the check are through: then a cancelled run leaves it be, and any other fails it. In the
/// midst of batches it changes nothing.
pub proof fn law_cancellation_counts_after_the_batches(
    setup: JobSetup,
    index: usize,
    count: usize,
    focused: bool,
    seen: Seq<Seq<char>>,
)
    ensures
        ({
            let state = JobStateView::Running(index, count, focused, seen);
            let yes = job_advanced(setup, state, JobEventView::Cancelled);
            let no = job_advanced(setup, state, JobEventView::NotCancelled);
            &&& focused && index == count ==> yes.1 == JobActionView::Succeed(seen) && no.1
                == JobActionView::FailMismatch && yes.0 == JobStateView::Done && no.0
                == JobStateView::Done
            &&& index < count || !focused ==> yes == (state, JobActionView::Nothing) && no == (
                state,
                JobActionView::Nothing,
            )
        }),
{
}

} // verus!
