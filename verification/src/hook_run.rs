//! The course of a hook run: what is done next after each thing that happened.

use vstd::prelude::*;
use vstd::string::*;
use crate::hook::{Hook, HookView, StashMethod};
use crate::hook_options::{HookOptions, HookOptionsView};
use crate::seqs::{opt_text, opt_view, opt_views, texts, views};
use crate::settings::{Settings, SettingsView};
use crate::step::RunType;
use crate::hook_context::count_steps;
use crate::plan::total_steps;
use crate::step_group::{first_of, StepGroup, StepGroupView};
use crate::table::{dup_opt_vec, Dup};
use crate::text::{dup_opt, same};

verus! {

broadcast use crate::seqs::group_text;

/// Whether a run stops at the first failure: as the flags say, else as the settings do.
pub open spec fn stops_at_failure(opts: HookOptionsView, settings: SettingsView) -> bool {
    if opts.fail_fast {
        true
    } else if opts.no_fail_fast {
        false
    } else {
        settings.fail_fast
    }
}

/// Whether a run stages what its fixers changed: as the flags say, else the
/// settings, else the hook, else exactly for `pre-commit`. A hook that fails when
/// its fixers change something leaves their changes unstaged.
pub open spec fn stages_fixes(
    hook: HookView,
    opts: HookOptionsView,
    settings: SettingsView,
    run_type: RunType,
) -> bool {
    let flag = if opts.stage {
        Some(true)
    } else if opts.no_stage {
        Some(false)
    } else {
        None
    };
    let wanted = match first_of(first_of(flag, settings.stage), hook.stage) {
        Some(b) => b,
        None => hook.name == "pre-commit"@,
    };
    wanted && !(hook.fail_on_fix && run_type == RunType::Fix)
}

impl Hook {
    /// Whether an invocation stops at the first failure.
    pub fn fails_fast(opts: &HookOptions, settings: &Settings) -> (r: bool)
        ensures
            r == stops_at_failure(opts@, settings@),
    {
        if opts.fail_fast {
            true
        } else if opts.no_fail_fast {
            false
        } else {
            settings.fail_fast
        }
    }

    /// Whether an invocation stages what its fixers changed.
    pub fn stages(&self, opts: &HookOptions, settings: &Settings, run_type: RunType) -> (r: bool)
        ensures
            r == stages_fixes(self@, opts@, settings@, run_type),
    {
        let wanted = match opts.should_stage() {
            Some(b) => b,
            None => match settings.stage {
                Some(b) => b,
                None => match self.stage {
                    Some(b) => b,
                    None => same(self.name.as_str(), "pre-commit"),
                },
            },
        };
        wanted && !(self.fail_on_fix && run_type == RunType::Fix)
    }
}

/// A hook that fails when its fixers change something never stages in a fixing run.
pub proof fn law_fail_on_fix_never_stages(
    hook: HookView,
    opts: HookOptionsView,
    settings: SettingsView,
)
    requires
        hook.fail_on_fix,
    ensures
        !stages_fixes(hook, opts, settings, RunType::Fix),
{
}

/// What is settled before a run begins.
#[derive(Clone, Copy)]
pub struct RunSetup {
    /// The settings skip the hook.
    pub skip_hook: bool,
    pub total_steps: usize,
    pub group_count: usize,
    pub fail_fast: bool,
    pub safe: bool,
    pub stash: StashMethod,
    /// The run fixes, and fails when its fixers change something.
    pub fail_on_fix: bool,
    /// The run stages what its fixers change.
    pub stage: bool,
}

/// What is settled before a run of a hook begins.
pub open spec fn settled(
    hook: HookView,
    opts: HookOptionsView,
    settings: SettingsView,
    groups: Seq<StepGroupView>,
    stash: StashMethod,
    run_type: RunType,
) -> RunSetup {
    RunSetup {
        skip_hook: settings.skip_hooks.contains(hook.name),
        total_steps: total_steps(groups) as usize,
        group_count: groups.len() as usize,
        fail_fast: stops_at_failure(opts, settings),
        safe: opts.safe,
        stash,
        fail_on_fix: hook.fail_on_fix && run_type == RunType::Fix,
        stage: stages_fixes(hook, opts, settings, run_type),
    }
}

impl RunSetup {
    /// What is settled before a run of a hook begins.
    pub fn new(
        hook: &Hook,
        opts: &HookOptions,
        settings: &Settings,
        groups: &Vec<StepGroup>,
        stash: StashMethod,
        run_type: RunType,
    ) -> (r: RunSetup)
        requires
            total_steps(views(groups@)) <= usize::MAX,
        ensures
            r == settled(hook@, opts@, settings@, views(groups@), stash, run_type),
    {
        RunSetup {
            skip_hook: settings.skip_hooks.contains(hook.name.as_str()),
            total_steps: count_steps(groups),
            group_count: groups.len(),
            fail_fast: Hook::fails_fast(opts, settings),
            safe: opts.safe,
            stash,
            fail_on_fix: hook.fail_on_fix && run_type == RunType::Fix,
            stage: hook.stages(opts, settings, run_type),
        }
    }
}

/// There is work to put aside: unstaged changes, or untracked files where those
/// are put aside too.
pub open spec fn work_to_stash(unstaged: nat, untracked: nat, stash_untracked: bool) -> bool {
    unstaged > 0 || (stash_untracked && untracked > 0)
}

/// Whether there is work to put aside.
pub fn has_work_to_stash(unstaged: &Vec<String>, untracked: &Vec<String>, stash_untracked: bool) -> (r:
    bool)
    ensures
        r == work_to_stash(unstaged@.len(), untracked@.len(), stash_untracked),
{
    unstaged.len() > 0 || (stash_untracked && untracked.len() > 0)
}

/// The error of a run, and what caused it.
pub struct RunFailure {
    pub message: String,
    pub cause: Option<String>,
}

/// What [`RunFailure`] stands for.
pub struct RunFailureView {
    pub message: Seq<char>,
    pub cause: Option<Seq<char>>,
}

impl View for RunFailure {
    type V = RunFailureView;

    open spec fn view(&self) -> RunFailureView {
        RunFailureView {
            message: self.message@,
            cause: opt_text(self.cause),
        }
    }
}

impl Dup for RunFailure {
    fn dup(&self) -> (r: Self) {
        RunFailure {
            message: self.message.clone(),
            cause: dup_opt(&self.cause),
        }
    }
}

/// A step that a run without work skipped, and why.
pub struct SkippedStep {
    pub name: String,
    pub reason: String,
}

/// What [`SkippedStep`] stands for.
pub struct SkippedStepView {
    pub name: Seq<char>,
    pub reason: Seq<char>,
}

impl View for SkippedStep {
    type V = SkippedStepView;

    open spec fn view(&self) -> SkippedStepView {
        SkippedStepView {
            name: self.name@,
            reason: self.reason@,
        }
    }
}

impl Dup for SkippedStep {
    fn dup(&self) -> (r: Self) {
        SkippedStep {
            name: self.name.clone(),
            reason: self.reason.clone(),
        }
    }
}

/// What is known once the files are selected: whether there are any, the steps and reasons where every step is skipped for certain, and what keeps a safe run from starting.
pub struct Selection {
    pub empty: bool,
    pub noop_steps: Option<Vec<SkippedStep>>,
    pub refusal: Option<String>,
}

/// What [`Selection`] stands for.
pub struct SelectionView {
    pub empty: bool,
    pub noop_steps: Option<Seq<SkippedStepView>>,
    pub refusal: Option<Seq<char>>,
}

impl View for Selection {
    type V = SelectionView;

    open spec fn view(&self) -> SelectionView {
        SelectionView {
            empty: self.empty,
            noop_steps: opt_views(self.noop_steps),
            refusal: opt_text(self.refusal),
        }
    }
}

impl Dup for Selection {
    fn dup(&self) -> (r: Self) {
        Selection {
            empty: self.empty,
            noop_steps: dup_opt_vec(&self.noop_steps),
            refusal: dup_opt(&self.refusal),
        }
    }
}

/// Why stashed work could not be restored, and where its backup is.
pub struct PopFailure {
    pub error: String,
    pub backup: Option<String>,
}

/// What [`PopFailure`] stands for.
pub struct PopFailureView {
    pub error: Seq<char>,
    pub backup: Option<Seq<char>>,
}

impl View for PopFailure {
    type V = PopFailureView;

    open spec fn view(&self) -> PopFailureView {
        PopFailureView {
            error: self.error@,
            backup: opt_text(self.backup),
        }
    }
}

impl Dup for PopFailure {
    fn dup(&self) -> (r: Self) {
        PopFailure {
            error: self.error.clone(),
            backup: dup_opt(&self.backup),
        }
    }
}

/// How far a run has come.
pub enum RunState {
    Start,
    /// It is being written that the run has started.
    Announcing,
    /// The steps are being written that the run has.
    AnnouncingPlan,
    OpeningRepo,
    ReadingStatus,
    /// Whether there is unstaged work to put aside is known.
    SelectingFiles(bool),
    Stashing,
    Snapshotting,
    /// The group at a position is running; the first failure so far.
    RunningGroup(usize, Option<RunFailure>),
    Comparing,
    Popping(Option<RunFailure>),
    /// The result is being written.
    Reporting(Option<RunFailure>),
    ReportingNoop,
    /// An error is being written; what to say if that fails too, and the error.
    ReportingError(String, String),
    Done,
}

/// What [`RunState`] stands for.
pub enum RunStateView {
    Start,
    Announcing,
    AnnouncingPlan,
    OpeningRepo,
    ReadingStatus,
    SelectingFiles(bool),
    Stashing,
    Snapshotting,
    RunningGroup(usize, Option<RunFailureView>),
    Comparing,
    Popping(Option<RunFailureView>),
    Reporting(Option<RunFailureView>),
    ReportingNoop,
    ReportingError(Seq<char>, Seq<char>),
    Done,
}

impl View for RunState {
    type V = RunStateView;

    open spec fn view(&self) -> RunStateView {
        match self {
            RunState::Start => RunStateView::Start,
            RunState::Announcing => RunStateView::Announcing,
            RunState::AnnouncingPlan => RunStateView::AnnouncingPlan,
            RunState::OpeningRepo => RunStateView::OpeningRepo,
            RunState::ReadingStatus => RunStateView::ReadingStatus,
            RunState::SelectingFiles(x0) => RunStateView::SelectingFiles(*x0),
            RunState::Stashing => RunStateView::Stashing,
            RunState::Snapshotting => RunStateView::Snapshotting,
            RunState::RunningGroup(x0, x1) => RunStateView::RunningGroup(*x0, opt_view(*x1)),
            RunState::Comparing => RunStateView::Comparing,
            RunState::Popping(x0) => RunStateView::Popping(opt_view(*x0)),
            RunState::Reporting(x0) => RunStateView::Reporting(opt_view(*x0)),
            RunState::ReportingNoop => RunStateView::ReportingNoop,
            RunState::ReportingError(x0, x1) => RunStateView::ReportingError(x0@, x1@),
            RunState::Done => RunStateView::Done,
        }
    }
}

/// What happened.
pub enum RunEvent {
    Begin,
    /// The repository is open, or could not be opened.
    RepoOpened(Option<String>),
    /// The status is read, with unstaged work or without, or it could not be read.
    StatusRead(bool, Option<String>),
    FilesSelected(Selection),
    SelectionFailed(String),
    Stashed(Option<String>),
    SnapshotTaken,
    GroupRan(Option<String>),
    /// Whether fixers changed a file.
    FilesCompared(bool),
    StashPopped(Option<PopFailure>),
    Reported(Option<String>),
}

/// What [`RunEvent`] stands for.
pub enum RunEventView {
    Begin,
    RepoOpened(Option<Seq<char>>),
    StatusRead(bool, Option<Seq<char>>),
    FilesSelected(SelectionView),
    SelectionFailed(Seq<char>),
    Stashed(Option<Seq<char>>),
    SnapshotTaken,
    GroupRan(Option<Seq<char>>),
    FilesCompared(bool),
    StashPopped(Option<PopFailureView>),
    Reported(Option<Seq<char>>),
}

impl View for RunEvent {
    type V = RunEventView;

    open spec fn view(&self) -> RunEventView {
        match self {
            RunEvent::Begin => RunEventView::Begin,
            RunEvent::RepoOpened(x0) => RunEventView::RepoOpened(opt_text(*x0)),
            RunEvent::StatusRead(x0, x1) => RunEventView::StatusRead(*x0, opt_text(*x1)),
            RunEvent::FilesSelected(x0) => RunEventView::FilesSelected(x0@),
            RunEvent::SelectionFailed(x0) => RunEventView::SelectionFailed(x0@),
            RunEvent::Stashed(x0) => RunEventView::Stashed(opt_text(*x0)),
            RunEvent::SnapshotTaken => RunEventView::SnapshotTaken,
            RunEvent::GroupRan(x0) => RunEventView::GroupRan(opt_text(*x0)),
            RunEvent::FilesCompared(x0) => RunEventView::FilesCompared(*x0),
            RunEvent::StashPopped(x0) => RunEventView::StashPopped(opt_view(*x0)),
            RunEvent::Reported(x0) => RunEventView::Reported(opt_text(*x0)),
        }
    }
}

/// What is done next.
pub enum RunAction {
    Nothing,
    /// Write that the run has started.
    ReportStarted,
    /// Write the steps that the run has.
    ReportPlanned,
    OpenRepo,
    ReadStatus,
    SelectFiles,
    /// Put unstaged work aside.
    Stash,
    /// Take down what the files hold.
    Snapshot,
    RunGroup(usize),
    /// Find out whether the files still hold the same.
    CompareFiles,
    /// Restore the work that was put aside.
    /// Restore what was put aside; whether the run stages.
    PopStash(bool),
    ReportNoop(String, Vec<SkippedStep>),
    ReportError(String),
    /// Write the result, with the error if there is one.
    ReportRun(Option<String>),
    Succeed,
    Fail(RunFailure),
}

/// What [`RunAction`] stands for.
pub enum RunActionView {
    Nothing,
    ReportStarted,
    ReportPlanned,
    OpenRepo,
    ReadStatus,
    SelectFiles,
    Stash,
    Snapshot,
    RunGroup(usize),
    CompareFiles,
    PopStash(bool),
    ReportNoop(Seq<char>, Seq<SkippedStepView>),
    ReportError(Seq<char>),
    ReportRun(Option<Seq<char>>),
    Succeed,
    Fail(RunFailureView),
}

impl View for RunAction {
    type V = RunActionView;

    open spec fn view(&self) -> RunActionView {
        match self {
            RunAction::Nothing => RunActionView::Nothing,
            RunAction::ReportStarted => RunActionView::ReportStarted,
            RunAction::ReportPlanned => RunActionView::ReportPlanned,
            RunAction::OpenRepo => RunActionView::OpenRepo,
            RunAction::ReadStatus => RunActionView::ReadStatus,
            RunAction::SelectFiles => RunActionView::SelectFiles,
            RunAction::Stash => RunActionView::Stash,
            RunAction::Snapshot => RunActionView::Snapshot,
            RunAction::RunGroup(x0) => RunActionView::RunGroup(*x0),
            RunAction::CompareFiles => RunActionView::CompareFiles,
            RunAction::PopStash(stage) => RunActionView::PopStash(*stage),
            RunAction::ReportNoop(x0, x1) => RunActionView::ReportNoop(x0@, views(x1@)),
            RunAction::ReportError(x0) => RunActionView::ReportError(x0@),
            RunAction::ReportRun(x0) => RunActionView::ReportRun(opt_text(*x0)),
            RunAction::Succeed => RunActionView::Succeed,
            RunAction::Fail(x0) => RunActionView::Fail(x0@),
        }
    }
}

/// The error that is all message.
pub open spec fn failure(message: Seq<char>) -> RunFailureView {
    RunFailureView { message, cause: None }
}

fn fail_with(message: String) -> (r: RunFailure)
    ensures
        r@ == failure(message@),
{
    RunFailure { message, cause: None }
}

/// What follows once the work that has to be put aside has been.
pub open spec fn start_groups(setup: RunSetup) -> (RunStateView, RunActionView) {
    if setup.fail_on_fix {
        (RunStateView::Snapshotting, RunActionView::Snapshot)
    } else if setup.group_count == 0 {
        (RunStateView::Popping(None), RunActionView::PopStash(setup.stage))
    } else {
        (RunStateView::RunningGroup(0, None), RunActionView::RunGroup(0))
    }
}

/// What follows once the groups have run.
pub open spec fn after_groups(
    setup: RunSetup,
    so_far: Option<RunFailureView>,
) -> (RunStateView, RunActionView) {
    if so_far is None && setup.fail_on_fix {
        (RunStateView::Comparing, RunActionView::CompareFiles)
    } else {
        (RunStateView::Popping(so_far), RunActionView::PopStash(setup.stage))
    }
}

pub open spec fn noop(
    reason: Seq<char>,
    steps: Seq<SkippedStepView>,
) -> (RunStateView, RunActionView) {
    (RunStateView::ReportingNoop, RunActionView::ReportNoop(reason, steps))
}

pub open spec fn refused(
    context: Seq<char>,
    error: Seq<char>,
) -> (RunStateView, RunActionView) {
    (RunStateView::ReportingError(context, error), RunActionView::ReportError(error))
}

/// Where the backup of stashed work is, in brackets.
pub open spec fn backup_hint(backup: Option<Seq<char>>) -> Seq<char> {
    match backup {
        Some(path) => " (a backup of the stashed changes is at "@ + path + ")"@,
        None => seq![],
    }
}

/// The failure of a run after its stashed work was restored or not.
pub open spec fn after_pop(
    so_far: Option<RunFailureView>,
    pop: Option<PopFailureView>,
) -> Option<RunFailureView> {
    match (so_far, pop) {
        (Some(f), _) => Some(f),
        (None, None) => None,
        (None, Some(p)) => Some(
            RunFailureView {
                message: "failed to restore stash"@ + backup_hint(p.backup),
                cause: Some(p.error),
            },
        ),
    }
}

/// How a run ends once its result has been written or could not be.
pub open spec fn ended(
    so_far: Option<RunFailureView>,
    report_error: Option<Seq<char>>,
) -> RunActionView {
    match (report_error, so_far) {
        (None, None) => RunActionView::Succeed,
        (None, Some(f)) => RunActionView::Fail(f),
        (Some(e), None) => RunActionView::Fail(failure(e)),
        (Some(e), Some(f)) => RunActionView::Fail(
            RunFailureView {
                message: "failed to emit result after hook also failed: "@ + f.message,
                cause: Some(e),
            },
        ),
    }
}

/// What a run does next: how far it then is, and the next action. An event
/// that does not fit leaves the run where it is.
pub open spec fn advanced(
    setup: RunSetup,
    state: RunStateView,
    event: RunEventView,
) -> (RunStateView, RunActionView) {
    match (state, event) {
        (RunStateView::Start, RunEventView::Begin) => (
            RunStateView::Announcing,
            RunActionView::ReportStarted,
        ),
        (RunStateView::Announcing, RunEventView::Reported(error)) => match error {
            Some(e) => (RunStateView::Done, RunActionView::Fail(failure(e))),
            None => if setup.skip_hook {
                noop("hook disabled by HK_SKIP_HOOK"@, seq![])
            } else {
                (RunStateView::AnnouncingPlan, RunActionView::ReportPlanned)
            },
        },
        (RunStateView::AnnouncingPlan, RunEventView::Reported(error)) => match error {
            Some(e) => (RunStateView::Done, RunActionView::Fail(failure(e))),
            None => (RunStateView::OpeningRepo, RunActionView::OpenRepo),
        },
        (RunStateView::OpeningRepo, RunEventView::RepoOpened(error)) => match error {
            Some(e) => refused("hook setup also failed: "@, e),
            None => if setup.total_steps == 0 {
                noop("no configured steps"@, seq![])
            } else {
                (RunStateView::ReadingStatus, RunActionView::ReadStatus)
            },
        },
        (RunStateView::ReadingStatus, RunEventView::StatusRead(unstaged, error)) => match error {
            Some(e) => refused("git status collection also failed: "@, e),
            None => (RunStateView::SelectingFiles(unstaged), RunActionView::SelectFiles),
        },
        (RunStateView::SelectingFiles(_), RunEventView::SelectionFailed(e)) => refused(
            "file selection also failed: "@,
            e,
        ),
        (RunStateView::SelectingFiles(unstaged), RunEventView::FilesSelected(s)) => if s.empty
            && s.noop_steps is Some {
            noop("no matching files"@, s.noop_steps->0)
        } else if setup.safe && s.refusal is Some {
            refused("safe command validation also failed: "@, s.refusal->0)
        } else if setup.stash != StashMethod::Off && unstaged {
            (RunStateView::Stashing, RunActionView::Stash)
        } else {
            start_groups(setup)
        },
        (RunStateView::Stashing, RunEventView::Stashed(error)) => match error {
            Some(e) => (RunStateView::Done, RunActionView::Fail(failure(e))),
            None => start_groups(setup),
        },
        (RunStateView::Snapshotting, RunEventView::SnapshotTaken) => if setup.group_count == 0 {
            after_groups(setup, None)
        } else {
            (RunStateView::RunningGroup(0, None), RunActionView::RunGroup(0))
        },
        (RunStateView::RunningGroup(index, so_far), RunEventView::GroupRan(error)) => {
            let result = match (so_far, error) {
                (Some(f), _) => Some(f),
                (None, Some(e)) => Some(failure(e)),
                (None, None) => None,
            };
            if (setup.fail_fast && result is Some) || index + 1 >= setup.group_count {
                after_groups(setup, result)
            } else {
                (
                    RunStateView::RunningGroup((index + 1) as usize, result),
                    RunActionView::RunGroup((index + 1) as usize),
                )
            }
        },
        (RunStateView::Comparing, RunEventView::FilesCompared(changed)) => {
            let result = if changed {
                Some(failure("fail_on_fix: files were modified by fix commands"@))
            } else {
                None
            };
            (RunStateView::Popping(result), RunActionView::PopStash(setup.stage))
        },
        (RunStateView::Popping(so_far), RunEventView::StashPopped(pop)) => {
            let result = after_pop(so_far, pop);
            (
                RunStateView::Reporting(result),
                RunActionView::ReportRun(
                    match result {
                        Some(f) => Some(f.message),
                        None => None,
                    },
                ),
            )
        },
        (RunStateView::Reporting(so_far), RunEventView::Reported(error)) => (
            RunStateView::Done,
            ended(so_far, error),
        ),
        (RunStateView::ReportingNoop, RunEventView::Reported(error)) => (
            RunStateView::Done,
            ended(None, error),
        ),
        (RunStateView::ReportingError(context, e), RunEventView::Reported(error)) => (
            RunStateView::Done,
            match error {
                Some(x) => RunActionView::Fail(
                    RunFailureView { message: context + e, cause: Some(x) },
                ),
                None => RunActionView::Fail(failure(e)),
            },
        ),
        _ => (state, RunActionView::Nothing),
    }
}

fn begin_groups(setup: &RunSetup) -> (r: (RunState, RunAction))
    ensures
        (r.0@, r.1@) == start_groups(*setup),
{
    if setup.fail_on_fix {
        (RunState::Snapshotting, RunAction::Snapshot)
    } else if setup.group_count == 0 {
        (RunState::Popping(None), RunAction::PopStash(setup.stage))
    } else {
        (RunState::RunningGroup(0, None), RunAction::RunGroup(0))
    }
}

fn finish_groups(setup: &RunSetup, so_far: Option<RunFailure>) -> (r: (RunState, RunAction))
    ensures
        (r.0@, r.1@) == after_groups(*setup, opt_view(so_far)),
{
    if so_far.is_none() && setup.fail_on_fix {
        (RunState::Comparing, RunAction::CompareFiles)
    } else {
        (RunState::Popping(so_far), RunAction::PopStash(setup.stage))
    }
}

fn report_noop(reason: &str) -> (r: (RunState, RunAction))
    ensures
        (r.0@, r.1@) == noop(reason@, seq![]),
{
    let steps: Vec<SkippedStep> = Vec::new();
    assert(views(steps@) =~= seq![]);
    (RunState::ReportingNoop, RunAction::ReportNoop(reason.to_owned(), steps))
}

fn refuse(context: &str, error: String) -> (r: (RunState, RunAction))
    ensures
        (r.0@, r.1@) == refused(context@, error@),
{
    let copy = error.clone();
    (RunState::ReportingError(context.to_owned(), error), RunAction::ReportError(copy))
}

fn restore(so_far: Option<RunFailure>, pop: Option<PopFailure>) -> (r: Option<RunFailure>)
    ensures
        opt_view(r) == after_pop(
            opt_view(so_far),
            opt_view(pop),
        ),
{
    match (so_far, pop) {
        (Some(f), _) => Some(f),
        (None, None) => None,
        (None, Some(p)) => {
            let mut message = "failed to restore stash".to_owned();
            let mut hint = String::new();
            if let Some(path) = &p.backup {
                hint = " (a backup of the stashed changes is at ".to_owned();
                hint.append(path.as_str());
                hint.append(")");
            }
            message.append(hint.as_str());
            Some(RunFailure { message, cause: Some(p.error) })
        },
    }
}

fn end(so_far: Option<RunFailure>, report_error: Option<String>) -> (r: RunAction)
    ensures
        r@ == ended(opt_view(so_far), opt_text(report_error)),
{
    match (report_error, so_far) {
        (None, None) => RunAction::Succeed,
        (None, Some(f)) => RunAction::Fail(f),
        (Some(e), None) => RunAction::Fail(fail_with(e)),
        (Some(e), Some(f)) => {
            let mut message = "failed to emit result after hook also failed: ".to_owned();
            message.append(f.message.as_str());
            RunAction::Fail(RunFailure { message, cause: Some(e) })
        },
    }
}

fn select(setup: &RunSetup, unstaged: bool, s: Selection) -> (r: (RunState, RunAction))
    ensures
        (r.0@, r.1@) == advanced(
            *setup,
            RunStateView::SelectingFiles(unstaged),
            RunEventView::FilesSelected(s@),
        ),
{
    if s.empty && s.noop_steps.is_some() {
        return (
            RunState::ReportingNoop,
            RunAction::ReportNoop("no matching files".to_owned(), s.noop_steps.unwrap()),
        );
    }
    if setup.safe {
        if let Some(e) = s.refusal {
            return refuse("safe command validation also failed: ", e);
        }
    }
    if setup.stash != StashMethod::Off && unstaged {
        (RunState::Stashing, RunAction::Stash)
    } else {
        begin_groups(setup)
    }
}

fn group_ran(
    setup: &RunSetup,
    index: usize,
    so_far: Option<RunFailure>,
    error: Option<String>,
) -> (r: (RunState, RunAction))
    ensures
        (r.0@, r.1@) == advanced(
            *setup,
            RunStateView::RunningGroup(index, opt_view(so_far)),
            RunEventView::GroupRan(opt_text(error)),
        ),
{
    let result = match (so_far, error) {
        (Some(f), _) => Some(f),
        (None, Some(e)) => Some(fail_with(e)),
        (None, None) => None,
    };
    if (setup.fail_fast && result.is_some()) || index >= setup.group_count || index + 1
        >= setup.group_count {
        finish_groups(setup, result)
    } else {
        (RunState::RunningGroup(index + 1, result), RunAction::RunGroup(index + 1))
    }
}

impl RunSetup {
    /// What a run does next.
    pub fn advance(&self, state: RunState, event: RunEvent) -> (r: (RunState, RunAction))
        ensures
            (r.0@, r.1@) == advanced(*self, state@, event@),
    {
        match (state, event) {
            (RunState::Start, RunEvent::Begin) => (RunState::Announcing, RunAction::ReportStarted),
            (RunState::Announcing, RunEvent::Reported(error)) => match error {
                Some(e) => (RunState::Done, RunAction::Fail(fail_with(e))),
                None => if self.skip_hook {
                    report_noop("hook disabled by HK_SKIP_HOOK")
                } else {
                    (RunState::AnnouncingPlan, RunAction::ReportPlanned)
                },
            },
            (RunState::AnnouncingPlan, RunEvent::Reported(error)) => match error {
                Some(e) => (RunState::Done, RunAction::Fail(fail_with(e))),
                None => (RunState::OpeningRepo, RunAction::OpenRepo),
            },
            (RunState::OpeningRepo, RunEvent::RepoOpened(error)) => match error {
                Some(e) => refuse("hook setup also failed: ", e),
                None => if self.total_steps == 0 {
                    report_noop("no configured steps")
                } else {
                    (RunState::ReadingStatus, RunAction::ReadStatus)
                },
            },
            (RunState::ReadingStatus, RunEvent::StatusRead(unstaged, error)) => match error {
                Some(e) => refuse("git status collection also failed: ", e),
                None => (RunState::SelectingFiles(unstaged), RunAction::SelectFiles),
            },
            (RunState::SelectingFiles(_), RunEvent::SelectionFailed(e)) => refuse(
                "file selection also failed: ",
                e,
            ),
            (RunState::SelectingFiles(unstaged), RunEvent::FilesSelected(s)) => select(
                self,
                unstaged,
                s,
            ),
            (RunState::Stashing, RunEvent::Stashed(error)) => match error {
                Some(e) => (RunState::Done, RunAction::Fail(fail_with(e))),
                None => begin_groups(self),
            },
            (RunState::Snapshotting, RunEvent::SnapshotTaken) => if self.group_count == 0 {
                finish_groups(self, None)
            } else {
                (RunState::RunningGroup(0, None), RunAction::RunGroup(0))
            },
            (RunState::RunningGroup(index, so_far), RunEvent::GroupRan(error)) => group_ran(
                self,
                index,
                so_far,
                error,
            ),
            (RunState::Comparing, RunEvent::FilesCompared(changed)) => {
                let result = if changed {
                    Some(
                        fail_with("fail_on_fix: files were modified by fix commands".to_owned()),
                    )
                } else {
                    None
                };
                (RunState::Popping(result), RunAction::PopStash(self.stage))
            },
            (RunState::Popping(so_far), RunEvent::StashPopped(pop)) => {
                let result = restore(so_far, pop);
                let message = match &result {
                    Some(f) => Some(f.message.clone()),
                    None => None,
                };
                (RunState::Reporting(result), RunAction::ReportRun(message))
            },
            (RunState::Reporting(so_far), RunEvent::Reported(error)) => (
                RunState::Done,
                end(so_far, error),
            ),
            (RunState::ReportingNoop, RunEvent::Reported(error)) => (
                RunState::Done,
                end(None, error),
            ),
            (RunState::ReportingError(context, e), RunEvent::Reported(error)) => {
                let action = match error {
                    Some(x) => {
                        let mut message = context;
                        message.append(e.as_str());
                        RunAction::Fail(RunFailure { message, cause: Some(x) })
                    },
                    None => RunAction::Fail(fail_with(e)),
                };
                (RunState::Done, action)
            },
            (state, _) => (state, RunAction::Nothing),
        }
    }
}

/// How far a run is after `events`, and what it has done.
pub open spec fn traced(
    setup: RunSetup,
    events: Seq<RunEventView>,
) -> (RunStateView, Seq<RunActionView>)
    decreases events.len(),
{
    if events.len() == 0 {
        (RunStateView::Start, seq![])
    } else {
        let (state, actions) = traced(setup, events.drop_last());
        let (next, action) = advanced(setup, state, events.last());
        (next, actions.push(action))
    }
}

/// Work was put aside in the course of `events`.
pub open spec fn stashed(setup: RunSetup, events: Seq<RunEventView>) -> bool
    decreases events.len(),
{
    events.len() > 0 && (stashed(setup, events.drop_last()) || (traced(
        setup,
        events.drop_last(),
    ).0 is Stashing && events.last() == RunEventView::Stashed(None)))
}

/// The run has yet to come to the point where stashed work is restored.
pub open spec fn before_pop(state: RunStateView) -> bool {
    state is Snapshotting || state is RunningGroup || state is Comparing || state is Popping
}

proof fn lemma_contains_push<T>(s: Seq<T>, a: T, x: T)
    ensures
        s.contains(x) ==> s.push(a).contains(x),
        s.push(a).contains(a),
{
    if s.contains(x) {
        let i = choose|i: int| 0 <= i < s.len() && s[i] == x;
        assert(s.push(a)[i] == x);
    }
    assert(s.push(a)[s.len() as int] == a);
}

proof fn lemma_stash_is_popped(setup: RunSetup, events: Seq<RunEventView>)
    ensures
        stashed(setup, events) ==> before_pop(traced(setup, events).0) || traced(
            setup,
            events,
        ).1.contains(RunActionView::PopStash(setup.stage)),
        traced(setup, events).0 is Popping ==> traced(setup, events).1.contains(
            RunActionView::PopStash(setup.stage),
        ),
    decreases events.len(),
{
    if events.len() > 0 {
        lemma_stash_is_popped(setup, events.drop_last());
        let (state, actions) = traced(setup, events.drop_last());
        let (next, action) = advanced(setup, state, events.last());
        lemma_contains_push(actions, action, RunActionView::PopStash(setup.stage));
    }
}

/// Work that was put aside is restored before the run ends, by one that knows whether the
/// run stages.
pub proof fn law_stashed_work_is_restored(setup: RunSetup, events: Seq<RunEventView>)
    requires
        stashed(setup, events),
        traced(setup, events).0 is Done,
    ensures
        traced(setup, events).1.contains(RunActionView::PopStash(setup.stage)),
{
    lemma_stash_is_popped(setup, events);
}

/// Where there are no steps, or the hook is skipped, nothing is put aside or restored,
/// no file is looked at and no group runs.
pub proof fn law_no_steps_no_effects(setup: RunSetup, events: Seq<RunEventView>, i: int)
    requires
        setup.total_steps == 0 || setup.skip_hook,
        0 <= i < traced(setup, events).1.len(),
    ensures
        !(traced(setup, events).1[i] is Stash),
        !(traced(setup, events).1[i] is PopStash),
        !(traced(setup, events).1[i] is Snapshot),
        !(traced(setup, events).1[i] is CompareFiles),
        !(traced(setup, events).1[i] is RunGroup),
{
    lemma_no_steps(setup, events);
    assert(harmless(traced(setup, events).1[i]));
}

spec fn harmless(action: RunActionView) -> bool {
    !(action is Stash) && !(action is PopStash) && !(action is Snapshot) && !(action is CompareFiles)
        && !(action is RunGroup)
}

proof fn lemma_no_steps(setup: RunSetup, events: Seq<RunEventView>)
    requires
        setup.total_steps == 0 || setup.skip_hook,
    ensures
        forall|i: int|
            0 <= i < traced(setup, events).1.len() ==> harmless(#[trigger] traced(setup, events).1[i]),
        ({
            let s = traced(setup, events).0;
            s is Start || s is Announcing || ((s is AnnouncingPlan || s is OpeningRepo)
                && !setup.skip_hook) || s is ReportingNoop || s is ReportingError || s is Done
        }),
    decreases events.len(),
{
    if events.len() > 0 {
        lemma_no_steps(setup, events.drop_last());
        let (state, actions) = traced(setup, events.drop_last());
        let (next, action) = advanced(setup, state, events.last());
        assert(harmless(action));
        let all = traced(setup, events).1;
        assert forall|i: int| 0 <= i < all.len() implies harmless(#[trigger] all[i]) by {
            if i < actions.len() {
                assert(harmless(actions[i]));
            }
        }
    }
}

/// A run succeeds only where every group that ran succeeded.
pub proof fn law_success_means_no_group_failed(setup: RunSetup, events: Seq<RunEventView>, i: int)
    requires
        traced(setup, events).1.len() > 0,
        traced(setup, events).1.last() is Succeed,
        0 <= i < events.len(),
        traced(setup, events.take(i)).0 is RunningGroup,
    ensures
        events[i] is GroupRan ==> events[i]->GroupRan_0 is None,
{
    lemma_failed_stays(setup, events, i);
}

/// The run carries a failure, or has ended without success.
spec fn carries_failure(state: RunStateView, action: RunActionView) -> bool {
    match state {
        RunStateView::RunningGroup(_, f) => f is Some,
        RunStateView::Popping(f) => f is Some,
        RunStateView::Reporting(f) => f is Some,
        RunStateView::Done => !(action is Succeed),
        _ => false,
    }
}

proof fn lemma_failed_stays(setup: RunSetup, events: Seq<RunEventView>, i: int)
    requires
        0 <= i < events.len(),
        traced(setup, events.take(i)).0 is RunningGroup,
    ensures
        events[i] is GroupRan && events[i]->GroupRan_0 is Some ==> carries_failure(
            traced(setup, events).0,
            traced(setup, events).1.last(),
        ) && !(traced(setup, events).1.last() is Succeed),
    decreases events.len(),
{
    let init = events.drop_last();
    if i == events.len() - 1 {
        assert(events.take(i) =~= init);
    } else {
        assert(init.take(i) =~= events.take(i));
        lemma_failed_stays(setup, init, i);
    }
}

/// The files whose content is not what it was: those with another hash, and
/// those that are gone.
pub open spec fn changed_files(
    before: Seq<(Seq<char>, u64)>,
    now: Seq<Option<u64>>,
) -> Seq<Seq<char>>
    decreases before.len(),
{
    if before.len() == 0 {
        seq![]
    } else {
        let rest = changed_files(before.drop_last(), now);
        let i = before.len() - 1;
        if now[i] == Some(before[i].1) {
            rest
        } else {
            rest.push(before[i].0)
        }
    }
}

pub open spec fn hashed(files: Seq<(String, u64)>) -> Seq<(Seq<char>, u64)> {
    files.map_values(|p: (String, u64)| (p.0@, p.1))
}

/// The files whose content is not what it was, where `now[i]` is the hash that
/// the file at position `i` has now, if it is still there.
pub fn modified_files(before: &Vec<(String, u64)>, now: &Vec<Option<u64>>) -> (r: Vec<String>)
    requires
        before@.len() == now@.len(),
    ensures
        texts(r@) == changed_files(hashed(before@), now@),
{
    let mut out: Vec<String> = Vec::new();
    assert(texts(out@) =~= changed_files(hashed(before@).take(0), now@));
    for i in 0..before.len()
        invariant
            before@.len() == now@.len(),
            texts(out@) == changed_files(hashed(before@).take(i as int), now@),
    {
        assert(hashed(before@)[i as int] == (before@[i as int].0@, before@[i as int].1));
        let same_hash = match now[i] {
            Some(h) => h == before[i].1,
            None => false,
        };
        if !same_hash {
            out.push(before[i].0.clone());
        }
    }
    assert(hashed(before@).take(before@.len() as int) =~= hashed(before@));
    out
}

/// Every group was run.
pub open spec fn all_ran(setup: RunSetup, actions: Seq<RunActionView>) -> bool {
    forall|i: usize| i < setup.group_count ==> #[trigger] actions.contains(RunActionView::RunGroup(i))
}

/// Some group was run.
pub open spec fn some_ran(actions: Seq<RunActionView>) -> bool {
    exists|k: int| 0 <= k < actions.len() && (#[trigger] actions[k]) is RunGroup
}

/// It was told that there was nothing to do.
pub open spec fn was_noop(actions: Seq<RunActionView>) -> bool {
    exists|k: int| 0 <= k < actions.len() && (#[trigger] actions[k]) is ReportNoop
}

/// The groups before `n` were run.
spec fn ran_before(n: int, actions: Seq<RunActionView>) -> bool {
    forall|i: usize| i < n ==> #[trigger] actions.contains(RunActionView::RunGroup(i))
}

/// No group from `n` on was run.
spec fn none_from(n: int, actions: Seq<RunActionView>) -> bool {
    forall|k: int|
        0 <= k < actions.len() && (#[trigger] actions[k]) is RunGroup ==> actions[k]->RunGroup_0 < n
}

/// Each group stands behind the one before it, and once.
spec fn ran_in_order(actions: Seq<RunActionView>) -> bool {
    forall|p: int, q: int|
        0 <= p < q < actions.len() && (#[trigger] actions[p]) is RunGroup && (#[trigger] actions[q])
            is RunGroup ==> actions[p]->RunGroup_0 < actions[q]->RunGroup_0
}

proof fn lemma_pushed_action(actions: Seq<RunActionView>, action: RunActionView)
    ensures
        forall|a: RunActionView|
            #[trigger] actions.push(action).contains(a) <==> (a == action || actions.contains(a)),
{
    assert forall|a: RunActionView| #[trigger] actions.push(action).contains(a) <==> (a == action
        || actions.contains(a)) by {
        crate::seqs::lemma_pushed(actions, action, a);
    }
}

proof fn lemma_groups_run(setup: RunSetup, events: Seq<RunEventView>)
    ensures
        ({
            let (state, actions) = traced(setup, events);
            &&& ran_in_order(actions)
            &&& none_from(setup.group_count as int, actions)
            &&& match state {
                RunStateView::RunningGroup(index, _) => index < setup.group_count && ran_before(
                    index + 1,
                    actions,
                ) && none_from(index + 1, actions),
                RunStateView::Comparing => all_ran(setup, actions),
                RunStateView::Popping(f) => f is None ==> all_ran(setup, actions),
                RunStateView::Reporting(f) => f is None ==> all_ran(setup, actions),
                RunStateView::ReportingNoop => was_noop(actions) && none_from(0, actions),
                RunStateView::ReportingError(_, _) => none_from(0, actions),
                RunStateView::Done => actions.len() > 0 && actions.last() is Succeed ==> all_ran(
                    setup,
                    actions,
                ) || was_noop(actions) && none_from(0, actions),
                _ => none_from(0, actions),
            }
        }),
    decreases events.len(),
{
    if events.len() > 0 {
        let init = events.drop_last();
        lemma_groups_run(setup, init);
        let (state, actions) = traced(setup, init);
        let (next, action) = advanced(setup, state, events.last());
        let now = actions.push(action);
        lemma_pushed_action(actions, action);
        assert(traced(setup, events) == (next, now));
        assert forall|n: int| ran_before(n, actions) implies #[trigger] ran_before(n, now) by {
            assert forall|i: usize| i < n implies #[trigger] now.contains(RunActionView::RunGroup(i)) by {
                assert(actions.contains(RunActionView::RunGroup(i)));
            }
        }
        if was_noop(actions) {
            let k = choose|k: int| 0 <= k < actions.len() && (#[trigger] actions[k]) is ReportNoop;
            assert(now[k] == actions[k]);
        }
        if action is ReportNoop {
            assert(now[actions.len() as int] is ReportNoop);
        }
        if let RunStateView::RunningGroup(index, _) = state {
            if index + 1 >= setup.group_count {
                assert(ran_before(setup.group_count as int, actions));
                assert(ran_before(setup.group_count as int, now));
            }
            if action is RunGroup {
                assert(ran_before(index + 1, now));
                assert(ran_before(index + 2, now));
            }
        }
        if action is RunGroup && !(state is RunningGroup) {
            assert(ran_before(1, now));
        }
        if all_ran(setup, actions) {
            assert(ran_before(setup.group_count as int, actions));
            assert(ran_before(setup.group_count as int, now));
        }
    }
}

/// A run that succeeds has run every group, or has told that there was nothing to do and
/// run none.
pub proof fn law_success_means_every_group_ran(setup: RunSetup, events: Seq<RunEventView>)
    requires
        events.len() > 0,
        traced(setup, events).1.last() is Succeed,
    ensures
        all_ran(setup, traced(setup, events).1) || (was_noop(traced(setup, events).1) && !some_ran(
            traced(setup, events).1,
        )),
{
    lemma_groups_run(setup, events);
    lemma_succeed_is_done(setup, events);
}

proof fn lemma_succeed_is_done(setup: RunSetup, events: Seq<RunEventView>)
    requires
        events.len() > 0,
        traced(setup, events).1.last() is Succeed,
    ensures
        traced(setup, events).0 is Done,
{
    let (state, actions) = traced(setup, events.drop_last());
    assert(traced(setup, events).1.last() == advanced(setup, state, events.last()).1);
}

/// Groups run one after the other, each at most once, and none that there is not.
pub proof fn law_groups_run_in_order(setup: RunSetup, events: Seq<RunEventView>, p: int, q: int)
    requires
        0 <= p < q < traced(setup, events).1.len(),
        traced(setup, events).1[p] is RunGroup,
        traced(setup, events).1[q] is RunGroup,
    ensures
        traced(setup, events).1[p]->RunGroup_0 < traced(setup, events).1[q]->RunGroup_0
            < setup.group_count,
{
    lemma_groups_run(setup, events);
}

/// A group that fails ends the groups of a run that fails fast; any other run goes on with
/// the next group, and a group that succeeds is always followed by the next.
pub proof fn law_only_failures_end_the_groups(
    setup: RunSetup,
    index: usize,
    so_far: Option<RunFailureView>,
    error: Option<Seq<char>>,
)
    requires
        index < setup.group_count,
        setup.fail_fast ==> so_far is None,
    ensures
        ({
            let action = advanced(
                setup,
                RunStateView::RunningGroup(index, so_far),
                RunEventView::GroupRan(error),
            ).1;
            let goes_on = index + 1 < setup.group_count && !(setup.fail_fast && error is Some);
            &&& action is RunGroup <==> goes_on
            &&& goes_on ==> action->RunGroup_0 == index + 1
        }),
{
}

/// A run comes from its beginning to the selection of its files in fixed steps, where
/// nothing fails, the hook is not skipped and there are steps.
pub proof fn law_runs_come_to_their_files(setup: RunSetup, unstaged: bool)
    requires
        !setup.skip_hook,
        setup.total_steps > 0,
    ensures
        ({
            let a1 = advanced(setup, RunStateView::Start, RunEventView::Begin);
            let a2 = advanced(setup, a1.0, RunEventView::Reported(None));
            let a3 = advanced(setup, a2.0, RunEventView::Reported(None));
            let a4 = advanced(setup, a3.0, RunEventView::RepoOpened(None));
            let a5 = advanced(setup, a4.0, RunEventView::StatusRead(unstaged, None));
            &&& a1.1 is ReportStarted
            &&& a2.1 is ReportPlanned
            &&& a3.1 is OpenRepo
            &&& a4.1 is ReadStatus
            &&& a5.1 is SelectFiles
            &&& a5.0 == RunStateView::SelectingFiles(unstaged)
        }),
{
}

/// A hook that the settings skip, and one without steps, is told of as a run with nothing
/// to do, which succeeds.
pub proof fn law_idle_runs_succeed(setup: RunSetup)
    ensures
        setup.skip_hook ==> {
            let (state, action) = advanced(
                setup,
                RunStateView::Announcing,
                RunEventView::Reported(None),
            );
            action is ReportNoop && advanced(setup, state, RunEventView::Reported(None)).1 is Succeed
        },
        setup.total_steps == 0 ==> {
            let (state, action) = advanced(
                setup,
                RunStateView::OpeningRepo,
                RunEventView::RepoOpened(None),
            );
            action is ReportNoop && advanced(setup, state, RunEventView::Reported(None)).1 is Succeed
        },
{
}

/// Unstaged work is put aside before the groups run exactly where the run stashes and
/// there is such work; a run that cannot put it aside fails and runs no group.
pub proof fn law_unstaged_work_is_put_aside(
    setup: RunSetup,
    unstaged: bool,
    s: SelectionView,
    error: Seq<char>,
)
    requires
        !(s.empty && s.noop_steps is Some),
        !(setup.safe && s.refusal is Some),
        setup.group_count > 0,
    ensures
        ({
            let (state, action) = advanced(
                setup,
                RunStateView::SelectingFiles(unstaged),
                RunEventView::FilesSelected(s),
            );
            &&& action is Stash <==> setup.stash != StashMethod::Off && unstaged
            &&& action is Stash ==> {
                let stashed = advanced(setup, state, RunEventView::Stashed(None)).1;
                let failed = advanced(setup, state, RunEventView::Stashed(Some(error))).1;
                &&& stashed is Snapshot <==> setup.fail_on_fix
                &&& !setup.fail_on_fix ==> stashed == RunActionView::RunGroup(0)
                &&& failed is Fail && failed->Fail_0.message == error
            }
            &&& !(action is Stash) ==> {
                &&& action is Snapshot <==> setup.fail_on_fix
                &&& !setup.fail_on_fix ==> action == RunActionView::RunGroup(0)
            }
        }),
{
}

/// A run whose files are none, and whose steps all have nothing to do, tells so; a safe
/// run that has commands it may not run refuses, and only such a run does.
pub proof fn law_selection_ends_or_goes_on(setup: RunSetup, unstaged: bool, s: SelectionView)
    ensures
        ({
            let (state, action) = advanced(
                setup,
                RunStateView::SelectingFiles(unstaged),
                RunEventView::FilesSelected(s),
            );
            let idle = s.empty && s.noop_steps is Some;
            &&& action is ReportNoop <==> idle
            &&& idle ==> action->ReportNoop_1 == s.noop_steps->0
            &&& action is ReportError <==> !idle && setup.safe && s.refusal is Some
            &&& action is ReportError ==> action->ReportError_0 == s.refusal->0 && advanced(
                setup,
                state,
                RunEventView::Reported(None),
            ).1 == RunActionView::Fail(RunFailureView { message: s.refusal->0, cause: None })
        }),
{
}

/// What keeps a run from its groups is told and is the failure of the run.
pub proof fn law_faults_before_the_groups_fail_the_run(setup: RunSetup, unstaged: bool, e: Seq<char>)
    ensures
        ({
            let fault = RunActionView::Fail(RunFailureView { message: e, cause: None });
            let opened = advanced(
                setup,
                RunStateView::OpeningRepo,
                RunEventView::RepoOpened(Some(e)),
            );
            let read = advanced(
                setup,
                RunStateView::ReadingStatus,
                RunEventView::StatusRead(unstaged, Some(e)),
            );
            let selected = advanced(
                setup,
                RunStateView::SelectingFiles(unstaged),
                RunEventView::SelectionFailed(e),
            );
            &&& opened.1 == RunActionView::ReportError(e)
            &&& read.1 == RunActionView::ReportError(e)
            &&& selected.1 == RunActionView::ReportError(e)
            &&& advanced(setup, opened.0, RunEventView::Reported(None)).1 == fault
            &&& advanced(setup, read.0, RunEventView::Reported(None)).1 == fault
            &&& advanced(setup, selected.0, RunEventView::Reported(None)).1 == fault
            &&& advanced(setup, RunStateView::Announcing, RunEventView::Reported(Some(e))).1 == fault
            &&& advanced(setup, RunStateView::AnnouncingPlan, RunEventView::Reported(Some(e))).1
                == fault
        }),
{
}

/// A run whose groups succeeded fails where its fixers changed files and it is to fail
/// then, where the work that was put aside cannot be restored, and where its result cannot
/// be told; else it succeeds.
pub proof fn law_runs_succeed_where_nothing_failed(
    setup: RunSetup,
    index: usize,
    changed: bool,
    pop: Option<PopFailureView>,
    report: Option<Seq<char>>,
)
    requires
        index + 1 == setup.group_count,
    ensures
        ({
            let ran = advanced(
                setup,
                RunStateView::RunningGroup(index, None),
                RunEventView::GroupRan(None),
            );
            let compared = if setup.fail_on_fix {
                advanced(setup, ran.0, RunEventView::FilesCompared(changed))
            } else {
                ran
            };
            let popped = advanced(setup, compared.0, RunEventView::StashPopped(pop));
            let end = advanced(setup, popped.0, RunEventView::Reported(report)).1;
            &&& setup.fail_on_fix ==> ran.1 is CompareFiles
            &&& compared.1 == RunActionView::PopStash(setup.stage)
            &&& popped.1 is ReportRun
            &&& end is Succeed || end is Fail
            &&& end is Succeed <==> !(setup.fail_on_fix && changed) && pop is None && report is None
            &&& popped.1->ReportRun_0 is None <==> !(setup.fail_on_fix && changed) && pop is None
        }),
{
}

/// The first failure of a run is what it fails with, whatever fails later: its stashed work
/// is restored all the same, and no comparison of files is made.
pub proof fn law_the_first_failure_is_told(
    setup: RunSetup,
    index: usize,
    so_far: Option<RunFailureView>,
    error: Seq<char>,
    pop: Option<PopFailureView>,
)
    requires
        index + 1 == setup.group_count || setup.fail_fast,
    ensures
        ({
            let told = match so_far {
                Some(f) => f,
                None => RunFailureView { message: error, cause: None },
            };
            let ran = advanced(
                setup,
                RunStateView::RunningGroup(index, so_far),
                RunEventView::GroupRan(Some(error)),
            );
            let popped = advanced(setup, ran.0, RunEventView::StashPopped(pop));
            let end = advanced(setup, popped.0, RunEventView::Reported(None)).1;
            &&& ran.1 == RunActionView::PopStash(setup.stage)
            &&& popped.1 == RunActionView::ReportRun(Some(told.message))
            &&& end == RunActionView::Fail(told)
        }),
{
}

/// Work that cannot be restored fails the run with the reason, and with the place of its
/// backup where there is one.
pub proof fn law_failed_restores_name_the_backup(setup: RunSetup, pop: PopFailureView)
    ensures
        ({
            let popped = advanced(
                setup,
                RunStateView::Popping(None),
                RunEventView::StashPopped(Some(pop)),
            );
            let end = advanced(setup, popped.0, RunEventView::Reported(None)).1;
            &&& end is Fail
            &&& end->Fail_0.cause == Some(pop.error)
            &&& pop.backup is Some ==> exists|a: Seq<char>, b: Seq<char>|
                end->Fail_0.message == #[trigger] (a + pop.backup->0 + b)
        }),
{
    if pop.backup is Some {
        let a = "failed to restore stash"@ + " (a backup of the stashed changes is at "@;
        let popped = advanced(
            setup,
            RunStateView::Popping(None),
            RunEventView::StashPopped(Some(pop)),
        );
        let end = advanced(setup, popped.0, RunEventView::Reported(None)).1;
        assert(end->Fail_0.message =~= a + pop.backup->0 + ")"@);
    }
}

/// Whether a run stages follows the first that speaks: the flags, the settings, the hook.
/// Where none does, only `pre-commit` stages.
pub proof fn law_the_first_word_on_staging_counts(
    hook: HookView,
    opts: HookOptionsView,
    settings: SettingsView,
    run_type: RunType,
)
    requires
        !(hook.fail_on_fix && run_type == RunType::Fix),
    ensures
        opts.stage ==> stages_fixes(hook, opts, settings, run_type),
        !opts.stage && opts.no_stage ==> !stages_fixes(hook, opts, settings, run_type),
        !opts.stage && !opts.no_stage ==> stages_fixes(hook, opts, settings, run_type) == (
        if settings.stage is Some {
            settings.stage->0
        } else if hook.stage is Some {
            hook.stage->0
        } else {
            hook.name == "pre-commit"@
        }),
{
}

/// A run stops at the first failure as the flags say, and where they say nothing as the
/// settings do.
pub proof fn law_flags_decide_on_stopping(opts: HookOptionsView, settings: SettingsView)
    ensures
        opts.fail_fast ==> stops_at_failure(opts, settings),
        !opts.fail_fast && opts.no_fail_fast ==> !stops_at_failure(opts, settings),
        !opts.fail_fast && !opts.no_fail_fast ==> stops_at_failure(opts, settings)
            == settings.fail_fast,
{
}

/// There is work to put aside where a tracked file has unstaged changes, and where a file
/// is untracked and such files are put aside.
pub proof fn law_work_is_what_is_not_committed(unstaged: nat, untracked: nat, with_untracked: bool)
    ensures
        unstaged > 0 ==> work_to_stash(unstaged, untracked, with_untracked),
        unstaged == 0 ==> (work_to_stash(unstaged, untracked, with_untracked) <==> with_untracked
            && untracked > 0),
{
}

/// A file was changed exactly where it is gone or its content has another hash.
pub proof fn law_changed_files_have_another_hash(
    before: Seq<(Seq<char>, u64)>,
    now: Seq<Option<u64>>,
    file: Seq<char>,
)
    requires
        before.len() <= now.len(),
    ensures
        changed_files(before, now).contains(file) <==> exists|i: int|
            0 <= i < before.len() && (#[trigger] before[i]).0 == file && now[i] != Some(before[i].1),
    decreases before.len(),
{
    if before.len() > 0 {
        let init = before.drop_last();
        law_changed_files_have_another_hash(init, now, file);
        let n = before.len() - 1;
        crate::seqs::lemma_pushed(changed_files(init, now), before[n].0, file);
        if changed_files(init, now).contains(file) {
            let i = choose|i: int|
                0 <= i < init.len() && (#[trigger] init[i]).0 == file && now[i] != Some(init[i].1);
            assert(before[i].0 == file && now[i] != Some(before[i].1));
        }
        if exists|i: int|
            0 <= i < before.len() && (#[trigger] before[i]).0 == file && now[i] != Some(before[i].1) {
            let i = choose|i: int|
                0 <= i < before.len() && (#[trigger] before[i]).0 == file && now[i] != Some(
                    before[i].1,
                );
            if i < n {
                assert(init[i].0 == file && now[i] != Some(init[i].1));
            }
        }
    }
}

/// What is settled of a run is what hook, options and settings say of it.
pub proof fn law_runs_are_settled_by_their_hook(
    hook: HookView,
    opts: HookOptionsView,
    settings: SettingsView,
    groups: Seq<StepGroupView>,
    stash: StashMethod,
    run_type: RunType,
)
    requires
        groups.len() <= usize::MAX,
    ensures
        ({
            let r = settled(hook, opts, settings, groups, stash, run_type);
            &&& r.skip_hook <==> settings.skip_hooks.contains(hook.name)
            &&& r.group_count == groups.len()
            &&& r.safe == opts.safe
            &&& r.stash == stash
            &&& r.fail_on_fix <==> hook.fail_on_fix && run_type == RunType::Fix
            &&& r.fail_on_fix ==> !r.stage
            &&& opts.fail_fast ==> r.fail_fast
            &&& !opts.fail_fast && !opts.no_fail_fast ==> r.fail_fast == settings.fail_fast
            &&& opts.stage && !r.fail_on_fix ==> r.stage
        }),
{
}

} // verus!
