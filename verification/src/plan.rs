//! Plans: which steps a hook would run, and why.

use vstd::prelude::*;
use vstd::string::*;
use crate::hook::{SkipReason, SkipReasonView};
use crate::seqs::{opt_text, opt_view, texts, views};
use crate::step::{CommandEffect, RunType, Step, StepView};
use crate::step_group::{StepGroup, StepGroupView};
use crate::table::{dup_option, dup_vec, lookup, position, Dup, Table};
use crate::text::{decimal, dup_list, dup_opt, join, joined, list_has, same, show_usize};

verus! {

broadcast use crate::seqs::group_text;

/// The kind of a reason for running or skipping a step.
#[derive(Clone, Copy, Debug, PartialEq, Eq, Structural)]
pub enum ReasonKind {
    ConditionFalse,
    ConditionTrue,
    ConditionUnknown,
    Disabled,
    FilterMatch,
    FilterNoMatch,
    ProfileInclude,
    ProfileExclude,
    CliInclude,
    CliExclude,
    EnvExclude,
    ConfigExclude,
    MissingRequiredEnv,
    NoCommand,
}

impl ReasonKind {
    /// A reason of this kind speaks against running the step.
    pub open spec fn speaks_against(self) -> bool {
        match self {
            ReasonKind::ConditionTrue => false,
            ReasonKind::ConditionUnknown => false,
            ReasonKind::FilterMatch => false,
            ReasonKind::ProfileInclude => false,
            ReasonKind::CliInclude => false,
            _ => true,
        }
    }

    /// Whether a reason of this kind speaks against running the step.
    pub fn is_skip(self) -> (r: bool)
        ensures
            r == self.speaks_against(),
    {
        match self {
            ReasonKind::ConditionTrue => false,
            ReasonKind::ConditionUnknown => false,
            ReasonKind::FilterMatch => false,
            ReasonKind::ProfileInclude => false,
            ReasonKind::CliInclude => false,
            _ => true,
        }
    }

    /// The kind in words.
    pub open spec fn words(self) -> Seq<char> {
        match self {
            ReasonKind::ConditionFalse => "condition is false"@,
            ReasonKind::ConditionTrue => "condition is true"@,
            ReasonKind::ConditionUnknown => "condition is unknown"@,
            ReasonKind::Disabled => "disabled"@,
            ReasonKind::FilterMatch => "files matched"@,
            ReasonKind::FilterNoMatch => "no files matched"@,
            ReasonKind::ProfileInclude => "profile enabled"@,
            ReasonKind::ProfileExclude => "profile not enabled"@,
            ReasonKind::CliInclude => "included by command line"@,
            ReasonKind::CliExclude => "excluded by command line"@,
            ReasonKind::EnvExclude => "excluded by environment"@,
            ReasonKind::ConfigExclude => "excluded by configuration"@,
            ReasonKind::MissingRequiredEnv => "missing environment variable"@,
            ReasonKind::NoCommand => "no command"@,
        }
    }

    /// The kind in words.
    pub fn short_description(self) -> (r: &'static str)
        ensures
            r@ == self.words(),
    {
        match self {
            ReasonKind::ConditionFalse => "condition is false",
            ReasonKind::ConditionTrue => "condition is true",
            ReasonKind::ConditionUnknown => "condition is unknown",
            ReasonKind::Disabled => "disabled",
            ReasonKind::FilterMatch => "files matched",
            ReasonKind::FilterNoMatch => "no files matched",
            ReasonKind::ProfileInclude => "profile enabled",
            ReasonKind::ProfileExclude => "profile not enabled",
            ReasonKind::CliInclude => "included by command line",
            ReasonKind::CliExclude => "excluded by command line",
            ReasonKind::EnvExclude => "excluded by environment",
            ReasonKind::ConfigExclude => "excluded by configuration",
            ReasonKind::MissingRequiredEnv => "missing environment variable",
            ReasonKind::NoCommand => "no command",
        }
    }
}

/// Whether a plan runs a step.
#[derive(Clone, Copy, Debug, PartialEq, Eq, Structural)]
pub enum StepStatus {
    Included,
    Skipped,
}

/// A reason for running or skipping a step.
pub struct Reason {
    pub kind: ReasonKind,
    pub detail: Option<String>,
}

/// What [`Reason`] stands for.
pub struct ReasonView {
    pub kind: ReasonKind,
    pub detail: Option<Seq<char>>,
}

impl View for Reason {
    type V = ReasonView;

    open spec fn view(&self) -> ReasonView {
        ReasonView {
            kind: self.kind,
            detail: opt_text(self.detail),
        }
    }
}

impl Dup for Reason {
    fn dup(&self) -> (r: Self) {
        Reason {
            kind: self.kind,
            detail: dup_opt(&self.detail),
        }
    }
}

pub open spec fn reason(kind: ReasonKind, detail: Seq<char>) -> ReasonView {
    ReasonView { kind, detail: Some(detail) }
}

/// The reason of a plan that a skip reason gives.
pub open spec fn reason_of_skip(skip: SkipReasonView) -> ReasonView {
    match skip {
        SkipReasonView::DisabledByEnv(src) => reason(
            ReasonKind::EnvExclude,
            "disabled via "@ + src,
        ),
        SkipReasonView::DisabledByCli(src) => reason(
            ReasonKind::CliExclude,
            "disabled via "@ + src,
        ),
        SkipReasonView::DisabledByConfig => reason(
            ReasonKind::ConfigExclude,
            "disabled via skip configuration"@,
        ),
        SkipReasonView::MissingRequiredEnv(envs) => reason(
            ReasonKind::MissingRequiredEnv,
            "missing: "@ + joined(envs, ", "@),
        ),
        SkipReasonView::ProfileNotEnabled(profiles) => reason(
            ReasonKind::ProfileExclude,
            if profiles.len() == 0 {
                "required profile not enabled"@
            } else {
                "required profile(s) not enabled: "@ + joined(profiles, ", "@)
            },
        ),
        SkipReasonView::ProfileExplicitlyDisabled => reason(
            ReasonKind::ProfileExclude,
            "disabled by active profile"@,
        ),
        SkipReasonView::NoCommandForRunType(run_type) => reason(
            ReasonKind::NoCommand,
            "no command defined for run type: "@ + run_type.text(),
        ),
        SkipReasonView::NoFilesToProcess => reason(
            ReasonKind::FilterNoMatch,
            "no files matched filters"@,
        ),
        SkipReasonView::ConditionFalse => reason(
            ReasonKind::ConditionFalse,
            "condition evaluated to false"@,
        ),
    }
}

fn with_detail(kind: ReasonKind, a: &str, b: &str) -> (r: Reason)
    ensures
        r@ == reason(kind, a@ + b@),
{
    let mut detail = a.to_owned();
    detail.append(b);
    Reason { kind, detail: Some(detail) }
}

fn plain(kind: ReasonKind, a: &str) -> (r: Reason)
    ensures
        r@ == reason(kind, a@),
{
    Reason { kind, detail: Some(a.to_owned()) }
}

/// The reason of a plan that a skip reason gives.
pub fn skip_reason_to_reason(skip: &SkipReason) -> (r: Reason)
    ensures
        r@ == reason_of_skip(skip@),
{
    match skip {
        SkipReason::DisabledByEnv(src) => with_detail(
            ReasonKind::EnvExclude,
            "disabled via ",
            src.as_str(),
        ),
        SkipReason::DisabledByCli(src) => with_detail(
            ReasonKind::CliExclude,
            "disabled via ",
            src.as_str(),
        ),
        SkipReason::DisabledByConfig => plain(
            ReasonKind::ConfigExclude,
            "disabled via skip configuration",
        ),
        SkipReason::MissingRequiredEnv(envs) => with_detail(
            ReasonKind::MissingRequiredEnv,
            "missing: ",
            join(envs, ", ").as_str(),
        ),
        SkipReason::ProfileNotEnabled(profiles) => {
            if profiles.len() == 0 {
                plain(ReasonKind::ProfileExclude, "required profile not enabled")
            } else {
                with_detail(
                    ReasonKind::ProfileExclude,
                    "required profile(s) not enabled: ",
                    join(profiles, ", ").as_str(),
                )
            }
        },
        SkipReason::ProfileExplicitlyDisabled => plain(
            ReasonKind::ProfileExclude,
            "disabled by active profile",
        ),
        SkipReason::NoCommandForRunType(run_type) => with_detail(
            ReasonKind::NoCommand,
            "no command defined for run type: ",
            run_type.as_str(),
        ),
        SkipReason::NoFilesToProcess => plain(
            ReasonKind::FilterNoMatch,
            "no files matched filters",
        ),
        SkipReason::ConditionFalse => plain(
            ReasonKind::ConditionFalse,
            "condition evaluated to false",
        ),
    }
}

/// Whatever skips a step, the reason it gives speaks against running it.
pub proof fn law_skip_reasons_speak_against(skip: SkipReasonView)
    ensures
        reason_of_skip(skip).kind.speaks_against(),
{
}

/// What evaluating a condition gave: false, anything else, or an error.
pub enum Outcome {
    False,
    Other,
    Error(String),
}

/// What [`Outcome`] stands for.
pub enum OutcomeView {
    False,
    Other,
    Error(Seq<char>),
}

impl View for Outcome {
    type V = OutcomeView;

    open spec fn view(&self) -> OutcomeView {
        match self {
            Outcome::False => OutcomeView::False,
            Outcome::Other => OutcomeView::Other,
            Outcome::Error(x) => OutcomeView::Error(x@),
        }
    }
}

impl Dup for Outcome {
    fn dup(&self) -> (r: Self) {
        match self {
            Outcome::False => Outcome::False,
            Outcome::Other => Outcome::Other,
            Outcome::Error(x) => Outcome::Error(x.clone()),
        }
    }
}

/// A job of a step: the files it takes, and why it is skipped if it is.
pub struct Job {
    pub files: Vec<String>,
    pub skip_reason: Option<SkipReason>,
}

/// What [`Job`] stands for.
pub struct JobView {
    pub files: Seq<Seq<char>>,
    pub skip_reason: Option<SkipReasonView>,
}

impl View for Job {
    type V = JobView;

    open spec fn view(&self) -> JobView {
        JobView {
            files: texts(self.files@),
            skip_reason: opt_view(self.skip_reason),
        }
    }
}

impl Dup for Job {
    fn dup(&self) -> (r: Self) {
        Job {
            files: dup_list(&self.files),
            skip_reason: dup_option(&self.skip_reason),
        }
    }
}

/// What is known of a step before it runs.
pub struct Analysis {
    pub status: StepStatus,
    pub reasons: Vec<Reason>,
    pub file_count: Option<usize>,
}

/// What [`Analysis`] stands for.
pub struct AnalysisView {
    pub status: StepStatus,
    pub reasons: Seq<ReasonView>,
    pub file_count: Option<usize>,
}

impl View for Analysis {
    type V = AnalysisView;

    open spec fn view(&self) -> AnalysisView {
        AnalysisView {
            status: self.status,
            reasons: views(self.reasons@),
            file_count: self.file_count,
        }
    }
}

impl Dup for Analysis {
    fn dup(&self) -> (r: Self) {
        Analysis {
            status: self.status,
            reasons: dup_vec(&self.reasons),
            file_count: self.file_count,
        }
    }
}

/// How many files the jobs take together.
pub open spec fn total_files(jobs: Seq<JobView>) -> nat
    decreases jobs.len(),
{
    if jobs.len() == 0 {
        0
    } else {
        total_files(jobs.drop_last()) + jobs.last().files.len()
    }
}

/// There are jobs, and each of them is skipped.
pub open spec fn all_skipped(jobs: Seq<JobView>) -> bool {
    jobs.len() > 0 && forall|i: int| 0 <= i < jobs.len() ==> (#[trigger] jobs[i]).skip_reason is Some
}

/// The reasons so far with what a condition adds; `true` where the condition
/// keeps the step from running.
pub open spec fn judged(
    reasons: Seq<ReasonView>,
    label: Seq<char>,
    condition: Seq<char>,
    outcome: OutcomeView,
) -> (Seq<ReasonView>, bool) {
    match outcome {
        OutcomeView::False => (
            reasons.push(
                reason(ReasonKind::ConditionFalse, label + " evaluated to false: "@ + condition),
            ),
            true,
        ),
        OutcomeView::Other => (
            reasons.push(
                reason(ReasonKind::ConditionTrue, label + " evaluated to true: "@ + condition),
            ),
            false,
        ),
        OutcomeView::Error(e) => (
            reasons.push(
                reason(ReasonKind::ConditionUnknown, label + " could not be evaluated: "@ + e),
            ),
            false,
        ),
    }
}

fn judge(reasons: &mut Vec<Reason>, label: &str, condition: &str, outcome: &Outcome) -> (r: bool)
    ensures
        (views(final(reasons)@), r) == judged(
            views(old(reasons)@),
            label@,
            condition@,
            outcome@,
        ),
{
    let mut detail = label.to_owned();
    match outcome {
        Outcome::False => {
            detail.append(" evaluated to false: ");
            detail.append(condition);
            reasons.push(Reason { kind: ReasonKind::ConditionFalse, detail: Some(detail) });
            true
        },
        Outcome::Other => {
            detail.append(" evaluated to true: ");
            detail.append(condition);
            reasons.push(Reason { kind: ReasonKind::ConditionTrue, detail: Some(detail) });
            false
        },
        Outcome::Error(e) => {
            detail.append(" could not be evaluated: ");
            detail.append(e.as_str());
            reasons.push(Reason { kind: ReasonKind::ConditionUnknown, detail: Some(detail) });
            false
        },
    }
}

/// What is found out about a step outside: what its conditions give, its jobs
/// or why they could not be built, and whether its profiles keep it out.
pub struct Findings {
    pub step_outcome: Outcome,
    pub jobs: Result<Vec<Job>, String>,
    pub job_outcome: Outcome,
    pub profile_skip: Option<SkipReason>,
}

/// What [`Findings`] stands for.
pub struct FindingsView {
    pub step_outcome: OutcomeView,
    pub jobs: Result<Seq<JobView>, Seq<char>>,
    pub job_outcome: OutcomeView,
    pub profile_skip: Option<SkipReasonView>,
}

impl View for Findings {
    type V = FindingsView;

    open spec fn view(&self) -> FindingsView {
        FindingsView {
            step_outcome: self.step_outcome@,
            jobs: match self.jobs {
                Ok(jobs) => Ok(views(jobs@)),
                Err(e) => Err(e@),
            },
            job_outcome: self.job_outcome@,
            profile_skip: opt_view(self.profile_skip),
        }
    }
}

pub open spec fn skipped(reasons: Seq<ReasonView>, file_count: Option<usize>) -> AnalysisView {
    AnalysisView { status: StepStatus::Skipped, reasons, file_count }
}

/// The reasons with that for the files that matched.
pub open spec fn with_match(reasons: Seq<ReasonView>, count: nat) -> Seq<ReasonView> {
    reasons.push(
        reason(
            ReasonKind::FilterMatch,
            decimal(count) + " file"@ + (if count == 1 {
                ""@
            } else {
                "s"@
            }) + " matched"@,
        ),
    )
}

/// The analysis of a step whose jobs take `count` files and are not all skipped.
pub open spec fn analyzed_jobs(
    step: StepView,
    f: FindingsView,
    named: Seq<Seq<char>>,
    reasons: Seq<ReasonView>,
    count: usize,
) -> AnalysisView {
    let (judged_reasons, stopped) = match step.job_condition {
        Some(condition) => judged(reasons, "condition"@, condition, f.job_outcome),
        None => (reasons, false),
    };
    if stopped {
        skipped(judged_reasons, Some(count))
    } else if step.job_condition is Some && f.profile_skip is Some {
        skipped(judged_reasons.push(reason_of_skip(f.profile_skip->0)), Some(count))
    } else {
        let matched = with_match(judged_reasons, count as nat);
        let profiled = if step.profiles is Some && f.profile_skip is None {
            matched.push(reason(ReasonKind::ProfileInclude, "required profile(s) enabled"@))
        } else {
            matched
        };
        let included = if named.contains(step.name) {
            profiled.push(
                reason(
                    ReasonKind::CliInclude,
                    "explicitly included via --step "@ + step.name,
                ),
            )
        } else {
            profiled
        };
        AnalysisView { status: StepStatus::Included, reasons: included, file_count: Some(count) }
    }
}

/// The analysis of a step: its own condition first, then its jobs, the
/// condition of its jobs, and its profiles. `named` are the steps that the
/// command line asks for.
pub open spec fn analyzed(
    step: StepView,
    f: FindingsView,
    named: Seq<Seq<char>>,
) -> AnalysisView {
    let (reasons, stopped) = match step.step_condition {
        Some(condition) => judged(seq![], "step_condition"@, condition, f.step_outcome),
        None => (seq![], false),
    };
    if stopped {
        skipped(reasons, None)
    } else {
        match f.jobs {
            Err(e) => skipped(
                reasons.push(reason(ReasonKind::Disabled, "failed to plan step: "@ + e)),
                None,
            ),
            Ok(jobs) => if all_skipped(jobs) {
                skipped(
                    reasons.push(reason_of_skip(jobs[0].skip_reason->0)),
                    Some(total_files(jobs) as usize),
                )
            } else {
                analyzed_jobs(step, f, named, reasons, total_files(jobs) as usize)
            },
        }
    }
}

proof fn lemma_total_prefix(jobs: Seq<JobView>, n: int)
    requires
        0 <= n <= jobs.len(),
    ensures
        total_files(jobs.take(n)) <= total_files(jobs),
    decreases jobs.len() - n,
{
    if n < jobs.len() {
        lemma_total_prefix(jobs, n + 1);
    }
}

/// How many files the jobs take together.
pub fn count_files(jobs: &Vec<Job>) -> (r: usize)
    requires
        total_files(views(jobs@)) <= usize::MAX,
    ensures
        r == total_files(views(jobs@)),
{
    let mut total: usize = 0;
    for i in 0..jobs.len()
        invariant
            total == total_files(views(jobs@).take(i as int)),
            total_files(views(jobs@)) <= usize::MAX,
    {
        proof {
            lemma_total_prefix(views(jobs@), i + 1);
            assert(views(jobs@)[i as int].files.len() == jobs@[i as int].files@.len());
        }
        total = total + jobs[i].files.len();
    }
    assert(views(jobs@).take(jobs@.len() as int) =~= views(jobs@));
    total
}

fn every_skipped(jobs: &Vec<Job>) -> (r: bool)
    ensures
        r == all_skipped(views(jobs@)),
{
    for i in 0..jobs.len()
        invariant
            forall|k: int| 0 <= k < i ==> (#[trigger] views(jobs@)[k]).skip_reason is Some,
    {
        assert(views(jobs@)[i as int] == jobs@[i as int]@);
        if jobs[i].skip_reason.is_none() {
            return false;
        }
    }
    jobs.len() > 0
}

fn analyze_jobs(
    step: &Step,
    f: &Findings,
    named: &Vec<String>,
    reasons: Vec<Reason>,
    count: usize,
) -> (r: Analysis)
    ensures
        r@ == analyzed_jobs(step@, f@, texts(named@), views(reasons@), count),
{
    let mut reasons = reasons;
    if let Some(condition) = &step.job_condition {
        if judge(&mut reasons, "condition", condition.as_str(), &f.job_outcome) {
            return Analysis { status: StepStatus::Skipped, reasons, file_count: Some(count) };
        }
        if let Some(skip) = &f.profile_skip {
            reasons.push(skip_reason_to_reason(skip));
            return Analysis { status: StepStatus::Skipped, reasons, file_count: Some(count) };
        }
    }
    let mut detail = show_usize(count);
    detail.append(" file");
    detail.append(if count == 1 { "" } else { "s" });
    detail.append(" matched");
    reasons.push(Reason { kind: ReasonKind::FilterMatch, detail: Some(detail) });
    if step.profiles.is_some() && f.profile_skip.is_none() {
        reasons.push(plain(ReasonKind::ProfileInclude, "required profile(s) enabled"));
    }
    if list_has(named, step.name.as_str()) {
        reasons.push(
            with_detail(
                ReasonKind::CliInclude,
                "explicitly included via --step ",
                step.name.as_str(),
            ),
        );
    }
    Analysis { status: StepStatus::Included, reasons, file_count: Some(count) }
}

/// Whether a step would run and why, from what was found out about it.
pub fn analyze_step(step: &Step, f: &Findings, named: &Vec<String>) -> (r: Analysis)
    requires
        f@.jobs matches Ok(jobs) ==> total_files(jobs) <= usize::MAX,
    ensures
        r@ == analyzed(step@, f@, texts(named@)),
{
    let mut reasons: Vec<Reason> = Vec::new();
    assert(views(reasons@) =~= seq![]);
    if let Some(condition) = &step.step_condition {
        if judge(&mut reasons, "step_condition", condition.as_str(), &f.step_outcome) {
            return Analysis { status: StepStatus::Skipped, reasons, file_count: None };
        }
    }
    match &f.jobs {
        Err(e) => {
            reasons.push(with_detail(ReasonKind::Disabled, "failed to plan step: ", e.as_str()));
            Analysis { status: StepStatus::Skipped, reasons, file_count: None }
        },
        Ok(jobs) => {
            let count: usize = count_files(jobs);
            if every_skipped(jobs) {
                assert(views(jobs@)[0] == jobs@[0]@);
                match &jobs[0].skip_reason {
                    Some(skip) => reasons.push(skip_reason_to_reason(skip)),
                    None => {},
                }
                return Analysis { status: StepStatus::Skipped, reasons, file_count: Some(count) };
            }
            analyze_jobs(step, f, named, reasons, count)
        },
    }
}

/// A step is included exactly when neither of its conditions is false, its jobs
/// could be built and are not all skipped, and, where its jobs have a
/// condition, its profiles do not keep it out.
pub proof fn law_included_steps(step: StepView, f: FindingsView, named: Seq<Seq<char>>)
    ensures
        analyzed(step, f, named).status == StepStatus::Included <==> {
            &&& !(step.step_condition is Some && f.step_outcome is False)
            &&& f.jobs is Ok
            &&& !all_skipped(f.jobs->Ok_0)
            &&& !(step.job_condition is Some && (f.job_outcome is False || f.profile_skip is Some))
        },
{
}

/// Where a step is skipped, one of the reasons speaks against running it.
pub proof fn law_skipped_steps_say_why(step: StepView, f: FindingsView, named: Seq<Seq<char>>)
    requires
        analyzed(step, f, named).status == StepStatus::Skipped,
    ensures
        analyzed(step, f, named).reasons.len() > 0,
        analyzed(step, f, named).reasons.last().kind.speaks_against(),
{
}

/// A step of a plan.
pub struct PlannedStep {
    pub name: String,
    pub status: StepStatus,
    pub order_index: usize,
    pub parallel_group_id: Option<String>,
    pub depends_on: Vec<String>,
    pub reasons: Vec<Reason>,
    pub file_count: Option<usize>,
    /// The most intrusive effect of the commands that would run.
    pub effect: Option<CommandEffect>,
}

/// What [`PlannedStep`] stands for.
pub struct PlannedStepView {
    pub name: Seq<char>,
    pub status: StepStatus,
    pub order_index: usize,
    pub parallel_group_id: Option<Seq<char>>,
    pub depends_on: Seq<Seq<char>>,
    pub reasons: Seq<ReasonView>,
    pub file_count: Option<usize>,
    pub effect: Option<CommandEffect>,
}

impl View for PlannedStep {
    type V = PlannedStepView;

    open spec fn view(&self) -> PlannedStepView {
        PlannedStepView {
            name: self.name@,
            status: self.status,
            order_index: self.order_index,
            parallel_group_id: opt_text(self.parallel_group_id),
            depends_on: texts(self.depends_on@),
            reasons: views(self.reasons@),
            file_count: self.file_count,
            effect: self.effect,
        }
    }
}

impl Dup for PlannedStep {
    fn dup(&self) -> (r: Self) {
        PlannedStep {
            name: self.name.clone(),
            status: self.status,
            order_index: self.order_index,
            parallel_group_id: dup_opt(&self.parallel_group_id),
            depends_on: dup_list(&self.depends_on),
            reasons: dup_vec(&self.reasons),
            file_count: self.file_count,
            effect: self.effect,
        }
    }
}

/// Steps of a plan that run side by side.
pub struct ParallelGroup {
    pub id: String,
    pub step_ids: Vec<String>,
}

/// What [`ParallelGroup`] stands for.
pub struct ParallelGroupView {
    pub id: Seq<char>,
    pub step_ids: Seq<Seq<char>>,
}

impl View for ParallelGroup {
    type V = ParallelGroupView;

    open spec fn view(&self) -> ParallelGroupView {
        ParallelGroupView {
            id: self.id@,
            step_ids: texts(self.step_ids@),
        }
    }
}

impl Dup for ParallelGroup {
    fn dup(&self) -> (r: Self) {
        ParallelGroup {
            id: self.id.clone(),
            step_ids: dup_list(&self.step_ids),
        }
    }
}

/// What a hook would run.
pub struct Plan {
    pub hook: String,
    pub run_type: String,
    pub profiles: Vec<String>,
    pub steps: Vec<PlannedStep>,
    pub groups: Vec<ParallelGroup>,
}

/// What [`Plan`] stands for.
pub struct PlanView {
    pub hook: Seq<char>,
    pub run_type: Seq<char>,
    pub profiles: Seq<Seq<char>>,
    pub steps: Seq<PlannedStepView>,
    pub groups: Seq<ParallelGroupView>,
}

impl View for Plan {
    type V = PlanView;

    open spec fn view(&self) -> PlanView {
        PlanView {
            hook: self.hook@,
            run_type: self.run_type@,
            profiles: texts(self.profiles@),
            steps: views(self.steps@),
            groups: views(self.groups@),
        }
    }
}

/// What a plan is told of one step: its analysis, and the effects of the
/// commands that its jobs would run, where they are known.
pub struct StepFacts {
    pub analysis: Analysis,
    pub effects: Vec<Option<CommandEffect>>,
}

/// What [`StepFacts`] stands for.
pub struct StepFactsView {
    pub analysis: AnalysisView,
    pub effects: Seq<Option<CommandEffect>>,
}

impl View for StepFacts {
    type V = StepFactsView;

    open spec fn view(&self) -> StepFactsView {
        StepFactsView { analysis: self.analysis@, effects: self.effects@ }
    }
}

/// The more intrusive of two effects.
pub open spec fn worse(a: Option<CommandEffect>, b: Option<CommandEffect>) -> Option<CommandEffect> {
    match (a, b) {
        (None, _) => b,
        (_, None) => a,
        (Some(x), Some(y)) => if x.rank() < y.rank() {
            b
        } else {
            a
        },
    }
}

/// The most intrusive of the effects that are known.
pub open spec fn worst(effects: Seq<Option<CommandEffect>>) -> Option<CommandEffect>
    decreases effects.len(),
{
    if effects.len() == 0 {
        None
    } else {
        worse(worst(effects.drop_last()), effects.last())
    }
}

/// The most intrusive of the effects that are known.
pub fn worst_effect(effects: &Vec<Option<CommandEffect>>) -> (r: Option<CommandEffect>)
    ensures
        r == worst(effects@),
{
    let mut result: Option<CommandEffect> = None;
    for i in 0..effects.len()
        invariant
            result == worst(effects@.take(i as int)),
    {
        result = match (result, effects[i]) {
            (None, b) => b,
            (a, None) => a,
            (Some(x), Some(y)) => if x.level() < y.level() {
                Some(y)
            } else {
                Some(x)
            },
        };
    }
    assert(effects@.take(effects@.len() as int) =~= effects@);
    result
}

/// The name of the group at a position.
pub open spec fn group_id(index: nat) -> Seq<char> {
    "group_"@ + decimal(index)
}

/// The steps of one group of a plan, the first of which has the order `start`.
pub open spec fn planned_group(
    steps: Seq<(Seq<char>, StepView)>,
    facts: Seq<StepFactsView>,
    group: Option<Seq<char>>,
    start: int,
) -> Seq<PlannedStepView> {
    Seq::new(
        steps.len(),
        |i: int|
            PlannedStepView {
                name: steps[i].0,
                status: facts[i].analysis.status,
                order_index: (start + i) as usize,
                parallel_group_id: group,
                depends_on: steps[i].1.depends,
                reasons: facts[i].analysis.reasons,
                file_count: facts[i].analysis.file_count,
                effect: worst(facts[i].effects),
            },
    )
}

/// The group runs more than one step.
pub open spec fn is_parallel(group: StepGroupView) -> bool {
    group.steps.len() > 1
}

pub open spec fn parallel_id(group: StepGroupView, index: nat) -> Option<Seq<char>> {
    if is_parallel(group) {
        Some(group_id(index))
    } else {
        None
    }
}

/// How many steps the groups have together.
pub open spec fn total_steps(groups: Seq<StepGroupView>) -> nat
    decreases groups.len(),
{
    if groups.len() == 0 {
        0
    } else {
        total_steps(groups.drop_last()) + groups.last().steps.len()
    }
}

/// The steps of a plan: those of each group in turn, numbered throughout.
pub open spec fn planned_steps(
    groups: Seq<StepGroupView>,
    facts: Seq<Seq<StepFactsView>>,
) -> Seq<PlannedStepView>
    decreases groups.len(),
{
    if groups.len() == 0 {
        seq![]
    } else {
        let last = (groups.len() - 1) as nat;
        planned_steps(groups.drop_last(), facts) + planned_group(
            groups.last().steps,
            facts[last as int],
            parallel_id(groups.last(), last),
            total_steps(groups.drop_last()) as int,
        )
    }
}

/// The groups of a plan that run more than one step.
pub open spec fn planned_groups(groups: Seq<StepGroupView>) -> Seq<ParallelGroupView>
    decreases groups.len(),
{
    if groups.len() == 0 {
        seq![]
    } else {
        let before = planned_groups(groups.drop_last());
        if is_parallel(groups.last()) {
            before.push(
                ParallelGroupView {
                    id: group_id((groups.len() - 1) as nat),
                    step_ids: crate::table::keys_of(groups.last().steps),
                },
            )
        } else {
            before
        }
    }
}

pub open spec fn fact_views(facts: Seq<Vec<StepFacts>>) -> Seq<Seq<StepFactsView>> {
    facts.map_values(|v: Vec<StepFacts>| views(v@))
}

/// There are facts for every step of every group.
pub open spec fn facts_fit(groups: Seq<StepGroupView>, facts: Seq<Seq<StepFactsView>>) -> bool {
    &&& facts.len() == groups.len()
    &&& forall|i: int| 0 <= i < groups.len() ==> (#[trigger] facts[i]).len() == groups[i].steps.len()
}

proof fn lemma_total_steps_prefix(groups: Seq<StepGroupView>, n: int)
    requires
        0 <= n <= groups.len(),
    ensures
        total_steps(groups.take(n)) <= total_steps(groups),
    decreases groups.len() - n,
{
    if n < groups.len() {
        lemma_total_steps_prefix(groups, n + 1);
    }
}

fn plan_group(
    group: &StepGroup,
    facts: &Vec<StepFacts>,
    id: &Option<String>,
    start: usize,
    out: &mut Vec<PlannedStep>,
)
    requires
        facts@.len() == group@.steps.len(),
        start + group@.steps.len() <= usize::MAX,
    ensures
        views(final(out)@) == views(old(out)@) + planned_group(
            group@.steps,
            views(facts@),
            opt_text(*id),
            start as int,
        ),
{
    let n: usize = group.steps.len();
    let ghost before = views(out@);
    let ghost all = planned_group(group@.steps, views(facts@), opt_text(*id), start as int);
    assert(views(out@) =~= before + all.take(0));
    for i in 0..n
        invariant
            n == group.steps@.len(),
            n == all.len(),
            facts@.len() == group@.steps.len(),
            start + group@.steps.len() <= usize::MAX,
            all == planned_group(group@.steps, views(facts@), opt_text(*id), start as int),
            views(out@) =~= before + all.take(i as int),
    {
        let step = group.steps.value_at(i);
        let fact = &facts[i];
        assert(views(facts@)[i as int] == fact@);
        let planned = PlannedStep {
            name: group.steps.key_at(i).clone(),
            status: fact.analysis.status,
            order_index: start + i,
            parallel_group_id: dup_opt(id),
            depends_on: dup_list(&step.depends),
            reasons: dup_vec(&fact.analysis.reasons),
            file_count: fact.analysis.file_count,
            effect: worst_effect(&fact.effects),
        };
        assert(planned@ == all[i as int]);
        out.push(planned);
    }
    assert(all.take(n as int) =~= all);
}

/// The plan of a hook, where `facts` holds what is known of each step of each group.
pub fn build_plan(
    hook: &str,
    run_type: RunType,
    profiles: Vec<String>,
    groups: &Vec<StepGroup>,
    facts: &Vec<Vec<StepFacts>>,
) -> (r: Plan)
    requires
        facts_fit(views(groups@), fact_views(facts@)),
        total_steps(views(groups@)) <= usize::MAX,
    ensures
        r@ == (PlanView {
            hook: hook@,
            run_type: run_type.text(),
            profiles: texts(profiles@),
            steps: planned_steps(views(groups@), fact_views(facts@)),
            groups: planned_groups(views(groups@)),
        }),
{
    let ghost gv = views(groups@);
    let ghost fv = fact_views(facts@);
    let mut steps: Vec<PlannedStep> = Vec::new();
    let mut plan_groups: Vec<ParallelGroup> = Vec::new();
    let mut order_index: usize = 0;
    assert(views(steps@) =~= planned_steps(gv.take(0), fv));
    assert(views(plan_groups@) =~= planned_groups(gv.take(0)));
    for i in 0..groups.len()
        invariant
            gv == views(groups@),
            fv == fact_views(facts@),
            facts_fit(gv, fv),
            total_steps(gv) <= usize::MAX,
            order_index == total_steps(gv.take(i as int)),
            views(steps@) == planned_steps(gv.take(i as int), fv),
            views(plan_groups@) == planned_groups(gv.take(i as int)),
    {
        let group = &groups[i];
        proof {
            assert(gv[i as int] == group@);
            assert(fv[i as int] == views(facts@[i as int]@));
            lemma_total_steps_prefix(gv, i + 1);
            assert(fv[i as int].len() == gv[i as int].steps.len());
        }
        let mut id = "group_".to_owned();
        id.append(show_usize(i).as_str());
        let n: usize = group.steps.len();
        let multi = n > 1;
        let group_id = if multi {
            Some(id.clone())
        } else {
            None
        };
        plan_group(group, &facts[i], &group_id, order_index, &mut steps);
        order_index = order_index + n;
        if multi {
            let mut ids: Vec<String> = Vec::new();
            for j in 0..n
                invariant
                    n == group.steps@.len(),
                    texts(ids@) =~= crate::table::keys_of(group.steps@).take(j as int),
            {
                ids.push(group.steps.key_at(j).clone());
            }
            assert(texts(ids@) =~= crate::table::keys_of(group.steps@));
            plan_groups.push(ParallelGroup { id, step_ids: ids });
        }
    }
    assert(gv.take(gv.len() as int) =~= gv);
    Plan {
        hook: hook.to_owned(),
        run_type: run_type.as_str().to_owned(),
        profiles,
        steps,
        groups: plan_groups,
    }
}

/// The steps of a plan that have the name `focus`.
pub open spec fn focused_steps(steps: Seq<PlannedStepView>, focus: Seq<char>) -> Seq<PlannedStepView>
    decreases steps.len(),
{
    if steps.len() == 0 {
        seq![]
    } else {
        let before = focused_steps(steps.drop_last(), focus);
        if steps.last().name == focus {
            before.push(steps.last())
        } else {
            before
        }
    }
}

/// The names among `ids` that equal `focus`, where there is such a step at all.
pub open spec fn focused_ids(ids: Seq<Seq<char>>, focus: Seq<char>, known: bool) -> Seq<Seq<char>>
    decreases ids.len(),
{
    if ids.len() == 0 {
        seq![]
    } else {
        let before = focused_ids(ids.drop_last(), focus, known);
        if known && ids.last() == focus {
            before.push(ids.last())
        } else {
            before
        }
    }
}

/// The groups that still have steps when a plan is cut down to `focus`.
pub open spec fn focused_groups(
    groups: Seq<ParallelGroupView>,
    focus: Seq<char>,
    known: bool,
) -> Seq<ParallelGroupView>
    decreases groups.len(),
{
    if groups.len() == 0 {
        seq![]
    } else {
        let before = focused_groups(groups.drop_last(), focus, known);
        let ids = focused_ids(groups.last().step_ids, focus, known);
        if ids.len() == 0 {
            before
        } else {
            before.push(ParallelGroupView { step_ids: ids, ..groups.last() })
        }
    }
}

/// A plan cut down to one step, where one is named.
pub open spec fn focused(plan: PlanView, why: Option<Seq<char>>) -> PlanView {
    match why {
        Some(focus) => if focus.len() > 0 {
            let steps = focused_steps(plan.steps, focus);
            PlanView {
                steps,
                groups: focused_groups(plan.groups, focus, steps.len() > 0),
                ..plan
            }
        } else {
            plan
        },
        None => plan,
    }
}

impl Plan {
    /// Cuts the plan down to one step, where one is named.
    pub fn focus(self, why: &Option<String>) -> (r: Plan)
        ensures
            r@ == focused(self@, opt_text(*why)),
    {
        let focus = match why {
            Some(s) => s.as_str(),
            None => {
                return self;
            },
        };
        if focus.is_empty() {
            return self;
        }
        let mut steps: Vec<PlannedStep> = Vec::new();
        assert(views(steps@) =~= focused_steps(self@.steps.take(0), focus@));
        for i in 0..self.steps.len()
            invariant
                views(steps@) == focused_steps(self@.steps.take(i as int), focus@),
        {
            assert(self@.steps[i as int] == self.steps@[i as int]@);
            if same(self.steps[i].name.as_str(), focus) {
                steps.push(self.steps[i].dup());
            }
        }
        assert(self@.steps.take(self.steps@.len() as int) =~= self@.steps);
        let known = steps.len() > 0;
        let mut groups: Vec<ParallelGroup> = Vec::new();
        assert(views(groups@) =~= focused_groups(self@.groups.take(0), focus@, known));
        for i in 0..self.groups.len()
            invariant
                views(groups@) == focused_groups(self@.groups.take(i as int), focus@, known),
        {
            let group = &self.groups[i];
            assert(self@.groups[i as int] == group@);
            let mut ids: Vec<String> = Vec::new();
            assert(texts(ids@) =~= focused_ids(texts(group.step_ids@).take(0), focus@, known));
            for j in 0..group.step_ids.len()
                invariant
                    texts(ids@) == focused_ids(
                        texts(group.step_ids@).take(j as int),
                        focus@,
                        known,
                    ),
            {
                if known && same(group.step_ids[j].as_str(), focus) {
                    ids.push(group.step_ids[j].clone());
                }
            }
            assert(texts(group.step_ids@).take(group.step_ids@.len() as int) =~= texts(
                group.step_ids@,
            ));
            if ids.len() > 0 {
                groups.push(ParallelGroup { id: group.id.clone(), step_ids: ids });
            }
        }
        assert(self@.groups.take(self.groups@.len() as int) =~= self@.groups);
        Plan { hook: self.hook, run_type: self.run_type, profiles: self.profiles, steps, groups }
    }
}

/// A step of a plan as it is printed: under the heading of its group where that is new, with its headline and, where they are asked for, all other reasons.
pub struct PlanRow {
    pub group_heading: Option<String>,
    pub in_group: bool,
    pub included: bool,
    pub name: String,
    pub headline: String,
    pub details: Vec<String>,
    pub depends_on: Vec<String>,
}

/// What [`PlanRow`] stands for.
pub struct PlanRowView {
    pub group_heading: Option<Seq<char>>,
    pub in_group: bool,
    pub included: bool,
    pub name: Seq<char>,
    pub headline: Seq<char>,
    pub details: Seq<Seq<char>>,
    pub depends_on: Seq<Seq<char>>,
}

impl View for PlanRow {
    type V = PlanRowView;

    open spec fn view(&self) -> PlanRowView {
        PlanRowView {
            group_heading: opt_text(self.group_heading),
            in_group: self.in_group,
            included: self.included,
            name: self.name@,
            headline: self.headline@,
            details: texts(self.details@),
            depends_on: texts(self.depends_on@),
        }
    }
}

/// The text of a reason.
pub open spec fn reason_text(r: ReasonView) -> Seq<char> {
    match r.detail {
        Some(d) => d,
        None => r.kind.words(),
    }
}

/// The position of the first reason that speaks against running, 0 if none does.
pub open spec fn first_against(reasons: Seq<ReasonView>) -> Option<int>
    decreases reasons.len(),
{
    if reasons.len() == 0 {
        None
    } else {
        match first_against(reasons.drop_last()) {
            Some(i) => Some(i),
            None => if reasons.last().kind.speaks_against() {
                Some(reasons.len() - 1)
            } else {
                None
            },
        }
    }
}

/// The position of the reason that heads a step: one that fits its status.
pub open spec fn headline_index(step: PlannedStepView) -> int {
    if step.status == StepStatus::Skipped {
        match first_against(step.reasons) {
            Some(i) => i,
            None => 0,
        }
    } else {
        0
    }
}

/// The texts of the reasons but for that at `skip`.
pub open spec fn other_reasons(reasons: Seq<ReasonView>, skip: int) -> Seq<Seq<char>>
    decreases reasons.len(),
{
    if reasons.len() == 0 {
        seq![]
    } else {
        let before = other_reasons(reasons.drop_last(), skip);
        if reasons.len() - 1 == skip {
            before
        } else {
            before.push(reason_text(reasons.last()))
        }
    }
}

/// A step as it is printed, `last` being the group of the step before it.
pub open spec fn row_of(
    step: PlannedStepView,
    last: Option<Seq<char>>,
    verbose: bool,
) -> PlanRowView {
    let at = headline_index(step);
    PlanRowView {
        group_heading: if step.parallel_group_id != last {
            step.parallel_group_id
        } else {
            None
        },
        in_group: step.parallel_group_id is Some,
        included: step.status == StepStatus::Included,
        name: step.name,
        headline: if 0 <= at < step.reasons.len() {
            reason_text(step.reasons[at])
        } else {
            seq![]
        },
        details: if verbose {
            other_reasons(step.reasons, at)
        } else {
            seq![]
        },
        depends_on: if verbose {
            step.depends_on
        } else {
            seq![]
        },
    }
}

/// The rows of a plan, and the group of the last step printed.
pub open spec fn rows_of(
    steps: Seq<PlannedStepView>,
    why: Option<Seq<char>>,
) -> (Seq<PlanRowView>, Option<Seq<char>>)
    decreases steps.len(),
{
    if steps.len() == 0 {
        (seq![], None)
    } else {
        let (rows, last) = rows_of(steps.drop_last(), why);
        let step = steps.last();
        if why is Some && why->0.len() > 0 && step.name != why->0 {
            (rows, last)
        } else {
            (rows.push(row_of(step, last, why is Some)), step.parallel_group_id)
        }
    }
}

fn show_reason(r: &Reason) -> (s: String)
    ensures
        s@ == reason_text(r@),
{
    match &r.detail {
        Some(d) => d.clone(),
        None => r.kind.short_description().to_owned(),
    }
}

fn find_headline(step: &PlannedStep) -> (r: usize)
    ensures
        r == headline_index(step@),
{
    if step.status != StepStatus::Skipped {
        return 0;
    }
    let mut found: Option<usize> = None;
    for i in 0..step.reasons.len()
        invariant
            match found {
                Some(k) => first_against(views(step.reasons@).take(i as int)) == Some(k as int),
                None => first_against(views(step.reasons@).take(i as int)) is None,
            },
    {
        assert(views(step.reasons@)[i as int] == step.reasons@[i as int]@);
        if found.is_none() && step.reasons[i].kind.is_skip() {
            found = Some(i);
        }
    }
    assert(views(step.reasons@).take(step.reasons@.len() as int) =~= views(step.reasons@));
    match found {
        Some(k) => k,
        None => 0,
    }
}

fn same_group(a: &Option<String>, b: &Option<String>) -> (r: bool)
    ensures
        r == (opt_text(*a) == opt_text(*b)),
{
    match (a, b) {
        (Some(x), Some(y)) => same(x.as_str(), y.as_str()),
        (None, None) => true,
        _ => false,
    }
}

fn build_row(step: &PlannedStep, last: &Option<String>, verbose: bool) -> (r: PlanRow)
    ensures
        r@ == row_of(step@, opt_text(*last), verbose),
{
    let at: usize = find_headline(step);
    let headline = if at < step.reasons.len() {
        assert(views(step.reasons@)[at as int] == step.reasons@[at as int]@);
        show_reason(&step.reasons[at])
    } else {
        String::new()
    };
    let mut details: Vec<String> = Vec::new();
    let mut depends_on: Vec<String> = Vec::new();
    assert(texts(details@) =~= seq![]);
    assert(texts(depends_on@) =~= seq![]);
    if verbose {
        assert(texts(details@) =~= other_reasons(views(step.reasons@).take(0), at as int));
        for i in 0..step.reasons.len()
            invariant
                texts(details@) == other_reasons(views(step.reasons@).take(i as int), at as int),
        {
            assert(views(step.reasons@)[i as int] == step.reasons@[i as int]@);
            if i != at {
                details.push(show_reason(&step.reasons[i]));
            }
        }
        assert(views(step.reasons@).take(step.reasons@.len() as int) =~= views(step.reasons@));
        depends_on = dup_list(&step.depends_on);
    }
    let group_heading = if same_group(&step.parallel_group_id, last) {
        None
    } else {
        dup_opt(&step.parallel_group_id)
    };
    PlanRow {
        group_heading,
        in_group: step.parallel_group_id.is_some(),
        included: step.status == StepStatus::Included,
        name: step.name.clone(),
        headline,
        details,
        depends_on,
    }
}

/// The steps of a plan as they are printed. `why` asks for all reasons, and,
/// where it names a step, for that step alone.
pub fn plan_rows(plan: &Plan, why: &Option<String>) -> (r: Vec<PlanRow>)
    ensures
        views(r@) == rows_of(plan@.steps, opt_text(*why)).0,
{
    let mut rows: Vec<PlanRow> = Vec::new();
    let mut last: Option<String> = None;
    let ghost w = opt_text(*why);
    assert(views(rows@) =~= rows_of(plan@.steps.take(0), w).0);
    for i in 0..plan.steps.len()
        invariant
            w == opt_text(*why),
            views(rows@) == rows_of(plan@.steps.take(i as int), w).0,
            opt_text(last) == rows_of(plan@.steps.take(i as int), w).1,
    {
        let step = &plan.steps[i];
        assert(plan@.steps[i as int] == step@);
        let wanted = match why {
            Some(focus) => focus.as_str().is_empty() || same(step.name.as_str(), focus.as_str()),
            None => true,
        };
        if wanted {
            rows.push(build_row(step, &last, why.is_some()));
            last = dup_opt(&step.parallel_group_id);
        }
    }
    assert(plan@.steps.take(plan.steps@.len() as int) =~= plan@.steps);
    rows
}

/// What decides the statistics of a step: whether it is skipped by name, has a
/// command, is kept out by its profiles, and how many files it takes.
pub struct StepCount {
    pub has_command: bool,
    pub profile_skip: Option<SkipReason>,
    pub files: usize,
}

/// The statistics of a step.
pub struct StepStat {
    pub name: String,
    pub files: usize,
    pub skip_reason: Option<SkipReason>,
}

/// What [`StepStat`] stands for.
pub struct StepStatView {
    pub name: Seq<char>,
    pub files: usize,
    pub skip_reason: Option<SkipReasonView>,
}

impl View for StepStat {
    type V = StepStatView;

    open spec fn view(&self) -> StepStatView {
        StepStatView {
            name: self.name@,
            files: self.files,
            skip_reason: opt_view(self.skip_reason),
        }
    }
}

/// The statistics of a step.
pub open spec fn stat_of(
    name: Seq<char>,
    skip_steps: Seq<(Seq<char>, SkipReasonView)>,
    run_type: RunType,
    count: StepCount,
) -> StepStatView {
    let reason = match lookup(skip_steps, name) {
        Some(r) => Some(r),
        None => if !count.has_command {
            Some(SkipReasonView::NoCommandForRunType(run_type))
        } else {
            opt_view(count.profile_skip)
        },
    };
    StepStatView {
        name,
        files: if reason is Some {
            0
        } else {
            count.files
        },
        skip_reason: reason,
    }
}

/// The statistics of a step: how many files it takes, or why it is skipped.
pub fn step_stat(
    name: &str,
    skip_steps: &Table<SkipReason>,
    run_type: RunType,
    count: &StepCount,
) -> (r: StepStat)
    ensures
        r@ == stat_of(name@, skip_steps@, run_type, *count),
{
    let skip_reason = match skip_steps.get(name) {
        Some(reason) => Some(reason.dup()),
        None => if !count.has_command {
            Some(SkipReason::NoCommandForRunType(run_type))
        } else {
            dup_option(&count.profile_skip)
        },
    };
    let files: usize = if skip_reason.is_some() { 0 } else { count.files };
    StepStat { name: name.to_owned(), files, skip_reason }
}

/// A plan holds every step of every group, in order and with what was found out about it;
/// steps of one group share its name where there are several.
pub proof fn law_plans_hold_every_step(
    groups: Seq<StepGroupView>,
    facts: Seq<Seq<StepFactsView>>,
    g: int,
    i: int,
)
    requires
        facts.len() == groups.len(),
        0 <= g < groups.len(),
        0 <= i < groups[g].steps.len(),
        total_steps(groups) <= usize::MAX,
    ensures
        ({
            let all = planned_steps(groups, facts);
            let n = total_steps(groups.take(g)) + i;
            let fact = facts[g][i].analysis;
            &&& all.len() == total_steps(groups)
            &&& 0 <= n < all.len()
            &&& all[n].name == groups[g].steps[i].0
            &&& all[n].status == fact.status
            &&& all[n].reasons == fact.reasons
            &&& all[n].file_count == fact.file_count
            &&& all[n].depends_on == groups[g].steps[i].1.depends
            &&& all[n].order_index == n
            &&& all[n].parallel_group_id is Some <==> groups[g].steps.len() > 1
        }),
{
    lemma_planned_len(groups, facts);
    lemma_planned_step(groups, facts, g, i);
}

proof fn lemma_planned_len(groups: Seq<StepGroupView>, facts: Seq<Seq<StepFactsView>>)
    ensures
        planned_steps(groups, facts).len() == total_steps(groups),
    decreases groups.len(),
{
    if groups.len() > 0 {
        lemma_planned_len(groups.drop_last(), facts);
    }
}

proof fn lemma_planned_step(
    groups: Seq<StepGroupView>,
    facts: Seq<Seq<StepFactsView>>,
    g: int,
    i: int,
)
    requires
        facts.len() >= groups.len(),
        0 <= g < groups.len(),
        0 <= i < groups[g].steps.len(),
        total_steps(groups) <= usize::MAX,
    ensures
        ({
            let all = planned_steps(groups, facts);
            let n = total_steps(groups.take(g)) + i;
            let fact = facts[g][i].analysis;
            &&& 0 <= n < all.len()
            &&& all[n].name == groups[g].steps[i].0
            &&& all[n].status == fact.status
            &&& all[n].reasons == fact.reasons
            &&& all[n].file_count == fact.file_count
            &&& all[n].depends_on == groups[g].steps[i].1.depends
            &&& all[n].order_index == n
            &&& all[n].parallel_group_id is Some <==> groups[g].steps.len() > 1
        }),
    decreases groups.len(),
{
    lemma_planned_len(groups, facts);
    let init = groups.drop_last();
    lemma_planned_len(init, facts);
    let before = planned_steps(init, facts);
    if g < init.len() {
        assert(init.take(g) =~= groups.take(g));
        lemma_planned_step(init, facts, g, i);
        assert(planned_steps(groups, facts)[total_steps(groups.take(g)) + i] == before[total_steps(
            groups.take(g),
        ) + i]);
    } else {
        assert(init =~= groups.take(g));
    }
}

/// A plan names exactly the groups that run several steps, each with the names of those.
pub proof fn law_plans_name_parallel_groups(groups: Seq<StepGroupView>, g: int)
    requires
        0 <= g < groups.len(),
    ensures
        groups[g].steps.len() > 1 ==> exists|k: int|
            0 <= k < planned_groups(groups).len() && (#[trigger] planned_groups(groups)[k]).step_ids
                == crate::table::keys_of(groups[g].steps) && Some(planned_groups(groups)[k].id)
                == parallel_id(groups[g], g as nat),
        planned_groups(groups).len() == groups.filter(|x: StepGroupView| x.steps.len() > 1).len(),
{
    lemma_parallel_count(groups);
    if groups[g].steps.len() > 1 {
        lemma_parallel_group(groups, g);
    }
}

proof fn lemma_parallel_count(groups: Seq<StepGroupView>)
    ensures
        planned_groups(groups).len() == groups.filter(|x: StepGroupView| x.steps.len() > 1).len(),
    decreases groups.len(),
{
    reveal(Seq::filter);
    if groups.len() > 0 {
        lemma_parallel_count(groups.drop_last());
    }
}

proof fn lemma_parallel_group(groups: Seq<StepGroupView>, g: int)
    requires
        0 <= g < groups.len(),
        groups[g].steps.len() > 1,
    ensures
        exists|k: int|
            0 <= k < planned_groups(groups).len() && (#[trigger] planned_groups(groups)[k]).step_ids
                == crate::table::keys_of(groups[g].steps) && Some(planned_groups(groups)[k].id)
                == parallel_id(groups[g], g as nat),
    decreases groups.len(),
{
    let init = groups.drop_last();
    let before = planned_groups(init);
    let all = planned_groups(groups);
    if g < init.len() {
        lemma_parallel_group(init, g);
        let k = choose|k: int|
            0 <= k < before.len() && (#[trigger] before[k]).step_ids == crate::table::keys_of(
                init[g].steps,
            ) && Some(before[k].id) == parallel_id(init[g], g as nat);
        assert(all[k] == before[k]);
    } else {
        assert(all[before.len() as int].step_ids == crate::table::keys_of(groups[g].steps));
    }
}

/// A plan cut down to a step holds exactly the steps of that name; one that is not cut
/// down stays as it is.
pub proof fn law_focus_keeps_the_named_step(plan: PlanView, why: Option<Seq<char>>, step: PlannedStepView)
    ensures
        why is None || why->0.len() == 0 ==> focused(plan, why) == plan,
        why is Some && why->0.len() > 0 ==> (focused(plan, why).steps.contains(step)
            <==> plan.steps.contains(step) && step.name == why->0),
        focused(plan, why).hook == plan.hook,
{
    if why is Some {
        lemma_focused(plan.steps, why->0, step);
    }
}

proof fn lemma_focused(steps: Seq<PlannedStepView>, focus: Seq<char>, step: PlannedStepView)
    ensures
        focused_steps(steps, focus).contains(step) <==> steps.contains(step) && step.name == focus,
    decreases steps.len(),
{
    if steps.len() > 0 {
        let init = steps.drop_last();
        lemma_focused(init, focus, step);
        crate::seqs::lemma_last_or_before(steps, step);
        crate::seqs::lemma_pushed(focused_steps(init, focus), steps.last(), step);
    }
}

/// A plan that is not asked about one step prints a row for each step, which says whether
/// the step runs and the reason that fits.
pub proof fn law_plans_print_every_step(steps: Seq<PlannedStepView>, why: Option<Seq<char>>, i: int)
    requires
        why is None || why->0.len() == 0,
        0 <= i < steps.len(),
    ensures
        ({
            let rows = rows_of(steps, why).0;
            &&& rows.len() == steps.len()
            &&& rows[i].name == steps[i].name
            &&& rows[i].included <==> steps[i].status == StepStatus::Included
            &&& rows[i].in_group <==> steps[i].parallel_group_id is Some
            &&& steps[i].reasons.len() > 0 ==> exists|k: int|
                0 <= k < steps[i].reasons.len() && rows[i].headline == #[trigger] reason_text(
                    steps[i].reasons[k],
                )
            &&& steps[i].status == StepStatus::Skipped && (exists|k: int|
                0 <= k < steps[i].reasons.len() && (
                #[trigger] steps[i].reasons[k]).kind.speaks_against()) ==> exists|k: int|
                0 <= k < steps[i].reasons.len() && steps[i].reasons[k].kind.speaks_against()
                    && rows[i].headline == #[trigger] reason_text(steps[i].reasons[k])
        }),
    decreases steps.len(),
{
    let init = steps.drop_last();
    let (before, last) = rows_of(init, why);
    lemma_rows_len(init, why);
    lemma_rows_len(steps, why);
    if i < init.len() {
        law_plans_print_every_step(init, why, i);
        assert(rows_of(steps, why).0[i] == before[i]);
    } else {
        let step = steps[i];
        lemma_first_against(step.reasons);
        let at = headline_index(step);
        if step.reasons.len() > 0 {
            assert(rows_of(steps, why).0[i].headline == reason_text(step.reasons[at]));
        }
    }
}

proof fn lemma_rows_len(steps: Seq<PlannedStepView>, why: Option<Seq<char>>)
    requires
        why is None || why->0.len() == 0,
    ensures
        rows_of(steps, why).0.len() == steps.len(),
    decreases steps.len(),
{
    if steps.len() > 0 {
        lemma_rows_len(steps.drop_last(), why);
    }
}

proof fn lemma_first_against(reasons: Seq<ReasonView>)
    ensures
        match first_against(reasons) {
            Some(i) => 0 <= i < reasons.len() && reasons[i].kind.speaks_against(),
            None => forall|k: int|
                0 <= k < reasons.len() ==> !(#[trigger] reasons[k]).kind.speaks_against(),
        },
    decreases reasons.len(),
{
    if reasons.len() > 0 {
        let init = reasons.drop_last();
        lemma_first_against(init);
        if first_against(reasons) is None {
            assert forall|k: int| 0 <= k < reasons.len() implies !(
            #[trigger] reasons[k]).kind.speaks_against() by {
                if k < init.len() {
                    assert(!init[k].kind.speaks_against());
                }
            }
        }
    }
}

/// The statistics of a step tell its files, or none where it is skipped: by name first,
/// then for want of a command, then for its profiles.
pub proof fn law_statistics_count_the_files(
    name: Seq<char>,
    skip_steps: Seq<(Seq<char>, SkipReasonView)>,
    run_type: RunType,
    count: StepCount,
)
    ensures
        ({
            let s = stat_of(name, skip_steps, run_type, count);
            let runs = lookup(skip_steps, name) is None && count.has_command
                && count.profile_skip is None;
            &&& s.name == name
            &&& s.skip_reason is None <==> runs
            &&& runs ==> s.files == count.files
            &&& !runs ==> s.files == 0
            &&& lookup(skip_steps, name) is Some ==> s.skip_reason == lookup(skip_steps, name)
            &&& lookup(skip_steps, name) is None && !count.has_command ==> s.skip_reason == Some(
                SkipReasonView::NoCommandForRunType(run_type),
            )
        }),
{
}

/// The effect that a plan tells of a step is that of one of its commands, and none of
/// them is known to be more intrusive.
pub proof fn law_the_worst_effect_is_told(effects: Seq<Option<CommandEffect>>, i: int)
    ensures
        0 <= i < effects.len() && effects[i] is Some ==> worst(effects) is Some
            && effects[i]->0.rank() <= worst(effects)->0.rank(),
        worst(effects) is Some ==> effects.contains(worst(effects)),
    decreases effects.len(),
{
    if effects.len() > 0 {
        let init = effects.drop_last();
        law_the_worst_effect_is_told(init, i);
        crate::seqs::lemma_last_or_before(effects, worst(effects));
        if 0 <= i < init.len() {
            assert(init[i] == effects[i]);
        }
    }
}

/// The analysis of a step counts the files of its jobs, and a step that runs says so: that
/// files matched, and that it was asked for where it was.
pub proof fn law_included_steps_say_why(step: StepView, f: FindingsView, named: Seq<Seq<char>>)
    requires
        analyzed(step, f, named).status == StepStatus::Included,
        total_files(f.jobs->Ok_0) <= usize::MAX,
    ensures
        ({
            let a = analyzed(step, f, named);
            &&& a.file_count == Some(total_files(f.jobs->Ok_0) as usize)
            &&& exists|k: int|
                0 <= k < a.reasons.len() && (#[trigger] a.reasons[k]).kind
                    == ReasonKind::FilterMatch
            &&& named.contains(step.name) ==> a.reasons.last().kind == ReasonKind::CliInclude
        }),
{
    let a = analyzed(step, f, named);
    let (first, _) = match step.step_condition {
        Some(condition) => judged(seq![], "step_condition"@, condition, f.step_outcome),
        None => (Seq::<ReasonView>::empty(), false),
    };
    let (second, _) = match step.job_condition {
        Some(condition) => judged(first, "condition"@, condition, f.job_outcome),
        None => (first, false),
    };
    assert(a.reasons[second.len() as int].kind == ReasonKind::FilterMatch);
}

/// A step that is skipped for a reason of its jobs, or for its condition, says that reason.
pub proof fn law_skipped_steps_say_their_reason(
    step: StepView,
    f: FindingsView,
    named: Seq<Seq<char>>,
)
    ensures
        step.step_condition is Some && f.step_outcome is False ==> analyzed(
            step,
            f,
            named,
        ).reasons.last().kind == ReasonKind::ConditionFalse,
        !(step.step_condition is Some && f.step_outcome is False) && f.jobs is Ok
            && f.jobs->Ok_0.len() > 0 && (forall|k: int|
            0 <= k < f.jobs->Ok_0.len() ==> (#[trigger] f.jobs->Ok_0[k]).skip_reason is Some)
            ==> analyzed(step, f, named).reasons.last() == reason_of_skip(
            f.jobs->Ok_0[0].skip_reason->0,
        ),
{
}

/// A plan that is cut down to one step keeps of each group the name of that step, where
/// there is such a step, and no group without it.
pub proof fn law_focus_cuts_the_groups(
    groups: Seq<ParallelGroupView>,
    focus: Seq<char>,
    known: bool,
    i: int,
    group: ParallelGroupView,
    id: Seq<char>,
)
    ensures
        0 <= i < groups.len() && known && groups[i].step_ids.contains(focus) ==> exists|j: int|
            0 <= j < focused_groups(groups, focus, known).len() && (#[trigger] focused_groups(
                groups,
                focus,
                known,
            )[j]).id == groups[i].id,
        focused_groups(groups, focus, known).contains(group) ==> known && group.step_ids.len() > 0 && (
        group.step_ids.contains(id) ==> id == focus),
    decreases groups.len(),
{
    if groups.len() > 0 {
        let init = groups.drop_last();
        let last = groups.last();
        let before = focused_groups(init, focus, known);
        let all = focused_groups(groups, focus, known);
        law_focus_cuts_the_groups(init, focus, known, i, group, id);
        let ids = focused_ids(last.step_ids, focus, known);
        lemma_focused_ids(last.step_ids, focus, known, id);
        lemma_focused_ids(last.step_ids, focus, known, focus);
        if ids.len() > 0 {
            lemma_focused_ids(last.step_ids, focus, known, ids[0]);
            assert(ids.contains(ids[0]));
            crate::seqs::lemma_pushed(
                before,
                ParallelGroupView { step_ids: ids, ..last },
                group,
            );
        }
        if 0 <= i < groups.len() && known && groups[i].step_ids.contains(focus) {
            if i < init.len() {
                assert(init[i] == groups[i]);
                let j = choose|j: int|
                    0 <= j < before.len() && (#[trigger] before[j]).id == groups[i].id;
                assert(all[j] == before[j]);
            } else {
                assert(ids.contains(focus));
                assert(all[all.len() - 1].id == groups[i].id);
            }
        }
    }
}

proof fn lemma_focused_ids(ids: Seq<Seq<char>>, focus: Seq<char>, known: bool, id: Seq<char>)
    ensures
        focused_ids(ids, focus, known).contains(id) <==> known && id == focus && ids.contains(focus),
    decreases ids.len(),
{
    if ids.len() > 0 {
        let init = ids.drop_last();
        lemma_focused_ids(init, focus, known, id);
        crate::seqs::lemma_last_or_before(ids, focus);
        crate::seqs::lemma_pushed(focused_ids(init, focus, known), ids.last(), id);
    }
}

/// All reasons but one are told, in their order.
pub proof fn law_other_reasons_are_told_in_order(reasons: Seq<ReasonView>, skip: int, k: int)
    requires
        0 <= skip < reasons.len(),
    ensures
        other_reasons(reasons, skip).len() == reasons.len() - 1,
        0 <= k < skip ==> other_reasons(reasons, skip)[k] == reason_text(reasons[k]),
        skip <= k < reasons.len() - 1 ==> other_reasons(reasons, skip)[k] == reason_text(
            reasons[k + 1],
        ),
    decreases reasons.len(),
{
    let init = reasons.drop_last();
    if skip < init.len() {
        law_other_reasons_are_told_in_order(init, skip, k);
    } else {
        lemma_all_reasons(init, skip, k);
    }
}

proof fn lemma_all_reasons(reasons: Seq<ReasonView>, skip: int, k: int)
    requires
        reasons.len() <= skip,
    ensures
        other_reasons(reasons, skip).len() == reasons.len(),
        0 <= k < reasons.len() ==> other_reasons(reasons, skip)[k] == reason_text(reasons[k]),
    decreases reasons.len(),
{
    if reasons.len() > 0 {
        lemma_all_reasons(reasons.drop_last(), skip, k);
    }
}

/// A verbose row tells what the step depends on and every reason but the one that heads it;
/// any other row tells neither. A group is named where it begins.
pub proof fn law_verbose_rows_tell_everything(step: PlannedStepView, last: Option<Seq<char>>, verbose: bool)
    ensures
        ({
            let row = row_of(step, last, verbose);
            &&& verbose ==> row.depends_on == step.depends_on
            &&& verbose && step.reasons.len() > 0 ==> row.details.len() == step.reasons.len() - 1
            &&& !verbose ==> row.depends_on.len() == 0 && row.details.len() == 0
            &&& row.group_heading == if step.parallel_group_id == last {
                None
            } else {
                step.parallel_group_id
            }
        }),
{
    if step.reasons.len() > 0 {
        lemma_against_in_range(step.reasons);
        law_other_reasons_are_told_in_order(step.reasons, headline_index(step), 0);
    }
}

proof fn lemma_against_in_range(reasons: Seq<ReasonView>)
    ensures
        first_against(reasons) matches Some(i) ==> 0 <= i < reasons.len(),
    decreases reasons.len(),
{
    if reasons.len() > 0 {
        lemma_against_in_range(reasons.drop_last());
    }
}

/// The reason of a skipped step is of the kind of what skipped it, and names what did.
pub proof fn law_skips_are_told_with_their_cause(
    src: Seq<char>,
    list: Seq<Seq<char>>,
    run_type: RunType,
)
    ensures
        reason_of_skip(SkipReasonView::DisabledByEnv(src)).kind == ReasonKind::EnvExclude,
        reason_of_skip(SkipReasonView::DisabledByCli(src)).kind == ReasonKind::CliExclude,
        reason_of_skip(SkipReasonView::DisabledByConfig).kind == ReasonKind::ConfigExclude,
        reason_of_skip(SkipReasonView::MissingRequiredEnv(list)).kind == ReasonKind::MissingRequiredEnv,
        reason_of_skip(SkipReasonView::ProfileNotEnabled(list)).kind == ReasonKind::ProfileExclude,
        reason_of_skip(SkipReasonView::ProfileExplicitlyDisabled).kind == ReasonKind::ProfileExclude,
        reason_of_skip(SkipReasonView::NoCommandForRunType(run_type)).kind == ReasonKind::NoCommand,
        reason_of_skip(SkipReasonView::NoFilesToProcess).kind == ReasonKind::FilterNoMatch,
        reason_of_skip(SkipReasonView::ConditionFalse).kind == ReasonKind::ConditionFalse,
        crate::text::has_text(reason_text(reason_of_skip(SkipReasonView::DisabledByEnv(src))), src),
        crate::text::has_text(reason_text(reason_of_skip(SkipReasonView::DisabledByCli(src))), src),
        crate::text::has_text(
            reason_text(reason_of_skip(SkipReasonView::MissingRequiredEnv(list))),
            joined(list, ", "@),
        ),
        list.len() > 0 ==> crate::text::has_text(
            reason_text(reason_of_skip(SkipReasonView::ProfileNotEnabled(list))),
            joined(list, ", "@),
        ),
        crate::text::has_text(
            reason_text(reason_of_skip(SkipReasonView::NoCommandForRunType(run_type))),
            run_type.text(),
        ),
{
    crate::text::lemma_two_stand("disabled via "@, src);
    crate::text::lemma_two_stand("missing: "@, joined(list, ", "@));
    crate::text::lemma_two_stand("required profile(s) not enabled: "@, joined(list, ", "@));
    crate::text::lemma_two_stand("no command defined for run type: "@, run_type.text());
}

/// A step is included where some job of it is not skipped, no condition of it is false and
/// no profile keeps it back.
pub proof fn law_steps_with_work_are_included(
    step: StepView,
    f: FindingsView,
    named: Seq<Seq<char>>,
    i: int,
)
    requires
        step.step_condition is None || !(f.step_outcome is False),
        step.job_condition is None || (!(f.job_outcome is False) && f.profile_skip is None),
        f.jobs is Ok,
        0 <= i < f.jobs->Ok_0.len(),
        f.jobs->Ok_0[i].skip_reason is None,
    ensures
        analyzed(step, f, named).status == StepStatus::Included,
{
    assert(!all_skipped(f.jobs->Ok_0));
}

/// A plan that is asked of one step prints that step and no other.
pub proof fn law_a_focus_prints_the_named_step(steps: Seq<PlannedStepView>, focus: Seq<char>, i: int)
    requires
        focus.len() > 0,
    ensures
        0 <= i < rows_of(steps, Some(focus)).0.len() ==> rows_of(steps, Some(focus)).0[i].name == focus,
        rows_of(steps, Some(focus)).0.len() == steps.filter(
            |s: PlannedStepView| s.name == focus,
        ).len(),
    decreases steps.len(),
{
    reveal(Seq::filter);
    if steps.len() > 0 {
        law_a_focus_prints_the_named_step(steps.drop_last(), focus, i);
    }
}

/// A plan that is cut down to a step that it has keeps the groups that the step is in.
pub proof fn law_focus_keeps_the_groups_of_the_step(plan: PlanView, focus: Seq<char>, s: int, g: int)
    requires
        focus.len() > 0,
        0 <= s < plan.steps.len(),
        plan.steps[s].name == focus,
        0 <= g < plan.groups.len(),
        plan.groups[g].step_ids.contains(focus),
    ensures
        exists|j: int|
            0 <= j < focused(plan, Some(focus)).groups.len() && (#[trigger] focused(
                plan,
                Some(focus),
            ).groups[j]).id == plan.groups[g].id,
{
    let steps = focused_steps(plan.steps, focus);
    lemma_focused(plan.steps, focus, plan.steps[s]);
    assert(plan.steps.contains(plan.steps[s]));
    assert(steps.len() > 0);
    law_focus_cuts_the_groups(plan.groups, focus, true, g, plan.groups[g], focus);
    let groups = focused_groups(plan.groups, focus, true);
    assert(focused(plan, Some(focus)).groups == groups);
    let j = choose|j: int| 0 <= j < groups.len() && (#[trigger] groups[j]).id == plan.groups[g].id;
    assert(focused(plan, Some(focus)).groups[j].id == plan.groups[g].id);
}

} // verus!
