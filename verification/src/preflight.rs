//! Before a run: whether its commands are safe, and whether it has work at all.

use vstd::prelude::*;
use vstd::string::*;
use crate::config::error_of;
use crate::hook::{SkipReason, SkipReasonView};
use crate::hook_run::{SkippedStep, SkippedStepView};
use crate::plan::{Job, JobView};
use crate::seqs::{opt_views, texts, views};
use crate::step::CommandEffect;
use crate::text::{join, joined, sort, sorted};

verus! {

broadcast use crate::seqs::group_text;

/// A command that a step would run: the field it stands in, and its effect where that is known.
pub struct StepCommand {
    pub field: String,
    pub effect: Option<CommandEffect>,
}

/// What [`StepCommand`] stands for.
pub struct StepCommandView {
    pub field: Seq<char>,
    pub effect: Option<CommandEffect>,
}

impl View for StepCommand {
    type V = StepCommandView;

    open spec fn view(&self) -> StepCommandView {
        StepCommandView {
            field: self.field@,
            effect: self.effect,
        }
    }
}

/// A step with its jobs and the commands that they would run.
pub struct PlannedCommands {
    pub step: String,
    pub jobs: Vec<Job>,
    pub commands: Vec<StepCommand>,
}

/// What [`PlannedCommands`] stands for.
pub struct PlannedCommandsView {
    pub step: Seq<char>,
    pub jobs: Seq<JobView>,
    pub commands: Seq<StepCommandView>,
}

impl View for PlannedCommands {
    type V = PlannedCommandsView;

    open spec fn view(&self) -> PlannedCommandsView {
        PlannedCommandsView {
            step: self.step@,
            jobs: views(self.jobs@),
            commands: views(self.commands@),
        }
    }
}

/// Every job is skipped.
pub open spec fn none_runs(jobs: Seq<JobView>) -> bool {
    forall|i: int| 0 <= i < jobs.len() ==> (#[trigger] jobs[i]).skip_reason is Some
}

/// What keeps a command from a safe run, if anything does.
pub open spec fn command_blocker(step: Seq<char>, c: StepCommandView) -> Option<Seq<char>> {
    match c.effect {
        None => Some(step + "."@ + c.field + ": effect is unknown"@),
        Some(CommandEffect::Destructive) => Some(
            step + "."@ + c.field + ": effect is destructive"@,
        ),
        Some(_) => None,
    }
}

pub open spec fn command_blockers(
    step: Seq<char>,
    commands: Seq<StepCommandView>,
) -> Seq<Seq<char>>
    decreases commands.len(),
{
    if commands.len() == 0 {
        seq![]
    } else {
        let before = command_blockers(step, commands.drop_last());
        match command_blocker(step, commands.last()) {
            Some(b) => before.push(b),
            None => before,
        }
    }
}

/// What keeps the steps from a safe run. A step without a job that runs does not count.
pub open spec fn blockers(steps: Seq<PlannedCommandsView>) -> Seq<Seq<char>>
    decreases steps.len(),
{
    if steps.len() == 0 {
        seq![]
    } else {
        let before = blockers(steps.drop_last());
        if none_runs(steps.last().jobs) {
            before
        } else {
            before + command_blockers(steps.last().step, steps.last().commands)
        }
    }
}

/// Why a safe run is refused, if it is.
pub open spec fn safety_refusal(steps: Seq<PlannedCommandsView>) -> Option<Seq<char>> {
    if blockers(steps).len() == 0 {
        None
    } else {
        Some("--safe refused to run:\n  "@ + joined(sorted(blockers(steps)), "\n  "@))
    }
}

fn no_job_runs(jobs: &Vec<Job>) -> (r: bool)
    ensures
        r == none_runs(views(jobs@)),
{
    for i in 0..jobs.len()
        invariant
            forall|k: int| 0 <= k < i ==> (#[trigger] views(jobs@)[k]).skip_reason is Some,
    {
        assert(views(jobs@)[i as int] == jobs@[i as int]@);
        if jobs[i].skip_reason.is_none() {
            return false;
        }
    }
    true
}

fn add_blockers(out: &mut Vec<String>, step: &str, commands: &Vec<StepCommand>)
    ensures
        texts(final(out)@) == texts(old(out)@) + command_blockers(step@, views(commands@)),
{
    let ghost start = texts(out@);
    assert(texts(out@) =~= start + command_blockers(step@, views(commands@).take(0)));
    for i in 0..commands.len()
        invariant
            texts(out@) == start + command_blockers(step@, views(commands@).take(i as int)),
    {
        let c = &commands[i];
        assert(views(commands@)[i as int] == c@);
        let ghost before = command_blockers(step@, views(commands@).take(i as int));
        let verdict = match c.effect {
            None => Some(": effect is unknown"),
            Some(CommandEffect::Destructive) => Some(": effect is destructive"),
            Some(_) => None,
        };
        if let Some(words) = verdict {
            let mut b = step.to_owned();
            b.append(".");
            b.append(c.field.as_str());
            b.append(words);
            let ghost bv = b@;
            out.push(b);
            assert(texts(out@) =~= start + before.push(bv));
        }
    }
    assert(views(commands@).take(commands@.len() as int) =~= views(commands@));
}

/// Whether a safe run may start: each command of a step that has work to do
/// is known to read or write only. The error lists all that are not, in order.
pub fn validate_safe_commands(steps: &Vec<PlannedCommands>) -> (r: Result<(), String>)
    ensures
        error_of(r) == safety_refusal(views(steps@)),
{
    let mut found: Vec<String> = Vec::new();
    assert(texts(found@) =~= blockers(views(steps@).take(0)));
    for i in 0..steps.len()
        invariant
            texts(found@) == blockers(views(steps@).take(i as int)),
    {
        let s = &steps[i];
        assert(views(steps@)[i as int] == s@);
        if !no_job_runs(&s.jobs) {
            add_blockers(&mut found, s.step.as_str(), &s.commands);
        }
    }
    assert(views(steps@).take(steps@.len() as int) =~= views(steps@));
    if found.len() > 0 {
        let ordered = sort(&found);
        let mut m = "--safe refused to run:\n  ".to_owned();
        m.append(join(&ordered, "\n  ").as_str());
        return Err(m);
    }
    Ok(())
}

/// The command reads or writes, and is known to.
pub open spec fn is_safe(c: StepCommandView) -> bool {
    c.effect == Some(CommandEffect::Read) || c.effect == Some(CommandEffect::Write)
}

/// A safe run starts exactly when every command of every step that has work to
/// do is known to read or write only.
pub proof fn law_safe_run_is_all_or_nothing(steps: Seq<PlannedCommandsView>)
    ensures
        safety_refusal(steps) is None <==> (forall|i: int, j: int|
            0 <= i < steps.len() && !none_runs(steps[i].jobs) && 0 <= j < steps[i].commands.len()
                ==> is_safe(#[trigger] steps[i].commands[j])),
{
    lemma_blockers(steps);
}

proof fn lemma_command_blockers(step: Seq<char>, commands: Seq<StepCommandView>)
    ensures
        command_blockers(step, commands).len() == 0 <==> (forall|j: int|
            0 <= j < commands.len() ==> is_safe(#[trigger] commands[j])),
    decreases commands.len(),
{
    if commands.len() > 0 {
        let init = commands.drop_last();
        lemma_command_blockers(step, init);
        assert(commands[commands.len() - 1] == commands.last());
        assert(forall|j: int| 0 <= j < init.len() ==> init[j] == commands[j]);
        if command_blockers(step, commands).len() == 0 {
            assert forall|j: int| 0 <= j < commands.len() implies is_safe(
                #[trigger] commands[j],
            ) by {
                if j < init.len() {
                    assert(is_safe(init[j]));
                }
            }
        }
    }
}

proof fn lemma_blockers(steps: Seq<PlannedCommandsView>)
    ensures
        blockers(steps).len() == 0 <==> (forall|i: int, j: int|
            0 <= i < steps.len() && !none_runs(steps[i].jobs) && 0 <= j < steps[i].commands.len()
                ==> is_safe(#[trigger] steps[i].commands[j])),
    decreases steps.len(),
{
    if steps.len() > 0 {
        let init = steps.drop_last();
        let last = steps.last();
        lemma_blockers(init);
        lemma_command_blockers(last.step, last.commands);
        assert(steps[steps.len() - 1] == last);
        assert(forall|i: int| 0 <= i < init.len() ==> init[i] == steps[i]);
        if blockers(steps).len() == 0 {
            assert forall|i: int, j: int|
                0 <= i < steps.len() && !none_runs(steps[i].jobs) && 0 <= j
                    < steps[i].commands.len() implies is_safe(#[trigger] steps[i].commands[j]) by {
                if i < init.len() {
                    assert(is_safe(init[i].commands[j]));
                }
            }
        } else if blockers(init).len() > 0 {
            let (i, j) = choose|i: int, j: int|
                0 <= i < init.len() && !none_runs(init[i].jobs) && 0 <= j < init[i].commands.len()
                    && !is_safe(#[trigger] init[i].commands[j]);
            assert(!is_safe(steps[i].commands[j]));
        } else {
            let j = choose|j: int|
                0 <= j < last.commands.len() && !is_safe(#[trigger] last.commands[j]);
            assert(!is_safe(steps[steps.len() - 1].commands[j]));
        }
    }
}

/// What is known of a step where there are no files: whether it has a condition, and its jobs where they could be built.
pub struct IdleStep {
    pub name: String,
    pub has_condition: bool,
    pub jobs: Option<Vec<Job>>,
}

/// What [`IdleStep`] stands for.
pub struct IdleStepView {
    pub name: Seq<char>,
    pub has_condition: bool,
    pub jobs: Option<Seq<JobView>>,
}

impl View for IdleStep {
    type V = IdleStepView;

    open spec fn view(&self) -> IdleStepView {
        IdleStepView {
            name: self.name@,
            has_condition: self.has_condition,
            jobs: opt_views(self.jobs),
        }
    }
}

/// Why a step is certain to do nothing, if it is: without a condition to wait
/// for it has no jobs, or each is skipped.
pub open spec fn idle_reason(s: IdleStepView) -> Option<Seq<char>> {
    if s.has_condition {
        None
    } else {
        match s.jobs {
            None => None,
            Some(jobs) => if jobs.len() == 0 {
                Some(SkipReasonView::NoFilesToProcess.message())
            } else if none_runs(jobs) {
                Some(jobs[0].skip_reason->0.message())
            } else {
                None
            },
        }
    }
}

/// The steps with the reasons why they do nothing, where that is certain of all.
pub open spec fn idle_steps(steps: Seq<IdleStepView>) -> Option<Seq<SkippedStepView>>
    decreases steps.len(),
{
    if steps.len() == 0 {
        Some(seq![])
    } else {
        match (idle_steps(steps.drop_last()), idle_reason(steps.last())) {
            (Some(before), Some(reason)) => Some(
                before.push(SkippedStepView { name: steps.last().name, reason }),
            ),
            _ => None,
        }
    }
}

fn find_idle_reason(s: &IdleStep) -> (r: Option<String>)
    ensures
        crate::seqs::opt_text(r) == idle_reason(s@),
{
    if s.has_condition {
        return None;
    }
    match &s.jobs {
        None => None,
        Some(jobs) => {
            if jobs.len() == 0 {
                return Some(SkipReason::NoFilesToProcess.message());
            }
            if no_job_runs(jobs) {
                assert(views(jobs@)[0] == jobs@[0]@);
                match &jobs[0].skip_reason {
                    Some(reason) => Some(reason.message()),
                    None => None,
                }
            } else {
                None
            }
        },
    }
}

/// The steps with the reasons why they do nothing, where that is certain of all
/// of them; then a run without files can end early.
pub fn early_exit_steps(steps: &Vec<IdleStep>) -> (r: Option<Vec<SkippedStep>>)
    ensures
        opt_views(r) == idle_steps(views(steps@)),
{
    let mut out: Option<Vec<SkippedStep>> = Some(Vec::new());
    assert(views(out->0@) =~= seq![]);
    for i in 0..steps.len()
        invariant
            opt_views(out) == idle_steps(views(steps@).take(i as int)),
    {
        assert(views(steps@)[i as int] == steps@[i as int]@);
        out = match (out, find_idle_reason(&steps[i])) {
            (Some(mut list), Some(reason)) => {
                list.push(SkippedStep { name: steps[i].name.clone(), reason });
                Some(list)
            },
            _ => None,
        };
    }
    assert(views(steps@).take(steps@.len() as int) =~= views(steps@));
    out
}

/// A run can end early exactly where every step is certain to do nothing: none has a
/// condition to wait for, and none has a job that runs. All of them are then told of.
pub proof fn law_early_ends_are_certain(steps: Seq<IdleStepView>, i: int)
    ensures
        idle_steps(steps) is Some <==> forall|k: int|
            0 <= k < steps.len() ==> !(#[trigger] steps[k]).has_condition && steps[k].jobs is Some
                && none_runs(steps[k].jobs->0),
        idle_steps(steps) is Some ==> idle_steps(steps)->0.len() == steps.len(),
        idle_steps(steps) is Some && 0 <= i < steps.len() ==> idle_steps(steps)->0[i].name
            == steps[i].name,
    decreases steps.len(),
{
    if steps.len() > 0 {
        let init = steps.drop_last();
        law_early_ends_are_certain(init, i);
        let n = steps.len() - 1;
        if idle_steps(steps) is Some {
            assert forall|k: int| 0 <= k < steps.len() implies !(#[trigger] steps[k]).has_condition
                && steps[k].jobs is Some && none_runs(steps[k].jobs->0) by {
                if k < n {
                    assert(!init[k].has_condition && init[k].jobs is Some && none_runs(
                        init[k].jobs->0,
                    ));
                }
            }
            if 0 <= i < n {
                assert(init[i] == steps[i]);
            }
        }
        if forall|k: int|
            0 <= k < steps.len() ==> !(#[trigger] steps[k]).has_condition && steps[k].jobs is Some
                && none_runs(steps[k].jobs->0) {
            assert forall|k: int| 0 <= k < init.len() implies !(#[trigger] init[k]).has_condition
                && init[k].jobs is Some && none_runs(init[k].jobs->0) by {
                assert(!steps[k].has_condition && steps[k].jobs is Some && none_runs(
                    steps[k].jobs->0,
                ));
            }
            assert(!steps[n].has_condition && steps[n].jobs is Some && none_runs(steps[n].jobs->0));
        }
    }
}

/// A safe run that is refused names each command that it may not run, and why.
pub proof fn law_refusals_name_the_commands(steps: Seq<PlannedCommandsView>, i: int, j: int)
    requires
        0 <= i < steps.len(),
        !none_runs(steps[i].jobs),
        0 <= j < steps[i].commands.len(),
    ensures
        steps[i].commands[j].effect is None ==> blockers(steps).contains(
            steps[i].step + "."@ + steps[i].commands[j].field + ": effect is unknown"@,
        ),
        steps[i].commands[j].effect == Some(CommandEffect::Destructive) ==> blockers(steps).contains(
            steps[i].step + "."@ + steps[i].commands[j].field + ": effect is destructive"@,
        ),
    decreases steps.len(),
{
    let init = steps.drop_last();
    if let Some(b) = command_blocker(steps[i].step, steps[i].commands[j]) {
        if i < init.len() {
            assert(init[i] == steps[i]);
            law_refusals_name_the_commands(init, i, j);
            crate::seqs::lemma_either(
                blockers(init),
                command_blockers(steps.last().step, steps.last().commands),
                b,
            );
        } else {
            lemma_names_blocker(steps[i].step, steps[i].commands, j);
            crate::seqs::lemma_either(
                blockers(init),
                command_blockers(steps[i].step, steps[i].commands),
                b,
            );
        }
    }
}

proof fn lemma_names_blocker(step: Seq<char>, commands: Seq<StepCommandView>, j: int)
    requires
        0 <= j < commands.len(),
        command_blocker(step, commands[j]) is Some,
    ensures
        command_blockers(step, commands).contains(command_blocker(step, commands[j])->0),
    decreases commands.len(),
{
    let init = commands.drop_last();
    let b = command_blocker(step, commands[j])->0;
    if j < init.len() {
        assert(init[j] == commands[j]);
        lemma_names_blocker(step, init, j);
    }
    match command_blocker(step, commands.last()) {
        Some(x) => {
            crate::seqs::lemma_pushed(command_blockers(step, init), x, b);
        },
        None => {},
    }
}

/// Nothing runs where every job is skipped, and only there.
pub proof fn law_a_single_job_runs(jobs: Seq<JobView>, i: int)
    ensures
        0 <= i < jobs.len() && jobs[i].skip_reason is None ==> !none_runs(jobs),
        !none_runs(jobs) ==> exists|k: int|
            0 <= k < jobs.len() && (#[trigger] jobs[k]).skip_reason is None,
{
}

} // verus!
