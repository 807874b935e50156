//! What a run keeps account of while its steps are at work.

use vstd::prelude::*;
use vstd::string::*;
use crate::hook::{SkipReason, SkipReasonView};
use crate::report::{StepOutput, StepOutputView};
use crate::seqs::{texts, views};
use crate::step::{CommandEffect, OutputSummary, RunType};
use crate::step_group::{StepGroup, StepGroupView};
use crate::plan::total_steps;
use crate::table::{has_key, lookup, push_all_new, push_new, put, Dup, NameSet, Table};
use crate::text::{contains, dup_list, has_text, same};

verus! {

broadcast use crate::seqs::group_text;

/// A command that was chosen to run: the field it stands in, and its effect where that is known.
pub struct EffectRecord {
    pub command: String,
    pub effect: Option<CommandEffect>,
}

/// What [`EffectRecord`] stands for.
pub struct EffectRecordView {
    pub command: Seq<char>,
    pub effect: Option<CommandEffect>,
}

impl View for EffectRecord {
    type V = EffectRecordView;

    open spec fn view(&self) -> EffectRecordView {
        EffectRecordView {
            command: self.command@,
            effect: self.effect,
        }
    }
}

impl Dup for EffectRecord {
    fn dup(&self) -> (r: Self) {
        EffectRecord {
            command: self.command.clone(),
            effect: self.effect,
        }
    }
}

/// The records of the effects of one step.
pub struct EffectList {
    pub records: Vec<EffectRecord>,
}

impl View for EffectList {
    type V = Seq<EffectRecordView>;

    open spec fn view(&self) -> Seq<EffectRecordView> {
        views(self.records@)
    }
}

/// The account that a run keeps: the files it takes, how many jobs there are and are done, which steps were skipped, failed, finished or cancelled, what they wrote, and the suggestions collected on the way.
pub struct HookContext {
    pub files: NameSet,
    pub run_type: RunType,
    pub total_jobs: usize,
    pub completed_jobs: usize,
    pub skip_steps: Table<SkipReason>,
    pub skipped_steps: Table<SkipReason>,
    pub output_by_step: Table<StepOutput>,
    pub diagnostic_output_by_step: Table<String>,
    pub command_effects_by_step: Table<EffectList>,
    pub failed_steps: NameSet,
    pub allowed_failure_steps: NameSet,
    pub finished_steps: NameSet,
    pub cancelled_steps: NameSet,
    pub fix_suggestions: Vec<String>,
    pub git_index_lock_contention: bool,
    pub should_stage: bool,
    pub initial_untracked: NameSet,
}

/// What [`HookContext`] stands for.
pub struct HookContextView {
    pub files: Seq<Seq<char>>,
    pub run_type: RunType,
    pub total_jobs: usize,
    pub completed_jobs: usize,
    pub skip_steps: Seq<(Seq<char>, SkipReasonView)>,
    pub skipped_steps: Seq<(Seq<char>, SkipReasonView)>,
    pub output_by_step: Seq<(Seq<char>, StepOutputView)>,
    pub diagnostic_output_by_step: Seq<(Seq<char>, Seq<char>)>,
    pub command_effects_by_step: Seq<(Seq<char>, Seq<EffectRecordView>)>,
    pub failed_steps: Seq<Seq<char>>,
    pub allowed_failure_steps: Seq<Seq<char>>,
    pub finished_steps: Seq<Seq<char>>,
    pub cancelled_steps: Seq<Seq<char>>,
    pub fix_suggestions: Seq<Seq<char>>,
    pub git_index_lock_contention: bool,
    pub should_stage: bool,
    pub initial_untracked: Seq<Seq<char>>,
}

impl View for HookContext {
    type V = HookContextView;

    open spec fn view(&self) -> HookContextView {
        HookContextView {
            files: self.files@,
            run_type: self.run_type,
            total_jobs: self.total_jobs,
            completed_jobs: self.completed_jobs,
            skip_steps: self.skip_steps@,
            skipped_steps: self.skipped_steps@,
            output_by_step: self.output_by_step@,
            diagnostic_output_by_step: self.diagnostic_output_by_step@,
            command_effects_by_step: self.command_effects_by_step@,
            failed_steps: self.failed_steps@,
            allowed_failure_steps: self.allowed_failure_steps@,
            finished_steps: self.finished_steps@,
            cancelled_steps: self.cancelled_steps@,
            fix_suggestions: texts(self.fix_suggestions@),
            git_index_lock_contention: self.git_index_lock_contention,
            should_stage: self.should_stage,
            initial_untracked: self.initial_untracked@,
        }
    }
}

/// The outputs with `text` added to that of a step. The part that is shown is
/// settled by the first text.
pub open spec fn output_appended(
    outputs: Seq<(Seq<char>, StepOutputView)>,
    name: Seq<char>,
    mode: OutputSummary,
    text: Seq<char>,
) -> Seq<(Seq<char>, StepOutputView)> {
    if text.len() == 0 {
        outputs
    } else {
        match lookup(outputs, name) {
            Some(o) => put(outputs, name, StepOutputView { text: o.text + text, ..o }),
            None => put(outputs, name, StepOutputView { mode, text }),
        }
    }
}

/// The diagnostics with `text` added to those of a step, unless they hold it.
pub open spec fn diagnostic_appended(
    outputs: Seq<(Seq<char>, Seq<char>)>,
    name: Seq<char>,
    text: Seq<char>,
) -> Seq<(Seq<char>, Seq<char>)> {
    if text.len() == 0 {
        outputs
    } else {
        match lookup(outputs, name) {
            Some(o) => if has_text(o, text) {
                outputs
            } else {
                put(outputs, name, o + text)
            },
            None => put(outputs, name, text),
        }
    }
}

/// The records with one more for a step, unless it is there.
pub open spec fn effect_recorded(
    effects: Seq<(Seq<char>, Seq<EffectRecordView>)>,
    name: Seq<char>,
    record: EffectRecordView,
) -> Seq<(Seq<char>, Seq<EffectRecordView>)> {
    let known = match lookup(effects, name) {
        Some(k) => k,
        None => seq![],
    };
    put(
        effects,
        name,
        if known.contains(record) {
            known
        } else {
            known.push(record)
        },
    )
}

fn has_record(records: &Vec<EffectRecord>, command: &str, effect: Option<CommandEffect>) -> (r: bool)
    ensures
        r == views(records@).contains(EffectRecordView { command: command@, effect }),
{
    let ghost record = EffectRecordView { command: command@, effect };
    for i in 0..records.len()
        invariant
            record == (EffectRecordView { command: command@, effect }),
            forall|k: int| 0 <= k < i ==> views(records@)[k] != record,
    {
        assert(views(records@)[i as int] == records@[i as int]@);
        let same_effect = match (records[i].effect, effect) {
            (None, None) => true,
            (Some(a), Some(b)) => a == b,
            _ => false,
        };
        if same_effect && same(records[i].command.as_str(), command) {
            assert(views(records@)[i as int] == record);
            return true;
        }
    }
    false
}

impl HookContext {
    /// The account of a run that begins: one job for each step so far.
    pub fn new(
        files: NameSet,
        groups: &Vec<StepGroup>,
        run_type: RunType,
        skip_steps: Table<SkipReason>,
        should_stage: bool,
        initial_untracked: NameSet,
    ) -> (r: Self)
        requires
            total_steps(views(groups@)) <= usize::MAX,
        ensures
            r@ == (HookContextView {
                files: files@,
                run_type,
                total_jobs: total_steps(views(groups@)) as usize,
                completed_jobs: 0,
                skip_steps: skip_steps@,
                skipped_steps: seq![],
                output_by_step: seq![],
                diagnostic_output_by_step: seq![],
                command_effects_by_step: seq![],
                failed_steps: seq![],
                allowed_failure_steps: seq![],
                finished_steps: seq![],
                cancelled_steps: seq![],
                fix_suggestions: seq![],
                git_index_lock_contention: false,
                should_stage,
                initial_untracked: initial_untracked@,
            }),
    {
        let total_jobs: usize = count_steps(groups);
        let fix_suggestions: Vec<String> = Vec::new();
        assert(texts(fix_suggestions@) =~= seq![]);
        HookContext {
            files,
            run_type,
            total_jobs,
            completed_jobs: 0,
            skip_steps,
            skipped_steps: Table::new(),
            output_by_step: Table::new(),
            diagnostic_output_by_step: Table::new(),
            command_effects_by_step: Table::new(),
            failed_steps: NameSet::new(),
            allowed_failure_steps: NameSet::new(),
            finished_steps: NameSet::new(),
            cancelled_steps: NameSet::new(),
            fix_suggestions,
            git_index_lock_contention: false,
            should_stage,
            initial_untracked,
        }
    }

    /// The files that the run takes.
    pub fn files(&self) -> (r: Vec<String>)
        ensures
            texts(r@) == self@.files,
    {
        self.files.to_list()
    }

    /// Adds files that were changed and files that were created.
    pub fn add_files(&mut self, added_paths: &[String], created_paths: &[String])
        ensures
            final(self)@ == (HookContextView {
                files: push_all_new(
                    push_all_new(old(self)@.files, texts(added_paths@)),
                    texts(created_paths@),
                ),
                ..old(self)@
            }),
    {
        self.files.insert_all(added_paths);
        self.files.insert_all(created_paths);
    }

    /// Counts `n` more jobs to do.
    pub fn inc_total_jobs(&mut self, n: usize)
        requires
            old(self)@.total_jobs + n <= usize::MAX,
        ensures
            final(self)@ == (HookContextView {
                total_jobs: (old(self)@.total_jobs + n) as usize,
                ..old(self)@
            }),
    {
        self.total_jobs = self.total_jobs + n;
    }

    /// Counts `n` more jobs done.
    pub fn inc_completed_jobs(&mut self, n: usize)
        requires
            old(self)@.completed_jobs + n <= usize::MAX,
        ensures
            final(self)@ == (HookContextView {
                completed_jobs: (old(self)@.completed_jobs + n) as usize,
                ..old(self)@
            }),
    {
        self.completed_jobs = self.completed_jobs + n;
    }

    /// Counts `n` jobs less to do, down to none.
    pub fn dec_total_jobs(&mut self, n: usize)
        ensures
            final(self)@ == (HookContextView {
                total_jobs: if old(self)@.total_jobs >= n {
                    (old(self)@.total_jobs - n) as usize
                } else {
                    0
                },
                ..old(self)@
            }),
    {
        self.total_jobs = self.total_jobs.saturating_sub(n);
    }

    /// Notes why a step was skipped.
    pub fn track_skip(&mut self, step_name: &str, reason: SkipReason)
        ensures
            final(self)@ == (HookContextView {
                skipped_steps: put(old(self)@.skipped_steps, step_name@, reason@),
                ..old(self)@
            }),
    {
        self.skipped_steps.insert(step_name.to_owned(), reason);
    }

    /// The steps that were skipped, with the reasons.
    pub fn get_skipped_steps(&self) -> (r: Table<SkipReason>)
        ensures
            r@ == self@.skipped_steps,
    {
        self.skipped_steps.dup()
    }

    /// Adds `text` to the output of a step.
    pub fn append_step_output(&mut self, step_name: &str, mode: OutputSummary, text: &str)
        ensures
            final(self)@ == (HookContextView {
                output_by_step: output_appended(
                    old(self)@.output_by_step,
                    step_name@,
                    mode,
                    text@,
                ),
                ..old(self)@
            }),
    {
        if text.is_empty() {
            return;
        }
        match self.output_by_step.find(step_name) {
            Some(i) => {
                let known = self.output_by_step.value_at(i);
                let mut joined_text = known.text.clone();
                joined_text.append(text);
                let known_mode = known.mode;
                self.output_by_step.replace_at(i, StepOutput { mode: known_mode, text: joined_text });
            },
            None => {
                self.output_by_step.insert(
                    step_name.to_owned(),
                    StepOutput { mode, text: text.to_owned() },
                );
            },
        }
    }

    /// Adds `text` to the diagnostics of a step, unless they hold it.
    pub fn append_diagnostic_output(&mut self, step_name: &str, text: &str)
        ensures
            final(self)@ == (HookContextView {
                diagnostic_output_by_step: diagnostic_appended(
                    old(self)@.diagnostic_output_by_step,
                    step_name@,
                    text@,
                ),
                ..old(self)@
            }),
    {
        if text.is_empty() {
            return;
        }
        match self.diagnostic_output_by_step.find(step_name) {
            Some(i) => {
                let known = self.diagnostic_output_by_step.value_at(i);
                if !contains(known.as_str(), text) {
                    let mut joined_text = known.clone();
                    joined_text.append(text);
                    self.diagnostic_output_by_step.replace_at(i, joined_text);
                }
            },
            None => {
                self.diagnostic_output_by_step.insert(step_name.to_owned(), text.to_owned());
            },
        }
    }

    /// Notes that a step runs a command, once for each command and effect.
    pub fn record_step_effect(
        &mut self,
        step_name: &str,
        command: &str,
        effect: Option<CommandEffect>,
    )
        ensures
            final(self)@ == (HookContextView {
                command_effects_by_step: effect_recorded(
                    old(self)@.command_effects_by_step,
                    step_name@,
                    (EffectRecordView { command: command@, effect }),
                ),
                ..old(self)@
            }),
    {
        let ghost start = self.command_effects_by_step@;
        let record = EffectRecord { command: command.to_owned(), effect };
        match self.command_effects_by_step.find(step_name) {
            Some(i) => {
                let empty = EffectList { records: Vec::new() };
                let mut list = self.command_effects_by_step.replace_at(i, empty);
                if !has_record(&list.records, command, effect) {
                    list.records.push(record);
                }
                self.command_effects_by_step.replace_at(i, list);
                assert(self.command_effects_by_step@ =~= put(start, step_name@, list@));
            },
            None => {
                let mut records: Vec<EffectRecord> = Vec::new();
                records.push(record);
                assert(views(records@) =~= seq![record@]);
                assert(seq![record@] =~= Seq::<EffectRecordView>::empty().push(record@));
                self.command_effects_by_step.insert(step_name.to_owned(), EffectList { records });
            },
        }
    }

    /// Notes that a step failed.
    pub fn mark_step_failed(&mut self, step_name: &str)
        ensures
            final(self)@ == (HookContextView {
                failed_steps: push_new(old(self)@.failed_steps, step_name@),
                ..old(self)@
            }),
    {
        self.failed_steps.insert(step_name.to_owned());
    }

    /// Notes that the failure of a step is allowed.
    pub fn mark_step_failure_allowed(&mut self, step_name: &str)
        ensures
            final(self)@ == (HookContextView {
                allowed_failure_steps: push_new(old(self)@.allowed_failure_steps, step_name@),
                ..old(self)@
            }),
    {
        self.allowed_failure_steps.insert(step_name.to_owned());
    }

    /// Notes that a step finished.
    pub fn mark_step_finished(&mut self, step_name: &str)
        ensures
            final(self)@ == (HookContextView {
                finished_steps: push_new(old(self)@.finished_steps, step_name@),
                ..old(self)@
            }),
    {
        self.finished_steps.insert(step_name.to_owned());
    }

    /// Notes that a step was cancelled.
    pub fn mark_step_cancelled(&mut self, step_name: &str)
        ensures
            final(self)@ == (HookContextView {
                cancelled_steps: push_new(old(self)@.cancelled_steps, step_name@),
                ..old(self)@
            }),
    {
        self.cancelled_steps.insert(step_name.to_owned());
    }

    /// Keeps a suggestion for the end of the run.
    pub fn add_fix_suggestion(&mut self, suggestion: String)
        ensures
            final(self)@ == (HookContextView {
                fix_suggestions: old(self)@.fix_suggestions.push(suggestion@),
                ..old(self)@
            }),
    {
        self.fix_suggestions.push(suggestion);
    }

    /// The suggestions that were kept, in order.
    pub fn take_fix_suggestions(&self) -> (r: Vec<String>)
        ensures
            texts(r@) == self@.fix_suggestions,
    {
        dup_list(&self.fix_suggestions)
    }

    /// Notes that steps contended for the git index.
    pub fn mark_git_index_lock_contention(&mut self)
        ensures
            final(self)@ == (HookContextView { git_index_lock_contention: true, ..old(self)@ }),
    {
        self.git_index_lock_contention = true;
    }

    /// Whether steps contended for the git index.
    pub fn saw_git_index_lock_contention(&self) -> (r: bool)
        ensures
            r == self@.git_index_lock_contention,
    {
        self.git_index_lock_contention
    }
}

proof fn lemma_total_steps_take(groups: Seq<StepGroupView>, n: int)
    requires
        0 <= n <= groups.len(),
    ensures
        total_steps(groups.take(n)) <= total_steps(groups),
    decreases groups.len() - n,
{
    if n < groups.len() {
        lemma_total_steps_take(groups, n + 1);
    }
}

/// How many steps the groups have together.
pub fn count_steps(groups: &Vec<StepGroup>) -> (r: usize)
    requires
        total_steps(views(groups@)) <= usize::MAX,
    ensures
        r == total_steps(views(groups@)),
{
    let mut total: usize = 0;
    for i in 0..groups.len()
        invariant
            total == total_steps(views(groups@).take(i as int)),
            total_steps(views(groups@)) <= usize::MAX,
    {
        proof {
            lemma_total_steps_take(views(groups@), i + 1);
            assert(views(groups@)[i as int] == groups@[i as int]@);
        }
        total = total + groups[i].steps.len();
    }
    assert(views(groups@).take(groups@.len() as int) =~= views(groups@));
    total
}

/// Adding to the output of a step keeps what is there: the old text stays in front.
pub proof fn law_output_only_grows(
    outputs: Seq<(Seq<char>, StepOutputView)>,
    name: Seq<char>,
    mode: OutputSummary,
    text: Seq<char>,
)
    requires
        has_key(outputs, name),
    ensures
        ({
            let before = lookup(outputs, name)->0;
            let now = lookup(output_appended(outputs, name, mode, text), name);
            now is Some && now->0.mode == before.mode && now->0.text == before.text + text
        }),
{
    let before = lookup(outputs, name)->0;
    assert(before.text + Seq::<char>::empty() =~= before.text);
    if text.len() == 0 {
        assert(text =~= Seq::<char>::empty());
    }
    crate::table::lemma_lookup_put(
        outputs,
        name,
        StepOutputView { text: before.text + text, ..before },
        name,
    );
}

/// Recording the same effect twice changes nothing.
pub proof fn law_recording_is_idempotent(
    effects: Seq<(Seq<char>, Seq<EffectRecordView>)>,
    name: Seq<char>,
    record: EffectRecordView,
)
    ensures
        effect_recorded(effect_recorded(effects, name, record), name, record) == effect_recorded(
            effects,
            name,
            record,
        ),
{
    let known = match lookup(effects, name) {
        Some(k) => k,
        None => seq![],
    };
    let new = if known.contains(record) {
        known
    } else {
        known.push(record)
    };
    assert(new.contains(record)) by {
        if !known.contains(record) {
            assert(known.push(record)[known.len() as int] == record);
        }
    }
    let once = put(effects, name, new);
    crate::table::lemma_lookup_put(effects, name, new, name);
    crate::table::lemma_position(once, name);
    assert(put(once, name, new) =~= once);
}

/// The first output of a step settles the part that is shown; other steps keep theirs, and
/// an empty text changes nothing.
pub proof fn law_output_is_kept_by_step(
    outputs: Seq<(Seq<char>, StepOutputView)>,
    name: Seq<char>,
    mode: OutputSummary,
    text: Seq<char>,
    other: Seq<char>,
)
    ensures
        text.len() == 0 ==> output_appended(outputs, name, mode, text) == outputs,
        text.len() > 0 && !has_key(outputs, name) ==> lookup(
            output_appended(outputs, name, mode, text),
            name,
        ) == Some(StepOutputView { mode, text }),
        other != name ==> lookup(output_appended(outputs, name, mode, text), other) == lookup(
            outputs,
            other,
        ),
{
    if let Some(o) = lookup(outputs, name) {
        let now = StepOutputView { text: o.text + text, ..o };
        crate::table::lemma_lookup_put(outputs, name, now, other);
    } else {
        let now = StepOutputView { mode, text };
        crate::table::lemma_lookup_put(outputs, name, now, name);
        crate::table::lemma_lookup_put(outputs, name, now, other);
    }
}

/// Diagnostics of a step are kept behind those before, and not twice; other steps keep
/// theirs.
pub proof fn law_diagnostics_are_kept_once(
    outputs: Seq<(Seq<char>, Seq<char>)>,
    name: Seq<char>,
    text: Seq<char>,
    other: Seq<char>,
)
    requires
        text.len() > 0,
    ensures
        ({
            let now = diagnostic_appended(outputs, name, text);
            &&& lookup(now, name) is Some && has_text(lookup(now, name)->0, text)
            &&& lookup(outputs, name) is None ==> lookup(now, name) == Some(text)
            &&& lookup(outputs, name) matches Some(o) ==> lookup(now, name) == Some(o) || lookup(
                now,
                name,
            ) == Some(o + text)
            &&& other != name ==> lookup(now, other) == lookup(outputs, other)
            &&& diagnostic_appended(now, name, text) == now
        }),
{
    let now = diagnostic_appended(outputs, name, text);
    match lookup(outputs, name) {
        Some(o) => {
            crate::table::lemma_lookup_put(outputs, name, o + text, name);
            crate::table::lemma_lookup_put(outputs, name, o + text, other);
            assert((o + text).subrange(o.len() as int, (o.len() + text.len()) as int) =~= text);
            assert(crate::text::occurs_at(o + text, text, o.len() as int));
        },
        None => {
            crate::table::lemma_lookup_put(outputs, name, text, name);
            crate::table::lemma_lookup_put(outputs, name, text, other);
            assert(text.subrange(0, text.len() as int) =~= text);
            assert(crate::text::occurs_at(text, text, 0));
        },
    }
}

/// An effect that is recorded for a step is among its effects, with all that were there.
pub proof fn law_recorded_effects_are_kept(
    effects: Seq<(Seq<char>, Seq<EffectRecordView>)>,
    name: Seq<char>,
    record: EffectRecordView,
    other: Seq<char>,
    known: EffectRecordView,
)
    ensures
        ({
            let now = effect_recorded(effects, name, record);
            &&& lookup(now, name) is Some
            &&& lookup(now, name)->0.contains(record)
            &&& lookup(effects, name) matches Some(k) ==> (k.contains(known) ==> lookup(now, name)->0.contains(
                known,
            ))
            &&& other != name ==> lookup(now, other) == lookup(effects, other)
        }),
{
    let before = match lookup(effects, name) {
        Some(k) => k,
        None => seq![],
    };
    let after = if before.contains(record) {
        before
    } else {
        before.push(record)
    };
    crate::table::lemma_lookup_put(effects, name, after, name);
    crate::table::lemma_lookup_put(effects, name, after, other);
    crate::seqs::lemma_pushed(before, record, record);
    crate::seqs::lemma_pushed(before, record, known);
}

} // verus!
