//! After a run: what is shown of the output of its steps, and the hints.

use vstd::prelude::*;
use vstd::string::*;
use crate::hook::{SkipReason, SkipReasonView};
use crate::seqs::{opt_view, views};
use crate::settings::{Settings, SettingsView};
use crate::step::OutputSummary;
use crate::step_group::{StepGroup, StepGroupView};
use crate::table::{lemma_position, lookup, push_all_new, put, Dup, NameSet, Table};
use crate::text::{
    contains, decimal, has_text, join, joined, same, show_usize, trim_end, trimmed_end,
};

verus! {

broadcast use crate::seqs::group_text;

/// The output of a step, and which part of it is shown.
pub struct StepOutput {
    pub mode: OutputSummary,
    pub text: String,
}

/// What [`StepOutput`] stands for.
pub struct StepOutputView {
    pub mode: OutputSummary,
    pub text: Seq<char>,
}

impl View for StepOutput {
    type V = StepOutputView;

    open spec fn view(&self) -> StepOutputView {
        StepOutputView {
            mode: self.mode,
            text: self.text@,
        }
    }
}

impl Dup for StepOutput {
    fn dup(&self) -> (r: Self) {
        StepOutput {
            mode: self.mode,
            text: self.text.clone(),
        }
    }
}

/// The summary of one step.
pub struct SummaryBlock {
    pub step: String,
    pub label: String,
    pub text: String,
}

/// What [`SummaryBlock`] stands for.
pub struct SummaryBlockView {
    pub step: Seq<char>,
    pub label: Seq<char>,
    pub text: Seq<char>,
}

impl View for SummaryBlock {
    type V = SummaryBlockView;

    open spec fn view(&self) -> SummaryBlockView {
        SummaryBlockView {
            step: self.step@,
            label: self.label@,
            text: self.text@,
        }
    }
}

/// What decides how much of the output is shown.
#[derive(Clone, Copy)]
pub struct SummaryMode {
    /// The results go to a machine.
    pub machine: bool,
    pub silent: bool,
    pub quiet: bool,
    /// Output has been streamed as it came.
    pub text_mode: bool,
    /// Summaries are asked for in text mode too.
    pub force: bool,
}

impl SummaryMode {
    /// Only steps that failed or were cancelled are shown.
    pub open spec fn only_failed(self) -> bool {
        self.quiet || (self.text_mode && !self.force)
    }
}

/// Which part of the output of the step `name` is shown, as the first group that has it says.
pub open spec fn mode_of(groups: Seq<StepGroupView>, name: Seq<char>) -> Option<OutputSummary>
    decreases groups.len(),
{
    if groups.len() == 0 {
        None
    } else {
        match mode_of(groups.drop_last(), name) {
            Some(m) => Some(m),
            None => match lookup(groups.last().steps, name) {
                Some(step) => Some(step.output_summary),
                None => None,
            },
        }
    }
}

/// The outputs with the diagnostics of one step put in front, unless they are in it already.
pub open spec fn with_diagnostic(
    outputs: Seq<(Seq<char>, StepOutputView)>,
    groups: Seq<StepGroupView>,
    name: Seq<char>,
    diagnostic: Seq<char>,
) -> Seq<(Seq<char>, StepOutputView)> {
    match lookup(outputs, name) {
        Some(o) => if has_text(o.text, diagnostic) {
            outputs
        } else {
            put(outputs, name, StepOutputView { text: diagnostic + o.text, ..o })
        },
        None => put(
            outputs,
            name,
            StepOutputView {
                mode: match mode_of(groups, name) {
                    Some(m) => m,
                    None => OutputSummary::Combined,
                },
                text: diagnostic,
            },
        ),
    }
}

/// The outputs with the diagnostics of the steps that were cancelled.
pub open spec fn with_diagnostics(
    outputs: Seq<(Seq<char>, StepOutputView)>,
    diagnostics: Seq<(Seq<char>, Seq<char>)>,
    groups: Seq<StepGroupView>,
    cancelled: Seq<Seq<char>>,
) -> Seq<(Seq<char>, StepOutputView)>
    decreases diagnostics.len(),
{
    if diagnostics.len() == 0 {
        outputs
    } else {
        let before = with_diagnostics(outputs, diagnostics.drop_last(), groups, cancelled);
        let (name, text) = diagnostics.last();
        if cancelled.contains(name) {
            with_diagnostic(before, groups, name, text)
        } else {
            before
        }
    }
}

/// The heading of a part of the output; hidden output has none.
pub open spec fn output_label(mode: OutputSummary) -> Option<Seq<char>> {
    match mode {
        OutputSummary::Stdout => Some("stdout"@),
        OutputSummary::Stderr => Some("stderr"@),
        OutputSummary::Combined => Some("output"@),
        OutputSummary::Hide => None,
    }
}

/// The summary of the output of one step, if it is shown: it has one of the
/// chosen states, is not empty and not hidden.
pub open spec fn block_of(
    output: (Seq<char>, StepOutputView),
    only_failed: bool,
    failed: Seq<Seq<char>>,
    cancelled: Seq<Seq<char>>,
) -> Option<SummaryBlockView> {
    let text = trimmed_end(output.1.text);
    if only_failed && !failed.contains(output.0) && !cancelled.contains(output.0) {
        None
    } else if text.len() == 0 {
        None
    } else {
        match output_label(output.1.mode) {
            Some(label) => Some(SummaryBlockView { step: output.0, label, text }),
            None => None,
        }
    }
}

pub open spec fn blocks_of(
    outputs: Seq<(Seq<char>, StepOutputView)>,
    only_failed: bool,
    failed: Seq<Seq<char>>,
    cancelled: Seq<Seq<char>>,
) -> Seq<SummaryBlockView>
    decreases outputs.len(),
{
    if outputs.len() == 0 {
        seq![]
    } else {
        let before = blocks_of(outputs.drop_last(), only_failed, failed, cancelled);
        match block_of(outputs.last(), only_failed, failed, cancelled) {
            Some(b) => before.push(b),
            None => before,
        }
    }
}

/// Summaries are shown at all.
pub open spec fn shows_summaries(
    mode: SummaryMode,
    failed: Seq<Seq<char>>,
    cancelled: Seq<Seq<char>>,
) -> bool {
    !mode.machine && !mode.silent && (!mode.only_failed() || failed.len() > 0 || cancelled.len() > 0)
}

/// The summaries of a run.
pub open spec fn summaries(
    mode: SummaryMode,
    outputs: Seq<(Seq<char>, StepOutputView)>,
    diagnostics: Seq<(Seq<char>, Seq<char>)>,
    groups: Seq<StepGroupView>,
    failed: Seq<Seq<char>>,
    cancelled: Seq<Seq<char>>,
) -> Seq<SummaryBlockView> {
    if shows_summaries(mode, failed, cancelled) {
        blocks_of(
            with_diagnostics(outputs, diagnostics, groups, cancelled),
            mode.only_failed(),
            failed,
            cancelled,
        )
    } else {
        seq![]
    }
}

fn find_mode(groups: &Vec<StepGroup>, name: &str) -> (r: Option<OutputSummary>)
    ensures
        r == mode_of(views(groups@), name@),
{
    let mut found: Option<OutputSummary> = None;
    for i in 0..groups.len()
        invariant
            found == mode_of(views(groups@).take(i as int), name@),
    {
        assert(views(groups@)[i as int] == groups@[i as int]@);
        if found.is_none() {
            if let Some(step) = groups[i].steps.get(name) {
                found = Some(step.output_summary);
            }
        }
    }
    assert(views(groups@).take(groups@.len() as int) =~= views(groups@));
    found
}

fn add_diagnostic(
    outputs: &mut Table<StepOutput>,
    groups: &Vec<StepGroup>,
    name: &str,
    diagnostic: &str,
)
    ensures
        final(outputs)@ == with_diagnostic(old(outputs)@, views(groups@), name@, diagnostic@),
{
    match outputs.find(name) {
        Some(i) => {
            let known = outputs.value_at(i);
            if !contains(known.text.as_str(), diagnostic) {
                let mut text = diagnostic.to_owned();
                text.append(known.text.as_str());
                let mode = known.mode;
                outputs.replace_at(i, StepOutput { mode, text });
            }
        },
        None => {
            let mode = match find_mode(groups, name) {
                Some(m) => m,
                None => OutputSummary::Combined,
            };
            outputs.insert(name.to_owned(), StepOutput { mode, text: diagnostic.to_owned() });
        },
    }
}

/// The summaries of a run. Successful steps are left out where only failures
/// are shown; diagnostics of cancelled steps are put in front of their output.
pub fn summarize(
    mode: &SummaryMode,
    outputs: &Table<StepOutput>,
    diagnostics: &Table<String>,
    groups: &Vec<StepGroup>,
    failed: &NameSet,
    cancelled: &NameSet,
) -> (r: Vec<SummaryBlock>)
    ensures
        views(r@) == summaries(
            *mode,
            outputs@,
            diagnostics@,
            views(groups@),
            failed@,
            cancelled@,
        ),
{
    let mut blocks: Vec<SummaryBlock> = Vec::new();
    assert(views(blocks@) =~= seq![]);
    let only_failed = mode.quiet || (mode.text_mode && !mode.force);
    if mode.machine || mode.silent || (only_failed && failed.is_empty() && cancelled.is_empty()) {
        return blocks;
    }
    let mut all = outputs.dup();
    let n: usize = diagnostics.len();
    for i in 0..n
        invariant
            n == diagnostics@.len(),
            all@ == with_diagnostics(
                outputs@,
                diagnostics@.take(i as int),
                views(groups@),
                cancelled@,
            ),
    {
        let name = diagnostics.key_at(i);
        if cancelled.contains(name.as_str()) {
            add_diagnostic(&mut all, groups, name.as_str(), diagnostics.value_at(i).as_str());
        }
    }
    assert(diagnostics@.take(n as int) =~= diagnostics@);
    let m: usize = all.len();
    assert(views(blocks@) =~= blocks_of(all@.take(0), only_failed, failed@, cancelled@));
    for i in 0..m
        invariant
            m == all@.len(),
            views(blocks@) == blocks_of(all@.take(i as int), only_failed, failed@, cancelled@),
    {
        let name = all.key_at(i);
        let output = all.value_at(i);
        let text = trim_end(output.text.as_str());
        let wanted = !only_failed || failed.contains(name.as_str()) || cancelled.contains(
            name.as_str(),
        );
        if wanted && !text.as_str().is_empty() {
            let label = match output.mode {
                OutputSummary::Stdout => Some("stdout"),
                OutputSummary::Stderr => Some("stderr"),
                OutputSummary::Combined => Some("output"),
                OutputSummary::Hide => None,
            };
            if let Some(label) = label {
                blocks.push(SummaryBlock { step: name.clone(), label: label.to_owned(), text });
            }
        }
    }
    assert(all@.take(m as int) =~= all@);
    blocks
}

/// A failed step whose output is neither empty nor hidden is shown, unless the
/// run is silent or its results go to a machine.
pub proof fn law_failures_are_shown(
    mode: SummaryMode,
    outputs: Seq<(Seq<char>, StepOutputView)>,
    diagnostics: Seq<(Seq<char>, Seq<char>)>,
    groups: Seq<StepGroupView>,
    failed: Seq<Seq<char>>,
    cancelled: Seq<Seq<char>>,
    i: int,
)
    requires
        !mode.machine,
        !mode.silent,
        0 <= i < outputs.len(),
        failed.contains(outputs[i].0),
        trimmed_end(outputs[i].1.text).len() > 0,
        outputs[i].1.mode != OutputSummary::Hide,
    ensures
        exists|j: int|
            0 <= j < summaries(mode, outputs, diagnostics, groups, failed, cancelled).len() && (
            #[trigger] summaries(mode, outputs, diagnostics, groups, failed, cancelled)[j]).step
                == outputs[i].0,
{
    assert(failed.len() > 0);
    lemma_diagnostics_keep(outputs, diagnostics, groups, cancelled, i);
    let all = with_diagnostics(outputs, diagnostics, groups, cancelled);
    lemma_block_shown(all, mode.only_failed(), failed, cancelled, i);
    let blocks = blocks_of(all, mode.only_failed(), failed, cancelled);
    let j = choose|j: int| 0 <= j < blocks.len() && (#[trigger] blocks[j]).step == all[i].0;
    assert(summaries(mode, outputs, diagnostics, groups, failed, cancelled)[j].step
        == outputs[i].0);
}

proof fn lemma_trim_behind(a: Seq<char>, b: Seq<char>)
    requires
        trimmed_end(b).len() > 0,
    ensures
        trimmed_end(a + b).len() > 0,
    decreases b.len(),
{
    assert((a + b).last() == b.last());
    if crate::text::white_space(b.last()) {
        lemma_trim_behind(a, b.drop_last());
        assert((a + b).drop_last() =~= a + b.drop_last());
    }
}

proof fn lemma_diagnostics_keep(
    outputs: Seq<(Seq<char>, StepOutputView)>,
    diagnostics: Seq<(Seq<char>, Seq<char>)>,
    groups: Seq<StepGroupView>,
    cancelled: Seq<Seq<char>>,
    i: int,
)
    requires
        0 <= i < outputs.len(),
        trimmed_end(outputs[i].1.text).len() > 0,
    ensures
        ({
            let all = with_diagnostics(outputs, diagnostics, groups, cancelled);
            &&& i < all.len()
            &&& all[i].0 == outputs[i].0
            &&& all[i].1.mode == outputs[i].1.mode
            &&& trimmed_end(all[i].1.text).len() > 0
        }),
    decreases diagnostics.len(),
{
    if diagnostics.len() > 0 {
        lemma_diagnostics_keep(outputs, diagnostics.drop_last(), groups, cancelled, i);
        let before = with_diagnostics(outputs, diagnostics.drop_last(), groups, cancelled);
        let (name, text) = diagnostics.last();
        lemma_position(before, name);
        lemma_trim_behind(text, before[i].1.text);
    }
}

proof fn lemma_block_shown(
    outputs: Seq<(Seq<char>, StepOutputView)>,
    only_failed: bool,
    failed: Seq<Seq<char>>,
    cancelled: Seq<Seq<char>>,
    i: int,
)
    requires
        0 <= i < outputs.len(),
        failed.contains(outputs[i].0),
        trimmed_end(outputs[i].1.text).len() > 0,
        outputs[i].1.mode != OutputSummary::Hide,
    ensures
        exists|j: int|
            0 <= j < blocks_of(outputs, only_failed, failed, cancelled).len() && (
            #[trigger] blocks_of(outputs, only_failed, failed, cancelled)[j]).step == outputs[i].0,
    decreases outputs.len(),
{
    let all = blocks_of(outputs, only_failed, failed, cancelled);
    let before = blocks_of(outputs.drop_last(), only_failed, failed, cancelled);
    if i == outputs.len() - 1 {
        assert(all[all.len() - 1].step == outputs[i].0);
    } else {
        lemma_block_shown(outputs.drop_last(), only_failed, failed, cancelled, i);
        let j = choose|j: int|
            0 <= j < before.len() && (#[trigger] before[j]).step == outputs.drop_last()[i].0;
        assert(all[j].step == outputs[i].0);
    }
}

/// Whether the hint on contention for the git index is shown.
pub fn shows_lock_hint(machine: bool, silent: bool, contention: bool) -> (r: bool)
    ensures
        r == (contention && !machine && !silent),
{
    !machine && !silent && contention
}

/// The steps that were skipped for a profile, and the profiles that they miss.
pub open spec fn profile_skips(
    skipped: Seq<(Seq<char>, SkipReasonView)>,
) -> (nat, Seq<Seq<char>>)
    decreases skipped.len(),
{
    if skipped.len() == 0 {
        (0, seq![])
    } else {
        let (count, missing) = profile_skips(skipped.drop_last());
        match skipped.last().1 {
            SkipReasonView::ProfileNotEnabled(profiles) => (
                count + 1,
                push_all_new(missing, profiles),
            ),
            _ => (count, missing),
        }
    }
}

/// What is said of steps that were skipped for a profile: the headline, the variable and the flag that enable them, and whether they can be run on a branch.
pub struct ProfileHint {
    pub headline: String,
    pub env: String,
    pub flag: String,
    pub from_branch: bool,
}

/// What [`ProfileHint`] stands for.
pub struct ProfileHintView {
    pub headline: Seq<char>,
    pub env: Seq<char>,
    pub flag: Seq<char>,
    pub from_branch: bool,
}

impl View for ProfileHint {
    type V = ProfileHintView;

    open spec fn view(&self) -> ProfileHintView {
        ProfileHintView {
            headline: self.headline@,
            env: self.env@,
            flag: self.flag@,
            from_branch: self.from_branch,
        }
    }
}

/// The profile that a hint names: `slow` where it is missed, else the first that is.
pub open spec fn hinted_profile(missing: Seq<Seq<char>>) -> Seq<char> {
    if missing.contains("slow"@) || missing.len() == 0 {
        "slow"@
    } else {
        missing[0]
    }
}

/// The hint on steps that were skipped for a profile, where the settings ask
/// for it and there are any.
pub open spec fn profile_hint_of(
    hook_name: Seq<char>,
    machine: bool,
    settings: SettingsView,
    skipped: Seq<(Seq<char>, SkipReasonView)>,
) -> Option<ProfileHintView> {
    let (count, missing) = profile_skips(skipped);
    if machine || !settings.warnings.contains("missing-profiles"@)
        || settings.hide_warnings.contains("missing-profiles"@) || count == 0 {
        None
    } else {
        let profile = hinted_profile(missing);
        Some(
            ProfileHintView {
                headline: decimal(count) + " "@ + (if count == 1 {
                    "step was"@
                } else {
                    "steps were"@
                }) + " skipped due to missing profiles: "@ + joined(missing, ", "@),
                env: "HK_PROFILE="@ + profile,
                flag: if missing.contains("slow"@) {
                    "--slow"@
                } else {
                    "--profile="@ + profile
                },
                from_branch: hook_name == "pre-commit"@ || hook_name == "pre-push"@,
            },
        )
    }
}

proof fn lemma_profile_skips(skipped: Seq<(Seq<char>, SkipReasonView)>)
    ensures
        profile_skips(skipped).0 <= skipped.len(),
    decreases skipped.len(),
{
    if skipped.len() > 0 {
        lemma_profile_skips(skipped.drop_last());
    }
}

/// The hint on steps that were skipped for a profile, where the settings ask
/// for it and there are any.
pub fn profile_hint(
    hook_name: &str,
    machine: bool,
    settings: &Settings,
    skipped: &Table<SkipReason>,
) -> (r: Option<ProfileHint>)
    ensures
        opt_view(r) == profile_hint_of(hook_name@, machine, settings@, skipped@),
{
    if machine || !settings.warnings.contains("missing-profiles") || settings.hide_warnings.contains(
        "missing-profiles",
    ) {
        return None;
    }
    let mut count: usize = 0;
    let mut missing = NameSet::new();
    let n: usize = skipped.len();
    for i in 0..n
        invariant
            n == skipped@.len(),
            count <= i,
            (count as nat, missing@) == profile_skips(skipped@.take(i as int)),
    {
        if let SkipReason::ProfileNotEnabled(profiles) = skipped.value_at(i) {
            count = count + 1;
            missing.insert_all(profiles);
        }
    }
    assert(skipped@.take(n as int) =~= skipped@);
    if count == 0 {
        return None;
    }
    let slow = missing.contains("slow");
    let profile = if slow || missing.is_empty() {
        "slow".to_owned()
    } else {
        missing.at(0).clone()
    };
    let mut headline = show_usize(count);
    headline.append(" ");
    headline.append(if count == 1 { "step was" } else { "steps were" });
    headline.append(" skipped due to missing profiles: ");
    headline.append(join(&missing.to_list(), ", ").as_str());
    let mut env = "HK_PROFILE=".to_owned();
    env.append(profile.as_str());
    let flag = if slow {
        "--slow".to_owned()
    } else {
        let mut f = "--profile=".to_owned();
        f.append(profile.as_str());
        f
    };
    Some(
        ProfileHint {
            headline,
            env,
            flag,
            from_branch: same(hook_name, "pre-commit") || same(hook_name, "pre-push"),
        },
    )
}

/// A block stands for the output of a step: its text without trailing white space, under
/// the name of the part that is shown. No block is shown of a step that succeeded where only
/// failures are, nor of output that is hidden or empty.
pub proof fn law_blocks_show_the_output(
    output: (Seq<char>, StepOutputView),
    only_failed: bool,
    failed: Seq<Seq<char>>,
    cancelled: Seq<Seq<char>>,
)
    ensures
        ({
            let b = block_of(output, only_failed, failed, cancelled);
            let wanted = !only_failed || failed.contains(output.0) || cancelled.contains(output.0);
            &&& b is Some <==> wanted && trimmed_end(output.1.text).len() > 0 && output.1.mode
                != OutputSummary::Hide
            &&& b is Some ==> b->0.step == output.0 && b->0.text == trimmed_end(output.1.text)
        }),
{
}

/// Every output that has a block is shown, and nothing else, unless the run is silent or
/// its results go to a machine.
pub proof fn law_summaries_show_every_block(
    outputs: Seq<(Seq<char>, StepOutputView)>,
    only_failed: bool,
    failed: Seq<Seq<char>>,
    cancelled: Seq<Seq<char>>,
    block: SummaryBlockView,
)
    ensures
        blocks_of(outputs, only_failed, failed, cancelled).contains(block) <==> exists|i: int|
            0 <= i < outputs.len() && block_of(#[trigger] outputs[i], only_failed, failed, cancelled)
                == Some(block),
    decreases outputs.len(),
{
    if outputs.len() > 0 {
        let init = outputs.drop_last();
        law_summaries_show_every_block(init, only_failed, failed, cancelled, block);
        let before = blocks_of(init, only_failed, failed, cancelled);
        if let Some(b) = block_of(outputs.last(), only_failed, failed, cancelled) {
            crate::seqs::lemma_pushed(before, b, block);
        }
        assert(outputs[outputs.len() - 1] == outputs.last());
        if exists|i: int|
            0 <= i < init.len() && block_of(#[trigger] init[i], only_failed, failed, cancelled)
                == Some(block) {
            let i = choose|i: int|
                0 <= i < init.len() && block_of(#[trigger] init[i], only_failed, failed, cancelled)
                    == Some(block);
            assert(block_of(outputs[i], only_failed, failed, cancelled) == Some(block));
        }
        if exists|i: int|
            0 <= i < outputs.len() && block_of(#[trigger] outputs[i], only_failed, failed, cancelled)
                == Some(block) {
            let i = choose|i: int|
                0 <= i < outputs.len() && block_of(
                    #[trigger] outputs[i],
                    only_failed,
                    failed,
                    cancelled,
                ) == Some(block);
            if i < init.len() {
                assert(block_of(init[i], only_failed, failed, cancelled) == Some(block));
            }
        }
    }
}

/// A run that is silent, or whose results go to a machine, shows no summary; a quiet run
/// shows one only where something failed or was cancelled.
pub proof fn law_silent_runs_show_nothing(
    mode: SummaryMode,
    outputs: Seq<(Seq<char>, StepOutputView)>,
    diagnostics: Seq<(Seq<char>, Seq<char>)>,
    groups: Seq<StepGroupView>,
    failed: Seq<Seq<char>>,
    cancelled: Seq<Seq<char>>,
)
    ensures
        mode.silent || mode.machine ==> summaries(
            mode,
            outputs,
            diagnostics,
            groups,
            failed,
            cancelled,
        ).len() == 0,
        mode.quiet && failed.len() == 0 && cancelled.len() == 0 ==> summaries(
            mode,
            outputs,
            diagnostics,
            groups,
            failed,
            cancelled,
        ).len() == 0,
        !mode.silent && !mode.machine && !mode.quiet && !mode.text_mode ==> summaries(
            mode,
            outputs,
            diagnostics,
            groups,
            failed,
            cancelled,
        ) == blocks_of(
            with_diagnostics(outputs, diagnostics, groups, cancelled),
            false,
            failed,
            cancelled,
        ),
{
}

/// The hint on profiles comes exactly where steps were skipped for one and such warnings
/// are asked for and not hidden; it names a profile that is missing, `slow` first.
pub proof fn law_profile_hints_name_a_profile(
    hook_name: Seq<char>,
    machine: bool,
    settings: SettingsView,
    skipped: Seq<(Seq<char>, SkipReasonView)>,
)
    ensures
        ({
            let h = profile_hint_of(hook_name, machine, settings, skipped);
            let (count, missing) = profile_skips(skipped);
            &&& h is Some <==> !machine && settings.warnings.contains("missing-profiles"@)
                && !settings.hide_warnings.contains("missing-profiles"@) && count > 0
            &&& h is Some && missing.len() > 0 ==> exists|i: int|
                0 <= i < missing.len() && h->0.env == "HK_PROFILE="@ + #[trigger] missing[i]
            &&& count == skipped.filter(
                |s: (Seq<char>, SkipReasonView)| s.1 is ProfileNotEnabled,
            ).len()
        }),
{
    let (count, missing) = profile_skips(skipped);
    lemma_profile_count(skipped);
    if missing.contains("slow"@) {
        let i = choose|i: int| 0 <= i < missing.len() && missing[i] == "slow"@;
        assert("HK_PROFILE="@ + missing[i] == "HK_PROFILE="@ + "slow"@);
    } else if missing.len() > 0 {
        assert("HK_PROFILE="@ + missing[0] == "HK_PROFILE="@ + hinted_profile(missing));
    }
}

proof fn lemma_profile_count(skipped: Seq<(Seq<char>, SkipReasonView)>)
    ensures
        profile_skips(skipped).0 == skipped.filter(
            |s: (Seq<char>, SkipReasonView)| s.1 is ProfileNotEnabled,
        ).len(),
    decreases skipped.len(),
{
    reveal(Seq::filter);
    if skipped.len() > 0 {
        lemma_profile_count(skipped.drop_last());
    }
}

/// The diagnostics of a step stand in its output afterwards, before what was there; the
/// output of every other step stays.
pub proof fn law_diagnostics_stand_in_the_output(
    outputs: Seq<(Seq<char>, StepOutputView)>,
    groups: Seq<StepGroupView>,
    name: Seq<char>,
    diagnostic: Seq<char>,
    other: Seq<char>,
)
    requires
        other != name,
    ensures
        ({
            let after = with_diagnostic(outputs, groups, name, diagnostic);
            &&& lookup(after, name) is Some
            &&& has_text(lookup(after, name)->0.text, diagnostic)
            &&& lookup(after, other) == lookup(outputs, other)
            &&& lookup(outputs, name) matches Some(o) ==> lookup(after, name)->0.mode == o.mode && (
            lookup(after, name)->0.text == o.text || lookup(after, name)->0.text == diagnostic + o.text)
            &&& lookup(outputs, name) is None ==> lookup(after, name)->0.text == diagnostic
        }),
{
    let mode = match mode_of(groups, name) {
        Some(m) => m,
        None => OutputSummary::Combined,
    };
    match lookup(outputs, name) {
        Some(o) => {
            let new = StepOutputView { text: diagnostic + o.text, ..o };
            crate::table::lemma_lookup_put(outputs, name, new, name);
            crate::table::lemma_lookup_put(outputs, name, new, other);
            crate::text::lemma_two_stand(diagnostic, o.text);
        },
        None => {
            let new = StepOutputView { mode, text: diagnostic };
            crate::table::lemma_lookup_put(outputs, name, new, name);
            crate::table::lemma_lookup_put(outputs, name, new, other);
            crate::text::lemma_stands_alone(diagnostic);
        },
    }
}

/// Of the diagnostics those of cancelled steps stand in the output, and no others: the output
/// of a step that was not cancelled stays.
pub proof fn law_cancelled_steps_show_their_diagnostics(
    outputs: Seq<(Seq<char>, StepOutputView)>,
    diagnostics: Seq<(Seq<char>, Seq<char>)>,
    groups: Seq<StepGroupView>,
    cancelled: Seq<Seq<char>>,
    name: Seq<char>,
    i: int,
)
    ensures
        ({
            let after = with_diagnostics(outputs, diagnostics, groups, cancelled);
            &&& !cancelled.contains(name) ==> lookup(after, name) == lookup(outputs, name)
            &&& 0 <= i < diagnostics.len() && cancelled.contains(diagnostics[i].0) ==> lookup(
                after,
                diagnostics[i].0,
            ) is Some && has_text(lookup(after, diagnostics[i].0)->0.text, diagnostics[i].1)
        }),
    decreases diagnostics.len(),
{
    if diagnostics.len() > 0 {
        let init = diagnostics.drop_last();
        law_cancelled_steps_show_their_diagnostics(outputs, init, groups, cancelled, name, i);
        let before = with_diagnostics(outputs, init, groups, cancelled);
        let (new, text) = diagnostics.last();
        if cancelled.contains(new) {
            if name != new {
                law_diagnostics_stand_in_the_output(before, groups, new, text, name);
            }
            if 0 <= i < diagnostics.len() && cancelled.contains(diagnostics[i].0) {
                let (old, shown) = diagnostics[i];
                let other = old.push('x');
                assert(other.len() != old.len());
                if old != new {
                    law_diagnostics_stand_in_the_output(before, groups, new, text, old);
                } else {
                    law_diagnostics_stand_in_the_output(before, groups, new, text, other);
                    if i < init.len() {
                        let o = lookup(before, old)->0;
                        crate::text::lemma_two_stand(text, o.text);
                        crate::text::lemma_stands_within(text + o.text, o.text, shown);
                    }
                }
            }
        }
    }
}

/// A hint names the profile by which most is missed: `slow` where that is, else one of those
/// missed, in the variable and in the flag alike; only hooks of commits and pushes look at
/// the branch.
pub proof fn law_hints_agree_on_the_profile(
    hook_name: Seq<char>,
    machine: bool,
    settings: SettingsView,
    skipped: Seq<(Seq<char>, SkipReasonView)>,
)
    ensures
        profile_hint_of(hook_name, machine, settings, skipped) matches Some(h) ==> {
            let missing = profile_skips(skipped).1;
            &&& missing.contains("slow"@) ==> h.env == "HK_PROFILE=slow"@ && h.flag == "--slow"@
            &&& !missing.contains("slow"@) && missing.len() > 0 ==> h.env == "HK_PROFILE="@ + missing[0]
                && h.flag == "--profile="@ + missing[0]
            &&& h.from_branch <==> hook_name == "pre-commit"@ || hook_name == "pre-push"@
            &&& has_text(h.headline, joined(missing, ", "@))
            &&& has_text(h.headline, decimal(profile_skips(skipped).0))
        },
{
    if let Some(h) = profile_hint_of(hook_name, machine, settings, skipped) {
        let (count, missing) = profile_skips(skipped);
        reveal_strlit("HK_PROFILE=slow");
        reveal_strlit("HK_PROFILE=");
        reveal_strlit("slow");
        assert("HK_PROFILE="@ + "slow"@ =~= "HK_PROFILE=slow"@);
        crate::text::lemma_five_stand(
            decimal(count),
            " "@,
            if count == 1 {
                "step was"@
            } else {
                "steps were"@
            },
            " skipped due to missing profiles: "@,
            joined(missing, ", "@),
        );
    }
}

/// A profile is missed exactly where some step was skipped for it.
pub proof fn law_missed_profiles_are_those_of_skips(
    skipped: Seq<(Seq<char>, SkipReasonView)>,
    profile: Seq<char>,
)
    ensures
        profile_skips(skipped).1.contains(profile) <==> exists|i: int|
            0 <= i < skipped.len() && misses(#[trigger] skipped[i].1, profile),
    decreases skipped.len(),
{
    if skipped.len() > 0 {
        let init = skipped.drop_last();
        let n = skipped.len() - 1;
        law_missed_profiles_are_those_of_skips(init, profile);
        if let SkipReasonView::ProfileNotEnabled(profiles) = skipped.last().1 {
            crate::table::lemma_push_all_new(profile_skips(init).1, profiles);
        }
        if exists|i: int| 0 <= i < init.len() && misses(#[trigger] init[i].1, profile) {
            let i = choose|i: int| 0 <= i < init.len() && misses(#[trigger] init[i].1, profile);
            assert(misses(skipped[i].1, profile));
        }
        if misses(skipped.last().1, profile) {
            assert(misses(skipped[n].1, profile));
        }
        if exists|i: int| 0 <= i < skipped.len() && misses(#[trigger] skipped[i].1, profile) {
            let i = choose|i: int| 0 <= i < skipped.len() && misses(#[trigger] skipped[i].1, profile);
            if i < n {
                assert(misses(init[i].1, profile));
            }
        }
    }
}

/// The step was skipped because the profile is not enabled.
pub open spec fn misses(reason: SkipReasonView, profile: Seq<char>) -> bool {
    reason is ProfileNotEnabled && reason->ProfileNotEnabled_0.contains(profile)
}

} // verus!
