//! Hooks: the steps that run on a git event, and everything a run decides.

use vstd::prelude::*;
use vstd::string::*;
use crate::hook_options::{HookOptions, HookOptionsView};
use crate::json::{
    group_json, json_result, lemma_field_index, member, set_field, with_member, Json, JsonView,
};
use crate::seqs::{opt_view, texts, views};
use crate::settings::{Settings, SettingsView};
use crate::step::{RunType, Script, ScriptView, Step, StepView};
use crate::step_group::{
    filled_groups, group_with_env, grouped, initialized_group, step_with_env, StepGroup,
    StepGroupView,
};
use crate::table::{
    distinct, dup_option, has_key, lemma_lookup_put, lemma_position, lookup, put, put_new, Dup,
    NameSet, Table,
};
use crate::text::{debug_text, dup_list, join, joined, list_has, quoted_debug, same};

verus! {

broadcast use crate::seqs::group_text;

/// How unstaged work is put aside while a hook runs.
#[derive(Clone, Copy, Debug, PartialEq, Eq, Structural)]
pub enum StashMethod {
    Git,
    PatchFile,
    Off,
}

/// What a hook says about putting unstaged work aside.
#[derive(Clone, Copy, Debug, PartialEq, Eq, Structural)]
pub enum StashSetting {
    Method(StashMethod),
    Bool(bool),
}

/// An entry of a hook: a step of its own, or a group of steps.
pub enum StepOrGroup {
    Step(Box<Step>),
    Group(Box<StepGroup>),
}

/// What [`StepOrGroup`] stands for.
pub enum StepOrGroupView {
    Step(StepView),
    Group(StepGroupView),
}

impl View for StepOrGroup {
    type V = StepOrGroupView;

    open spec fn view(&self) -> StepOrGroupView {
        match self {
            StepOrGroup::Step(x) => StepOrGroupView::Step(x@),
            StepOrGroup::Group(x) => StepOrGroupView::Group(x@),
        }
    }
}

impl Dup for StepOrGroup {
    fn dup(&self) -> (r: Self) {
        match self {
            StepOrGroup::Step(x) => StepOrGroup::Step(Box::new((**x).dup())),
            StepOrGroup::Group(x) => StepOrGroup::Group(Box::new((**x).dup())),
        }
    }
}

/// The steps that run on one event, with the settings of the run.
pub struct Hook {
    pub name: String,
    pub steps: Table<StepOrGroup>,
    pub enabled: bool,
    pub fix: Option<bool>,
    pub stash: Option<StashSetting>,
    pub stage: Option<bool>,
    pub fail_on_fix: bool,
    pub env: Table<String>,
    pub report: Option<Script>,
}

/// What [`Hook`] stands for.
pub struct HookView {
    pub name: Seq<char>,
    pub steps: Seq<(Seq<char>, StepOrGroupView)>,
    pub enabled: bool,
    pub fix: Option<bool>,
    pub stash: Option<StashSetting>,
    pub stage: Option<bool>,
    pub fail_on_fix: bool,
    pub env: Seq<(Seq<char>, Seq<char>)>,
    pub report: Option<ScriptView>,
}

impl View for Hook {
    type V = HookView;

    open spec fn view(&self) -> HookView {
        HookView {
            name: self.name@,
            steps: self.steps@,
            enabled: self.enabled,
            fix: self.fix,
            stash: self.stash,
            stage: self.stage,
            fail_on_fix: self.fail_on_fix,
            env: self.env@,
            report: opt_view(self.report),
        }
    }
}

impl Dup for Hook {
    fn dup(&self) -> (r: Self) {
        Hook {
            name: self.name.clone(),
            steps: self.steps.dup(),
            enabled: self.enabled,
            fix: self.fix,
            stash: self.stash,
            stage: self.stage,
            fail_on_fix: self.fail_on_fix,
            env: self.env.dup(),
            report: dup_option(&self.report),
        }
    }
}

/// A hook named `name` with nothing configured.
pub open spec fn blank_hook(name: Seq<char>) -> HookView {
    HookView {
        name,
        steps: seq![],
        enabled: true,
        fix: None,
        stash: None,
        stage: None,
        fail_on_fix: false,
        env: seq![],
        report: None,
    }
}

/// An entry under its name, with what a group hands down handed down.
pub open spec fn initialized(entry: StepOrGroupView, name: Seq<char>) -> StepOrGroupView {
    match entry {
        StepOrGroupView::Step(step) => StepOrGroupView::Step(StepView { name, ..step }),
        StepOrGroupView::Group(group) => StepOrGroupView::Group(initialized_group(group, name)),
    }
}

/// An entry whose steps have every variable of `env` that they do not set themselves.
pub open spec fn entry_with_env(
    entry: StepOrGroupView,
    env: Seq<(Seq<char>, Seq<char>)>,
) -> StepOrGroupView {
    match entry {
        StepOrGroupView::Step(step) => StepOrGroupView::Step(step_with_env(step, env)),
        StepOrGroupView::Group(group) => StepOrGroupView::Group(group_with_env(group, env)),
    }
}

/// The entries of a hook under their names, with the variables of the hook.
pub open spec fn initialized_steps(
    steps: Seq<(Seq<char>, StepOrGroupView)>,
    env: Seq<(Seq<char>, Seq<char>)>,
) -> Seq<(Seq<char>, StepOrGroupView)> {
    steps.map_values(
        |e: (Seq<char>, StepOrGroupView)| (e.0, entry_with_env(initialized(e.1, e.0), env)),
    )
}

/// A hook under the name `name`, with its entries initialized.
pub open spec fn initialized_hook(hook: HookView, name: Seq<char>) -> HookView {
    HookView { name, steps: initialized_steps(hook.steps, hook.env), ..hook }
}

impl Default for Hook {
    fn default() -> (r: Self)
        ensures
            r@ == blank_hook(seq![]),
    {
        let r = Hook {
            name: String::new(),
            steps: Table::new(),
            enabled: true,
            fix: None,
            stash: None,
            stage: None,
            fail_on_fix: false,
            env: Table::new(),
            report: None,
        };
        r
    }
}

impl Step {
    /// Names the step.
    pub fn init(&mut self, name: &str)
        ensures
            final(self)@ == (StepView { name: name@, ..old(self)@ }),
    {
        self.name = name.to_owned();
    }
}

impl StepOrGroup {
    /// Names the entry and hands down what a group hands down.
    pub fn init(&mut self, name: &str)
        ensures
            final(self)@ == initialized(old(self)@, name@),
    {
        match self {
            StepOrGroup::Step(step) => step.init(name),
            StepOrGroup::Group(group) => group.init(name),
        }
    }

    /// Sets every variable of `env` that a step of the entry does not set itself.
    pub fn default_env(&mut self, env: &Table<String>)
        ensures
            final(self)@ == entry_with_env(old(self)@, env@),
    {
        match self {
            StepOrGroup::Step(step) => step.default_env(env),
            StepOrGroup::Group(group) => group.default_env(env),
        }
    }
}

impl Hook {
    /// Names the hook and its entries; the variables of the hook reach every
    /// step that does not set them itself.
    pub fn init(&mut self, hook_name: &str)
        ensures
            final(self)@ == initialized_hook(old(self)@, hook_name@),
    {
        let ghost h = self@;
        self.name = hook_name.to_owned();
        let mut steps: Table<StepOrGroup> = Table::new();
        core::mem::swap(&mut self.steps, &mut steps);
        let ghost from = steps@;
        let entries = steps.into_entries();
        let ghost es = entries@;
        let mut out: Table<StepOrGroup> = Table::new();
        let ghost f = |e: (Seq<char>, StepOrGroupView)|
            (e.0, entry_with_env(initialized(e.1, e.0), h.env));
        for entry in it: entries
            invariant
                it.seq() == es,
                es.len() == from.len(),
                distinct(from),
                self.env@ == h.env,
                f == (|e: (Seq<char>, StepOrGroupView)|
                    (e.0, entry_with_env(initialized(e.1, e.0), h.env))),
                forall|i: int|
                    0 <= i < es.len() ==> (#[trigger] es[i]).0@ == from[i].0 && es[i].1@ == from[i].1,
                out@ =~= from.take(it.index()).map_values(f),
        {
            let ghost i = it.index();
            assert(entry == es[i]);
            let (key, mut entry_value) = entry;
            entry_value.init(key.as_str());
            entry_value.default_env(&self.env);
            proof {
                lemma_position(out@, key@);
                assert(entry_value@ == f(from[i]).1);
            }
            out.insert(key, entry_value);
        }
        self.steps = out;
        assert(self@.steps =~= h.steps.map_values(f));
    }
}

/// Why a step does not run.
pub enum SkipReason {
    DisabledByEnv(String),
    DisabledByCli(String),
    DisabledByConfig,
    ProfileNotEnabled(Vec<String>),
    ProfileExplicitlyDisabled,
    NoCommandForRunType(RunType),
    NoFilesToProcess,
    ConditionFalse,
    MissingRequiredEnv(Vec<String>),
}

/// What [`SkipReason`] stands for.
pub enum SkipReasonView {
    DisabledByEnv(Seq<char>),
    DisabledByCli(Seq<char>),
    DisabledByConfig,
    ProfileNotEnabled(Seq<Seq<char>>),
    ProfileExplicitlyDisabled,
    NoCommandForRunType(RunType),
    NoFilesToProcess,
    ConditionFalse,
    MissingRequiredEnv(Seq<Seq<char>>),
}

impl View for SkipReason {
    type V = SkipReasonView;

    open spec fn view(&self) -> SkipReasonView {
        match self {
            SkipReason::DisabledByEnv(x) => SkipReasonView::DisabledByEnv(x@),
            SkipReason::DisabledByCli(x) => SkipReasonView::DisabledByCli(x@),
            SkipReason::DisabledByConfig => SkipReasonView::DisabledByConfig,
            SkipReason::ProfileNotEnabled(x) => SkipReasonView::ProfileNotEnabled(texts(x@)),
            SkipReason::ProfileExplicitlyDisabled => SkipReasonView::ProfileExplicitlyDisabled,
            SkipReason::NoCommandForRunType(x) => SkipReasonView::NoCommandForRunType(*x),
            SkipReason::NoFilesToProcess => SkipReasonView::NoFilesToProcess,
            SkipReason::ConditionFalse => SkipReasonView::ConditionFalse,
            SkipReason::MissingRequiredEnv(x) => SkipReasonView::MissingRequiredEnv(texts(x@)),
        }
    }
}

impl Dup for SkipReason {
    fn dup(&self) -> (r: Self) {
        match self {
            SkipReason::DisabledByEnv(x) => SkipReason::DisabledByEnv(x.clone()),
            SkipReason::DisabledByCli(x) => SkipReason::DisabledByCli(x.clone()),
            SkipReason::DisabledByConfig => SkipReason::DisabledByConfig,
            SkipReason::ProfileNotEnabled(x) => SkipReason::ProfileNotEnabled(dup_list(x)),
            SkipReason::ProfileExplicitlyDisabled => SkipReason::ProfileExplicitlyDisabled,
            SkipReason::NoCommandForRunType(x) => SkipReason::NoCommandForRunType(*x),
            SkipReason::NoFilesToProcess => SkipReason::NoFilesToProcess,
            SkipReason::ConditionFalse => SkipReason::ConditionFalse,
            SkipReason::MissingRequiredEnv(x) => SkipReason::MissingRequiredEnv(dup_list(x)),
        }
    }
}

impl SkipReasonView {
    /// The name of the reason in settings.
    pub open spec fn key(self) -> Seq<char> {
        match self {
            SkipReasonView::DisabledByEnv(_) => "disabled-by-env"@,
            SkipReasonView::DisabledByCli(_) => "disabled-by-cli"@,
            SkipReasonView::DisabledByConfig => "disabled-by-config"@,
            SkipReasonView::ProfileNotEnabled(_) => "profile-not-enabled"@,
            SkipReasonView::ProfileExplicitlyDisabled => "profile-explicitly-disabled"@,
            SkipReasonView::NoCommandForRunType(_) => "no-command-for-run-type"@,
            SkipReasonView::NoFilesToProcess => "no-files-to-process"@,
            SkipReasonView::ConditionFalse => "condition-false"@,
            SkipReasonView::MissingRequiredEnv(_) => "missing-required-env"@,
        }
    }

    /// The reason in words.
    pub open spec fn message(self) -> Seq<char> {
        match self {
            SkipReasonView::DisabledByEnv(src) => "skipped: disabled via "@ + src,
            SkipReasonView::DisabledByCli(src) => "skipped: disabled via "@ + src,
            SkipReasonView::DisabledByConfig => "skipped: disabled via skip configuration"@,
            SkipReasonView::MissingRequiredEnv(envs) => {
                "skipped: missing required environment variable(s): "@ + joined(envs, ", "@)
            },
            SkipReasonView::ProfileNotEnabled(profiles) => if profiles.len() == 0 {
                "skipped: disabled by profile"@
            } else {
                "skipped: profile"@ + (if profiles.len() > 1 {
                    "s"@
                } else {
                    ""@
                }) + " not enabled ("@ + joined(profiles, ", "@) + ")"@
            },
            SkipReasonView::ProfileExplicitlyDisabled => "skipped: disabled by profile"@,
            SkipReasonView::NoCommandForRunType(_) => "skipped: no command for run type"@,
            SkipReasonView::NoFilesToProcess => "skipped: no files to process"@,
            SkipReasonView::ConditionFalse => "skipped: condition is false"@,
        }
    }
}

impl SkipReason {
    /// The name of the reason in settings.
    pub fn key(&self) -> (r: &'static str)
        ensures
            r@ == self@.key(),
    {
        match self {
            SkipReason::DisabledByEnv(_) => "disabled-by-env",
            SkipReason::DisabledByCli(_) => "disabled-by-cli",
            SkipReason::DisabledByConfig => "disabled-by-config",
            SkipReason::ProfileNotEnabled(_) => "profile-not-enabled",
            SkipReason::ProfileExplicitlyDisabled => "profile-explicitly-disabled",
            SkipReason::NoCommandForRunType(_) => "no-command-for-run-type",
            SkipReason::NoFilesToProcess => "no-files-to-process",
            SkipReason::ConditionFalse => "condition-false",
            SkipReason::MissingRequiredEnv(_) => "missing-required-env",
        }
    }

    /// The reason in words.
    pub fn message(&self) -> (r: String)
        ensures
            r@ == self@.message(),
    {
        match self {
            SkipReason::DisabledByEnv(src) => {
                let mut m = "skipped: disabled via ".to_owned();
                m.append(src.as_str());
                m
            },
            SkipReason::DisabledByCli(src) => {
                let mut m = "skipped: disabled via ".to_owned();
                m.append(src.as_str());
                m
            },
            SkipReason::DisabledByConfig => "skipped: disabled via skip configuration".to_owned(),
            SkipReason::MissingRequiredEnv(envs) => {
                let mut m = "skipped: missing required environment variable(s): ".to_owned();
                m.append(join(envs, ", ").as_str());
                m
            },
            SkipReason::ProfileNotEnabled(profiles) => {
                if profiles.len() == 0 {
                    "skipped: disabled by profile".to_owned()
                } else {
                    let mut m = "skipped: profile".to_owned();
                    m.append(if profiles.len() > 1 { "s" } else { "" });
                    m.append(" not enabled (");
                    m.append(join(profiles, ", ").as_str());
                    m.append(")");
                    m
                }
            },
            SkipReason::ProfileExplicitlyDisabled => "skipped: disabled by profile".to_owned(),
            SkipReason::NoCommandForRunType(_) => "skipped: no command for run type".to_owned(),
            SkipReason::NoFilesToProcess => "skipped: no files to process".to_owned(),
            SkipReason::ConditionFalse => "skipped: condition is false".to_owned(),
        }
    }

    /// Whether the settings ask for this reason to be shown.
    pub fn should_display(&self, settings: &Settings) -> (r: bool)
        ensures
            r == settings@.display_skip_reasons.contains(self@.key()),
    {
        settings.display_skip_reasons.contains(self.key())
    }
}

/// Where the steps that are skipped by name come from, in this order: the
/// environment, the configuration, the command line, which has the last word.
pub open spec fn skipped_by_name(
    env: Seq<Seq<char>>,
    config: Seq<Seq<char>>,
    cli: Seq<Seq<char>>,
) -> Seq<(Seq<char>, SkipReasonView)> {
    skipped_by_cli(skipped_by_config(skipped_by_env(env), config), cli)
}

pub open spec fn skipped_by_env(names: Seq<Seq<char>>) -> Seq<(Seq<char>, SkipReasonView)>
    decreases names.len(),
{
    if names.len() == 0 {
        seq![]
    } else {
        put(
            skipped_by_env(names.drop_last()),
            names.last(),
            SkipReasonView::DisabledByEnv("HK_SKIP_STEPS"@),
        )
    }
}

pub open spec fn skipped_by_config(
    m: Seq<(Seq<char>, SkipReasonView)>,
    names: Seq<Seq<char>>,
) -> Seq<(Seq<char>, SkipReasonView)>
    decreases names.len(),
{
    if names.len() == 0 {
        m
    } else {
        put_new(
            skipped_by_config(m, names.drop_last()),
            names.last(),
            SkipReasonView::DisabledByConfig,
        )
    }
}

pub open spec fn skipped_by_cli(
    m: Seq<(Seq<char>, SkipReasonView)>,
    names: Seq<Seq<char>>,
) -> Seq<(Seq<char>, SkipReasonView)>
    decreases names.len(),
{
    if names.len() == 0 {
        m
    } else {
        put(
            skipped_by_cli(m, names.drop_last()),
            names.last(),
            SkipReasonView::DisabledByCli("--skip-step "@ + names.last()),
        )
    }
}

/// The steps that are skipped by name, each with the reason.
pub fn build_skip_steps(env_skip: &NameSet, settings: &Settings, opts: &HookOptions) -> (r: Table<
    SkipReason,
>)
    ensures
        r@ == skipped_by_name(env_skip@, settings@.skip_steps, opts@.skip_step),
{
    let mut m: Table<SkipReason> = Table::new();
    let n: usize = env_skip.len();
    for i in 0..n
        invariant
            n == env_skip@.len(),
            m@ == skipped_by_env(env_skip@.take(i as int)),
    {
        m.insert(env_skip.at(i).clone(), SkipReason::DisabledByEnv("HK_SKIP_STEPS".to_owned()));
    }
    assert(env_skip@.take(n as int) =~= env_skip@);
    let ghost m1 = m@;
    let k: usize = settings.skip_steps.len();
    for i in 0..k
        invariant
            k == settings.skip_steps@.len(),
            m@ == skipped_by_config(m1, settings.skip_steps@.take(i as int)),
    {
        m.insert_new(settings.skip_steps.at(i).clone(), SkipReason::DisabledByConfig);
    }
    assert(settings.skip_steps@.take(k as int) =~= settings.skip_steps@);
    let ghost m2 = m@;
    for i in 0..opts.skip_step.len()
        invariant
            m@ == skipped_by_cli(m2, texts(opts.skip_step@).take(i as int)),
    {
        let mut src = "--skip-step ".to_owned();
        src.append(opts.skip_step[i].as_str());
        m.insert(opts.skip_step[i].clone(), SkipReason::DisabledByCli(src));
    }
    assert(texts(opts.skip_step@).take(opts.skip_step@.len() as int) =~= texts(opts.skip_step@));
    m
}

/// A step that the command line skips is skipped for that reason, whatever the
/// environment and the configuration say; one that the environment skips is not
/// put down to the configuration.
pub proof fn law_skip_reason_order(
    env: Seq<Seq<char>>,
    config: Seq<Seq<char>>,
    cli: Seq<Seq<char>>,
    name: Seq<char>,
)
    ensures
        lookup(skipped_by_name(env, config, cli), name) == (if cli.contains(name) {
            Some(SkipReasonView::DisabledByCli("--skip-step "@ + name))
        } else if env.contains(name) {
            Some(SkipReasonView::DisabledByEnv("HK_SKIP_STEPS"@))
        } else if config.contains(name) {
            Some(SkipReasonView::DisabledByConfig)
        } else {
            None
        }),
{
    lemma_skipped_by_env(env, name);
    lemma_skipped_by_config(skipped_by_env(env), config, name);
    lemma_skipped_by_cli(skipped_by_config(skipped_by_env(env), config), cli, name);
}

proof fn lemma_contains_last(s: Seq<Seq<char>>, x: Seq<char>)
    requires
        s.len() > 0,
    ensures
        s.contains(x) <==> (s.drop_last().contains(x) || x == s.last()),
{
    if s.contains(x) {
        let i = choose|i: int| 0 <= i < s.len() && s[i] == x;
        if i < s.len() - 1 {
            assert(s.drop_last()[i] == x);
        }
    }
    if s.drop_last().contains(x) {
        let i = choose|i: int| 0 <= i < s.drop_last().len() && s.drop_last()[i] == x;
        assert(s[i] == x);
    }
    assert(s[s.len() - 1] == s.last());
}

proof fn lemma_skipped_by_env(names: Seq<Seq<char>>, x: Seq<char>)
    ensures
        lookup(skipped_by_env(names), x) == (if names.contains(x) {
            Some(SkipReasonView::DisabledByEnv("HK_SKIP_STEPS"@))
        } else {
            None
        }),
    decreases names.len(),
{
    if names.len() > 0 {
        lemma_skipped_by_env(names.drop_last(), x);
        lemma_contains_last(names, x);
        lemma_lookup_put(
            skipped_by_env(names.drop_last()),
            names.last(),
            SkipReasonView::DisabledByEnv("HK_SKIP_STEPS"@),
            x,
        );
    }
}

proof fn lemma_skipped_by_config(
    m: Seq<(Seq<char>, SkipReasonView)>,
    names: Seq<Seq<char>>,
    x: Seq<char>,
)
    ensures
        lookup(skipped_by_config(m, names), x) == (if has_key(m, x) {
            lookup(m, x)
        } else if names.contains(x) {
            Some(SkipReasonView::DisabledByConfig)
        } else {
            None
        }),
    decreases names.len(),
{
    if names.len() > 0 {
        lemma_skipped_by_config(m, names.drop_last(), x);
        lemma_contains_last(names, x);
        lemma_lookup_put(
            skipped_by_config(m, names.drop_last()),
            names.last(),
            SkipReasonView::DisabledByConfig,
            x,
        );
    }
}

proof fn lemma_skipped_by_cli(
    m: Seq<(Seq<char>, SkipReasonView)>,
    names: Seq<Seq<char>>,
    x: Seq<char>,
)
    ensures
        lookup(skipped_by_cli(m, names), x) == (if names.contains(x) {
            Some(SkipReasonView::DisabledByCli("--skip-step "@ + x))
        } else {
            lookup(m, x)
        }),
    decreases names.len(),
{
    if names.len() > 0 {
        lemma_skipped_by_cli(m, names.drop_last(), x);
        lemma_contains_last(names, x);
        lemma_lookup_put(
            skipped_by_cli(m, names.drop_last()),
            names.last(),
            SkipReasonView::DisabledByCli("--skip-step "@ + names.last()),
            x,
        );
    }
}

impl StashMethod {
    /// The method that a word names.
    pub open spec fn named(word: Seq<char>) -> Option<StashMethod> {
        if word == "git"@ || word == "true"@ || word == "1"@ {
            Some(StashMethod::Git)
        } else if word == "patch-file"@ {
            Some(StashMethod::PatchFile)
        } else if word == "none"@ || word == "false"@ || word == "0"@ {
            Some(StashMethod::Off)
        } else {
            None
        }
    }

    /// The method that a word names.
    pub fn parse(word: &str) -> (r: Option<StashMethod>)
        ensures
            r == StashMethod::named(word@),
    {
        if same(word, "git") || same(word, "true") || same(word, "1") {
            Some(StashMethod::Git)
        } else if same(word, "patch-file") {
            Some(StashMethod::PatchFile)
        } else if same(word, "none") || same(word, "false") || same(word, "0") {
            Some(StashMethod::Off)
        } else {
            None
        }
    }
}

/// Whether a hook checks or fixes: flags come first, then the settings, where
/// checking wins over fixing; fixing also takes a hook that fixes.
pub open spec fn chosen_run_type(
    hook: HookView,
    opts: HookOptionsView,
    settings: SettingsView,
) -> RunType {
    if opts.check {
        RunType::Check
    } else if opts.fix {
        RunType::Fix
    } else if settings.check {
        RunType::Check
    } else if settings.fix && (match hook.fix {
        Some(fix) => fix,
        None => hook.name == "fix"@,
    }) {
        RunType::Fix
    } else {
        RunType::Check
    }
}

/// How a hook puts unstaged work aside, where the environment may say so.
pub open spec fn stash_method(hook: HookView, env: Option<StashMethod>) -> StashMethod {
    match env {
        Some(m) => m,
        None => match hook.stash {
            Some(StashSetting::Method(m)) => m,
            Some(StashSetting::Bool(b)) => if b {
                StashMethod::Git
            } else {
                StashMethod::Off
            },
            None => StashMethod::Off,
        },
    }
}

/// How an invocation puts unstaged work aside: not at all where it runs on
/// staged or unstaged files, else as its option says, else as the hook does.
pub open spec fn chosen_stash_method(
    hook: HookView,
    opts: HookOptionsView,
    env: Option<StashMethod>,
) -> StashMethod {
    if opts.staged || opts.unstaged {
        StashMethod::Off
    } else {
        match opts.stash {
            Some(word) => match StashMethod::named(word) {
                Some(m) => m,
                None => StashMethod::Off,
            },
            None => stash_method(hook, env),
        }
    }
}

/// The steps of a group whose names are among `names`.
pub open spec fn steps_named(
    steps: Seq<(Seq<char>, StepView)>,
    names: Seq<Seq<char>>,
) -> Seq<(Seq<char>, StepView)>
    decreases steps.len(),
{
    if steps.len() == 0 {
        seq![]
    } else {
        let before = steps_named(steps.drop_last(), names);
        if names.contains(steps.last().0) {
            before.push(steps.last())
        } else {
            before
        }
    }
}

/// The entries of a hook that an invocation asks for: all, or the steps that
/// it names, a group being cut down to those.
pub open spec fn entries_named(
    entries: Seq<(Seq<char>, StepOrGroupView)>,
    names: Seq<Seq<char>>,
) -> Seq<StepOrGroupView>
    decreases entries.len(),
{
    if entries.len() == 0 {
        seq![]
    } else {
        let before = entries_named(entries.drop_last(), names);
        match entries.last().1 {
            StepOrGroupView::Step(step) => if names.contains(step.name) || names.len() == 0 {
                before.push(entries.last().1)
            } else {
                before
            },
            StepOrGroupView::Group(group) => if names.len() == 0 {
                before.push(entries.last().1)
            } else {
                before.push(
                    StepOrGroupView::Group(
                        StepGroupView { steps: steps_named(group.steps, names), ..group },
                    ),
                )
            },
        }
    }
}

fn keep_named(group: &mut StepGroup, names: &Vec<String>)
    ensures
        final(group)@ == (StepGroupView {
            steps: steps_named(old(group)@.steps, texts(names@)),
            ..old(group)@
        }),
{
    let mut steps: Table<Step> = Table::new();
    core::mem::swap(&mut group.steps, &mut steps);
    let ghost from = steps@;
    let entries = steps.into_entries();
    let ghost es = entries@;
    let mut out: Table<Step> = Table::new();
    for entry in it: entries
        invariant
            it.seq() == es,
            es.len() == from.len(),
            distinct(from),
            forall|i: int|
                0 <= i < es.len() ==> (#[trigger] es[i]).0@ == from[i].0 && es[i].1@ == from[i].1,
            out@ == steps_named(from.take(it.index()), texts(names@)),
    {
        let ghost i = it.index();
        assert(entry == es[i]);
        let (key, step) = entry;
        if list_has(names, key.as_str()) {
            proof {
                lemma_steps_named(from.take(i), texts(names@), key@);
                lemma_position(from.take(i), key@);
                assert(forall|j: int| 0 <= j < i ==> from.take(i)[j] == from[j]);
            }
            out.insert(key, step);
        }
    }
    assert(from.take(from.len() as int) =~= from);
    group.steps = out;
}

proof fn lemma_steps_named(steps: Seq<(Seq<char>, StepView)>, names: Seq<Seq<char>>, x: Seq<char>)
    ensures
        has_key(steps_named(steps, names), x) ==> has_key(steps, x),
    decreases steps.len(),
{
    if steps.len() > 0 {
        lemma_steps_named(steps.drop_last(), names, x);
        let before = steps_named(steps.drop_last(), names);
        assert(before.push(steps.last()).drop_last() =~= before);
    }
}

impl Hook {
    /// Whether an invocation checks or fixes.
    pub fn run_type(&self, opts: &HookOptions, settings: &Settings) -> (r: RunType)
        ensures
            r == chosen_run_type(self@, opts@, settings@),
    {
        if opts.check {
            return RunType::Check;
        }
        if opts.fix {
            return RunType::Fix;
        }
        if settings.check {
            return RunType::Check;
        }
        let fix = match self.fix {
            Some(fix) => fix,
            None => same(self.name.as_str(), "fix"),
        };
        if settings.fix && fix {
            RunType::Fix
        } else {
            RunType::Check
        }
    }

    /// The groups of steps that an invocation runs, one after the other.
    pub fn get_step_groups(&self, opts: &HookOptions) -> (r: Vec<StepGroup>)
        ensures
            crate::seqs::views(r@) == filled_groups(
                grouped(entries_named(self@.steps, opts@.step)),
            ),
    {
        let mut entries: Vec<StepOrGroup> = Vec::new();
        let n: usize = self.steps.len();
        assert(views(entries@) =~= entries_named(self@.steps.take(0), opts@.step));
        for i in 0..n
            invariant
                n == self.steps@.len(),
                views(entries@) == entries_named(self@.steps.take(i as int), opts@.step),
        {
            let entry = self.steps.value_at(i).dup();
            match entry {
                StepOrGroup::Step(step) => {
                    if opts.step.len() == 0 || list_has(&opts.step, step.name.as_str()) {
                        entries.push(StepOrGroup::Step(step));
                    }
                },
                StepOrGroup::Group(group) => {
                    let mut group = *group;
                    if opts.step.len() > 0 {
                        keep_named(&mut group, &opts.step);
                    }
                    entries.push(StepOrGroup::Group(Box::new(group)));
                },
            }
        }
        assert(self@.steps.take(n as int) =~= self@.steps);
        StepGroup::build_all(entries)
    }

    /// How the hook puts unstaged work aside, where the environment may say so.
    pub fn resolve_stash_method(&self, env_stash: Option<StashMethod>) -> (r: StashMethod)
        ensures
            r == stash_method(self@, env_stash),
    {
        if let Some(m) = env_stash {
            return m;
        }
        match self.stash {
            Some(StashSetting::Method(m)) => m,
            Some(StashSetting::Bool(b)) => if b {
                StashMethod::Git
            } else {
                StashMethod::Off
            },
            None => StashMethod::Off,
        }
    }

    /// How an invocation puts unstaged work aside.
    pub fn resolve_stash_method_for_opts(
        &self,
        opts: &HookOptions,
        env_stash: Option<StashMethod>,
    ) -> (r: StashMethod)
        ensures
            r == chosen_stash_method(self@, opts@, env_stash),
    {
        if opts.staged || opts.unstaged {
            StashMethod::Off
        } else if let Some(word) = &opts.stash {
            match StashMethod::parse(word.as_str()) {
                Some(m) => m,
                None => StashMethod::Off,
            }
        } else {
            self.resolve_stash_method(env_stash)
        }
    }

    /// Whether the hook runs on staged files where nothing else is asked for.
    pub fn defaults_to_staged_files(&self) -> (r: bool)
        ensures
            r == (self@.name == "pre-commit"@),
    {
        same(self.name.as_str(), "pre-commit")
    }
}

/// Checking is the safe choice: an invocation fixes only where a flag asks for
/// it, or the hook fixes and the settings allow it and do not ask for checks.
pub proof fn law_fixing_is_asked_for(hook: HookView, opts: HookOptionsView, settings: SettingsView)
    ensures
        chosen_run_type(hook, opts, settings) == RunType::Fix <==> !opts.check && (opts.fix || (
        !settings.check && settings.fix && (hook.fix == Some(true) || (hook.fix is None && hook.name
            == "fix"@)))),
{
}

/// An invocation on staged or on unstaged files never puts work aside.
pub proof fn law_explicit_selection_never_stashes(
    hook: HookView,
    opts: HookOptionsView,
    env: Option<StashMethod>,
)
    requires
        opts.staged || opts.unstaged,
    ensures
        chosen_stash_method(hook, opts, env) == StashMethod::Off,
{
}

/// Whether an entry that comes as JSON is a group, or why it is neither a group nor
/// a step: what it says of its type counts, but that what has steps is a group.
pub open spec fn group_by_type(json: JsonView) -> Result<bool, Seq<char>> {
    let has_steps = json.field("steps"@) is Some;
    match json.field("_type"@) {
        Some(JsonView::String(ty)) => if ty == "group"@ {
            Ok(true)
        } else if ty == "step"@ {
            Ok(has_steps)
        } else {
            Err("unknown step or group _type "@ + quoted_debug(ty))
        },
        Some(_) => Err("step or group _type must be a string"@),
        None => Ok(has_steps),
    }
}

/// What a result with a decision stands for.
pub open spec fn decision(r: Result<bool, String>) -> Result<bool, Seq<char>> {
    match r {
        Ok(b) => Ok(b),
        Err(e) => Err(e@),
    }
}

/// An entry as JSON with its type.
pub open spec fn with_type(json: JsonView, is_group: bool) -> Result<JsonView, Seq<char>> {
    match json {
        JsonView::Object(fields) => Ok(
            JsonView::Object(
                with_member(
                    fields,
                    "_type"@,
                    JsonView::String(if is_group {
                        "group"@
                    } else {
                        "step"@
                    }),
                ),
            ),
        ),
        _ => Err("step or group must serialize to an object"@),
    }
}

impl StepOrGroup {
    /// Whether an entry that comes as JSON is a group.
    pub fn is_group(json: &Json) -> (r: Result<bool, String>)
        ensures
            decision(r) == group_by_type(json@),
    {
        let has_steps = json.get("steps").is_some();
        match json.get("_type") {
            Some(Json::String(ty)) => {
                if same(ty.as_str(), "group") {
                    Ok(true)
                } else if same(ty.as_str(), "step") {
                    Ok(has_steps)
                } else {
                    let mut m = "unknown step or group _type ".to_owned();
                    m.append(debug_text(ty.as_str()).as_str());
                    Err(m)
                }
            },
            Some(_) => Err("step or group _type must be a string".to_owned()),
            None => Ok(has_steps),
        }
    }

    /// An entry as JSON with its type.
    pub fn add_type(json: Json, is_group: bool) -> (r: Result<Json, String>)
        ensures
            json_result(r) == with_type(json@, is_group),
    {
        broadcast use group_json;

        match json {
            Json::Object(fields) => {
                let mut fields = fields;
                let ty = if is_group {
                    "group".to_owned()
                } else {
                    "step".to_owned()
                };
                set_field(&mut fields, "_type", Json::String(ty));
                Ok(Json::Object(fields))
            },
            _ => Err("step or group must serialize to an object".to_owned()),
        }
    }
}

proof fn lemma_member_put(
    fields: Seq<(Seq<char>, JsonView)>,
    key: Seq<char>,
    value: JsonView,
    other: Seq<char>,
)
    ensures
        member(with_member(fields, key, value), other) == if other == key {
            Some(value)
        } else {
            member(fields, other)
        },
{
    let after = with_member(fields, key, value);
    lemma_field_index(fields, key);
    lemma_field_index(fields, other);
    lemma_field_index(after, other);
    let i = crate::json::field_index(fields, key);
    let j = crate::json::field_index(fields, other);
    let k = crate::json::field_index(after, other);
    if other == key {
        if i >= 0 {
            assert(after[i].0 == key);
            assert(k <= i);
            if k < i {
                assert(fields[k].0 == key);
            }
        } else {
            assert(after[fields.len() as int].0 == key);
            if k < fields.len() {
                assert(fields[k].0 == key);
            }
        }
    } else {
        if j >= 0 {
            assert(after[j].0 == other);
            assert(k <= j);
            if k < j {
                assert(fields[k].0 == other);
            }
        } else if k >= 0 {
            if k < fields.len() && k != i {
                assert(fields[k].0 == other);
            }
        }
    }
}

/// What is written with its type is read back as that: a group as a group, and what
/// has no steps, as a step does not, as a step.
pub proof fn law_types_read_back(json: JsonView, is_group: bool)
    requires
        json is Object,
        is_group || json.field("steps"@) is None,
    ensures
        with_type(json, is_group) is Ok,
        group_by_type(with_type(json, is_group)->Ok_0) == Ok::<bool, Seq<char>>(is_group),
{
    reveal_strlit("_type");
    reveal_strlit("steps");
    reveal_strlit("group");
    reveal_strlit("step");
    assert("_type"@[0] != "steps"@[0]);
    assert("group"@.len() != "step"@.len());
    let ty = JsonView::String(if is_group {
        "group"@
    } else {
        "step"@
    });
    lemma_member_put(json->Object_0, "_type"@, ty, "_type"@);
    lemma_member_put(json->Object_0, "_type"@, ty, "steps"@);
}

/// How work is put aside follows the first that speaks: the option of the invocation, the
/// environment, the hook. Where none does, no work is put aside.
pub proof fn law_the_first_word_on_stashing_counts(
    hook: HookView,
    opts: HookOptionsView,
    env: Option<StashMethod>,
)
    requires
        !opts.staged,
        !opts.unstaged,
    ensures
        opts.stash == Some("git"@) ==> chosen_stash_method(hook, opts, env) == StashMethod::Git,
        opts.stash == Some("patch-file"@) ==> chosen_stash_method(hook, opts, env)
            == StashMethod::PatchFile,
        opts.stash == Some("none"@) ==> chosen_stash_method(hook, opts, env) == StashMethod::Off,
        opts.stash is None && env is Some ==> chosen_stash_method(hook, opts, env) == env->0,
        opts.stash is None && env is None ==> chosen_stash_method(hook, opts, env) == (
        match hook.stash {
            Some(StashSetting::Method(m)) => m,
            Some(StashSetting::Bool(true)) => StashMethod::Git,
            _ => StashMethod::Off,
        }),
{
    reveal_strlit("git");
    reveal_strlit("true");
    reveal_strlit("1");
    reveal_strlit("patch-file");
    reveal_strlit("none");
    assert("git"@.len() == 3 && "true"@.len() == 4 && "1"@.len() == 1 && "patch-file"@.len() == 10
        && "none"@.len() == 4);
    assert("none"@[0] != "true"@[0]);
}

/// An invocation that names no steps runs all entries of a hook, as they are. One that
/// names steps runs those, and groups with no other steps left in them.
pub proof fn law_named_steps_run(
    entries: Seq<(Seq<char>, StepOrGroupView)>,
    names: Seq<Seq<char>>,
    step: StepView,
)
    ensures
        names.len() == 0 ==> entries_named(entries, names) == entries.map_values(
            |e: (Seq<char>, StepOrGroupView)| e.1,
        ),
        names.len() > 0 ==> (entries_named(entries, names).contains(StepOrGroupView::Step(step))
            <==> names.contains(step.name) && exists|i: int|
            0 <= i < entries.len() && (#[trigger] entries[i]).1 == StepOrGroupView::Step(step)),
    decreases entries.len(),
{
    let all = entries.map_values(|e: (Seq<char>, StepOrGroupView)| e.1);
    if entries.len() == 0 {
        assert(entries_named(entries, names) =~= all);
    } else {
        let init = entries.drop_last();
        law_named_steps_run(init, names, step);
        let before = entries_named(init, names);
        let now = entries_named(entries, names);
        if names.len() == 0 {
            assert(now =~= all);
        } else {
            let x = StepOrGroupView::Step(step);
            if now.len() > before.len() {
                crate::seqs::lemma_last_or_before(now, x);
                assert(now.drop_last() =~= before);
            }
            assert(entries[entries.len() - 1] == entries.last());
            if exists|i: int| 0 <= i < init.len() && (#[trigger] init[i]).1 == x {
                let i = choose|i: int| 0 <= i < init.len() && (#[trigger] init[i]).1 == x;
                assert(entries[i].1 == x);
            }
            if exists|i: int| 0 <= i < entries.len() && (#[trigger] entries[i]).1 == x {
                let i = choose|i: int| 0 <= i < entries.len() && (#[trigger] entries[i]).1 == x;
                if i < init.len() {
                    assert(init[i].1 == x);
                }
            }
        }
    }
}

/// Of a group, an invocation that names steps runs exactly those that it names.
pub proof fn law_groups_are_cut_to_the_named_steps(
    steps: Seq<(Seq<char>, StepView)>,
    names: Seq<Seq<char>>,
    entry: (Seq<char>, StepView),
)
    ensures
        steps_named(steps, names).contains(entry) <==> steps.contains(entry) && names.contains(
            entry.0,
        ),
    decreases steps.len(),
{
    if steps.len() > 0 {
        let init = steps.drop_last();
        law_groups_are_cut_to_the_named_steps(init, names, entry);
        crate::seqs::lemma_last_or_before(steps, entry);
        crate::seqs::lemma_pushed(steps_named(init, names), steps.last(), entry);
    }
}

/// Every group of a hook stays where steps are named, with its settings.
pub proof fn law_named_steps_keep_their_groups(
    entries: Seq<(Seq<char>, StepOrGroupView)>,
    names: Seq<Seq<char>>,
    i: int,
)
    requires
        0 <= i < entries.len(),
        entries[i].1 is Group,
        names.len() > 0,
    ensures
        entries_named(entries, names).contains(
            StepOrGroupView::Group(
                StepGroupView {
                    steps: steps_named(entries[i].1->Group_0.steps, names),
                    ..entries[i].1->Group_0
                },
            ),
        ),
    decreases entries.len(),
{
    let init = entries.drop_last();
    let before = entries_named(init, names);
    let now = entries_named(entries, names);
    let x = StepOrGroupView::Group(
        StepGroupView {
            steps: steps_named(entries[i].1->Group_0.steps, names),
            ..entries[i].1->Group_0
        },
    );
    if i < init.len() {
        assert(init[i] == entries[i]);
        law_named_steps_keep_their_groups(init, names, i);
    }
    if now.len() > before.len() {
        crate::seqs::lemma_last_or_before(now, x);
        assert(now.drop_last() =~= before);
    }
}

/// The entries of a hook have the names they stand under, and every variable of the hook
/// that they do not set themselves.
pub proof fn law_entries_are_initialized(
    hook: HookView,
    name: Seq<char>,
    i: int,
    variable: Seq<char>,
)
    requires
        0 <= i < hook.steps.len(),
        distinct(hook.env),
    ensures
        initialized_hook(hook, name).name == name,
        initialized_hook(hook, name).steps.len() == hook.steps.len(),
        initialized_hook(hook, name).steps[i].0 == hook.steps[i].0,
        hook.steps[i].1 is Step ==> ({
            let before = hook.steps[i].1->Step_0;
            let entry = initialized_hook(hook, name).steps[i].1;
            &&& entry is Step
            &&& entry->Step_0.name == hook.steps[i].0
            &&& entry->Step_0 == (StepView {
                name: hook.steps[i].0,
                env: entry->Step_0.env,
                ..before
            })
            &&& lookup(entry->Step_0.env, variable) == if has_key(before.env, variable) {
                lookup(before.env, variable)
            } else {
                lookup(hook.env, variable)
            }
        }),
{
    if hook.steps[i].1 is Step {
        crate::table::lemma_lookup_put_all_new(
            hook.steps[i].1->Step_0.env,
            hook.env,
            variable,
        );
    }
}

/// Reasons of different kinds have different names in settings.
pub proof fn law_reasons_have_names_of_their_own(a: SkipReasonView, b: SkipReasonView)
    requires
        a.key() == b.key(),
    ensures
        a is DisabledByEnv <==> b is DisabledByEnv,
        a is DisabledByCli <==> b is DisabledByCli,
        a is DisabledByConfig <==> b is DisabledByConfig,
        a is ProfileNotEnabled <==> b is ProfileNotEnabled,
        a is ProfileExplicitlyDisabled <==> b is ProfileExplicitlyDisabled,
        a is NoCommandForRunType <==> b is NoCommandForRunType,
        a is NoFilesToProcess <==> b is NoFilesToProcess,
        a is ConditionFalse <==> b is ConditionFalse,
        a is MissingRequiredEnv <==> b is MissingRequiredEnv,
{
    reveal_strlit("disabled-by-env");
    reveal_strlit("disabled-by-cli");
    reveal_strlit("disabled-by-config");
    reveal_strlit("profile-not-enabled");
    reveal_strlit("profile-explicitly-disabled");
    reveal_strlit("no-command-for-run-type");
    reveal_strlit("no-files-to-process");
    reveal_strlit("condition-false");
    reveal_strlit("missing-required-env");
    assert("disabled-by-env"@.len() == 15 && "disabled-by-cli"@.len() == 15
        && "disabled-by-config"@.len() == 18 && "profile-not-enabled"@.len() == 19
        && "profile-explicitly-disabled"@.len() == 27 && "no-command-for-run-type"@.len() == 23
        && "no-files-to-process"@.len() == 19 && "condition-false"@.len() == 15
        && "missing-required-env"@.len() == 20);
    assert("disabled-by-env"@[12] == 'e' && "disabled-by-cli"@[12] == 'c');
    assert("disabled-by-env"@[0] == 'd' && "disabled-by-cli"@[0] == 'd' && "condition-false"@[0]
        == 'c' && "profile-not-enabled"@[0] == 'p' && "no-files-to-process"@[0] == 'n');
}

/// What is said of a skipped step names what skipped it.
pub proof fn law_messages_name_the_cause(src: Seq<char>, list: Seq<Seq<char>>)
    ensures
        crate::text::has_text(SkipReasonView::DisabledByEnv(src).message(), src),
        crate::text::has_text(SkipReasonView::DisabledByCli(src).message(), src),
        crate::text::has_text(
            SkipReasonView::MissingRequiredEnv(list).message(),
            joined(list, ", "@),
        ),
        list.len() > 0 ==> crate::text::has_text(
            SkipReasonView::ProfileNotEnabled(list).message(),
            joined(list, ", "@),
        ),
{
    crate::text::lemma_two_stand("skipped: disabled via "@, src);
    crate::text::lemma_two_stand(
        "skipped: missing required environment variable(s): "@,
        joined(list, ", "@),
    );
    crate::text::lemma_five_stand(
        "skipped: profile"@,
        if list.len() > 1 {
            "s"@
        } else {
            ""@
        },
        " not enabled ("@,
        joined(list, ", "@),
        ")"@,
    );
}

} // verus!
