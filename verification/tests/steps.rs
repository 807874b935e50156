use hk::execution::{
    classify, filter_staged, keeps_permit, push_stage_globs, stage_candidates, stage_globs,
    stages_job_files, step_begins, step_ends, ExprValue, FirstCheck, JobAction, JobEvent, JobSetup,
    JobState, StepAction, StepEnding, StepEvent, StepSetup, StepState,
};
use hk::hook::{
    build_skip_steps, Hook, SkipReason, StashMethod, StashSetting, StepOrGroup,
};
use hk::hook_context::{count_steps, HookContext};
use hk::hook_options::HookOptions;
use hk::json::Json;
use hk::settings::Settings;
use hk::step::{
    AllowFailure, ArgvCommand, Command, CommandEffect, CommandPrefix, OutputSummary, Pattern,
    RunType, Script, Step,
};
use hk::step_group::{end_step, GroupProgress, StepError, StepGroup};
use hk::table::{NameSet, Table};

fn s(text: &str) -> String {
    text.to_string()
}

fn list(texts: &[&str]) -> Vec<String> {
    texts.iter().map(|t| s(t)).collect()
}

fn names(texts: &[&str]) -> NameSet {
    NameSet::of(&list(texts))
}

fn script(text: &str) -> Command {
    Command::Script(Script { text: s(text) })
}

fn step(name: &str) -> Step {
    Step { name: s(name), ..Default::default() }
}

fn entry(step: Step) -> StepOrGroup {
    StepOrGroup::Step(Box::new(step))
}

fn is_shell(prefix: &Option<CommandPrefix>, text: &str) -> bool {
    matches!(prefix, Some(CommandPrefix::Shell(t)) if t == text)
}

fn is_globs(pattern: &Option<Pattern>, texts: &[&str]) -> bool {
    matches!(pattern, Some(Pattern::Globs(g)) if g == &list(texts))
}

#[test]
fn init_inherits_group_fields_without_merging_child_overrides() {
    let mut inherited_step = Step::default();
    inherited_step.check = Some(script("echo inherited"));
    inherited_step.exclude = Some(Pattern::Globs(vec![]));

    let mut override_step = Step::default();
    override_step.check = Some(script("echo override"));
    override_step.dir = Some(s("different/path"));
    override_step.prefix = Some(CommandPrefix::Shell(s("npm exec --")));
    override_step.workspace_indicator = Some(s("eslint.config.js"));
    override_step.shell = Some(Script { text: s("zsh -o errexit -c") });
    override_step.stage = Some(list(&["eslint-output/**"]));
    override_step.exclude = Some(Pattern::Globs(list(&["**/*.fixture.js"])));

    let mut steps = Table::new();
    steps.insert(s("prettier"), inherited_step);
    steps.insert(s("eslint"), override_step);
    let mut group = StepGroup {
        dir: Some(s("packages/frontend")),
        prefix: Some(CommandPrefix::Shell(s("mise x --"))),
        workspace_indicator: Some(s("package.json")),
        shell: Some(Script { text: s("bash -o errexit -c") }),
        stage: Some(list(&["dist/**"])),
        exclude: Some(Pattern::Globs(list(&["**/*.snap"]))),
        steps,
        ..Default::default()
    };

    group.init("frontend");

    let prettier = group.steps.get("prettier").unwrap();
    assert_eq!(prettier.dir.as_deref(), Some("packages/frontend"));
    assert!(is_shell(&prettier.prefix, "mise x --"));
    assert_eq!(prettier.workspace_indicator.as_deref(), Some("package.json"));
    assert_eq!(
        prettier.shell.as_ref().map(|s| s.text.as_str()),
        Some("bash -o errexit -c")
    );
    assert_eq!(prettier.stage, Some(list(&["dist/**"])));
    assert!(is_globs(&prettier.exclude, &["**/*.snap"]));

    let eslint = group.steps.get("eslint").unwrap();
    assert_eq!(eslint.dir.as_deref(), Some("different/path"));
    assert!(is_shell(&eslint.prefix, "npm exec --"));
    assert_eq!(eslint.workspace_indicator.as_deref(), Some("eslint.config.js"));
    assert_eq!(
        eslint.shell.as_ref().map(|s| s.text.as_str()),
        Some("zsh -o errexit -c")
    );
    assert_eq!(eslint.stage, Some(list(&["eslint-output/**"])));
    assert!(is_globs(&eslint.exclude, &["**/*.fixture.js"]));
}

#[test]
fn init_inherits_argv_prefix_for_structured_command() {
    let step = Step {
        check: Some(Command::Argv(ArgvCommand { argv: list(&["ruff", "check"]) })),
        ..Default::default()
    };
    let mut steps = Table::new();
    steps.insert(s("ruff"), step);
    let mut group = StepGroup {
        prefix: Some(CommandPrefix::Argv(list(&["mise", "x", "--"]))),
        steps,
        ..Default::default()
    };

    group.init("python");

    let ruff = group.steps.get("ruff").unwrap();
    assert!(matches!(
        &ruff.prefix,
        Some(CommandPrefix::Argv(argv)) if argv == &list(&["mise", "x", "--"])
    ));
}

fn object(fields: Vec<(&str, Json)>) -> Json {
    Json::Object(fields.into_iter().map(|(k, v)| (s(k), v)).collect())
}

fn text(t: &str) -> Json {
    Json::String(s(t))
}

#[test]
fn step_or_group_serializes_flat_step_for_cache_round_trip() {
    let original = object(vec![("_type", text("step")), ("check", text("echo ok"))]);
    assert_eq!(StepOrGroup::is_group(&original), Ok(false));

    let check = Script::from_json(original.get("check").unwrap()).unwrap();
    let stored = object(vec![("check", check.to_json())]);
    let serialized = match StepOrGroup::add_type(stored, false) {
        Ok(json) => json,
        Err(e) => panic!("{e}"),
    };
    assert_eq!(serialized.get_str("_type"), Some("step"));
    assert_eq!(serialized.get("check").unwrap().get_str("other"), Some("echo ok"));

    assert_eq!(StepOrGroup::is_group(&serialized), Ok(false));
    let round_trip = Script::from_json(serialized.get("check").unwrap());
    assert_eq!(round_trip.unwrap().text, "echo ok");
}

#[test]
fn step_or_group_serializes_flat_group_for_cache_round_trip() {
    let echo = object(vec![("check", text("echo ok"))]);
    let original = object(vec![
        ("_type", text("group")),
        ("steps", object(vec![("echo", echo)])),
    ]);
    assert_eq!(StepOrGroup::is_group(&original), Ok(true));

    let echo = original.get("steps").and_then(|steps| steps.get("echo")).unwrap();
    let check = Script::from_json(echo.get("check").unwrap()).unwrap();
    let echo = object(vec![("check", check.to_json())]);
    let stored = object(vec![("steps", object(vec![("echo", echo)]))]);
    let serialized = match StepOrGroup::add_type(stored, true) {
        Ok(json) => json,
        Err(e) => panic!("{e}"),
    };
    assert_eq!(serialized.get_str("_type"), Some("group"));
    let echo = serialized.get("steps").and_then(|steps| steps.get("echo")).unwrap();
    assert_eq!(echo.get("check").unwrap().get_str("other"), Some("echo ok"));

    assert_eq!(StepOrGroup::is_group(&serialized), Ok(true));
    assert!(serialized.get("steps").and_then(|steps| steps.get("echo")).is_some());
}

#[test]
fn step_or_group_rejects_unknown_type_even_with_steps() {
    let value = object(vec![("_type", text("grup")), ("steps", object(vec![]))]);
    let err = StepOrGroup::is_group(&value).unwrap_err();
    assert!(err.contains("unknown step or group _type \"grup\""));
}

#[test]
fn step_or_group_rejects_non_string_type_even_with_steps() {
    let value = object(vec![("_type", Json::Bool(true)), ("steps", object(vec![]))]);
    let err = StepOrGroup::is_group(&value).unwrap_err();
    assert!(err.contains("_type must be a string"));
    assert!(matches!(
        StepOrGroup::add_type(Json::Null, true),
        Err(e) if e == "step or group must serialize to an object"
    ));
}

#[test]
fn step_or_group_infers_untagged_object_with_steps_as_group() {
    let value = object(vec![("steps", object(vec![]))]);
    assert_eq!(StepOrGroup::is_group(&value), Ok(true));
    assert_eq!(StepOrGroup::is_group(&object(vec![])), Ok(false));
}

#[test]
fn step_or_group_treats_step_tag_with_steps_as_group() {
    let echo = object(vec![("check", text("echo ok"))]);
    let value = object(vec![
        ("_type", text("step")),
        ("steps", object(vec![("echo", echo)])),
    ]);
    assert_eq!(StepOrGroup::is_group(&value), Ok(true));
}

fn group_names(groups: &[StepGroup]) -> Vec<Vec<String>> {
    groups
        .iter()
        .map(|g| (0..g.steps.len()).map(|i| g.steps.key_at(i).clone()).collect())
        .collect()
}

#[test]
fn exclusive_steps_stand_in_groups_of_their_own() {
    let entries = vec![
        entry(step("a")),
        entry(step("b")),
        entry(Step { exclusive: true, ..step("c") }),
        entry(step("d")),
    ];
    let groups = StepGroup::build_all(entries);
    assert_eq!(
        group_names(&groups),
        vec![list(&["a", "b"]), list(&["c"]), list(&["d"])]
    );
    assert_eq!(count_steps(&groups), 4);
}

#[test]
fn files_of_several_fixers_are_in_contention() {
    let mut steps = Table::new();
    for name in ["a", "b"] {
        steps.insert(
            s(name),
            Step { fix: Some(script("fix")), check_first: true, ..step(name) },
        );
    }
    let group = StepGroup { steps, ..Default::default() };
    let matched = vec![list(&["x", "y"]), list(&["y", "z"])];
    assert!(group.has_check_first());
    assert_eq!(
        group.files_in_contention_for(&matched, RunType::Fix).to_list(),
        vec!["y"]
    );
}

#[test]
fn allowed_failures_do_not_reach_the_group() {
    let failed = || Some(StepError { message: s("exit 1"), command_failure: true });
    let allowed = end_step(failed(), Ok(true), true);
    assert!(allowed.failure_allowed);
    assert_eq!(allowed.error, None);
    let counted = end_step(failed(), Ok(false), true);
    assert!(!counted.failure_allowed);
    assert_eq!(counted.error.as_deref(), Some("exit 1"));
    let broken = end_step(
        Some(StepError { message: s("no shell"), command_failure: false }),
        Ok(true),
        true,
    );
    assert_eq!(broken.error.as_deref(), Some("no shell"));
    assert_eq!(end_step(None, Ok(false), true).error, None);

    assert!(matches!(
        StepGroup::join_step(vec![], Some(s("e")), true),
        GroupProgress::Abort(e) if e == "e"
    ));
    assert!(matches!(
        StepGroup::join_step(vec![], Some(s("e")), false),
        GroupProgress::Wait(errors) if errors == list(&["e"])
    ));
    assert!(matches!(
        StepGroup::join_step(vec![], None, true),
        GroupProgress::Wait(errors) if errors.is_empty()
    ));
}

#[test]
fn expressions_can_allow_failures() {
    let by_expression = Step { allow_failure: AllowFailure::Expression(s("x")), ..step("lint") };
    assert_eq!(by_expression.failure_is_allowed(Ok(ExprValue::Bool(true))), Ok(true));
    assert_eq!(
        by_expression.failure_is_allowed(Ok(ExprValue::Other)),
        Err(s("lint: allow_failure expression must evaluate to a boolean"))
    );
    assert_eq!(
        by_expression.failure_is_allowed(Err(s("bad"))),
        Err(s("bad"))
    );
    let always = Step { allow_failure: AllowFailure::Bool(true), ..step("lint") };
    assert_eq!(always.failure_is_allowed(Ok(ExprValue::Other)), Ok(true));
}

#[test]
fn permits_are_kept_while_nothing_is_awaited() {
    assert!(keeps_permit(true, &vec![true, true]));
    assert!(!keeps_permit(true, &vec![true, false]));
    assert!(!keeps_permit(false, &vec![]));
}

fn setup(run_type: RunType) -> JobSetup {
    JobSetup {
        skipped: false,
        check_first: true,
        run_type,
        first_check: FirstCheck::ListFiles,
        check_failed_files: false,
        check_after_diff: false,
    }
}

#[test]
fn a_passing_first_check_saves_the_command() {
    let setup = setup(RunType::Fix);
    let (state, action) = setup.advance(JobState::Start(list(&["a", "b"])), JobEvent::Begin);
    assert!(matches!(&action, JobAction::Check(f) if f == &list(&["a", "b"])));
    let (_, action) = setup.advance(state, JobEvent::CheckPassed);
    assert!(matches!(action, JobAction::Succeed(_)));
}

#[test]
fn files_that_fail_the_first_check_are_fixed() {
    let setup = setup(RunType::Fix);
    let (state, _) = setup.advance(JobState::Start(list(&["a", "b"])), JobEvent::Begin);
    let (_, action) = setup.advance(
        state,
        JobEvent::CheckListed(list(&["b"]), s("b is bad")),
    );
    assert!(matches!(action, JobAction::Run(f) if f == list(&["b"])));
    let skipped = JobSetup { skipped: true, ..setup };
    let (_, action) = skipped.advance(JobState::Start(list(&["a"])), JobEvent::Begin);
    assert!(matches!(action, JobAction::Skip));
}

#[test]
fn steps_stage_only_after_fixing() {
    let after = |cancelled: bool, running: usize, files: &[&str], run_type: RunType| {
        let setup = StepSetup { has_condition: false, run_type };
        let outcomes = vec![Ok(list(files))];
        setup.advance(StepState::Running(running), StepEvent::Ended(outcomes, cancelled))
    };
    assert!(matches!(after(true, 1, &["a"], RunType::Fix).1, StepAction::Abort));
    assert!(matches!(after(false, 0, &["a"], RunType::Fix).1, StepAction::Leave));
    let (state, action) = after(false, 1, &["a"], RunType::Fix);
    assert_eq!(state, StepState::Staging);
    assert!(matches!(action, StepAction::Stage(files) if files == list(&["a"])));
    assert!(matches!(after(false, 1, &[], RunType::Fix).1, StepAction::Finish));
    assert!(matches!(after(false, 1, &["a"], RunType::Check).1, StepAction::Finish));
    assert!(stages_job_files(&Some(list(&["<JOB_FILES>"]))));
    assert!(!stages_job_files(&Some(list(&["dist/**"]))));
}

#[test]
fn stage_patterns_never_turn_staging_on() {
    let fixer = Step { fix: Some(script("fix")), ..step("a") };
    assert_eq!(fixer.effective_stage(true), Some(list(&["<JOB_FILES>"])));
    assert_eq!(fixer.effective_stage(false), None);
    let own = Step { stage: Some(list(&["dist/**"])), ..step("a") };
    assert_eq!(own.effective_stage(true), Some(list(&["dist/**"])));
    assert_eq!(own.effective_stage(false), None);
    assert_eq!(step("a").effective_stage(true), None);
}

#[test]
fn stage_patterns_follow_the_directory() {
    let mut globs = vec![];
    push_stage_globs(&mut globs, &list(&["web"]), "dist/**");
    assert_eq!(globs, vec!["web/dist/**"]);
    let globs = stage_globs(&list(&["**/*.js"]), &list(&["."]));
    assert_eq!(globs, vec!["**/*.js", "*.js"]);
}

#[test]
fn only_files_that_changed_are_staged() {
    let untracked = list(&["new.js"]);
    let unstaged = list(&["a.js"]);
    let candidates = list(&["a.js", "b.js", "new.js", "old.js"]);
    let staged = filter_staged(&candidates, &untracked, &unstaged, &names(&[]), false);
    assert_eq!(staged, vec!["a.js", "new.js"]);
    let kept = filter_staged(&candidates, &untracked, &unstaged, &names(&["new.js"]), false);
    assert!(kept.contains(&s("a.js")));
    let (added, created) = classify(&staged, &untracked);
    assert_eq!(added, vec!["a.js"]);
    assert_eq!(created, vec!["new.js"]);
    let all = stage_candidates(
        &names(&["a.js"]),
        &list(&["<JOB_FILES>"]),
        &names(&["a.js"]),
        &untracked,
        &unstaged,
    );
    assert!(all.contains("a.js"));
}

#[test]
fn steps_are_skipped_by_the_strongest_source() {
    let settings = Settings { skip_steps: names(&["a", "b", "c"]), ..Default::default() };
    let opts = HookOptions { skip_step: list(&["a"]), ..Default::default() };
    let skipped = build_skip_steps(&names(&["a", "b"]), &settings, &opts);
    assert_eq!(skipped.get("a").unwrap().message(), "skipped: disabled via --skip-step a");
    assert_eq!(skipped.get("b").unwrap().message(), "skipped: disabled via HK_SKIP_STEPS");
    assert_eq!(skipped.get("c").unwrap().key(), "disabled-by-config");
    assert!(skipped.get("d").is_none());
    let shown = SkipReason::ProfileNotEnabled(list(&["slow", "ci"]));
    assert_eq!(shown.message(), "skipped: profiles not enabled (slow, ci)");
    assert!(shown.should_display(&Settings::default()));
    assert!(!SkipReason::ConditionFalse.should_display(&Settings::default()));
}

fn hook(name: &str) -> Hook {
    Hook { name: s(name), ..Default::default() }
}

#[test]
fn fixing_is_asked_for() {
    let opts = HookOptions::default();
    let settings = Settings::default();
    assert_eq!(hook("check").run_type(&opts, &settings), RunType::Check);
    assert_eq!(hook("fix").run_type(&opts, &settings), RunType::Fix);
    let fixing = HookOptions { fix: true, ..Default::default() };
    assert_eq!(hook("check").run_type(&fixing, &settings), RunType::Fix);
    let checking = HookOptions { check: true, ..Default::default() };
    assert_eq!(hook("fix").run_type(&checking, &settings), RunType::Check);
}

#[test]
fn selected_steps_are_the_only_ones_in_groups() {
    let mut check = hook("check");
    check.steps.insert(s("a"), entry(step("a")));
    check.steps.insert(s("b"), entry(step("b")));
    let all = check.get_step_groups(&HookOptions::default());
    assert_eq!(group_names(&all), vec![list(&["a", "b"])]);
    let opts = HookOptions { step: list(&["b"]), ..Default::default() };
    assert_eq!(group_names(&check.get_step_groups(&opts)), vec![list(&["b"])]);
}

#[test]
fn explicit_selections_are_not_stashed() {
    let mut pre_commit = hook("pre-commit");
    pre_commit.stash = Some(StashSetting::Method(StashMethod::Git));
    let opts = HookOptions::default();
    assert_eq!(pre_commit.resolve_stash_method_for_opts(&opts, None), StashMethod::Git);
    let staged = HookOptions { staged: true, ..Default::default() };
    assert_eq!(
        pre_commit.resolve_stash_method_for_opts(&staged, None),
        StashMethod::Off
    );
    assert_eq!(
        pre_commit.resolve_stash_method(Some(StashMethod::PatchFile)),
        StashMethod::PatchFile
    );
    assert_eq!(StashMethod::parse("1"), Some(StashMethod::Git));
    assert_eq!(StashMethod::parse("none"), Some(StashMethod::Off));
    assert_eq!(StashMethod::parse("other"), None);
    assert!(pre_commit.defaults_to_staged_files());
    assert!(!hook("check").defaults_to_staged_files());
}

#[test]
fn contexts_keep_the_account_of_a_run() {
    let mut steps = Table::new();
    steps.insert(s("lint"), step("lint"));
    let groups = vec![StepGroup { steps, ..Default::default() }];
    let mut ctx = HookContext::new(
        names(&["a"]),
        &groups,
        RunType::Fix,
        Table::new(),
        true,
        names(&["u"]),
    );
    assert_eq!(ctx.total_jobs, 1);
    ctx.inc_total_jobs(2);
    ctx.inc_completed_jobs(1);
    ctx.dec_total_jobs(1);
    assert_eq!((ctx.total_jobs, ctx.completed_jobs), (2, 1));
    ctx.count_jobs(3);
    assert_eq!(ctx.total_jobs, 4);
    ctx.count_jobs(0);
    assert_eq!(ctx.total_jobs, 3);
    ctx.add_files(&list(&["b"]), &list(&["c"]));
    assert_eq!(ctx.files(), vec!["a", "b", "c"]);
    ctx.append_step_output("lint", OutputSummary::Stderr, "one\n");
    ctx.append_step_output("lint", OutputSummary::Stderr, "two\n");
    assert!(ctx.output_by_step.get("lint").unwrap().text.starts_with("one\n"));
    assert!(ctx.output_by_step.get("lint").unwrap().text.ends_with("two\n"));
    ctx.append_diagnostic_output("lint", "d");
    assert_eq!(ctx.diagnostic_output_by_step.get("lint").unwrap(), "d");
    ctx.record_step_effect("lint", "fix", Some(CommandEffect::Write));
    ctx.record_step_effect("lint", "fix", Some(CommandEffect::Write));
    assert_eq!(ctx.command_effects_by_step.get("lint").unwrap().records.len(), 1);
    ctx.track_skip("other", SkipReason::ConditionFalse);
    assert_eq!(ctx.get_skipped_steps().len(), 1);
    ctx.mark_step_failed("lint");
    ctx.mark_step_failed("lint");
    assert_eq!(ctx.failed_steps.to_list(), vec!["lint"]);
    ctx.mark_step_failure_allowed("lint");
    ctx.mark_step_finished("lint");
    ctx.mark_step_cancelled("late");
    assert!(ctx.cancelled_steps.contains("late"));
    ctx.add_fix_suggestion(s("hk fix"));
    assert_eq!(ctx.take_fix_suggestions(), vec!["hk fix"]);
    assert!(!ctx.saw_git_index_lock_contention());
    ctx.mark_git_index_lock_contention();
    assert!(ctx.saw_git_index_lock_contention());
}

#[test]
fn conditions_gate_steps() {
    assert_eq!(step_begins(None), Ok(true));
    assert_eq!(step_begins(Some(Ok(ExprValue::Bool(true)))), Ok(true));
    assert_eq!(step_begins(Some(Ok(ExprValue::Other))), Ok(true));
    assert_eq!(step_begins(Some(Ok(ExprValue::Bool(false)))), Ok(false));
    assert_eq!(step_begins(Some(Err(s("bad")))), Err(s("bad")));

    let setup = StepSetup { has_condition: true, run_type: RunType::Fix };
    let (state, action) = setup.advance(StepState::Start, StepEvent::Begin);
    assert!(matches!(action, StepAction::Wait));
    let (state, action) = setup.advance(state, StepEvent::Waited(None));
    assert!(matches!(action, StepAction::Evaluate));
    let (skipped, action) =
        setup.advance(state, StepEvent::Evaluated(Ok(ExprValue::Bool(false))));
    assert!(matches!(action, StepAction::Skip));
    assert_eq!(skipped, StepState::Done);
    let (_, action) = setup.advance(skipped, StepEvent::Built(Ok(1)));
    assert!(matches!(action, StepAction::Nothing));
    let (_, action) = setup.advance(state, StepEvent::Evaluated(Err(s("bad"))));
    assert!(matches!(action, StepAction::Fail(e) if e == "bad"));
    let (state, action) = setup.advance(state, StepEvent::Evaluated(Ok(ExprValue::Other)));
    assert!(matches!(action, StepAction::Build));
    let (state, action) = setup.advance(state, StepEvent::Built(Ok(2)));
    assert!(matches!(action, StepAction::RunJobs));
    assert_eq!(state, StepState::Running(2));
    let (_, action) = setup.advance(StepState::Staging, StepEvent::Staged(Some(s("full"))));
    assert!(matches!(action, StepAction::Fail(e) if e == "full"));
    let (_, action) = setup.advance(StepState::Staging, StepEvent::Staged(None));
    assert!(matches!(action, StepAction::Finish));
}

#[test]
fn steps_fail_with_the_first_error_of_a_job() {
    let outcomes = vec![Ok(list(&["a"])), Err(s("first")), Err(s("second"))];
    assert!(matches!(step_ends(&outcomes, RunType::Fix), StepEnding::Fail(e) if e == "first"));
    let outcomes = vec![Ok(list(&["a", "b"])), Ok(list(&["b", "c"]))];
    assert!(matches!(
        step_ends(&outcomes, RunType::Fix),
        StepEnding::Stage(files) if files == list(&["a", "b", "c"])
    ));
    assert!(matches!(step_ends(&outcomes, RunType::Check), StepEnding::NothingToStage));
    assert!(matches!(step_ends(&vec![Ok(vec![])], RunType::Fix), StepEnding::NothingToStage));
    let setup = StepSetup { has_condition: false, run_type: RunType::Fix };
    let (_, action) = setup.advance(
        StepState::Running(2),
        StepEvent::Ended(vec![Ok(list(&["a"])), Err(s("broken"))], true),
    );
    assert!(matches!(action, StepAction::Fail(e) if e == "broken"));
}

#[test]
fn groups_end_with_the_errors_of_their_steps() {
    assert_eq!(GroupProgress::Wait(vec![]).end(), Ok(()));
    let errors = match StepGroup::join_step(list(&["first"]), Some(s("second")), false) {
        GroupProgress::Wait(errors) => errors,
        GroupProgress::Abort(e) => panic!("{e}"),
    };
    assert_eq!(GroupProgress::Wait(errors).end(), Err(list(&["second", "first"])));
    assert_eq!(GroupProgress::Abort(s("fatal")).end(), Err(list(&["fatal"])));
}

#[test]
fn exclusive_steps_run_alone_between_groups() {
    let mut group = StepGroup::default();
    group.steps.insert(s("in"), step("in"));
    let alone = Step { exclusive: true, ..step("alone") };
    let entries = vec![
        StepOrGroup::Group(Box::new(group)),
        entry(step("a")),
        entry(alone),
        entry(step("b")),
    ];
    let built: Vec<Vec<String>> = StepGroup::build_all(entries)
        .iter()
        .map(|g| (0..g.steps.len()).map(|i| g.steps.key_at(i).clone()).collect())
        .collect();
    assert_eq!(built, vec![list(&["in", "a"]), list(&["alone"]), list(&["b"])]);
}

#[test]
fn ends_of_jobs_have_an_outcome() {
    assert_eq!(JobAction::Skip.outcome(s("m")), Some(Ok(vec![])));
    assert_eq!(JobAction::Succeed(list(&["a"])).outcome(s("m")), Some(Ok(list(&["a"]))));
    assert_eq!(JobAction::Fail(s("e")).outcome(s("m")), Some(Err(s("e"))));
    assert_eq!(JobAction::FailMismatch.outcome(s("m")), Some(Err(s("m"))));
    assert_eq!(JobAction::ApplyDiff.outcome(s("m")), None);
    let (state, _) = setup(RunType::Fix).advance(
        JobState::Running(0, 1, false, vec![]),
        JobEvent::BatchRan(list(&["a"]), true, Some(s("broken"))),
    );
    assert!(matches!(state, JobState::Done));
}
