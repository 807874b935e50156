use hk::config::Config;
use hk::execution::count_unskipped;
use hk::files::{
    drop_directories, expanded_excludes, gather, is_zero_sha, keep_path, leave_out, looks_like_glob,
    normalize, strip_dot_slash, FileSource, PathKind, RepoFiles,
};
use hk::hook::{Hook, SkipReason, StashMethod};
use hk::hook_options::{split_files0, Dispatch, HookOptions};
use hk::hook_run::{
    has_work_to_stash, modified_files, PopFailure, RunAction, RunEvent, RunSetup, RunState, Selection, SkippedStep,
};
use hk::plan::{
    analyze_step, build_plan, count_files, plan_rows, skip_reason_to_reason, step_stat,
    worst_effect, Analysis, Findings, Job, Outcome, Reason, ReasonKind, StepCount, StepFacts,
    StepStatus,
};
use hk::preflight::{
    early_exit_steps, validate_safe_commands, IdleStep, PlannedCommands, StepCommand,
};
use hk::report::{profile_hint, shows_lock_hint, summarize, StepOutput, SummaryMode};
use hk::settings::Settings;
use hk::step::{CommandEffect, OutputSummary, RunType, Step};
use hk::step_group::StepGroup;
use hk::table::{NameSet, Table};

fn s(text: &str) -> String {
    text.to_string()
}

fn list(texts: &[&str]) -> Vec<String> {
    texts.iter().map(|t| s(t)).collect()
}

fn names(texts: &[&str]) -> NameSet {
    NameSet::of(&list(texts))
}

fn hook(name: &str) -> Hook {
    Hook { name: s(name), ..Default::default() }
}

fn step(name: &str) -> Step {
    Step { name: s(name), ..Default::default() }
}

#[test]
fn options_that_contradict_each_other_are_refused() {
    assert_eq!(HookOptions::default().validate(), Ok(()));
    let staged = HookOptions { staged: true, stash: Some(s("git")), ..Default::default() };
    assert_eq!(
        staged.validate(),
        Err(s("argument '--staged' cannot be used with '--stash <STASH>'"))
    );
    let unstaged = HookOptions { unstaged: true, stash: Some(s("git")), ..Default::default() };
    assert_eq!(
        unstaged.validate(),
        Err(s("argument '--unstaged' cannot be used with '--stash <STASH>'"))
    );
}

#[test]
fn file_lists_are_separated_by_zero_bytes() {
    assert_eq!(split_files0(b"a\0b c\0\0d"), Ok(list(&["a", "b c", "d"])));
    assert_eq!(split_files0(b""), Ok(vec![]));
    assert_eq!(
        split_files0(b"a\0\xFF\0"),
        Err(s("--files0-from contains a path that is not valid UTF-8"))
    );
    let mut opts = HookOptions { files0_from: Some(s("-")), ..Default::default() };
    assert!(opts.reads_file_list_from_stdin());
    opts.load_files0(b"x\0").unwrap();
    assert_eq!(opts.files, Some(list(&["x"])));
}

#[test]
fn stage_flags_are_optional() {
    assert_eq!(HookOptions::default().should_stage(), None);
    let stage = HookOptions { stage: true, ..Default::default() };
    assert_eq!(stage.should_stage(), Some(true));
    let no_stage = HookOptions { no_stage: true, ..Default::default() };
    assert_eq!(no_stage.should_stage(), Some(false));
}

#[test]
fn installed_hooks_are_silent_where_there_is_no_config() {
    let opts = HookOptions { from_hook: true, ..Default::default() };
    assert!(matches!(
        opts.before_config(false),
        Some(Dispatch::Noop(m)) if m == "no project configuration found for installed hook"
    ));
    assert!(opts.before_config(true).is_none());
    assert!(HookOptions::default().before_config(false).is_none());
    assert!(matches!(
        opts.dispatch("pre-push", &Config::default(), false),
        Dispatch::Noop(m) if m == "hook not defined in project configuration"
    ));
}

#[test]
fn hooks_are_found_or_suggested() {
    let mut config = Config::default();
    config.hooks.insert(s("pre-commit"), hook("pre-commit"));
    let opts = HookOptions::default();
    assert!(matches!(opts.dispatch("pre-commit", &config, false), Dispatch::Run));
    match opts.dispatch("pre-comit", &config, false) {
        Dispatch::Fail(m) => {
            assert!(m.starts_with("Hook 'pre-comit' not found. "), "{m}");
            assert!(m.contains("pre-commit"), "{m}");
        }
        _ => panic!("found a hook that is not there"),
    }
    assert!(matches!(
        opts.dispatch_with("x", &config, false, &None),
        Dispatch::Fail(m) if m == "Hook 'x' not found"
    ));
    let json = HookOptions { json: true, ..Default::default() };
    assert!(matches!(
        json.dispatch("pre-commit", &config, false),
        Dispatch::Fail(m) if m == "--json requires --plan or --why"
    ));
    let plan = HookOptions { plan: true, json: true, ..Default::default() };
    assert!(matches!(plan.dispatch("pre-commit", &config, false), Dispatch::Plan));
    let stats = HookOptions { stats: true, ..Default::default() };
    assert!(matches!(stats.dispatch("pre-commit", &config, false), Dispatch::Stats));
    config.hooks.insert(s("off"), Hook { enabled: false, ..hook("off") });
    let from_hook = HookOptions { from_hook: true, ..Default::default() };
    assert!(matches!(
        from_hook.dispatch("off", &config, false),
        Dispatch::Noop(m) if m == "hook disabled by configuration"
    ));
}

#[test]
fn branches_are_compared_with_the_default_branch() {
    let mut opts = HookOptions { pr: true, ..Default::default() };
    opts.resolve_pr(&None, &Some(s("develop")));
    assert_eq!(opts.from_ref.as_deref(), Some("develop"));
    assert_eq!(opts.to_ref.as_deref(), Some("HEAD"));
    let mut opts = HookOptions { pr: true, ..Default::default() };
    opts.resolve_pr(&Some(s("trunk")), &Some(s("develop")));
    assert_eq!(opts.from_ref.as_deref(), Some("trunk"));
    let mut opts = HookOptions { pr: true, ..Default::default() };
    opts.resolve_pr(&None, &None);
    assert_eq!(opts.from_ref.as_deref(), Some("main"));
}

#[test]
fn files_come_from_the_source_that_was_asked_for() {
    let check = hook("check");
    let all = HookOptions { all: true, ..Default::default() };
    assert!(matches!(check.file_source(&all, false), FileSource::All));
    let given = HookOptions { files: Some(list(&["a"])), ..Default::default() };
    assert!(matches!(check.file_source(&given, false), FileSource::Given));
    let deleted = HookOptions {
        from_ref: Some(s("main")),
        to_ref: Some(s("0000000000")),
        ..Default::default()
    };
    assert!(matches!(check.file_source(&deleted, false), FileSource::Nothing));
    assert!(matches!(
        check.file_source(&HookOptions::default(), true),
        FileSource::Staged
    ));
    assert!(matches!(
        check.file_source(&HookOptions::default(), false),
        FileSource::Modified
    ));
    assert!(is_zero_sha("000"));
    assert!(!is_zero_sha(""));
    assert!(!is_zero_sha("0a"));
}

fn repo() -> RepoFiles {
    RepoFiles {
        given: list(&["g"]),
        indexed: list(&["i"]),
        between: list(&["b"]),
        staged: list(&["s", "both"]),
        unstaged: list(&["u", "both"]),
        untracked: list(&["new"]),
        matched: list(&["new", "gone"]),
    }
}

#[test]
fn sources_are_gathered_without_doubles() {
    let repo = repo();
    assert_eq!(gather(&FileSource::Staged, &repo, false), vec!["s", "both"]);
    assert_eq!(gather(&FileSource::Given, &repo, false), vec!["g"]);
    assert_eq!(gather(&FileSource::Glob, &repo, false), vec!["new"]);
    assert!(gather(&FileSource::Glob, &repo, true).is_empty());
    let modified = gather(&FileSource::Modified, &repo, false);
    for file in ["s", "u", "both", "new"] {
        assert!(modified.contains(&s(file)), "{file}");
    }
    assert_eq!(modified.len(), 4);
    assert!(gather(&FileSource::Nothing, &repo, false).is_empty());
}

#[test]
fn paths_are_cleaned_before_they_are_used() {
    assert_eq!(strip_dot_slash("./a/b"), "a/b");
    assert_eq!(normalize(&list(&["b", "./a", "a", "a-b", "a/b"])), vec!["a", "a/b", "a-b", "b"]);
    assert!(keep_path(PathKind::BrokenLink));
    assert!(!keep_path(PathKind::LinkToDirectory));
    assert_eq!(
        drop_directories(&list(&["f", "d"]), &vec![PathKind::File, PathKind::Directory]),
        vec!["f"]
    );
    assert!(looks_like_glob("*.rs"));
    assert!(!looks_like_glob("src"));
    let settings = Settings { exclude: names(&["vendor"]), ..Default::default() };
    let excludes = expanded_excludes(&settings, &HookOptions::default());
    assert!(excludes.contains(&s("vendor")));
    assert!(excludes.contains(&s("vendor/**")));
    assert_eq!(leave_out(&list(&["a", "b"]), &list(&["a"])), vec!["b"]);
}

fn setup() -> RunSetup {
    RunSetup {
        skip_hook: false,
        total_steps: 2,
        group_count: 2,
        fail_fast: true,
        safe: false,
        stash: StashMethod::Git,
        fail_on_fix: false,
        stage: true,
    }
}

fn selection() -> RunEvent {
    RunEvent::FilesSelected(Selection { empty: false, noop_steps: None, refusal: Some(s("no")) })
}

#[test]
fn stashed_work_is_restored_after_a_failure() {
    let setup = setup();
    let (state, action) = setup.advance(RunState::Start, RunEvent::Begin);
    assert!(matches!(action, RunAction::ReportStarted));
    let (state, action) = setup.advance(state, RunEvent::Reported(None));
    assert!(matches!(action, RunAction::ReportPlanned));
    let (state, action) = setup.advance(state, RunEvent::Reported(None));
    assert!(matches!(action, RunAction::OpenRepo));
    let (state, action) = setup.advance(state, RunEvent::RepoOpened(None));
    assert!(matches!(action, RunAction::ReadStatus));
    let (state, action) = setup.advance(state, RunEvent::StatusRead(true, None));
    assert!(matches!(action, RunAction::SelectFiles));
    let (state, action) = setup.advance(state, selection());
    assert!(matches!(action, RunAction::Stash));
    let (state, action) = setup.advance(state, RunEvent::Stashed(None));
    assert!(matches!(action, RunAction::RunGroup(0)));
    let (state, action) = setup.advance(state, RunEvent::GroupRan(Some(s("lint failed"))));
    assert!(matches!(action, RunAction::PopStash(true)));
    let pop = || PopFailure { error: s("conflict"), backup: Some(s("/b")) };
    let (state, action) = setup.advance(state, RunEvent::StashPopped(Some(pop())));
    assert!(matches!(action, RunAction::ReportRun(Some(m)) if m == "lint failed"));
    let (state, action) = setup.advance(state, RunEvent::Reported(None));
    assert!(matches!(state, RunState::Done));
    assert!(matches!(action, RunAction::Fail(f) if f.message == "lint failed"));

    let (state, action) =
        setup.advance(RunState::Popping(None), RunEvent::StashPopped(Some(pop())));
    let message = "failed to restore stash (a backup of the stashed changes is at /b)";
    assert!(matches!(action, RunAction::ReportRun(Some(m)) if m == message));
    let (_, action) = setup.advance(state, RunEvent::Reported(None));
    assert!(matches!(
        action,
        RunAction::Fail(f) if f.message == message && f.cause.as_deref() == Some("conflict")
    ));
}

#[test]
fn all_groups_run_where_failures_may_wait() {
    let setup = RunSetup { fail_fast: false, stash: StashMethod::Off, ..setup() };
    let (state, action) = setup.advance(RunState::SelectingFiles(true), selection());
    assert!(matches!(action, RunAction::RunGroup(0)));
    let (state, action) = setup.advance(state, RunEvent::GroupRan(Some(s("first"))));
    assert!(matches!(action, RunAction::RunGroup(1)));
    let (state, _) = setup.advance(state, RunEvent::GroupRan(None));
    let (state, action) = setup.advance(state, RunEvent::StashPopped(None));
    assert!(matches!(action, RunAction::ReportRun(Some(m)) if m == "first"));
    let (_, action) = setup.advance(state, RunEvent::Reported(None));
    assert!(matches!(action, RunAction::Fail(_)));
}

#[test]
fn runs_without_work_have_no_effects() {
    let skipped = RunSetup { skip_hook: true, ..setup() };
    let (state, _) = skipped.advance(RunState::Start, RunEvent::Begin);
    let (_, action) = skipped.advance(state, RunEvent::Reported(None));
    assert!(matches!(
        action,
        RunAction::ReportNoop(m, steps) if m == "hook disabled by HK_SKIP_HOOK" && steps.is_empty()
    ));
    let empty = RunSetup { total_steps: 0, ..setup() };
    let (_, action) = empty.advance(RunState::OpeningRepo, RunEvent::RepoOpened(None));
    assert!(matches!(action, RunAction::ReportNoop(m, _) if m == "no configured steps"));
    let idle = Selection {
        empty: true,
        noop_steps: Some(vec![SkippedStep { name: s("lint"), reason: s("none") }]),
        refusal: None,
    };
    let (state, action) =
        setup().advance(RunState::SelectingFiles(true), RunEvent::FilesSelected(idle));
    assert!(matches!(action, RunAction::ReportNoop(m, steps) if m == "no matching files" && steps.len() == 1));
    let (_, action) = setup().advance(state, RunEvent::Reported(None));
    assert!(matches!(action, RunAction::Succeed));
}

#[test]
fn runs_that_cannot_be_announced_fail() {
    let (state, _) = setup().advance(RunState::Start, RunEvent::Begin);
    let (state, action) = setup().advance(state, RunEvent::Reported(Some(s("closed"))));
    assert!(matches!(state, RunState::Done));
    assert!(matches!(action, RunAction::Fail(f) if f.message == "closed"));
    assert!(has_work_to_stash(&list(&["a"]), &vec![], false));
    assert!(!has_work_to_stash(&vec![], &list(&["a"]), false));
    assert!(has_work_to_stash(&vec![], &list(&["a"]), true));
}

#[test]
fn refused_runs_start_nothing() {
    let safe = RunSetup { safe: true, ..setup() };
    let (state, action) = safe.advance(RunState::SelectingFiles(true), selection());
    assert!(matches!(action, RunAction::ReportError(m) if m == "no"));
    let (_, action) = safe.advance(state, RunEvent::Reported(Some(s("disk full"))));
    assert!(matches!(
        action,
        RunAction::Fail(f) if f.message == "safe command validation also failed: no"
            && f.cause.as_deref() == Some("disk full")
    ));
    let (_, action) = setup().advance(RunState::OpeningRepo, RunEvent::RepoOpened(Some(s("no git"))));
    assert!(matches!(action, RunAction::ReportError(m) if m == "no git"));
}

#[test]
fn fixers_that_change_files_can_fail_a_run() {
    let setup = RunSetup { fail_on_fix: true, stash: StashMethod::Off, group_count: 1, ..setup() };
    let (state, action) = setup.advance(RunState::SelectingFiles(false), selection());
    assert!(matches!(action, RunAction::Snapshot));
    let (state, action) = setup.advance(state, RunEvent::SnapshotTaken);
    assert!(matches!(action, RunAction::RunGroup(0)));
    let (state, action) = setup.advance(state, RunEvent::GroupRan(None));
    assert!(matches!(action, RunAction::CompareFiles));
    let (state, _) = setup.advance(state, RunEvent::FilesCompared(true));
    let (_, action) = setup.advance(state, RunEvent::StashPopped(None));
    assert!(matches!(
        action,
        RunAction::ReportRun(Some(m)) if m == "fail_on_fix: files were modified by fix commands"
    ));
    let before = vec![(s("a"), 1), (s("b"), 2), (s("c"), 3)];
    assert_eq!(modified_files(&before, &vec![Some(1), Some(9), None]), vec!["b", "c"]);
    let mut fixing = hook("fix");
    fixing.fail_on_fix = true;
    let (opts, settings) = (HookOptions::default(), Settings::default());
    assert!(!fixing.stages(&opts, &settings, RunType::Fix));
    assert!(Hook::fails_fast(&opts, &settings));
}

fn job(files: &[&str]) -> Job {
    Job { files: list(files), skip_reason: None }
}

#[test]
fn safe_runs_refuse_unknown_effects() {
    let commands = |effect| {
        vec![PlannedCommands {
            step: s("lint"),
            jobs: vec![job(&["a"])],
            commands: vec![StepCommand { field: s("fix"), effect }],
        }]
    };
    assert_eq!(validate_safe_commands(&commands(Some(CommandEffect::Write))), Ok(()));
    assert_eq!(
        validate_safe_commands(&commands(None)),
        Err(s("--safe refused to run:\n  lint.fix: effect is unknown"))
    );
    assert_eq!(
        validate_safe_commands(&commands(Some(CommandEffect::Destructive))),
        Err(s("--safe refused to run:\n  lint.fix: effect is destructive"))
    );
}

#[test]
fn runs_end_early_where_every_step_is_skipped() {
    let skipped = Job { files: vec![], skip_reason: Some(SkipReason::NoFilesToProcess) };
    let idle = vec![IdleStep { name: s("a"), has_condition: false, jobs: Some(vec![skipped]) }];
    assert_eq!(early_exit_steps(&idle).map(|steps| steps.len()), Some(1));
    let conditional = vec![IdleStep { name: s("a"), has_condition: true, jobs: None }];
    assert!(early_exit_steps(&conditional).is_none());
}

fn findings(jobs: Vec<Job>) -> Findings {
    Findings {
        step_outcome: Outcome::Other,
        jobs: Ok(jobs),
        job_outcome: Outcome::Other,
        profile_skip: None,
    }
}

#[test]
fn analyses_say_why() {
    let included = analyze_step(&step("a"), &findings(vec![job(&["x", "y"])]), &vec![]);
    assert_eq!(included.status, StepStatus::Included);
    assert_eq!(included.file_count, Some(2));
    assert_eq!(included.reasons[0].detail.as_deref(), Some("2 files matched"));
    let named = analyze_step(&step("a"), &findings(vec![job(&["x"])]), &list(&["a"]));
    assert!(named
        .reasons
        .iter()
        .any(|r| r.detail.as_deref() == Some("explicitly included via --step a")));
    let failed = Findings { jobs: Err(s("no glob")), ..findings(vec![]) };
    let skipped = analyze_step(&step("a"), &failed, &vec![]);
    assert_eq!(skipped.status, StepStatus::Skipped);
    assert_eq!(
        skipped.reasons[0].detail.as_deref(),
        Some("failed to plan step: no glob")
    );
    let conditional = Step { step_condition: Some(s("x")), ..step("a") };
    let off = Findings { step_outcome: Outcome::False, ..findings(vec![]) };
    let skipped = analyze_step(&conditional, &off, &vec![]);
    assert_eq!(skipped.reasons[0].kind, ReasonKind::ConditionFalse);
    assert_eq!(
        skipped.reasons[0].detail.as_deref(),
        Some("step_condition evaluated to false: x")
    );
    assert_eq!(count_files(&vec![job(&["x"]), job(&["y", "z"])]), 3);
}

#[test]
fn skip_reasons_become_plan_reasons() {
    let reason = skip_reason_to_reason(&SkipReason::NoCommandForRunType(RunType::Fix));
    assert_eq!(reason.kind, ReasonKind::NoCommand);
    assert_eq!(
        reason.detail.as_deref(),
        Some("no command defined for run type: fix")
    );
    assert!(reason.kind.is_skip());
    assert!(!ReasonKind::FilterMatch.is_skip());
    assert_eq!(
        worst_effect(&vec![Some(CommandEffect::Read), Some(CommandEffect::Write)]),
        Some(CommandEffect::Write)
    );
    assert_eq!(
        worst_effect(&vec![Some(CommandEffect::Read), None]),
        Some(CommandEffect::Read)
    );
    assert_eq!(worst_effect(&vec![None]), None);
}

fn facts(status: StepStatus) -> StepFacts {
    StepFacts {
        analysis: Analysis {
            status,
            reasons: vec![
                Reason { kind: ReasonKind::FilterMatch, detail: Some(s("1 file matched")) },
                Reason { kind: ReasonKind::CliInclude, detail: None },
            ],
            file_count: Some(1),
        },
        effects: vec![Some(CommandEffect::Read)],
    }
}

#[test]
fn plans_list_steps_in_order_and_can_be_focused() {
    let mut steps = Table::new();
    steps.insert(s("a"), step("a"));
    steps.insert(s("b"), Step { depends: list(&["a"]), ..step("b") });
    let groups = vec![StepGroup { steps, ..Default::default() }];
    let facts = vec![vec![facts(StepStatus::Included), facts(StepStatus::Included)]];
    let plan = build_plan("check", RunType::Check, list(&["slow"]), &groups, &facts);
    assert_eq!(plan.run_type, "check");
    assert_eq!(plan.steps.len(), 2);
    assert_eq!(plan.steps[1].name, "b");
    assert_eq!(plan.steps[1].order_index, 1);
    assert_eq!(plan.steps[1].depends_on, vec!["a"]);
    assert_eq!(plan.steps[0].parallel_group_id.as_deref(), Some("group_0"));
    assert_eq!(plan.groups[0].step_ids, vec!["a", "b"]);
    assert_eq!(plan.steps[0].effect, Some(CommandEffect::Read));
    let rows = plan_rows(&plan, &None);
    assert_eq!(rows.len(), 2);
    assert!(rows[0].included && rows[0].group_heading.is_some());
    assert!(rows[1].group_heading.is_none());
    let focused = plan.focus(&Some(s("b")));
    assert_eq!(focused.steps.len(), 1);
    assert_eq!(focused.steps[0].name, "b");
}

#[test]
fn statistics_say_why_a_step_is_skipped() {
    let count = |has_command| StepCount { has_command, profile_skip: None, files: 4 };
    let skips = Table::new();
    let counted = step_stat("a", &skips, RunType::Check, &count(true));
    assert_eq!(counted.files, 4);
    assert!(counted.skip_reason.is_none());
    let none = step_stat("a", &skips, RunType::Check, &count(false));
    assert!(matches!(
        none.skip_reason,
        Some(SkipReason::NoCommandForRunType(RunType::Check))
    ));
}

fn mode() -> SummaryMode {
    SummaryMode { machine: false, silent: false, quiet: false, text_mode: false, force: false }
}

#[test]
fn failures_are_shown_where_other_output_is_not() {
    let mut steps = Table::new();
    steps.insert(s("good"), step("good"));
    steps.insert(s("bad"), step("bad"));
    let groups = vec![StepGroup { steps, ..Default::default() }];
    let mut outputs = Table::new();
    for name in ["good", "bad"] {
        outputs.insert(s(name), StepOutput { mode: OutputSummary::Stderr, text: s("text\n") });
    }
    let none = NameSet::new();
    let shown = |mode: SummaryMode| {
        let blocks = summarize(&mode, &outputs, &Table::new(), &groups, &names(&["bad"]), &none);
        blocks.into_iter().map(|b| b.step).collect::<Vec<_>>()
    };
    assert_eq!(shown(mode()), vec!["good", "bad"]);
    assert_eq!(shown(SummaryMode { quiet: true, ..mode() }), vec!["bad"]);
    assert_eq!(shown(SummaryMode { text_mode: true, ..mode() }), vec!["bad"]);
    assert_eq!(
        shown(SummaryMode { text_mode: true, force: true, ..mode() }),
        vec!["good", "bad"]
    );
    assert!(shown(SummaryMode { machine: true, ..mode() }).is_empty());
    assert!(shows_lock_hint(false, false, true));
    assert!(!shows_lock_hint(true, false, true));
}

#[test]
fn missing_profiles_are_hinted_at() {
    let mut skipped = Table::new();
    skipped.insert(s("a"), SkipReason::ProfileNotEnabled(list(&["slow"])));
    let settings = Settings { warnings: names(&["missing-profiles"]), ..Default::default() };
    let hint = profile_hint("pre-commit", false, &settings, &skipped).unwrap();
    assert_eq!(hint.headline, "1 step was skipped due to missing profiles: slow");
    assert_eq!(hint.env, "HK_PROFILE=slow");
    assert_eq!(hint.flag, "--slow");
    assert!(hint.from_branch);
    assert!(profile_hint("check", true, &settings, &skipped).is_none());
    assert!(profile_hint("check", false, &Settings::default(), &skipped).is_none());
}

#[test]
fn runs_are_set_up_from_hook_options_and_settings() {
    let mut group = StepGroup::default();
    group.steps.insert(s("a"), step("a"));
    group.steps.insert(s("b"), step("b"));
    let hook = Hook { fail_on_fix: true, ..hook("pre-commit") };
    let opts = HookOptions { safe: true, no_fail_fast: true, ..Default::default() };
    let mut settings = Settings::default();
    settings.skip_hooks.insert(s("pre-commit"));
    settings.fail_fast = true;
    let groups = vec![group];
    let fixing =
        RunSetup::new(&hook, &opts, &settings, &groups, StashMethod::Git, RunType::Fix);
    assert!(fixing.skip_hook && fixing.safe && fixing.fail_on_fix);
    assert!(!fixing.fail_fast && !fixing.stage);
    assert_eq!((fixing.total_steps, fixing.group_count), (2, 1));
    assert_eq!(fixing.stash, StashMethod::Git);
    let checking =
        RunSetup::new(&hook, &opts, &settings, &groups, StashMethod::Off, RunType::Check);
    assert!(!checking.fail_on_fix && checking.stage);
    let (_, action) = checking.advance(RunState::RunningGroup(0, None), RunEvent::GroupRan(None));
    assert!(matches!(action, RunAction::PopStash(true)));
    let (_, action) = RunSetup { fail_on_fix: false, ..fixing }
        .advance(RunState::RunningGroup(0, None), RunEvent::GroupRan(None));
    assert!(matches!(action, RunAction::PopStash(false)));
}

#[test]
fn skipped_jobs_do_not_count() {
    let job = |skip_reason| Job { files: vec![], skip_reason };
    let jobs = vec![job(None), job(Some(SkipReason::NoFilesToProcess)), job(None)];
    assert_eq!(count_unskipped(&jobs), 2);
}
