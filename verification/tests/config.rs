use hk::config::{
    validate_step, Config, StringOrList, UserConfig, UserDefaults, UserHookConfig, UserStepConfig,
};
use hk::hook::{Hook, StashMethod, StashSetting, StepOrGroup};
use hk::project::{LoadedSubproject, UserSettings};
use hk::step::{Command, Pattern, Script, Selector, Step};
use hk::step_group::StepGroup;
use hk::table::Table;

fn s(text: &str) -> String {
    text.to_string()
}

fn step(name: &str) -> Step {
    Step { name: name.to_string(), ..Default::default() }
}

fn hook(name: &str) -> Hook {
    Hook { name: name.to_string(), ..Default::default() }
}

fn entry(step: Step) -> StepOrGroup {
    StepOrGroup::Step(Box::new(step))
}

fn vars(pairs: &[(&str, &str)]) -> Table<String> {
    let mut table = Table::new();
    for (key, value) in pairs {
        table.insert(s(key), s(value));
    }
    table
}

fn hook_of<'a>(config: &'a Config, name: &str) -> &'a Hook {
    match config.hooks.get(name) {
        Some(hook) => hook,
        None => panic!("no hook {name}"),
    }
}

fn step_of<'a>(hook: &'a Hook, name: &str) -> &'a Step {
    match hook.steps.get(name) {
        Some(StepOrGroup::Step(step)) => step,
        _ => panic!("expected step"),
    }
}

fn var<'a>(step: &'a Step, name: &str) -> Option<&'a str> {
    step.env.get(name).map(|v| v.as_str())
}

fn hook_names(config: &Config) -> Vec<String> {
    (0..config.hooks.len()).map(|i| config.hooks.key_at(i).clone()).collect()
}

#[test]
fn top_level_steps_create_default_hooks_with_explicit_overrides() {
    let mut config = Config::default();
    config.steps.insert(s("shared"), entry(step("shared")));
    let mut check = hook("check");
    check.steps.insert(
        s("shared"),
        entry(Step { env: vars(&[("SOURCE", "explicit")]), ..Default::default() }),
    );
    config.hooks.insert(s("check"), check);

    config.materialize_default_hooks();

    assert_eq!(hook_names(&config), ["check", "fix", "pre-commit"]);
    let check = hook_of(&config, "check");
    assert_eq!(var(step_of(check, "shared"), "SOURCE"), Some("explicit"));
    assert_eq!(check.fix, Some(false));
    assert_eq!(check.stage, None);
    assert_eq!(hook_of(&config, "fix").fix, Some(true));
    assert_eq!(hook_of(&config, "fix").stage, None);
    assert_eq!(hook_of(&config, "pre-commit").fix, Some(true));
    assert_eq!(hook_of(&config, "pre-commit").stage, None);
    assert_eq!(
        hook_of(&config, "pre-commit").stash,
        Some(StashSetting::Method(StashMethod::Git))
    );
}

#[test]
fn implicit_root_dir_scopes_materialized_top_level_steps() {
    let mut config = Config { path: s("/tmp/repo/packages/web/hk.pkl"), ..Default::default() };
    config.steps.insert(s("lint"), entry(step("lint")));

    let subdir = Config::implicit_root_dir(&config.path, &Some(s("/tmp/repo")));
    config.apply_implicit_root_dir(subdir.as_deref());

    for hook_name in ["check", "fix", "pre-commit"] {
        let lint = step_of(hook_of(&config, hook_name), "lint");
        assert_eq!(lint.dir.as_deref(), Some("packages/web"));
    }
}

#[test]
fn hkrc_top_level_steps_are_additive_and_project_wins() {
    let mut project = Config::default();
    project.steps.insert(
        s("shared"),
        entry(Step { env: vars(&[("SOURCE", "project")]), ..Default::default() }),
    );
    let mut user = Config::default();
    user.steps.insert(s("shared"), entry(step("user")));
    user.steps.insert(s("user-only"), entry(step("user-only")));
    let mut user_check = hook("check");
    user_check.steps.insert(
        s("shared"),
        entry(Step { env: vars(&[("SOURCE", "user-hook")]), ..Default::default() }),
    );
    user.hooks.insert(s("check"), user_check);

    project.materialize_default_hooks();
    user.materialize_default_hooks();
    project.merge_from_hkrc(user);

    let check = hook_of(&project, "check");
    assert_eq!(var(step_of(check, "shared"), "SOURCE"), Some("project"));
    assert!(check.steps.contains_key("user-only"));
}

#[test]
fn hkrc_disabled_hook_does_not_add_steps_to_enabled_project_hook() {
    let mut project = Config::default();
    let mut project_check = hook("check");
    project_check.steps.insert(s("project"), entry(step("project")));
    project.hooks.insert(s("check"), project_check);

    let mut user = Config::default();
    let mut user_check = hook("check");
    user_check.enabled = false;
    user_check.steps.insert(s("user"), entry(step("user")));
    user.hooks.insert(s("check"), user_check);

    project.merge_from_hkrc(user);

    let check = hook_of(&project, "check");
    assert!(check.enabled);
    assert!(check.steps.contains_key("project"));
    assert!(!check.steps.contains_key("user"));
}

#[test]
fn merge_subproject_scopes_flat_steps() {
    let mut root = Config::default();
    let mut sub = Config::default();
    sub.env.insert(s("FOO"), s("from-config"));

    let mut hook = hook("check");
    let lint = Step { depends: vec![s("fmt"), s("external")], ..step("lint") };
    let mut fmt = Step { dir: Some(s("nested")), ..step("fmt") };
    fmt.env.insert(s("FOO"), s("from-step"));
    hook.steps.insert(s("lint"), entry(lint));
    hook.steps.insert(s("fmt"), entry(fmt));
    sub.hooks.insert(s("check"), hook);

    root.merge_subproject("packages/web", None, sub).unwrap();

    let hook = hook_of(&root, "check");
    let lint = step_of(hook, "packages/web:lint");
    assert_eq!(lint.name, "packages/web:lint");
    assert_eq!(lint.dir.as_deref(), Some("packages/web"));
    assert_eq!(lint.depends, vec![s("packages/web:fmt"), s("external")]);
    assert_eq!(var(lint, "FOO"), Some("from-config"));

    let fmt = step_of(hook, "packages/web:fmt");
    assert_eq!(fmt.dir.as_deref(), Some("packages/web/nested"));
    assert_eq!(var(fmt, "FOO"), Some("from-step"));
}

#[test]
fn merge_subproject_materializes_top_level_steps() {
    let mut root = Config::default();
    let mut sub = Config::default();
    sub.steps.insert(s("lint"), entry(step("lint")));

    root.merge_subproject("packages/web", None, sub).unwrap();

    for hook_name in ["check", "fix", "pre-commit"] {
        let lint = step_of(hook_of(&root, hook_name), "packages/web:lint");
        assert_eq!(lint.dir.as_deref(), Some("packages/web"));
        assert!(root.implicit_default_hooks.contains(hook_name));
    }
    assert_eq!(hook_of(&root, "check").fix, Some(false));
    assert_eq!(hook_of(&root, "check").stage, None);
    assert_eq!(hook_of(&root, "fix").fix, Some(true));
    assert_eq!(hook_of(&root, "fix").stage, None);
    assert_eq!(hook_of(&root, "pre-commit").fix, Some(true));
    assert_eq!(hook_of(&root, "pre-commit").stage, None);
    assert_eq!(
        hook_of(&root, "pre-commit").stash,
        Some(StashSetting::Method(StashMethod::Git))
    );
}

#[test]
fn subproject_hook_settings_are_ignored_before_root_hook_materialization() {
    let mut root = Config::default();
    root.steps.insert(s("root"), entry(step("root")));

    let mut sub = Config::default();
    sub.path = s("packages/web/hk.pkl");
    let mut sub_check = hook("check");
    sub_check.fix = Some(true);
    sub_check.stage = Some(true);
    sub_check.stash = Some(StashSetting::Method(StashMethod::Git));
    sub_check.fail_on_fix = true;
    sub_check.report = Some(Script { text: s("echo report") });
    sub_check.steps.insert(s("sub"), entry(step("sub")));
    sub.hooks.insert(s("check"), sub_check);

    root.merge_subproject("packages/web", None, sub).unwrap();
    root.materialize_default_hooks();

    let check = hook_of(&root, "check");
    assert_eq!(check.fix, Some(false));
    assert_eq!(check.stage, None);
    assert_eq!(check.stash, None);
    assert!(!check.fail_on_fix);
    assert!(check.report.is_none());
    assert!(check.steps.contains_key("root"));
    assert!(check.steps.contains_key("packages/web:sub"));
}

#[test]
fn rematerializing_does_not_apply_root_hook_env_to_subproject_steps() {
    let mut root = Config::default();
    root.steps.insert(s("root"), entry(step("root")));
    let mut root_check = hook("check");
    root_check.env.insert(s("ROOT_ONLY"), s("root"));
    root.hooks.insert(s("check"), root_check);
    root.materialize_default_hooks();

    let mut sub = Config::default();
    sub.env.insert(s("SUB_ONLY"), s("subproject"));
    sub.steps.insert(s("lint"), entry(step("lint")));
    root.merge_subproject("packages/web", None, sub).unwrap();

    root.materialize_default_hooks();

    let lint = step_of(hook_of(&root, "check"), "packages/web:lint");
    assert_eq!(var(lint, "SUB_ONLY"), Some("subproject"));
    assert!(!lint.env.contains_key("ROOT_ONLY"));
}

#[test]
fn merge_subproject_scopes_dirs_under_root_offset_but_not_names() {
    let mut root = Config::default();
    let mut sub = Config::default();
    let mut hook = hook("check");
    hook.steps.insert(s("lint"), entry(step("lint")));
    sub.hooks.insert(s("check"), hook);

    root.merge_subproject("api", Some("packages/web"), sub).unwrap();

    let lint = step_of(hook_of(&root, "check"), "api:lint");
    assert_eq!(lint.name, "api:lint");
    assert_eq!(lint.dir.as_deref(), Some("packages/web/api"));
}

#[test]
fn merge_subproject_scopes_groups() {
    let mut root = Config::default();
    root.hooks.insert(s("check"), hook("check"));

    let mut sub = Config::default();
    let mut sub_hook = hook("check");
    let mut group = StepGroup {
        name: Some(s("build")),
        dir: Some(s("ui")),
        ..Default::default()
    };
    let ts = Step { dir: Some(s("ui")), ..step("ts") };
    let tsc = Step { depends: vec![s("ts")], ..step("tsc") };
    group.steps.insert(s("ts"), ts);
    group.steps.insert(s("tsc"), tsc);
    sub_hook.steps.insert(s("build"), StepOrGroup::Group(Box::new(group)));
    sub.hooks.insert(s("check"), sub_hook);

    root.merge_subproject("sub", None, sub).unwrap();

    let group = match hook_of(&root, "check").steps.get("sub:build") {
        Some(StepOrGroup::Group(group)) => group,
        _ => panic!("expected group"),
    };
    assert_eq!(group.name.as_deref(), Some("sub:build"));
    assert_eq!(group.dir.as_deref(), Some("sub/ui"));
    let ts = group.steps.get("ts").unwrap();
    assert_eq!(ts.name, "ts");
    assert_eq!(ts.dir.as_deref(), Some("sub/ui"));
    let tsc = group.steps.get("tsc").unwrap();
    assert_eq!(tsc.depends, vec!["ts".to_string()]);
}

#[test]
fn merge_subproject_duplicate_name_errors() {
    let mut root = Config::default();
    let mut root_hook = hook("check");
    root_hook.steps.insert(s("sub:lint"), entry(step("sub:lint")));
    root.hooks.insert(s("check"), root_hook);

    let mut sub = Config::default();
    let mut sub_hook = hook("check");
    sub_hook.steps.insert(s("lint"), entry(step("lint")));
    sub.hooks.insert(s("check"), sub_hook);

    let err = root.merge_subproject("sub", None, sub).unwrap_err();
    assert!(err.to_string().contains("duplicate step name 'sub:lint'"));
}

#[test]
fn merge_subproject_ignores_disabled_hooks() {
    let mut root = Config::default();
    let mut sub = Config::default();
    let mut disabled = hook("pre-commit");
    disabled.enabled = false;
    disabled.steps.insert(s("lint"), entry(step("lint")));
    sub.hooks.insert(s("pre-commit"), disabled);

    root.merge_subproject("sub", None, sub).unwrap();

    assert!(!root.hooks.contains_key("pre-commit"));
}

#[test]
fn join_subdir_handles_nested_and_empty() {
    assert_eq!(Config::join_subdir("sub", None), "sub");
    assert_eq!(Config::join_subdir("sub", Some("")), "sub");
    assert_eq!(Config::join_subdir("sub", Some(".")), "sub");
    assert_eq!(Config::join_subdir("sub", Some("ui")), "sub/ui");
}

fn user_defaults() -> UserDefaults {
    UserDefaults {
        jobs: None,
        fail_fast: None,
        profiles: None,
        all: None,
        fix: None,
        check: None,
        exclude: None,
        skip_steps: None,
        skip_hooks: None,
    }
}

#[test]
fn hkrc_variables_do_not_replace_those_of_the_project() {
    let mut project = Config::default();
    project.env.insert(s("A"), s("project"));
    let mut user = Config::default();
    user.env.insert(s("A"), s("user"));
    user.env.insert(s("B"), s("user"));
    let exported = project.merge_from_hkrc(user);
    assert_eq!(exported, vec![(s("B"), s("user"))]);
    assert_eq!(project.env.get("A").map(|v| v.as_str()), Some("project"));
    assert_eq!(project.env.get("B").map(|v| v.as_str()), Some("user"));
}

#[test]
fn legacy_user_settings_reach_hooks_and_steps() {
    let mut config = Config::default();
    let mut check = hook("check");
    check.steps.insert(s("lint"), entry(step("lint")));
    config.hooks.insert(s("check"), check);
    let mut steps = Table::new();
    steps.insert(
        s("lint"),
        UserStepConfig {
            environment: vars(&[("X", "step")]),
            fail_fast: None,
            profiles: Some(vec![s("slow")]),
            all: None,
            fix: None,
            check: None,
            glob: Some(Pattern::Globs(vec![s("*.rs")])),
            exclude: None,
        },
    );
    let mut hooks = Table::new();
    hooks.insert(
        s("check"),
        UserHookConfig {
            environment: vars(&[("Y", "hook")]),
            jobs: None,
            fail_fast: None,
            profiles: None,
            all: None,
            fix: None,
            check: None,
            steps,
        },
    );
    let user = UserConfig {
        environment: vars(&[("Z", "all")]),
        defaults: user_defaults(),
        hooks,
        display_skip_reasons: Some(vec![s("all")]),
        hide_warnings: None,
        warnings: None,
        stage: Some(false),
    };
    let exported = config.apply_hkrc(Some(UserSettings::Legacy(user)));
    assert_eq!(exported, vec![(s("Z"), s("all"))]);
    assert_eq!(config.display_skip_reasons, Some(vec![s("all")]));
    assert_eq!(config.stage, Some(false));
    let lint = step_of(hook_of(&config, "check"), "lint");
    assert_eq!(var(lint, "X"), Some("step"));
    assert_eq!(lint.profiles, Some(vec![s("slow")]));
    assert!(matches!(&lint.glob, Some(Pattern::Globs(g)) if g == &vec![s("*.rs")]));
}

#[test]
fn excluded_paths_come_as_text_or_list() {
    assert_eq!(StringOrList::String(s("a")).into_list(), vec!["a"]);
    assert_eq!(StringOrList::List(vec![s("a"), s("b")]).into_list(), vec!["a", "b"]);
}

#[test]
fn steps_with_empty_selectors_are_faulty() {
    assert_eq!(validate_step(&step("fine"), "fine", "hook check"), Ok(()));
    let bare = Selector { glob: None, types: None };
    let faulty = Step { match_any: Some(vec![bare]), ..step("bad") };
    let error = validate_step(&faulty, "bad", "hook 'check'").unwrap_err();
    assert!(error.contains("bad"), "{error}");

    let mut config = Config::default();
    let mut check = hook("check");
    check.steps.insert(s("bad"), entry(faulty));
    config.hooks.insert(s("check"), check);
    assert!(config.validate().is_err());
}

#[test]
fn initializing_names_the_hooks_and_exports_the_variables() {
    let mut config = Config::default();
    config.env.insert(s("A"), s("1"));
    let mut check = hook("");
    check.env.insert(s("FROM_HOOK"), s("yes"));
    check.steps.insert(s("lint"), entry(step("")));
    config.hooks.insert(s("check"), check);
    assert_eq!(config.init("/repo/hk.pkl", true), Ok(vec![(s("A"), s("1"))]));
    assert_eq!(config.path, "/repo/hk.pkl");
    let check = hook_of(&config, "check");
    assert_eq!(check.name, "check");
    assert_eq!(step_of(check, "lint").name, "lint");
    assert_eq!(var(step_of(check, "lint"), "FROM_HOOK"), Some("yes"));
    assert_eq!(config.init("/repo/hk.pkl", false), Ok(vec![]));
}

#[test]
fn a_config_can_ask_for_a_later_version() {
    let mut config = Config { min_hk_version: Some(s("99.0.0")), ..Default::default() };
    assert_eq!(
        config.init("hk.pkl", true),
        Err(s("hk version 2.0.0 is less than the minimum required version 99.0.0"))
    );
    config.min_hk_version = Some(s("1.0.0"));
    assert_eq!(config.init("hk.pkl", true), Ok(vec![]));
}

#[test]
fn loading_merges_subprojects_and_user_settings_and_validates() {
    let mut project = Config::default();
    project.steps.insert(s("root"), entry(step("root")));
    let mut sub = Config::default();
    sub.steps.insert(s("lint"), entry(step("lint")));
    let mut user = Config::default();
    user.steps.insert(s("mine"), entry(step("mine")));
    user.env.insert(s("U"), s("1"));
    let subs = vec![LoadedSubproject {
        dir: s("web"),
        config_path: s("web/hk.pkl"),
        config: sub,
    }];
    let (config, exported) =
        match Config::load(project, &None, subs, Some(UserSettings::Config(user))) {
            Ok(loaded) => loaded,
            Err(e) => panic!("{e}"),
        };
    assert_eq!(exported, vec![(s("U"), s("1"))]);
    let check = hook_of(&config, "check");
    for name in ["web:lint", "root", "mine"] {
        assert!(check.steps.contains_key(name), "{name}");
    }
}

#[test]
fn a_subproject_that_cannot_be_merged_is_named() {
    let mut project = Config::default();
    let mut check = hook("check");
    check.steps.insert(s("sub:lint"), entry(step("sub:lint")));
    project.hooks.insert(s("check"), check);
    let mut sub = Config::default();
    let mut sub_check = hook("check");
    sub_check.steps.insert(s("lint"), entry(step("lint")));
    sub.hooks.insert(s("check"), sub_check);
    let subs = vec![LoadedSubproject {
        dir: s("sub"),
        config_path: s("sub/hk.pkl"),
        config: sub,
    }];
    let error = match Config::load(project, &None, subs, None) {
        Ok(_) => panic!("merged"),
        Err(e) => e,
    };
    assert!(error.starts_with("failed to merge subproject config: sub/hk.pkl: "));
}

#[test]
fn a_project_without_config_gets_an_empty_one() {
    let config = Config::load_project_config(None, &None, "hk.local.pkl");
    assert_eq!(config.path, "hk.local.pkl");
    assert_eq!(config.hooks.len(), 0);
    let mut found = Config::default();
    found.steps.insert(
        s("lint"),
        entry(Step {
            check: Some(Command::Script(Script { text: s("true") })),
            ..step("lint")
        }),
    );
    let config = Config::load_project_config(Some(found), &Some(s("web")), "hk.pkl");
    assert_eq!(
        step_of(hook_of(&config, "fix"), "lint").dir.as_deref(),
        Some("web")
    );
}
