use hk::command_effects::{effect_of, effects, unclassified};
use hk::config::Config;
use hk::env::{arg_max, check_pkl_backend};
use hk::hook::Hook;
use hk::init::{
    builtin_options, default_hooks, generate_default_template, generate_pkl, option_label,
    pick_builtins, pick_hooks, BuiltinMeta, Detection, Init,
};
use hk::install::{
    check_hooks_path_config, cleaned_message, config_hook, find_config_entries, git_failed,
    git_hook_content, global_hook_events, has_global_hk_hooks, hk_hook_command, hook_events,
    hook_run_args, is_hk_script, local_hook_command, mise_hook_command, nothing_to_install_message,
    shell_quote_path, warn_if_global_overlap, Install, InstallMode,
};
use hk::runtime::{
    exit_code, is_bare_builtins_invocation, output_file_content, output_file_hint,
    runtime_worker_threads, write_builtins, WriteOutcome,
};
use hk::step::CommandEffect;
use std::collections::HashSet;

fn s(text: &str) -> String {
    text.to_string()
}

fn meta(name: &str) -> BuiltinMeta {
    BuiltinMeta { name: s(name), category: s("cat"), description: s("what it does") }
}

#[test]
fn derived_spec_carries_effects() {
    for (path, effect) in effects() {
        assert_eq!(effect_of(path), Some(effect), "wrong effect for `hk {path}`");
    }
    assert_eq!(effect_of("check"), None);
    assert_eq!(effect_of("fix"), None);
    assert_eq!(effect_of("uninstall"), Some(CommandEffect::Destructive));
}

#[test]
fn classifications_are_not_duplicated() {
    let mut seen = HashSet::new();
    let names = effects()
        .into_iter()
        .map(|(n, _)| n)
        .chain(unclassified().into_iter().map(|(n, _)| n));
    for name in names {
        assert!(seen.insert(name), "{name} is classified twice");
    }
}

#[test]
fn test_generate_pkl_empty() {
    let hooks = vec![];
    let pkl = generate_pkl(&[], &hooks, "1.34.0");
    assert!(pkl.contains("amends"));
    assert!(pkl.contains("hooks"));
    assert!(pkl.contains("[\"pre-commit\"]"));
    assert!(pkl.contains("enabled = false"));
}

#[test]
fn test_generate_pkl_with_builtins() {
    let builtins = vec![meta("prettier")];
    let hooks = vec!["pre-commit".to_string()];
    let pkl = generate_pkl(&builtins, &hooks, "1.34.0");

    assert!(pkl.contains("Builtins.prettier"));
    assert!(pkl.contains("steps = linters"));
    assert!(!pkl.contains("hooks {"));
}

#[test]
fn test_generate_pkl_with_builtin_options() {
    let pkl = generate_pkl(&[meta("gitleaks")], &["pre-commit".to_string()], "1.34.0");

    assert!(pkl.contains("Builtins.gitleaks"));
}

#[test]
fn test_default_template() {
    let template = generate_default_template("1.34.0");
    assert!(template.contains("v1.34.0"));
    assert!(template.contains("// Add linters here"));
}

#[test]
fn test_agent_docs_link_follows_imports() {
    let version = "test-version";
    let expected = format!(
        "import \"package://github.com/jdx/hk/releases/download/v{version}/hk@{version}#/Builtins.pkl\"\n// Using a coding agent? See https://hk.jdx.dev/agents"
    );
    assert!(generate_pkl(&[], &[], version).contains(&expected));
    assert!(generate_default_template(version).contains(&expected));
}

#[test]
fn other_hooks_get_blocks_of_their_own() {
    let pkl = generate_pkl(&[meta("ruff")], &[s("pre-commit"), s("pre-push")], "1.0.0");
    assert!(pkl.contains("hooks {"));
    assert!(pkl.contains("[\"pre-push\"]"));
}

#[test]
fn init_options_decide_what_is_written() {
    let plain = Init { force: false, interactive: false, mise: false };
    let forced = Init { force: true, interactive: false, mise: true };
    assert!(plain.writes_config(false));
    assert!(!plain.writes_config(true));
    assert!(forced.writes_config(true));
    assert!(!plain.writes_mise(false, false));
    assert!(plain.writes_mise(true, false));
    assert!(!plain.writes_mise(true, true));
    assert!(forced.writes_mise(false, true));
    assert!(Init::mise_toml().contains("hk = \"latest\""));
}

#[test]
fn detections_choose_the_builtins() {
    let init = Init { force: false, interactive: false, mise: false };
    assert_eq!(init.run_auto(&[], "1.0.0"), generate_default_template("1.0.0"));
    let detections = [
        Detection { builtin: meta("prettier"), reason: s("package.json") },
        Detection { builtin: meta("ruff"), reason: s("pyproject.toml") },
    ];
    let pkl = init.run_auto(&detections, "1.0.0");
    assert_eq!(
        pkl,
        generate_pkl(&[meta("prettier"), meta("ruff")], &default_hooks(), "1.0.0")
    );
    assert_eq!(
        Init::summary(&detections),
        "prettier (package.json), ruff (pyproject.toml)"
    );
}

#[test]
fn picked_builtins_keep_their_order() {
    let detections = [Detection { builtin: meta("ruff"), reason: s("found") }];
    let all = [meta("prettier"), meta("ruff"), meta("shfmt")];
    let options = builtin_options(&detections, &all);
    let names: Vec<&str> = options.iter().map(|o| o.builtin.name.as_str()).collect();
    assert_eq!(names, vec!["ruff", "prettier", "shfmt"]);
    let picked = pick_builtins(&options, &[s("shfmt"), s("ruff")]);
    assert_eq!(picked.len(), 2);
    assert_eq!(option_label(&picked[0]), "cat/ruff");
    let init = Init { force: false, interactive: true, mise: false };
    assert_eq!(
        init.run_interactive(&picked, vec![s("pre-push")], "1.0.0"),
        generate_pkl(&picked, &[s("pre-push")], "1.0.0")
    );
    assert_eq!(
        init.run_interactive(&[], vec![], "1.0.0"),
        generate_default_template("1.0.0")
    );
    assert_eq!(pick_hooks(vec![]), default_hooks());
    assert_eq!(pick_hooks(vec![s("pre-push")]), vec!["pre-push"]);
}

#[test]
fn global_hk_command_uses_quoted_absolute_path() {
    assert_eq!(
        String::from_utf8_lossy(&hk_hook_command(b"/tmp/hk bin/hk", None)),
        "'/tmp/hk bin/hk'"
    );
}

#[test]
fn global_mise_command_requests_hk_tool_explicitly() {
    assert_eq!(
        String::from_utf8_lossy(&mise_hook_command(b"/opt/homebrew/bin/mise", None)),
        "/opt/homebrew/bin/mise x hk -- hk"
    );
}

#[test]
fn global_hook_command_uses_tilde_for_home_relative_paths() {
    let home = dirs::home_dir().expect("home directory should exist");
    let hk = home.join(".local/bin/hk");
    let relative = hk.strip_prefix(&home).unwrap().to_str().unwrap();

    assert_eq!(
        String::from_utf8_lossy(&hk_hook_command(
            hk.to_str().unwrap().as_bytes(),
            Some(relative.as_bytes())
        )),
        "~/.local/bin/hk"
    );
}

#[test]
fn local_mise_command_keeps_existing_behavior() {
    assert_eq!(local_hook_command(true), "mise x -- hk");
    assert_eq!(local_hook_command(false), "hk");
}

#[test]
fn hook_run_args_adds_staged_only_for_pre_commit() {
    assert_eq!(
        hook_run_args("pre-commit", true),
        r#" run pre-commit --from-hook --staged"#
    );
    assert_eq!(hook_run_args("pre-push", true), r#" run pre-push --from-hook"#);
    assert_eq!(hook_run_args("pre-commit", false), r#" run pre-commit --from-hook"#);
}

#[test]
fn disabled_hooks_are_not_installable_events() {
    let mut config = Config::default();
    config.hooks.insert(s("pre-commit"), Hook { enabled: false, ..Default::default() });
    config.hooks.insert(s("pre-push"), Hook::default());

    assert_eq!(hook_events(&config), vec!["pre-push"]);
}

#[test]
fn check_and_fix_are_no_events() {
    let mut config = Config::default();
    for name in ["check", "fix", "commit-msg"] {
        config.hooks.insert(s(name), Hook::default());
    }
    assert_eq!(hook_events(&config), vec!["commit-msg"]);
    assert_eq!(global_hook_events(Some(&config)), vec!["commit-msg"]);
    assert_eq!(
        global_hook_events(None),
        vec!["commit-msg", "pre-commit", "pre-push", "prepare-commit-msg"]
    );
}

#[test]
fn shell_quote_path_preserves_non_utf8_bytes() {
    let quoted = shell_quote_path(b"/tmp/hk-\xFF/bin/hk");

    assert!(quoted.contains(&0xFF));
}

#[test]
fn quotes_in_paths_are_closed_and_opened_again() {
    assert_eq!(shell_quote_path(b"/a/it's"), b"'/a/it'\\''s'".to_vec());
    assert_eq!(shell_quote_path(b"/a/plain-1.2"), b"/a/plain-1.2".to_vec());
}

#[test]
fn installing_where_hooks_are_global_only_cleans_up() {
    let plain = Install { force_local: false, global: false, legacy: false, mise: false };
    assert_eq!(plain.mode(true, true), InstallMode::CleanLocal);
    assert_eq!(plain.mode(true, false), InstallMode::LocalConfig);
    assert_eq!(plain.mode(false, false), InstallMode::LocalScripts);
    assert_eq!(Install { legacy: true, ..plain }.mode(true, false), InstallMode::LocalScripts);
    assert_eq!(Install { force_local: true, ..plain }.mode(true, true), InstallMode::LocalConfig);
    assert_eq!(Install { global: true, ..plain }.mode(true, true), InstallMode::Global);
    assert_eq!(Install { global: true, ..plain }.mode(false, false), InstallMode::Unsupported);
    assert!(Install::unsupported_message().contains("requires Git 2.54+"));
    assert!(cleaned_message(2).contains("removed 2 stale local hook(s)"));
    assert!(cleaned_message(0).contains("skipping local install"));
    assert!(nothing_to_install_message(1).contains("removed 1 previously-installed"));
    assert!(nothing_to_install_message(0).contains("nothing to install"));
}

#[test]
fn searches_in_git_config_can_fail() {
    assert_eq!(has_global_hk_hooks(Some(0), false, ""), Ok(true));
    assert_eq!(has_global_hk_hooks(Some(0), true, ""), Ok(false));
    assert_eq!(has_global_hk_hooks(Some(1), false, ""), Ok(false));
    assert_eq!(has_global_hk_hooks(None, false, ""), Ok(false));
    assert_eq!(
        has_global_hk_hooks(Some(-3), false, " bad \n"),
        Err(s("git config --get-regexp failed (exit -3): bad"))
    );
    let removal = match find_config_entries(
        Some(0),
        "hook.hk-a.command\nhook.hk-a.event\nhook.hk-a.command\n",
        "",
    ) {
        Ok(removal) => removal,
        Err(e) => panic!("{e}"),
    };
    assert_eq!(removal.keys.to_list(), vec!["hook.hk-a.command", "hook.hk-a.event"]);
    assert_eq!(removal.hooks, 1);
    assert!(find_config_entries(Some(2), "", "no").is_err());
    assert_eq!(git_failed(&vec![s("config"), s("--unset")]), "git config --unset failed");
}

#[test]
fn hooks_are_written_to_config_or_scripts() {
    let (command, event) = config_hook(b"hk", "pre-commit", true);
    assert_eq!(command.key, "hook.hk-pre-commit.command");
    assert_eq!(
        String::from_utf8_lossy(&command.value),
        "test \"${HK:-1}\" = \"0\" || hk run pre-commit --from-hook --staged \"$@\"".trim_end_matches(" \"$@\"")
    );
    assert_eq!(event.key, "hook.hk-pre-commit.event");
    assert_eq!(event.value, b"pre-commit".to_vec());
    assert!(is_hk_script(&git_hook_content("hk", "pre-commit")));
    assert!(!is_hk_script("#!/bin/sh\necho other\n"));
}

#[test]
fn overlapping_and_shadowed_hooks_are_warned_of() {
    assert_eq!(warn_if_global_overlap(&vec![]), None);
    let warning = warn_if_global_overlap(&vec![s("pre-commit"), s("pre-push")]).unwrap();
    assert!(warning.contains("active for: pre-commit, pre-push. Git will run hk twice"));
    assert!(warning.contains("`git config --local hook.hk-pre-commit.enabled false` ; `git config"));
    assert_eq!(check_hooks_path_config(&None, &Some(s("  "))).len(), 0);
    assert_eq!(
        check_hooks_path_config(&Some(s(".husky\n")), &None),
        vec![
            "core.hooksPath is set globally to '.husky'. This may prevent hk hooks from running.",
            "Run 'git config --global --unset-all core.hooksPath' to remove it."
        ]
    );
}

#[test]
fn bare_builtins_can_skip_runtime_and_command_tree_setup() {
    assert!(is_bare_builtins_invocation(&[s("builtins")]));
    assert!(!is_bare_builtins_invocation(&[s("builtins"), s("--quiet")]));
}

#[test]
fn bare_builtins_treats_broken_pipe_as_success() {
    write_builtins(vec![WriteOutcome::BrokenPipe]).unwrap();
    assert!(write_builtins(vec![WriteOutcome::Failed(s("other"))]).is_err());
}

#[test]
fn what_follows_a_broken_pipe_does_not_count() {
    let outcomes = vec![
        WriteOutcome::Written,
        WriteOutcome::BrokenPipe,
        WriteOutcome::Failed(s("other")),
    ];
    assert_eq!(write_builtins(outcomes), Ok(()));
    assert_eq!(write_builtins(vec![]), Ok(()));
}

#[test]
fn runtime_workers_are_bounded() {
    assert_eq!(runtime_worker_threads(0), 1);
    assert_eq!(runtime_worker_threads(4), 4);
    assert_eq!(runtime_worker_threads(32), 16);
}

#[test]
fn failed_output_is_kept_without_terminal_codes() {
    assert_eq!(output_file_content("plain\ntext"), "plain\ntext");
    assert_eq!(output_file_content("\u{1b}[31mred\u{1b}[0m done"), "red done");
    assert_eq!(output_file_hint("/tmp/out.log"), "\nSee /tmp/out.log for full command output");
    assert_eq!(exit_code(Some(3)), 3);
    assert_eq!(exit_code(None), 1);
}

#[test]
fn test_arg_max_is_valid() {
    for system in [-1, 128 * 1024, 2 * 1024 * 1024] {
        let arg_max = arg_max(system);
        assert!(arg_max >= 128 * 1024, "ARG_MAX too small: {}", arg_max);
        assert!(
            arg_max <= 10 * 1024 * 1024,
            "ARG_MAX suspiciously large (possible -1 cast): {}",
            arg_max
        );
    }
}

#[test]
fn test_arg_max_unix_sysconf() {
    assert_eq!(arg_max(-1), 128 * 1024);
    assert_eq!(arg_max(2_097_152), 2_097_152);
}

#[test]
fn only_the_built_in_evaluator_is_supported() {
    assert_eq!(check_pkl_backend(&None), Ok(()));
    assert_eq!(check_pkl_backend(&Some(s("pklr"))), Ok(()));
    assert!(check_pkl_backend(&Some(s("pkl"))).is_err());
    assert!(check_pkl_backend(&Some(s(""))).unwrap_err().contains("migration-v2"));
}
