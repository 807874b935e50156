use hk::pkl::{
    convert_regex_to_glob, format_pkl_string, format_pkl_value, is_regex_pattern,
    parse_as_path_list, HkConfig, HkHook, HkStep,
};
use hk::pre_commit::{
    EntryFacts, PreCommit, PreCommitConfig, PreCommitHook, PreCommitHookDefinition, PreCommitRepo,
    VendoredRepo,
};
use hk::table::{NameSet, Table};

fn s(text: &str) -> String {
    text.to_string()
}

fn list(texts: &[&str]) -> Vec<String> {
    texts.iter().map(|t| s(t)).collect()
}

fn hook(id: &str) -> PreCommitHook {
    PreCommitHook {
        id: s(id),
        name: None,
        entry: None,
        files: None,
        exclude: None,
        types: vec![],
        types_or: vec![],
        exclude_types: vec![],
        args: vec![],
        additional_dependencies: vec![],
        stages: vec![],
        always_run: false,
        pass_filenames: None,
        language_version: None,
        require_serial: false,
        language: None,
    }
}

fn repo(url: &str, hooks: Vec<PreCommitHook>) -> PreCommitRepo {
    PreCommitRepo { repo: s(url), rev: Some(s("v1.0")), hooks }
}

fn config(repos: Vec<PreCommitRepo>) -> PreCommitConfig {
    PreCommitConfig {
        repos,
        fail_fast: false,
        default_language_version: Table::new(),
        default_stages: vec![],
    }
}

fn options() -> PreCommit {
    PreCommit {
        config: s(".pre-commit-config.yaml"),
        force: false,
        output: s("hk.pkl"),
        hk_pkl_root: None,
    }
}

#[test]
fn builtin_overrides_are_amended_directly() {
    let mut config = HkConfig::new(None, None);
    let mut steps = Table::new();
    steps.insert(
        s("prettier"),
        HkStep {
            builtin: Some(s("Builtins.prettier")),
            exclude: Some(s("^vendor/")),
            ..Default::default()
        },
    );
    config.step_collections.insert(s("linters"), steps);

    let pkl = config.to_pkl();
    assert!(pkl.contains(
        "[\"prettier\"] = (Builtins.prettier) {\n        exclude = Regex(\"^vendor/\")"
    ));
}

#[test]
fn imported_step_overrides_are_amended_directly() {
    let mut config = HkConfig::new(None, None);
    let mut steps = Table::new();
    steps.insert(
        s("remove-crlf"),
        HkStep {
            builtin: Some(s("Vendors.remove_crlf")),
            exclude: Some(s("^\\.hk/")),
            ..Default::default()
        },
    );
    config.step_collections.insert(s("linters"), steps);

    let pkl = config.to_pkl();
    assert!(pkl.contains(
        "[\"remove-crlf\"] = (Vendors.remove_crlf) {\n        exclude = Regex(#\"^\\.hk/\"#)"
    ));
}

#[test]
fn pkl_values_are_quoted_as_they_need() {
    assert_eq!(format_pkl_string("plain"), "\"plain\"");
    assert!(is_regex_pattern("^a$"));
    assert!(!is_regex_pattern("*.py"));
    assert_eq!(
        parse_as_path_list("^a/b\\.py$|^c$"),
        Some(list(&["a/b.py", "c"]))
    );
    assert_eq!(parse_as_path_list("^a/.*$"), Some(list(&["a/**"])));
    assert_eq!(parse_as_path_list("^(a|b)$"), None);
    assert_eq!(convert_regex_to_glob("\\.py$"), Some(s("**/.py")));
    assert_eq!(format_pkl_value("*.py"), "\"*.py\"");
}

#[test]
fn known_hooks_become_builtins() {
    let known = hook("trailing-whitespace");
    let step = PreCommit::convert_known_hook(&known, "trailing-whitespace").unwrap();
    assert_eq!(step.builtin.as_deref(), Some("Builtins.trailing_whitespace"));
    assert!(PreCommit::convert_known_hook(&hook("unheard-of"), "unheard-of").is_none());
    assert!(PreCommit::is_known_hook("black"));
    assert!(!PreCommit::is_known_hook("unheard-of"));
}

#[test]
fn local_hooks_keep_their_commands() {
    let plain = PreCommitHook { entry: Some(s("./lint.sh")), ..hook("mine") };
    let step = PreCommit::convert_local_hook(&plain, "mine");
    assert_eq!(step.check.as_deref(), Some("./lint.sh {{files}}"));
    let with_args = PreCommitHook { args: list(&["-a", "-b"]), ..hook("mine") };
    let with_args = PreCommitHook { entry: Some(s("run")), ..with_args };
    let step = PreCommit::convert_local_hook(&with_args, "mine-2");
    assert_eq!(step.check.as_deref(), Some("run -a -b {{files}}"));
    assert_eq!(step.comments[0], "Original ID: mine");
    let grep = PreCommitHook {
        entry: Some(s("a b")),
        language: Some(s("pygrep")),
        ..hook("grep")
    };
    let step = PreCommit::convert_local_hook(&grep, "grep");
    let command = step.check.unwrap();
    assert!(command.starts_with("! grep -P "), "{command}");
    assert_ne!(command, "! grep -P a b {{files}}");
    let image = PreCommitHook {
        entry: Some(s("img cmd x")),
        language: Some(s("docker_image")),
        pass_filenames: Some(false),
        ..hook("image")
    };
    let step = PreCommit::convert_local_hook(&image, "image");
    assert_eq!(
        step.check.as_deref(),
        Some("docker run --rm -v $(pwd):/src -w /src img cmd x")
    );
    let python = PreCommitHook {
        entry: Some(s("tool.py --x")),
        language: Some(s("python")),
        ..hook("py")
    };
    let step = PreCommit::convert_local_hook(&python, "py");
    assert_eq!(step.check.as_deref(), Some("uv run tool.py --x {{files}}"));
}

#[test]
fn hook_ids_are_made_unique() {
    let mut used = NameSet::new();
    assert_eq!(PreCommit::make_unique_hook_id("lint", &mut used), "lint");
    assert_eq!(PreCommit::make_unique_hook_id("lint", &mut used), "lint-2");
    assert_eq!(PreCommit::make_unique_hook_id("lint", &mut used), "lint-3");
    assert_eq!(PreCommit::make_unique_hook_id("lint-2", &mut used), "lint-2-2");
    assert_eq!(used.len(), 4);
}

#[test]
fn configs_are_converted_collection_by_collection() {
    let local = PreCommitHook { entry: Some(s("make lint")), ..hook("lint") };
    let manual = PreCommitHook {
        entry: Some(s("make all")),
        stages: list(&["manual"]),
        ..hook("all")
    };
    let pushed = PreCommitHook { stages: list(&["pre-push"]), ..hook("unheard-of") };
    let given = config(vec![
        repo("https://github.com/pre-commit/pre-commit-hooks", vec![hook("check-yaml")]),
        repo("local", vec![local, manual]),
        repo("meta", vec![hook("check-hooks-apply")]),
        repo("https://example.com/x/y", vec![pushed]),
    ]);
    let hk = PreCommit::convert_config(&given, &Table::new(), None, None);
    let collections: Vec<&str> = (0..hk.step_collections.len())
        .map(|i| hk.step_collections.key_at(i).as_str())
        .collect();
    assert_eq!(
        collections,
        vec!["linters", "local_hooks", "custom_steps", "manual_steps"]
    );
    assert_eq!(
        hk.step_references.get("check-yaml").map(|c| c.as_str()),
        Some("linters")
    );
    assert_eq!(
        hk.step_references.get("lint").map(|c| c.as_str()),
        Some("local_hooks")
    );
    assert!(hk.step_references.get("unheard-of").is_none());
    let hooks: Vec<&str> = (0..hk.hooks.len()).map(|i| hk.hooks.key_at(i).as_str()).collect();
    assert_eq!(hooks, vec!["pre-push", "check", "fix"]);
    assert_eq!(hk.hooks.get("pre-push").unwrap().step_spreads, vec!["custom_steps"]);
    assert_eq!(
        hk.hooks.get("fix").unwrap().step_spreads,
        vec!["linters", "local_hooks", "custom_steps", "manual_steps"]
    );
    assert_eq!(hk.hooks.get("fix").unwrap().fix, Some(true));
    assert_eq!(hk.header_comments.len(), 0);
}

#[test]
fn vendored_repos_are_imported() {
    let url = "https://github.com/Lucas-C/pre-commit-hooks";
    let used = repo(url, vec![hook("remove-crlf")]);
    assert!(PreCommit::needs_vendoring(&used));
    let vendored = PreCommit::vendor(&used, None);
    assert_eq!(vendored.name, "Lucas-C-pre-commit-hooks");
    assert_eq!(vendored.hooks[0].entry, "remove-crlf");
    assert_eq!(vendored.hooks[0].language, "system");
    let mut table: Table<VendoredRepo> = Table::new();
    table.insert(s(url), vendored);
    let mut given = config(vec![used]);
    given.fail_fast = true;
    given.default_language_version.insert(s("python"), s("python3.11"));
    let hk = PreCommit::convert_config(&given, &table, None, None);
    assert_eq!(hk.vendor_imports[0].name, "Vendors_Lucas_C_pre_commit_hooks");
    assert_eq!(
        hk.vendor_imports[0].path,
        ".hk/vendors/Lucas-C-pre-commit-hooks/hooks.pkl"
    );
    assert_eq!(hk.header_comments[0], "TODO: Vendored repos detected");
    assert!(hk.header_comments.contains(&s("Migrated from pre-commit fail_fast setting")));
    assert!(hk.header_comments.contains(&s("  python: python3.11")));
    assert_eq!(
        hk.header_comments.last().unwrap(),
        "  mise use python@3.11"
    );
    assert!(hk.step_collections.get("linters").unwrap().contains_key("remove-crlf"));
}

#[test]
fn only_some_repos_are_vendored() {
    assert!(!PreCommit::needs_vendoring(&repo("local", vec![hook("x")])));
    assert!(!PreCommit::needs_vendoring(&repo("meta", vec![hook("x")])));
    assert!(!PreCommit::needs_vendoring(&repo("https://github.com/psf/black", vec![hook("x")])));
    assert!(!PreCommit::needs_vendoring(&repo("https://example.com/a/b", vec![hook("black")])));
    assert!(PreCommit::needs_vendoring(&repo("https://example.com/a/b", vec![hook("x")])));
}

fn definition(id: &str, language: &str, entry: &str) -> PreCommitHookDefinition {
    PreCommitHookDefinition {
        id: s(id),
        name: None,
        entry: s(entry),
        language: s(language),
        files: None,
        types: vec![],
        pass_filenames: None,
    }
}

fn vendor_pkl(definition: PreCommitHookDefinition, facts: EntryFacts, package: Option<&str>) -> String {
    options().generate_vendor_pkl(
        "https://x.com/a/b",
        &vec![definition],
        &vec![facts],
        &package.map(s),
    )
}

fn nothing() -> EntryFacts {
    EntryFacts { present: false, module: None }
}

#[test]
fn vendored_hooks_are_run_by_language() {
    let text = vendor_pkl(definition("forbid-x", "pygrep", "x+"), nothing(), None);
    assert!(text.starts_with(
        "// Auto-generated hooks from vendored repository\n// Source: https://x.com/a/b\n\nimport \"package://github.com/jdx/hk/releases/download/v2.0.0/hk@2.0.0#/Config.pkl\"\n\n"
    ));
    assert!(text.ends_with(
        "forbid_x = new Config.Step {\n    check = \"rg --color=never --pcre2 -n 'x+' {{files}}\"\n}\n\n"
    ));

    let present = || EntryFacts { present: true, module: None };
    let text = vendor_pkl(definition("fix-it", "python", "it.py"), present(), None);
    assert!(text.contains("    check = \"uv run .hk/vendors/a-b/it.py {{files}}\"\n"));
    assert!(text.contains("    fix = \"uv run .hk/vendors/a-b/it.py {{files}}\"\n"));

    let module = EntryFacts { present: false, module: Some(s("pkg.it")) };
    let text = vendor_pkl(definition("it", "python", "it"), module, None);
    assert!(text.contains("&& .hk/vendors/a-b/.venv/bin/python -m pkg.it {{files}}\""));

    let text = vendor_pkl(definition("it", "python", "it"), nothing(), None);
    assert!(text.contains("    prefix = \"mise x python@latest --\"\n    check = \"it {{files}}\"\n"));

    let text = vendor_pkl(definition("it", "node", "it"), nothing(), Some("pkg"));
    assert!(text.contains("npx --prefix .hk/vendors/a-b pkg {{files}}\""));

    let text = vendor_pkl(definition("it", "golang", "cmd/it"), nothing(), None);
    assert!(text.contains("&& .hk/vendors/a-b/.gopath/bin/it {{files}}\""));

    let text = vendor_pkl(definition("it", "ruby", "it"), nothing(), None);
    assert!(text.contains("PATH=$(pwd)/.hk/vendors/a-b/.gem-home/bin:$PATH .hk/vendors/a-b/.gem-home/bin/it {{files}}\""));

    let text = vendor_pkl(definition("it", "swift", "it format  --in-place"), nothing(), None);
    assert!(text.contains("/.swift_env/.build/release/it format --in-place {{files}}\""));

    let quiet = PreCommitHookDefinition {
        pass_filenames: Some(false),
        files: Some(s("\\.py$")),
        ..definition("it", "script", "it.sh")
    };
    let text = vendor_pkl(quiet, present(), None);
    assert!(text.contains("    glob = \"\\\\.py$\"\n    check = \".hk/vendors/a-b/it.sh\"\n}"));
}

#[test]
fn vendored_files_find_the_pkl_root() {
    let mut local = options();
    local.hk_pkl_root = Some(s("../pkl"));
    let text = local.generate_vendor_pkl("u", &vec![], &vec![], &None);
    assert!(text.contains("import \"../../../../pkl/Config.pkl\"\n"));
    assert_eq!(
        local.pkl_addresses(),
        (Some(s("../pkl/Config.pkl")), Some(s("../pkl/Builtins.pkl")))
    );
    local.hk_pkl_root = Some(s("/pkl"));
    let text = local.generate_vendor_pkl("u", &vec![], &vec![], &None);
    assert!(text.contains("import \"/pkl/Config.pkl\"\n"));
    assert_eq!(options().pkl_addresses(), (None, None));
}

#[test]
fn modules_and_packages_are_found() {
    assert_eq!(
        PreCommit::find_python_module(true, &None, "forbid_crlf"),
        Some(s("pre_commit_hooks.forbid_crlf"))
    );
    let setup = Some(s(
        "it = early\n\"console_scripts\": [\"other = a:b\", \"it = pkg.mod:main\"]\n",
    ));
    assert_eq!(PreCommit::find_python_module(false, &setup, "it"), Some(s("pkg.mod")));
    assert_eq!(PreCommit::find_python_module(false, &setup, "gone"), None);
    assert_eq!(PreCommit::find_python_module(false, &None, "it"), None);
    assert_eq!(
        PreCommit::find_node_package_name(b"{\"name\": \"pkg\", \"version\": \"1\"}"),
        Some(s("pkg"))
    );
    assert_eq!(PreCommit::find_node_package_name(b"{\"name\": 1}"), None);
    assert_eq!(PreCommit::find_node_package_name(b"{"), None);
}

#[test]
fn repositories_are_cloned_by_address() {
    assert_eq!(
        PreCommit::clone_args("https://x/y", &Some(s("v1")), "d"),
        Ok(list(&["clone", "--depth=1", "--branch", "v1", "https://x/y", "d"]))
    );
    assert_eq!(
        PreCommit::clone_args("git@x:y", &None, "d"),
        Ok(list(&["clone", "--depth=1", "git@x:y", "d"]))
    );
    assert_eq!(
        PreCommit::clone_args("ftp://x", &None, "d"),
        Err(s("Unsupported repository URL format: ftp://x"))
    );
    assert_eq!(
        PreCommit::clone_error("u", b"no"),
        "Failed to clone repository u: no"
    );
    assert!(PreCommit::is_script_file("a.py", true));
    assert!(PreCommit::is_script_file("a.sh", false));
    assert!(!PreCommit::is_script_file("a.sh", true));
    assert!(!PreCommit::is_script_file(".py", false));
}

#[test]
fn conversions_do_not_overwrite() {
    assert_eq!(
        options().check_files(true, true),
        Err(s("hk.pkl already exists, use --force to overwrite"))
    );
    assert_eq!(
        options().check_files(false, false),
        Err(s(".pre-commit-config.yaml does not exist"))
    );
    assert_eq!(PreCommit { force: true, ..options() }.check_files(true, true), Ok(()));
}

#[test]
fn types_become_globs() {
    let glob = PreCommit::types_to_glob_pattern(&list(&["python"]), &vec![]).unwrap();
    assert!(glob.contains("py"), "{glob}");
    assert_eq!(PreCommit::normalize_language_version("python3.11"), "3.11");
    assert_eq!(PreCommit::map_stage("push"), "pre-push");
    assert_eq!(PreCommit::map_stage("commit"), "commit-msg");
    assert_eq!(PreCommit::map_stage("pre-commit"), "pre-commit");
    assert_eq!(PreCommit::escape_for_pkl("a\\b\"c\n"), "a\\\\b\\\"c\\n");
    assert!(PreCommit::is_fixer_hook("fix-x", &None));
    assert!(!PreCommit::is_fixer_hook("check-x", &Some(s("Fixer"))));
    assert!(PreCommit::is_fixer_hook("x", &Some(s("A Formatter"))));
    assert!(!PreCommit::is_fixer_hook("x", &None));
    assert!(PreCommit::add_default_exclude(&Some(s("^a/"))).unwrap().contains("^a/"));
    assert_eq!(
        PreCommit::repo_url_to_import_name("https://github.com/Lucas-C/pre-commit-hooks/"),
        "Vendors_Lucas_C_pre_commit_hooks"
    );
}

#[test]
fn files_of_wanted_types_are_not_excluded() {
    let pattern =
        PreCommit::types_to_exclude_pattern(&list(&["json"]), &vec![], &vec![]).unwrap();
    let parts: Vec<&str> = pattern.split('|').collect();
    assert!(!parts.contains(&r"\.json$"));
    assert!(!parts.contains(&r"package-lock\.json$"));
    assert!(parts.contains(&r"\.py$"));
    let pattern =
        PreCommit::types_to_exclude_pattern(&list(&["yaml"]), &vec![], &vec![]).unwrap();
    assert!(!pattern.split('|').any(|part| part == r"pnpm-lock\.yaml$"));
    assert!(pattern.split('|').any(|part| part == r"package-lock\.json$"));
}

#[test]
fn exclusive_and_prefixed_builtins_are_written_in_full() {
    let config = HkConfig::new(None, None);
    let black = |exclusive: bool, prefix: Option<String>| HkStep {
        builtin: Some(s("Builtins.black")),
        exclusive,
        prefix,
        ..Default::default()
    };
    assert_eq!(
        config.format_step("black", &black(true, None), 1),
        "    [\"black\"] = (Builtins.black) {\n        exclusive = true\n    }\n"
    );
    assert_eq!(
        config.format_step("black", &black(false, Some(s("uv run"))), 1),
        "    [\"black\"] = (Builtins.black) {\n        prefix = \"uv run\"\n    }\n"
    );
    assert_eq!(
        config.format_step("black", &black(false, None), 1),
        "    [\"black\"] = Builtins.black\n"
    );
}

#[test]
fn escaped_texts_hold_no_bare_quote() {
    assert_eq!(PreCommit::escape_for_pkl("a\\[\"b\"\n\t\r"), r#"a\\[\"b\"\n\t\r"#);
}

#[test]
fn hooks_are_written_with_their_steps() {
    let mut direct_steps = Table::new();
    let black = HkStep { builtin: Some(s("Builtins.black")), ..Default::default() };
    direct_steps.insert(s("black"), black);
    let hook = HkHook {
        fix: Some(true),
        stash: Some(s("git")),
        step_spreads: list(&["linters"]),
        direct_steps,
    };
    assert_eq!(
        HkConfig::new(None, None).format_hook("pre-commit", &hook),
        concat_lines(&[
            "    [\"pre-commit\"] {",
            "        fix = true",
            "        stash = \"git\"",
            "        steps {",
            "            ...linters",
            "            [\"black\"] = Builtins.black",
            "        }",
            "    }",
        ])
    );
}

fn concat_lines(lines: &[&str]) -> String {
    lines.iter().map(|line| format!("{line}\n")).collect()
}

#[test]
fn strings_with_quotes_stand_between_delimiters() {
    assert_eq!(format_pkl_string(" plain "), "\"plain\"");
    assert_eq!(format_pkl_string("a\"b"), "#\"a\"b\"#");
}

#[test]
fn steps_of_all_collections_have_different_names() {
    let local = PreCommitHook { entry: Some(s("make")), ..hook("check-yaml") };
    let manual = PreCommitHook { stages: list(&["manual"]), ..hook("check-yaml") };
    let given = config(vec![
        repo("https://github.com/pre-commit/pre-commit-hooks", vec![hook("check-yaml"), manual]),
        repo("local", vec![local]),
        repo("meta", vec![hook("check-yaml")]),
    ]);
    let hk = PreCommit::convert_config(&given, &Table::new(), None, None);
    let mut found = Vec::new();
    for i in 0..hk.step_collections.len() {
        let steps = hk.step_collections.value_at(i);
        found.extend((0..steps.len()).map(|k| steps.key_at(k).clone()));
    }
    assert_eq!(found, vec!["check-yaml", "check-yaml-3", "check-yaml-2"]);
}
