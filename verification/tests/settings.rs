use hk::env::{
    cache_enabled, console_level, path_or, skip_steps, var_csv, var_false, var_log_level, var_stash,
    var_trace_mode, var_true, LogLevel, TraceMode,
};
use hk::hook::StashMethod;
use hk::json::{Json, JsonNumber};
use hk::settings::{
    collect_cli_map, collect_env_map, collect_git_map, collect_pkl_map, CliSnapshot, GitRead,
    OuterSources, OutputFormat, SettingMeta, SettingSource, SettingValue, Settings, SettingsStore,
};
use hk::table::{NameSet, Table};
use hk::version::{version_cmp, version_cmp_or_bail, VersionOrder};

type SourceMap = Table<SettingValue>;

fn s(text: &str) -> String {
    text.to_string()
}

fn names(list: &[&str]) -> NameSet {
    let list: Vec<String> = list.iter().map(|n| s(n)).collect();
    NameSet::of(&list)
}

fn meta_of(typ: &str, merge: Option<&str>, name: &str) -> SettingMeta {
    SettingMeta {
        typ: s(typ),
        merge: merge.map(s),
        default_value: None,
        cli: vec![format!("--{name}")],
        env: vec![format!("HK_{}", name.to_uppercase())],
        git: vec![format!("hk.{name}")],
        pkl: vec![s(name)],
    }
}

fn meta() -> Table<SettingMeta> {
    let mut meta = Table::new();
    for (name, typ, merge) in [
        ("jobs", "usize", None),
        ("fail_fast", "bool", None),
        ("skip_steps", "list<string>", Some("union")),
        ("warnings", "list<string>", Some("replace")),
    ] {
        meta.insert(s(name), meta_of(typ, merge, name));
    }
    meta
}

fn set_list(map: &mut SourceMap, key: &str, vals: &[&str]) {
    map.insert(s(key), SettingValue::StringList(names(vals)));
}

fn store() -> SettingsStore {
    SettingsStore { cli: None, program: Table::new(), built: None }
}

fn no_sources() -> OuterSources {
    OuterSources { env: Table::new(), git: Table::new(), pkl: Table::new() }
}

#[test]
fn test_settings_builder_fluent_api() {
    let mut store = store();
    Settings::set_cli_snapshot(&mut store, CliSnapshot::default());
    let settings = Settings::get(&mut store, &meta(), Ok(no_sources()));

    assert!(settings.jobs(8) >= 1);
    assert_eq!(settings.jobs(8), 8);
}

#[test]
fn test_settings_snapshot_caching() {
    let mut store = store();
    Settings::set_cli_snapshot(&mut store, CliSnapshot::default());
    let mut first = no_sources();
    first.env.insert(s("jobs"), SettingValue::Usize(2));
    let mut second = no_sources();
    second.env.insert(s("jobs"), SettingValue::Usize(3));
    let snapshot1 = Settings::get_snapshot(&mut store, &meta(), Ok(first));
    let snapshot2 = Settings::get_snapshot(&mut store, &meta(), Ok(second));

    assert_eq!(snapshot1.map(|s| s.jobs), Ok(2));
    assert_eq!(snapshot2.map(|s| s.jobs), Ok(2));
}

#[test]
fn test_settings_from_config() {
    let mut store = store();
    Settings::set_cli_snapshot(&mut store, CliSnapshot::default());
    let _settings = Settings::get(&mut store, &meta(), Ok(no_sources()));
}

#[test]
fn sources_that_cannot_be_read_build_nothing() {
    let mut store = store();
    let failed = Settings::try_get(&mut store, &meta(), Err(s("bad HK_JOBS")));
    assert_eq!(failed.map(|s| s.jobs), Err(s("bad HK_JOBS")));
    assert!(store.built.is_none());
    let built = Settings::try_get(&mut store, &meta(), Ok(no_sources()));
    assert_eq!(built.map(|s| s.jobs), Ok(0));
    assert!(store.built.is_some());
}

#[test]
fn test_union_merge_skip_steps() {
    let defaults = Settings { skip_steps: names(&["default_step"]), ..Default::default() };

    let mut env: SourceMap = SourceMap::new();
    let mut git: SourceMap = SourceMap::new();
    let mut pkl: SourceMap = SourceMap::new();
    let mut cli: SourceMap = SourceMap::new();

    set_list(&mut pkl, "skip_steps", &["pkl_step"]);
    set_list(&mut git, "skip_steps", &["git_step", "pkl_step"]);
    set_list(&mut env, "skip_steps", &["env_step"]);
    set_list(&mut cli, "skip_steps", &["cli_step", "env_step"]);

    let merged = Settings::merge_settings_generic(&meta(), &defaults, &env, &git, &pkl, &cli);

    assert!(merged.skip_steps.contains("default_step"));
    assert!(merged.skip_steps.contains("pkl_step"));
    assert!(merged.skip_steps.contains("git_step"));
    assert!(merged.skip_steps.contains("env_step"));
    assert!(merged.skip_steps.contains("cli_step"));
    assert_eq!(merged.skip_steps.len(), 5);
}

#[test]
fn test_replace_merge_fail_fast() {
    let defaults = Settings::default();

    let mut env: SourceMap = SourceMap::new();
    let mut git: SourceMap = SourceMap::new();
    let mut pkl: SourceMap = SourceMap::new();
    let mut cli: SourceMap = SourceMap::new();

    env.insert(s("fail_fast"), SettingValue::Bool(false));
    git.insert(s("fail_fast"), SettingValue::Bool(true));
    pkl.insert(s("fail_fast"), SettingValue::Bool(false));
    cli.insert(s("fail_fast"), SettingValue::Bool(true));

    let merged = Settings::merge_settings_generic(&meta(), &defaults, &env, &git, &pkl, &cli);
    assert!(merged.fail_fast);
}

#[test]
fn test_precedence_ordering_jobs() {
    let defaults = Settings::default();

    let mut env: SourceMap = SourceMap::new();
    let mut git: SourceMap = SourceMap::new();
    let mut pkl: SourceMap = SourceMap::new();
    let mut cli: SourceMap = SourceMap::new();

    pkl.insert(s("jobs"), SettingValue::Usize(2));
    git.insert(s("jobs"), SettingValue::Usize(3));
    env.insert(s("jobs"), SettingValue::Usize(4));
    cli.insert(s("jobs"), SettingValue::Usize(5));

    let merged = Settings::merge_settings_generic(&meta(), &defaults, &env, &git, &pkl, &cli);
    assert_eq!(merged.jobs, 5);
}

#[test]
fn test_precedence_with_missing_layers() {
    let defaults = Settings::default();

    let env: SourceMap = SourceMap::new();
    let mut git: SourceMap = SourceMap::new();
    let pkl: SourceMap = SourceMap::new();
    let cli: SourceMap = SourceMap::new();

    git.insert(s("jobs"), SettingValue::Usize(3));

    let merged = Settings::merge_settings_generic(&meta(), &defaults, &env, &git, &pkl, &cli);
    assert_eq!(merged.jobs, 3);
}

#[test]
fn test_warnings_replace_merge() {
    let defaults = Settings { warnings: names(&["warning1"]), ..Default::default() };

    let mut env: SourceMap = SourceMap::new();
    let git: SourceMap = SourceMap::new();
    let pkl: SourceMap = SourceMap::new();
    let cli: SourceMap = SourceMap::new();

    set_list(&mut env, "warnings", &["warning4"]);

    let merged = Settings::merge_settings_generic(&meta(), &defaults, &env, &git, &pkl, &cli);
    assert!(merged.warnings.contains("warning4"));
    assert_eq!(merged.warnings.len(), 1);
}

#[test]
fn silent_sources_keep_the_defaults() {
    let none: SourceMap = SourceMap::new();
    let merged =
        Settings::merge_settings_generic(&meta(), &Settings::default(), &none, &none, &none, &none);
    assert_eq!(merged.jobs, 0);
    assert!(merged.fail_fast);
    assert_eq!(merged.display_skip_reasons.to_list(), vec!["profile-not-enabled"]);
    let fields = merged.to_fields();
    match Settings::from_fields(&fields) {
        Some(back) => assert_eq!(back.display_skip_reasons.to_list(), vec!["profile-not-enabled"]),
        None => panic!("fields do not read back"),
    }
}

#[test]
fn the_last_source_of_a_value_is_told() {
    let mut env: SourceMap = SourceMap::new();
    let mut pkl: SourceMap = SourceMap::new();
    let none: SourceMap = SourceMap::new();
    pkl.insert(s("jobs"), SettingValue::Usize(2));
    env.insert(s("jobs"), SettingValue::Usize(4));
    set_list(&mut env, "skip_steps", &["a"]);
    set_list(&mut pkl, "skip_steps", &["a", "b"]);
    let (merged, info) = Settings::merge_settings_with_sources_generic(
        &meta(),
        &Settings::default(),
        &env,
        &none,
        &pkl,
        &none,
    );
    assert_eq!(merged.jobs, 4);
    assert_eq!(info.get("jobs").unwrap().last, Some(SettingSource::Env));
    let items = info.get("skip_steps").unwrap().list_items.as_ref().unwrap();
    assert_eq!(items.get("a").unwrap(), &vec![SettingSource::Pkl, SettingSource::Env]);
    assert_eq!(items.get("b").unwrap(), &vec![SettingSource::Pkl]);

    let told = Settings::explain_value(
        "skip-steps",
        &meta(),
        &Settings::default(),
        &env,
        &none,
        &pkl,
        &none,
        &names(&["OTHER", "HK_SKIP_STEPS"]),
        &names(&[]),
    )
    .unwrap();
    assert!(told.starts_with("Source resolution for 'skip-steps' (in precedence order):\n"));
    assert!(told.contains("    - a: pkl(skip_steps), env(HK_SKIP_STEPS)\n"), "{told}");
    assert!(told.ends_with("\nMerge strategy: union\n"));
    assert_eq!(
        Settings::explain_value(
            "nothing",
            &meta(),
            &Settings::default(),
            &env,
            &none,
            &pkl,
            &none,
            &names(&[]),
            &names(&[])
        ),
        Err(s("Unknown configuration key: nothing"))
    );
}

#[test]
fn variables_are_read_by_type() {
    let mut vars = Table::new();
    vars.insert(s("HK_JOBS"), s("6"));
    vars.insert(s("HK_FAIL_FAST"), s("No"));
    vars.insert(s("HK_SKIP_STEPS"), s("a, b,,a"));
    let map = match collect_env_map(&meta(), &vars) {
        Ok(map) => map,
        Err(e) => panic!("{e}"),
    };
    assert!(matches!(map.get("jobs"), Some(SettingValue::Usize(6))));
    assert!(matches!(map.get("fail_fast"), Some(SettingValue::Bool(false))));
    match map.get("skip_steps") {
        Some(SettingValue::StringList(list)) => assert_eq!(list.to_list(), vec!["a", "b"]),
        _ => panic!("expected list"),
    }
    vars.insert(s("HK_JOBS"), s("many"));
    match collect_env_map(&meta(), &vars) {
        Ok(_) => panic!("read a word as a number"),
        Err(e) => assert!(e.contains("HK_JOBS"), "{e}"),
    }
}

fn read(flag: Option<bool>, number: Option<i32>, text: Option<&str>, list: &[&str]) -> GitRead {
    GitRead { flag, number, text: text.map(s), list: list.iter().map(|t| s(t)).collect() }
}

#[test]
fn git_config_is_read_by_type() {
    let reads = vec![
        vec![read(None, Some(4), Some("4"), &["4"])],
        vec![read(Some(true), None, Some("true"), &["true"])],
        vec![read(None, None, Some("a,b"), &["a,b", "c"])],
        vec![read(None, None, None, &[])],
    ];
    let map = collect_git_map(&meta(), &reads);
    assert!(matches!(map.get("jobs"), Some(SettingValue::Usize(4))));
    assert!(matches!(map.get("fail_fast"), Some(SettingValue::Bool(true))));
    match map.get("skip_steps") {
        Some(SettingValue::StringList(list)) => assert_eq!(list.to_list(), vec!["a", "b", "c"]),
        _ => panic!("expected list"),
    }
    assert!(map.get("warnings").is_none());
}

#[test]
fn the_project_config_is_read_by_type() {
    let number = |n: u64| Json::Number(JsonNumber { text: n.to_string(), unsigned: Some(n) });
    let config = Json::Object(vec![
        (s("jobs"), number(3)),
        (s("fail_fast"), Json::Bool(false)),
        (s("skip_steps"), Json::String(s("one"))),
        (s("warnings"), Json::Array(vec![Json::String(s("x")), Json::Null])),
    ]);
    let map = collect_pkl_map(&meta(), &config);
    assert!(matches!(map.get("jobs"), Some(SettingValue::Usize(3))));
    assert!(matches!(map.get("fail_fast"), Some(SettingValue::Bool(false))));
    match (map.get("skip_steps"), map.get("warnings")) {
        (Some(SettingValue::StringList(a)), Some(SettingValue::StringList(b))) => {
            assert_eq!(a.to_list(), vec!["one"]);
            assert_eq!(b.to_list(), vec!["x"]);
        }
        _ => panic!("expected lists"),
    }
}

#[test]
fn flags_become_settings_and_the_program_overrides_them() {
    let mut flags = CliSnapshot::default();
    flags.jobs = Some(7);
    flags.trace = true;
    flags.output_format = OutputFormat::Jsonl;
    let mut program = SourceMap::new();
    let map = collect_cli_map(Some(&flags), &program);
    assert!(matches!(map.get("jobs"), Some(SettingValue::Usize(7))));
    program.insert(s("jobs"), SettingValue::Usize(1));
    let map = collect_cli_map(Some(&flags), &program);
    assert!(matches!(map.get("jobs"), Some(SettingValue::Usize(1))));

    let mut store = store();
    assert!(!Settings::cli_trace(&store));
    assert_eq!(Settings::cli_output_format(&store), OutputFormat::Human);
    Settings::set_cli_snapshot(&mut store, flags);
    assert!(Settings::cli_trace(&store));
    assert_eq!(Settings::cli_output_format(&store), OutputFormat::Jsonl);
}

#[test]
fn marked_profiles_are_disabled() {
    let settings = Settings { profiles: names(&["slow", "!ci"]), ..Default::default() };
    assert_eq!(settings.enabled_profiles().to_list(), vec!["slow"]);
    assert_eq!(settings.disabled_profiles().to_list(), vec!["ci"]);
    assert_eq!(Settings { jobs: 3, ..Default::default() }.jobs(8), 3);
}

#[test]
fn switches_are_read_from_variables() {
    let set = |v: &str| Some(s(v));
    assert!(var_true(&set("TRUE")));
    assert!(!var_true(&set("maybe")));
    assert!(!var_true(&None));
    assert!(var_false(&set("False")));
    assert!(!var_false(&None));
    assert!(cache_enabled(&None, true));
    assert!(!cache_enabled(&None, false));
    assert!(!cache_enabled(&set("0"), true));
    assert_eq!(path_or(&None, "/d"), "/d");
    assert_eq!(path_or(&set("/x"), "/d"), "/x");
}

#[test]
fn lists_and_words_are_read_from_variables() {
    let set = |v: &str| Some(s(v));
    assert!(var_csv(&None).is_none());
    assert_eq!(var_csv(&set("a,b")).unwrap().to_list(), vec!["a", "b"]);
    let skipped = skip_steps(&set("a"), &None).to_list();
    assert_eq!(skipped, vec!["a"]);
    assert_eq!(var_log_level(&set("WARN")), Some(LogLevel::Warn));
    assert_eq!(var_log_level(&set("loud")), None);
    assert_eq!(console_level(&set("debug"), &set("error")), LogLevel::Debug);
    assert!(matches!(var_trace_mode(&None), TraceMode::Off));
    assert!(matches!(var_trace_mode(&set("json")), TraceMode::Json));
    assert_eq!(var_stash(&None), Ok(None));
    assert_eq!(var_stash(&set("patch-file")), Ok(Some(StashMethod::PatchFile)));
    assert_eq!(var_stash(&set("none")), Ok(Some(StashMethod::Off)));
    assert!(var_stash(&set("maybe")).is_err());
}

#[test]
fn versions_are_ordered_by_their_numbers() {
    assert_eq!(version_cmp("1.10.0"), Ok(VersionOrder::Less));
    assert_eq!(version_cmp("2.0.0"), Ok(VersionOrder::Equal));
    assert_eq!(version_cmp("10.0.0"), Ok(VersionOrder::Greater));
    assert_eq!(version_cmp("2.0.0-rc.1"), Ok(VersionOrder::Less));
    assert!(version_cmp("two").is_err());
    assert_eq!(version_cmp_or_bail("2.0.0"), Ok(()));
    assert_eq!(version_cmp_or_bail("two"), Ok(()));
    assert!(version_cmp_or_bail("2.0.1").is_err());
}

#[test]
fn the_highest_source_is_told() {
    let none = SourceMap::new();
    let mut low = SourceMap::new();
    low.insert(s("jobs"), SettingValue::Usize(2));
    let mut high = SourceMap::new();
    high.insert(s("jobs"), SettingValue::Usize(3));
    let (_, info) = Settings::merge_settings_with_sources_generic(
        &meta(),
        &Settings::default(),
        &high,
        &none,
        &low,
        &none,
    );
    assert_eq!(info.get("jobs").unwrap().last, Some(SettingSource::Env));
    assert_eq!(info.get("skip_steps").unwrap().last, Some(SettingSource::Defaults));
}
