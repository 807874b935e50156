use hk::config::Config;
use hk::evaluate::{
    after_pkl, analyze_imports, choose_hkrc, config_cache, config_format, embedded_pkl_package_url,
    failed_pkl_config_error, get_http_proxy, get_no_proxy, handle_pkl_error,
    handle_pklr_deserialize_error, handle_pklr_eval_error, has_untracked_imports_in_pkl_sources,
    import_sources, imports_cache, is_pkl, is_untracked_import_uri, is_user_config, pkl_command,
    pkl_value_of, read_pkl_output, source_may_reference_untracked_import, ConfigFormat, HkrcPlaces, PklNext, PklOptions,
};
use hk::cache::FreshFileKeyMode;
use hk::json::Json;
use hk::paths::{
    ancestors_of, extension_of, is_within, join_path, name_of, parent_of, strip_base,
};
use hk::project::{
    can_be_read, check_patterns, first_present, match_patterns, visit, walk_depth, DirFacts,
    WalkStep,
};
use hk::table::{NameSet, Table};

fn s(text: &str) -> String {
    text.to_string()
}

fn list(texts: &[&str]) -> Vec<String> {
    texts.iter().map(|t| s(t)).collect()
}

#[test]
fn project_root_of_handles_config_directory() {
    assert_eq!(Config::project_root_of("/repo/hk.pkl"), "/repo");
    assert_eq!(Config::project_root_of("/repo/.config/hk.pkl"), "/repo");
    assert_eq!(Config::project_root_of("hk.pkl"), ".");
    assert_eq!(Config::project_root_of(".config/hk.pkl"), ".");
}

/// Directories and files of a project.
struct Tree {
    dirs: Vec<String>,
    files: Vec<String>,
}

impl Tree {
    fn walk(&self, dir: &str, max_depth: usize, out: &mut Vec<String>) {
        for rel in &self.dirs {
            if parent_of(rel).as_deref() != Some(dir) {
                continue;
            }
            let name = name_of(rel).unwrap();
            let WalkStep { list, descend } = visit(&name, rel, true, max_depth);
            if list {
                out.push(rel.clone());
            }
            if descend {
                self.walk(rel, max_depth, out);
            }
        }
    }

    fn facts(&self, root: &str) -> Table<DirFacts> {
        let mut facts = Table::new();
        for dir in &self.dirs {
            let path = join_path(root, dir);
            let there: Vec<bool> = Config::subproject_candidates(&path)
                .iter()
                .map(|p| self.files.contains(&strip_base(p, root).unwrap()))
                .collect();
            facts.insert(
                dir.clone(),
                DirFacts {
                    is_dir: true,
                    config: Config::find_subproject_config(&path, &there),
                },
            );
        }
        facts
    }
}

#[test]
fn discover_subprojects_literal_and_glob() {
    let tree = Tree {
        dirs: list(&[
            "sub",
            "packages",
            "packages/b",
            "packages/a",
            "packages/.hidden",
            "node_modules",
            "node_modules/pkg",
        ]),
        files: list(&[
            "sub/hk.pkl",
            "packages/a/hk.pkl",
            "packages/.hidden/hk.pkl",
            "node_modules/pkg/hk.pkl",
        ]),
    };
    let patterns = list(&["sub", "packages/*"]);
    let mut walked = vec![];
    tree.walk("", walk_depth(&patterns).unwrap(), &mut walked);
    let facts = tree.facts("/base");
    let (found, warnings) = match Config::discover_subprojects(&patterns, &walked, &facts) {
        Ok(found) => found,
        Err((e, _)) => panic!("{e}"),
    };
    let dirs: Vec<String> = (0..found.len()).map(|i| found.key_at(i).clone()).collect();
    assert_eq!(dirs, vec!["sub", "packages/a"]);
    assert_eq!(found.value_at(0).as_str(), "/base/sub/hk.pkl");
    assert_eq!(warnings.len(), 0);
}

#[test]
fn named_subprojects_that_are_missing_are_warned_of() {
    let mut facts = Table::new();
    facts.insert(s("empty"), DirFacts { is_dir: true, config: None });
    facts.insert(s("web"), DirFacts { is_dir: true, config: Some(s("web/hk.pkl")) });
    let patterns = list(&["gone/", "empty", "web/", "web"]);
    let (found, warnings) = match Config::discover_subprojects(&patterns, &vec![], &facts) {
        Ok(found) => found,
        Err((e, _)) => panic!("{e}"),
    };
    assert_eq!(found.len(), 1);
    assert_eq!(
        warnings,
        vec![
            "subprojects: directory not found: gone",
            "subprojects: no hk config found in empty"
        ]
    );
}

#[test]
fn globs_do_not_cross_directories_and_can_be_invalid() {
    let dirs = list(&["a", "a/b", "a/b/c"]);
    let (hits, fault) = match_patterns(&list(&["a/*", "**/c", "a", "{,a/}b"]), &dirs);
    assert_eq!(fault, None);
    assert_eq!(hits[0], vec![false, true, false]);
    assert_eq!(hits[1], vec![false, false, true]);
    assert_eq!(hits[2].len(), 0);
    assert_eq!(hits[3], vec![false, true, false]);
    let (before, fault) = match_patterns(&list(&["a/*", "a/["]), &vec![]);
    assert_eq!(before.len(), 1);
    let error = fault.unwrap();
    assert!(error.starts_with("invalid subprojects glob: a/[: "), "{error}");
}

#[test]
fn patterns_stay_within_the_project() {
    assert_eq!(check_patterns(&list(&["a", "b/*", "..c"])), Ok(()));
    for bad in ["/abs", "../up", "a/../b"] {
        assert_eq!(
            check_patterns(&list(&["a", bad])),
            Err(format!("subprojects entries must be relative paths without '..': {bad}"))
        );
    }
}

#[test]
fn the_deepest_pattern_bounds_the_walk() {
    assert_eq!(walk_depth(&list(&["a", "b/c"])), None);
    assert_eq!(walk_depth(&list(&["a", "b/*", "b/*/c"])), Some(3));
    assert_eq!(walk_depth(&list(&["**/x", "b/*"])), Some(32));
    let seen = visit("b", "a/b", true, 2);
    assert!(seen.list && !seen.descend);
    assert!(!visit(".b", "a/.b", true, 5).list);
    assert!(!visit("node_modules", "node_modules", true, 5).descend);
    assert!(!visit("file", "file", false, 5).list);
    assert!(!visit("c", "a/b/c", true, 2).list);
}

#[test]
fn project_config_detection_excludes_removed_formats() {
    let exists = |dir: &str, files: &[&str]| {
        let names = Config::current_config_names(&None);
        let there: Vec<bool> = Config::project_config_candidates(dir, &names)
            .iter()
            .map(|p| files.contains(&p.as_str()))
            .collect();
        Config::project_config_exists_from(dir, &None, &there)
    };
    for name in ["hk.toml", "hk.yaml", "hk.yml", "hk.json"] {
        let path = format!("/project/{name}");
        assert!(!exists("/project/nested", &[path.as_str()]));
    }
    assert!(exists("/project/nested", &["/project/hk.yaml", "/project/hk.pkl"]));
}

#[test]
fn configs_are_searched_for_upwards() {
    let names = Config::current_config_names(&None);
    assert_eq!(
        names,
        vec!["hk.local.pkl", ".config/hk.local.pkl", "hk.pkl", ".config/hk.pkl"]
    );
    let candidates = Config::project_config_candidates("/a/b", &names);
    assert_eq!(candidates.len(), 8);
    assert_eq!(candidates[0], "/a/b/hk.local.pkl");
    assert_eq!(candidates[7], "/a/.config/hk.pkl");
    let mut there = vec![false; 8];
    there[4] = true;
    there[6] = true;
    assert_eq!(
        Config::find_project_config_from("/a/b", &names, &there),
        Some(s("/a/hk.local.pkl"))
    );
    there[3] = true;
    assert_eq!(
        Config::find_project_config_from("/a/b", &names, &there),
        Some(s("/a/b/.config/hk.pkl"))
    );
    assert_eq!(first_present(&candidates, &vec![false; 8]), None);
    assert_eq!(
        Config::project_config_search_paths(&Some(s("my.pkl"))),
        vec!["my.pkl"]
    );
    assert_eq!(Config::current_config_names(&Some(s("my.pkl"))), vec!["my.pkl"]);
    assert!(!Config::project_config_exists(&None, &None, &vec![]));
    assert!(Config::project_config_exists(
        &Some(s("/a")),
        &Some(s("my.pkl")),
        &vec![true]
    ));
}

#[test]
fn the_offset_leads_from_the_work_tree_to_the_config() {
    let root = Some(s("/repo"));
    assert_eq!(Config::implicit_root_dir("/repo/hk.pkl", &root), None);
    assert_eq!(Config::implicit_root_dir("/repo/.config/hk.pkl", &root), None);
    assert_eq!(Config::implicit_root_dir("/repo/a/b/hk.pkl", &root), Some(s("a/b")));
    assert_eq!(Config::implicit_root_dir("/repo/a/hk.pkl", &None), None);
    assert_eq!(Config::implicit_root_dir("/other/hk.pkl", &root), None);
}

#[test]
fn paths_are_taken_apart_as_texts() {
    assert_eq!(parent_of("/a/b"), Some(s("/a")));
    assert_eq!(parent_of("/a"), Some(s("/")));
    assert_eq!(parent_of("/"), None);
    assert_eq!(parent_of("a"), Some(s("")));
    assert_eq!(parent_of("a//b/./"), Some(s("a")));
    assert_eq!(name_of("/a/b/"), Some(s("b")));
    assert_eq!(name_of("a/.."), None);
    assert_eq!(extension_of("x/y.tar.gz"), Some(s("gz")));
    assert_eq!(extension_of("x/.bashrc"), None);
    assert_eq!(extension_of("x.d/y"), None);
    assert_eq!(join_path("/a", "b"), "/a/b");
    assert_eq!(join_path("/a/", "b"), "/a/b");
    assert_eq!(join_path("", "b"), "b");
    assert_eq!(join_path("/a", "/b"), "/b");
    assert_eq!(strip_base("/a/b/c", "/a"), Some(s("b/c")));
    assert_eq!(strip_base("/ab", "/a"), None);
    assert!(is_within("/a/b", "/a"));
    assert!(!is_within("a/b", "/a"));
    assert_eq!(ancestors_of("/a/b"), vec!["/a/b", "/a"]);
    assert_eq!(ancestors_of("a"), vec!["a"]);
}

#[test]
fn formats_go_by_the_extension() {
    assert_eq!(config_format("a/hk.pkl"), Ok(ConfigFormat::Pkl));
    assert_eq!(config_format("hk.yml"), Ok(ConfigFormat::Yaml));
    assert_eq!(config_format("hk.yaml"), Ok(ConfigFormat::Yaml));
    assert_eq!(config_format("hk.json"), Ok(ConfigFormat::Json));
    assert_eq!(config_format("hk.toml"), Ok(ConfigFormat::Toml));
    assert_eq!(config_format("hk.ini"), Err(s("Unsupported file extension: ini")));
    assert_eq!(config_format("hk"), Err(s("Unsupported file extension: ")));
    assert!(is_pkl("x.pkl"));
    assert!(!is_pkl("x.pkl.json"));
}

#[test]
fn remote_imports_are_found_in_sources() {
    assert!(source_may_reference_untracked_import(
        "// first\n  amends \"package://x/y#/Config.pkl\"\n"
    ));
    assert!(source_may_reference_untracked_import("import* \"https://x\"\n"));
    assert!(!source_may_reference_untracked_import("// import \"https://x\"\n"));
    assert!(!source_may_reference_untracked_import("x = \"https://x\"\n"));
    assert!(!source_may_reference_untracked_import("import \"a.pkl\"\n"));
    assert!(has_untracked_imports_in_pkl_sources(&list(&["", "extends \"http://x\""])));
    assert!(!has_untracked_imports_in_pkl_sources(&list(&["", "extends \"x\""])));
    assert!(is_untracked_import_uri("package://x"));
    assert!(!is_untracked_import_uri("file:///x"));
    let analysis = analyze_imports(&list(&["file:///a.pkl", "pkl:base", "file:///a.pkl"]));
    assert_eq!(analysis.local_paths.to_list(), vec!["/a.pkl"]);
    assert!(!analysis.has_untracked_imports);
    assert!(analyze_imports(&list(&["https://x"])).has_untracked_imports);
    let sources = import_sources("/hk.pkl", &NameSet::of(&list(&["/a.pkl", "/hk.pkl"])));
    assert_eq!(sources.to_list(), vec!["/hk.pkl", "/a.pkl"]);
}

#[test]
fn config_caches_depend_on_imports() {
    let imports = imports_cache("/cache", "/p/hk.pkl", "h1");
    assert_eq!(imports.cache_file_path, "/cache/configs/h1-imports.json");
    assert_eq!(imports.fresh_files, vec!["/p/hk.pkl"]);

    let local = analyze_imports(&list(&["file:///a.pkl"]));
    let shared = config_cache("/cache", "/p/hk.pkl", "h1", true, "pklr", &Some(local), false);
    assert_eq!(shared.cache_file_path, "/cache/configs/resolved-config.json");
    assert_eq!(shared.fresh_files, vec!["/a.pkl", "/p/hk.pkl"]);
    assert_eq!(shared.cache_keys, vec!["2.0.0", "pkl-backend:pklr"]);
    assert_eq!(shared.fresh_file_key_mode, FreshFileKeyMode::ContentOnly);

    let remote = analyze_imports(&list(&["package://x"]));
    let own = config_cache("/cache", "/p/hk.pkl", "h1", true, "pklr", &Some(remote), false);
    assert_eq!(own.cache_file_path, "/cache/configs/h1.json");
    assert_eq!(own.fresh_file_key_mode, FreshFileKeyMode::PathAndContent);

    let sub = config_cache("/cache", "/p/hk.json", "h2", false, "pklr", &None, true);
    assert_eq!(sub.cache_file_path, "/cache/configs/h2.json");
    assert_eq!(sub.fresh_files, vec!["/p/hk.json"]);
    assert_eq!(sub.fresh_file_key_mode, FreshFileKeyMode::ContentOnly);
}

#[test]
fn the_first_proxy_that_is_set_counts() {
    let set = |v: &str| Some(s(v));
    assert_eq!(get_http_proxy(&None, &set("b"), &set("c"), &None), set("b"));
    assert_eq!(get_http_proxy(&set(""), &set("b"), &None, &None), None);
    assert_eq!(get_http_proxy(&None, &None, &None, &set("d")), set("d"));
    assert_eq!(get_http_proxy(&None, &None, &None, &None), None);
    assert_eq!(get_no_proxy(&None, &set("x")), set("x"));
    assert_eq!(get_no_proxy(&set(""), &set("x")), None);
}

fn options(proxy: Option<&str>) -> PklOptions {
    PklOptions {
        http_proxy: proxy.map(s),
        no_proxy: Some(s("localhost")),
        http_rewrite: None,
        ca_certificates: Some(s("/ca.pem")),
    }
}

#[test]
fn the_evaluator_gets_flags_before_the_path() {
    let eval = list(&["eval"]);
    assert_eq!(
        pkl_command("mise x -- 'pkl'", &eval, &options(Some("http://proxy:1")), "hk.pkl"),
        Ok((
            s("mise"),
            list(&[
                "x", "--", "pkl", "eval", "-f", "json", "--http-proxy", "http://proxy:1",
                "--http-no-proxy", "localhost", "--ca-certificates", "/ca.pem", "hk.pkl"
            ])
        ))
    );
    for proxy in ["https://proxy:1", "http://user@proxy:1"] {
        let (_, args) = pkl_command("pkl", &eval, &options(Some(proxy)), "hk.pkl").unwrap();
        assert!(!args.contains(&s("--http-proxy")));
    }
    assert_eq!(
        pkl_command("", &eval, &options(None), "hk.pkl"),
        Err(s("empty pkl command"))
    );
    assert!(pkl_command("'pkl", &eval, &options(None), "hk.pkl")
        .unwrap_err()
        .starts_with("failed to parse pkl command: "));
    assert!(matches!(after_pkl(&None, false), PklNext::Done));
    assert!(matches!(after_pkl(&Some(s("e")), false), PklNext::TryMise));
    assert!(
        matches!(after_pkl(&Some(s("e")), true), PklNext::Fail(m) if m == "failed to run pkl: e")
    );
}

#[test]
fn evaluator_errors_are_explained() {
    let missing = handle_pkl_error(b"Cannot find type `Hook`", Some(1), "hk.pkl");
    assert!(missing.starts_with("Missing 'amends' declaration in hk.pkl. \n\n"));
    assert!(missing.contains("\u{2022} amends \"pkl/Config.pkl\" (if vendored)\n"));
    assert!(missing.contains("v2.0.0/hk@2.0.0#/Config.pkl\" (for released versions)"));
    let invalid = handle_pkl_error(b"Module URI `x` has invalid syntax", Some(1), "hk.pkl");
    assert!(invalid.starts_with("Invalid module URI in hk.pkl. \n\n"));
    assert!(invalid.ends_with("#/Config.pkl\""));
    assert_eq!(
        handle_pkl_error(b"boom", None, "hk.pkl"),
        "Failed to evaluate Pkl config at hk.pkl\n\nExit code: unknown\n\nError output:\nboom"
    );
    assert_eq!(
        handle_pkl_error(b"boom", Some(-1), "hk.pkl"),
        "Failed to evaluate Pkl config at hk.pkl\n\nExit code: -1\n\nError output:\nboom"
    );
    assert_eq!(
        failed_pkl_config_error("hk.pkl", &None, "e"),
        "Failed to evaluate Pkl config at hk.pkl\n\nError output:\ne"
    );
    assert!(handle_pklr_eval_error("unsupported package URI", "p").starts_with("Invalid module"));
    assert!(handle_pklr_eval_error("other", "p").starts_with("Failed to evaluate"));
    let raw = Some(s("  amends \"x\"\n"));
    assert!(handle_pklr_deserialize_error("unknown field `a`", "p", &None).starts_with("Missing"));
    assert_eq!(
        handle_pklr_deserialize_error("unknown field `a`", "p", &raw),
        "failed to deserialize pklr output\n\nCaused by:\n    unknown field `a`"
    );
    assert_eq!(
        embedded_pkl_package_url(),
        "https://github.com/jdx/hk/releases/download/v2.0.0/hk@2.0.0.zip"
    );
}

fn places() -> HkrcPlaces {
    HkrcPlaces {
        explicit: None,
        config_dir: s("/c"),
        home_dir: s("/h"),
        cwd_there: false,
        home_there: false,
        config_there: false,
    }
}

#[test]
fn user_settings_are_looked_for_in_order() {
    let chosen = |p: HkrcPlaces| match choose_hkrc(&p) {
        Ok(Some(c)) => (c.path, c.warning),
        Ok(None) => (s("none"), None),
        Err(e) => (e, None),
    };
    assert_eq!(chosen(places()).0, "none");
    let all = HkrcPlaces { cwd_there: true, home_there: true, config_there: true, ..places() };
    assert_eq!(chosen(all).0, ".hkrc.pkl");
    let home = HkrcPlaces { home_there: true, config_there: true, ..places() };
    assert_eq!(
        chosen(home),
        (s("/h/.hkrc.pkl"), Some(s("~/.hkrc.pkl is deprecated. Use /c/config.pkl instead.")))
    );
    let config = HkrcPlaces { config_there: true, ..places() };
    assert_eq!(chosen(config), (s("/c/config.pkl"), None));
    let gone = HkrcPlaces { explicit: Some((s("x.pkl"), false)), cwd_there: true, ..places() };
    assert_eq!(chosen(gone).0, "Config file not found: x.pkl");
    let given = HkrcPlaces { explicit: Some((s("x.pkl"), true)), ..places() };
    assert_eq!(
        chosen(given),
        (
            s("x.pkl"),
            Some(s("--hkrc is deprecated. Use /c/config.pkl for global config or hk.local.pkl for per-project overrides."))
        )
    );
}

#[test]
fn user_settings_of_old_have_an_environment() {
    let old = Json::Object(vec![(s("environment"), Json::Null)]);
    let new = Json::Object(vec![(s("env"), Json::Null)]);
    assert!(is_user_config(&old));
    assert!(!is_user_config(&new));
    assert!(!is_user_config(&Json::Null));
}

#[test]
fn projects_with_old_configs_have_a_config() {
    let names = Config::project_config_search_paths(&None);
    assert_eq!(names.len(), 8);
    let there: Vec<bool> = Config::project_config_candidates("/project/nested", &names)
        .iter()
        .map(|path| path == "/project/hk.yaml")
        .collect();
    assert!(Config::project_config_exists(&Some(s("/project/nested")), &None, &there));
    assert_eq!(
        Config::find_project_config_from("/project/nested", &names, &there),
        Some(s("/project/hk.yaml"))
    );
}

#[test]
fn warnings_before_an_invalid_glob_are_kept() {
    let patterns = list(&["gone", "a/[", "lost"]);
    match Config::discover_subprojects(&patterns, &vec![], &Table::new()) {
        Ok(_) => panic!("expected an error"),
        Err((e, warnings)) => {
            assert!(e.starts_with("invalid subprojects glob: a/[: "), "{e}");
            assert_eq!(warnings, vec!["subprojects: directory not found: gone"]);
        }
    }
}

#[test]
fn named_directories_may_hold_backslashes() {
    let mut facts = Table::new();
    facts.insert(s("a\\b"), DirFacts { is_dir: true, config: Some(s("a\\b/hk.pkl")) });
    match Config::discover_subprojects(&list(&["a\\b"]), &vec![], &facts) {
        Ok((found, warnings)) => {
            assert_eq!(found.key_at(0), "a\\b");
            assert_eq!(warnings.len(), 0);
        }
        Err((e, _)) => panic!("{e}"),
    }
}

#[test]
fn long_flat_globs_can_be_read() {
    let flat = format!("{{{}z}}", "a,".repeat(5000));
    assert!(can_be_read(&flat));
    let (hits, fault) = match_patterns(&vec![flat], &list(&["a", "b", "z"]));
    assert_eq!(fault, None);
    assert_eq!(hits[0], vec![true, false, true]);
    assert!(can_be_read(&"{a}".repeat(2000)));
    assert!(!can_be_read(&"{".repeat(1001)));
    assert!(!can_be_read(&format!("[}}]{}", "{}".repeat(1001))));
}

#[test]
fn what_the_evaluator_prints_is_parsed() {
    match read_pkl_output(true, br#"{"environment":{}}"#, b"", Some(0), "hk.pkl") {
        Ok(json) => assert!(is_user_config(&json)),
        Err(e) => panic!("{e}"),
    }
    match read_pkl_output(true, b"no json", b"", Some(0), "hk.pkl") {
        Ok(_) => panic!("expected an error"),
        Err(e) => assert!(e.starts_with("failed to parse pkl output: expected "), "{e}"),
    }
    let failed = read_pkl_output(false, b"{}", b"boom", Some(3), "hk.pkl");
    assert!(matches!(failed, Err(e) if e == handle_pkl_error(b"boom", Some(3), "hk.pkl")));
    assert!(matches!(pkl_value_of(Ok(Json::Bool(true))), Ok(Json::Bool(true))));
    assert!(matches!(pkl_value_of(Err(s("x"))), Err(e) if e == "failed to parse pkl output: x"));
}
