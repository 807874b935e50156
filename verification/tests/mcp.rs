use hk::json::{Json, JsonNumber};
use hk::mcp::{
    append_capped, append_diff, canonical_directory, capture_error, client_paths, consume_jsonl_events,
    index_path, is_dashboard, is_within_startup_roots, keep_found, named_paths, parse_run_result,
    captured_diff, captured_plan, plan_args, plan_of, read_plan, run_args, run_id, utf8_page_bounds, Ending, Mcp, McpState, OutputPage, RunKind, RunRecord, RunSnapshot,
    COMPLETED_RUN_LIMIT, COMPLETED_RUN_TTL, MAX_RUN_OUTPUT_BYTES, OUTPUT_PAGE_MAX,
};
use hk::table::NameSet;

fn s(text: &str) -> String {
    text.to_string()
}

fn names(list: &[&str]) -> NameSet {
    let list: Vec<String> = list.iter().map(|n| s(n)).collect();
    NameSet::of(&list)
}

fn test_run(id: &str, status: &str, output: Vec<u8>) -> RunRecord {
    let ended = !matches!(status, "starting" | "running" | "cancelling");
    let mut run = RunRecord::new(s(id), s("/project"), RunKind::Check, String::new());
    run.status = s(status);
    run.finished_at = if ended { Some(String::new()) } else { None };
    run.completed_at = if ended { Some(0) } else { None };
    run.output = output;
    run
}

fn server(runs: Vec<RunRecord>) -> McpState {
    let mut state = McpState::new(s("/project"));
    state.runs = runs;
    state
}

fn page(result: Result<OutputPage, String>) -> OutputPage {
    match result {
        Ok(page) => page,
        Err(e) => panic!("{e}"),
    }
}

fn snapshot(result: Result<RunSnapshot, String>) -> RunSnapshot {
    match result {
        Ok(snapshot) => snapshot,
        Err(e) => panic!("{e}"),
    }
}

#[test]
fn rejects_files_as_roots() {
    assert!(canonical_directory(s("/tmp/file"), false).is_err());
    assert_eq!(canonical_directory(s("/tmp"), true), Ok(s("/tmp")));
    assert_eq!(Mcp { root: None }.start_dir(), ".");
    assert_eq!(Mcp { root: Some(s("x")) }.start_dir(), "x");
}

#[test]
fn roots_cannot_be_introduced_by_tool_arguments() {
    let mut state = server(vec![]);
    assert!(state.select_root(Some("/not/authorized"), 0).is_err());
    assert_eq!(state.select_root(Some("/project"), 0), Ok(s("/project")));
    assert_eq!(state.select_root(None, 0), Ok(s("/project")));
}

#[test]
fn client_roots_must_remain_within_the_startup_boundary() {
    let startup = names(&["/tmp/startup"]);
    assert!(is_within_startup_roots(&startup, "/tmp/startup/child"));
    assert!(is_within_startup_roots(&startup, "/tmp/startup"));
    assert!(!is_within_startup_roots(&startup, "/tmp/sibling"));
    assert!(!is_within_startup_roots(&startup, "/tmp/startup-2"));

    let mut state = McpState::new(s("/tmp/startup"));
    state.refresh_client_roots(&vec![s("/tmp/sibling"), s("/tmp/startup/child")]);
    assert_eq!(state.roots.to_list(), vec!["/tmp/startup", "/tmp/startup/child"]);
}

#[test]
fn replacing_client_roots_removes_stale_entries() {
    let mut state = McpState::new(s("/startup"));
    state.roots = names(&["/startup", "/startup/stale"]);

    state.replace_client_roots(&names(&["/startup/current"]));
    assert_eq!(state.roots.to_list(), vec!["/startup", "/startup/current"]);

    state.replace_client_roots(&names(&[]));
    assert_eq!(state.roots.to_list(), vec!["/startup"]);
}

#[test]
fn cleanup_retains_only_32_completed_runs() {
    let mut state = server(vec![]);
    for index in 0..40 {
        let mut run = test_run(&index.to_string(), "succeeded", Vec::new());
        run.exit_code = Some(0);
        state.runs.push(run);
    }
    state.cleanup_at(0);
    assert_eq!(state.runs.len(), COMPLETED_RUN_LIMIT);
    assert_eq!(state.runs[0].id, "8");
}

#[test]
fn output_page_limit_is_64_kib() {
    assert_eq!(OUTPUT_PAGE_MAX, 65_536);
}

#[test]
fn structured_output_is_capped_without_polluting_run_logs() {
    let mut state = server(vec![test_run("large", "running", Vec::new())]);
    let chunk = vec![b'x'; 1024 * 1024];
    for _ in 0..16 {
        assert!(state.receive("large", &chunk, true));
    }
    assert!(!state.runs[0].stdout_truncated);
    assert!(state.receive("large", &chunk[..1024], true));

    let run = &state.runs[0];
    assert!(run.output.is_empty());
    assert_eq!(run.stdout.len(), MAX_RUN_OUTPUT_BYTES);
    assert!(!run.output_truncated);
    assert!(run.stdout_truncated);
    assert!(!state.receive("other", &chunk, true));
}

#[test]
fn malformed_structured_output_is_a_run_error() {
    let mut run = test_run("malformed", "running", Vec::new());
    consume_jsonl_events(&mut run, b"not json\n");

    assert!(parse_run_result(&mut run));
    assert!(run.result.is_none());
    assert!(run
        .error
        .as_deref()
        .unwrap()
        .starts_with("failed to parse hk structured result:"));
}

const COMPLETED: &[u8] = br#"{"schema_version":1,"event":"run_completed","sequence":1,"data":{"schema_version":1,"kind":"run_result","status":"passed","steps":[]}}
"#;

fn status(run: &RunRecord) -> Option<&str> {
    run.result.as_ref().and_then(|r| r.get_str("status"))
}

#[test]
fn valid_structured_output_is_retained() {
    let mut run = test_run("valid", "running", Vec::new());
    consume_jsonl_events(&mut run, COMPLETED);

    assert!(!parse_run_result(&mut run));
    assert_eq!(status(&run), Some("passed"));
    assert!(run.error.is_none());
}

#[test]
fn parsed_completion_survives_trailing_structured_output_truncation() {
    let mut run = test_run("valid-truncated", "running", Vec::new());
    consume_jsonl_events(&mut run, COMPLETED);
    run.stdout_truncated = true;

    assert!(!parse_run_result(&mut run));
    assert_eq!(status(&run), Some("passed"));
    assert!(run.error.is_none());
}

#[test]
fn step_started_event_is_visible_before_run_completion() {
    let mut run = test_run("live", "running", Vec::new());
    consume_jsonl_events(
        &mut run,
        br#"{"schema_version":1,"event":"run_started","sequence":0,"data":{"hook":"check","started_at":"now"}}
{"schema_version":1,"event":"step_started","sequence":1,"data":{"name":"cargo-check","status":"running","duration_ms":0,"effects":[],"diagnostics":[]}}
"#,
    );

    assert_eq!(status(&run), Some("running"));
    let steps = match run.result.as_ref().and_then(|r| r.get("steps")) {
        Some(Json::Array(steps)) => steps,
        _ => panic!("expected steps"),
    };
    assert_eq!(steps[0].get_str("name"), Some("cargo-check"));
    assert_eq!(steps[0].get_str("status"), Some("running"));
    assert!(!run.saw_run_completed);
}

#[test]
fn events_may_be_cut_anywhere() {
    let mut whole = test_run("a", "running", Vec::new());
    consume_jsonl_events(&mut whole, COMPLETED);
    let mut cut = test_run("a", "running", Vec::new());
    for byte in COMPLETED {
        consume_jsonl_events(&mut cut, &[*byte]);
    }
    assert_eq!(status(&cut), status(&whole));
    assert!(cut.saw_run_completed && whole.saw_run_completed);
}

#[test]
fn cleanup_expires_old_completed_runs_but_not_active_runs() {
    let mut expired = test_run("expired", "succeeded", Vec::new());
    let completed_at = 1_000;
    expired.completed_at = Some(completed_at);
    let mut state = server(vec![expired, test_run("active", "running", Vec::new())]);
    state.cleanup_at(completed_at + COMPLETED_RUN_TTL + 1_000_000_000);
    assert_eq!(state.runs.len(), 1);
    assert_eq!(state.runs[0].id, "active");
}

#[test]
fn output_is_byte_paged_and_capped() {
    let mut state =
        server(vec![test_run("paged", "succeeded", vec![b'x'; OUTPUT_PAGE_MAX + 17])]);
    let value = page(state.get_output("paged", 0, Some(OUTPUT_PAGE_MAX * 2), 0));
    assert_eq!(value.next_offset, OUTPUT_PAGE_MAX);
    assert_eq!(value.eof, false);
}

#[test]
fn output_pagination_advances_when_limit_is_zero() {
    let mut state = server(vec![test_run("zero", "succeeded", b"abc".to_vec())]);
    let value = page(state.get_output("zero", 0, Some(0), 0));
    assert_eq!(value.offset, 0);
    assert_eq!(value.next_offset, 1);
    assert_eq!(value.text, "a");
}

#[test]
fn output_pagination_does_not_split_a_multibyte_character() {
    let mut state =
        server(vec![test_run("unicode-output", "succeeded", "éx".as_bytes().to_vec())]);
    let first = page(state.get_output("unicode-output", 0, Some(1), 0));
    assert_eq!(first.offset, 0);
    assert_eq!(first.next_offset, 2);
    assert_eq!(first.text, "é");

    let second = page(state.get_output("unicode-output", 1, Some(1), 0));
    assert_eq!(second.offset, 2);
    assert_eq!(second.text, "x");
}

#[test]
fn output_that_is_no_utf8_is_marked() {
    let mut state = server(vec![test_run("raw", "succeeded", b"a\xFFb".to_vec())]);
    let value = page(state.get_output("raw", 0, None, 0));
    assert_eq!(value.text, "a\u{FFFD}b");
    assert!(value.eof);
}

#[test]
fn diff_is_byte_paged_and_reports_capture_truncation() {
    let mut run = test_run("diff", "succeeded", Vec::new());
    run.diff = "é".repeat(OUTPUT_PAGE_MAX);
    run.diff_truncated = true;
    let mut state = server(vec![run]);

    let value = page(state.get_diff("diff", 1, Some(OUTPUT_PAGE_MAX * 2), 0));
    assert!(value.next_offset - value.offset <= OUTPUT_PAGE_MAX);
    assert_eq!(value.eof, false);
    assert_eq!(value.truncated, true);
    assert!(value.text.starts_with('é'));
}

#[test]
fn diff_pagination_advances_past_a_multibyte_character() {
    let mut run = test_run("unicode", "succeeded", Vec::new());
    run.diff = "éx".into();
    let mut state = server(vec![run]);

    let value = page(state.get_diff("unicode", 0, Some(1), 0));
    assert!(value.next_offset > 0);
    assert_eq!(value.text, "éx");
    assert_eq!(value.eof, true);
}

#[test]
fn one_active_run_per_root_and_cancellation_are_enforced() {
    let mut state = McpState::new(s("/project"));
    let first = snapshot(state.start(1, s("/project"), RunKind::SafeCheck, s("now"), 0));
    assert_eq!(first.status, "starting");
    assert!(state.start(2, s("/project"), RunKind::SafeCheck, s("now"), 0).is_err());
    assert!(state.start(3, s("/project/other"), RunKind::Check, s("now"), 0).is_ok());
    assert_eq!(snapshot(state.cancel_run(&first.id, 0)).status, "cancelling");
    state.finish(
        &first.id,
        s("later"),
        1,
        String::new(),
        false,
        Ending::Exited(None, false),
        true,
    );
    assert_eq!(snapshot(state.snapshot(&first.id, 2)).status, "cancelled");
    assert!(state.start(4, s("/project"), RunKind::SafeFix, s("now"), 2).is_ok());
}

#[test]
fn debug_shutdown_cancels_active_runs_before_exit() {
    let mut state = server(vec![test_run("active", "running", Vec::new())]);

    assert!(state.has_active_runs());
    assert_eq!(state.prepare_debug_shutdown(0), 1);
    assert!(state.runs[0].cancelled);
    assert_eq!(snapshot(state.snapshot("active", 0)).status, "cancelling");
    assert!(state.has_active_runs());
    assert!(!server(vec![]).has_active_runs());
}

#[test]
fn runs_end_as_their_result_and_exit_code_say() {
    let ending = |result: bool, ending: Ending| {
        let mut run = test_run("r", "running", Vec::new());
        if result {
            consume_jsonl_events(&mut run, COMPLETED);
        }
        run.end(s("later"), 5, s("patch"), false, ending, false);
        run
    };
    assert_eq!(ending(true, Ending::Exited(Some(0), true)).status, "succeeded");
    assert_eq!(ending(true, Ending::Exited(Some(1), false)).status, "failed");
    let silent = ending(false, Ending::Exited(Some(0), true));
    assert_eq!(silent.status, "failed");
    assert!(silent.error.is_some());
    let lost = ending(true, Ending::WaitFailed(s("gone")));
    assert_eq!(lost.status, "failed");
    assert_eq!(lost.error.as_deref(), Some("failed to wait for hk: gone"));
    assert_eq!(lost.diff, "patch");

    let mut state = server(vec![test_run("x", "starting", Vec::new())]);
    state.set_status("x", "running");
    assert_eq!(state.runs[0].status, "running");
    state.finish_error("x", s("no hk"), s("later"), 9);
    assert_eq!(state.runs[0].status, "failed");
    assert_eq!(state.runs[0].error.as_deref(), Some("no hk"));
    assert_eq!(
        state.snapshot("gone", 9).err().as_deref(),
        Some("run not found or expired")
    );
}

#[test]
fn fixes_are_safe_and_leave_the_index_alone() {
    assert_eq!(
        run_args(RunKind::SafeFix, "/p"),
        vec!["--cd", "/p", "--format", "jsonl", "fix", "--all", "--safe", "--no-stage"]
    );
    assert_eq!(
        run_args(RunKind::Check, "/p"),
        vec!["--cd", "/p", "--format", "jsonl", "check", "--all"]
    );
    assert_eq!(RunKind::SafeCheck.label(), "safe_check");
    assert_eq!(run_id(7), run_id(7));
    assert_ne!(run_id(7), run_id(8));
}

#[test]
fn appending_stops_at_the_limit() {
    let mut target = vec![b'a'; MAX_RUN_OUTPUT_BYTES - 2];
    assert!(!append_capped(&mut target, b"bc"));
    assert!(append_capped(&mut target, b"d"));
    assert_eq!(target.len(), MAX_RUN_OUTPUT_BYTES);
    let mut patch = b"a".to_vec();
    assert!(!append_diff(&mut patch, b"b"));
    assert_eq!(patch, b"ab".to_vec());
    assert_eq!(utf8_page_bounds("aé".as_bytes(), 2, 10), (3, 3));
}

#[test]
fn inspections_tell_the_roots_in_order() {
    let mut state = McpState::new(s("/p"));
    state.replace_client_roots(&names(&["/p/b-c", "/p/b/c", "/p/a"]));
    let value = state.inspect_project("/p", true, false);
    assert!(matches!(
        value.get("schema_version"),
        Some(Json::Number(JsonNumber { unsigned: Some(1), .. }))
    ));
    assert!(matches!(value.get("has_config"), Some(Json::Bool(true))));
    let roots: Vec<&str> = match value.get("roots") {
        Some(Json::Array(roots)) => roots.iter().filter_map(|r| r.as_str()).collect(),
        _ => panic!("expected roots"),
    };
    assert_eq!(roots, vec!["/p", "/p/a", "/p/b/c", "/p/b-c"]);
}

#[test]
fn file_uris_of_clients_name_paths() {
    let uris = vec![s("file:///tmp/a%20b"), s("https://example.com"), s("no uri")];
    assert_eq!(client_paths(&uris), vec![b"/tmp/a b".to_vec()]);
    assert_eq!(
        keep_found(&vec![None, Some(vec![1]), None, Some(vec![2, 3])]),
        vec![vec![1], vec![2, 3]]
    );
}

#[test]
fn git_output_is_trimmed() {
    assert_eq!(index_path("/p", b".git/index\n"), "/p/.git/index");
    assert_eq!(index_path("/p", b"/q/index\n"), "/q/index");
    assert_eq!(capture_error(b"  boom \n"), "hk failed: boom");
    assert!(is_dashboard("ui://hk/run-dashboard"));
    assert!(!is_dashboard("ui://hk/other"));
}

#[test]
fn paths_are_named_in_order() {
    let uris = vec![s("a"), s("skip"), s("b")];
    let named = named_paths(&uris, |uri: String| {
        if uri == "skip" {
            None
        } else {
            Some(uri.into_bytes())
        }
    });
    assert_eq!(named, vec![b"a".to_vec(), b"b".to_vec()]);
    assert_eq!(
        client_paths(&vec![s("file:///tmp/%ff"), s("file:///tmp/c")]),
        vec![b"/tmp/\xff".to_vec(), b"/tmp/c".to_vec()]
    );
    assert!(client_paths(&vec![]).is_empty());
}

#[test]
fn lines_that_are_buffered_already_are_consumed() {
    let mut whole = test_run("whole", "running", Vec::new());
    consume_jsonl_events(&mut whole, COMPLETED);
    let mut run = test_run("buffered", "running", Vec::new());
    run.stdout_event_buffer = COMPLETED.to_vec();
    consume_jsonl_events(&mut run, b"rest");
    assert_eq!(run.stdout_event_buffer, b"rest".to_vec());
    assert_eq!(status(&run), status(&whole));
}

#[test]
fn pages_hold_the_bytes_between_their_bounds() {
    let mut run = test_run("pages", "passed", "a\u{e9}b".as_bytes().to_vec());
    run.diff = s("x\u{20ac}y");
    let shown = run.output_page(1, Some(1));
    assert_eq!((shown.offset, shown.next_offset), (1, 3));
    assert_eq!(shown.text, "\u{e9}");
    let shown = run.diff_page(2, Some(4));
    assert_eq!((shown.offset, shown.next_offset), (4, 5));
    assert_eq!(shown.text, "y");
    assert!(shown.eof);
    run.output = vec![b'a', 0xff];
    assert_eq!(run.output_page(0, None).text, "a\u{fffd}");
}

#[test]
fn plans_are_read_from_what_was_printed() {
    let plan = match read_plan(br#"{"hook":"check","steps":[]}"#) {
        Ok(plan) => plan,
        Err(e) => panic!("{e}"),
    };
    assert_eq!(plan.get_str("hook"), Some("check"));
    let error = match read_plan(b"no plan") {
        Ok(_) => panic!("expected an error"),
        Err(e) => e,
    };
    assert!(error.starts_with("hk returned an invalid plan: expected "), "{error}");
    assert!(matches!(plan_of(Ok(Json::Null)), Ok(Json::Null)));
    assert!(matches!(plan_of(Err(s("bad"))), Err(e) if e == "hk returned an invalid plan: bad"));
    assert!(matches!(captured_plan(true, b"null", b""), Ok(Json::Null)));
    assert!(matches!(captured_plan(false, b"null", b" boom\n"), Err(e) if e == "hk failed: boom"));
    assert_eq!(
        plan_args("/p"),
        vec!["--cd", "/p", "check", "--all", "--plan", "--json"]
    );
}

#[test]
fn patches_of_failed_calls_are_empty() {
    assert_eq!(captured_diff(true, b"+a\n", true), (s("+a\n"), true));
    assert_eq!(captured_diff(true, &[b'a', 0xff], false), (s("a\u{fffd}"), false));
    assert_eq!(captured_diff(false, b"+a\n", true), (s(""), false));
}
