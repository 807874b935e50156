//! The server for coding agents: its runs, their output and their results.

use vstd::prelude::*;
use vstd::string::*;
use vstd::utf8::{decode_utf8, encode_utf8, is_char_boundary, valid_utf8};
use crate::json::{
    field_views, find_field, group_json, json_result, member, parse_json, parsed_json, with_member,
    Json, JsonNumber, JsonView,
};
use crate::paths::{is_within, join_path, joined_path, lies_within, sort_paths, sorted_paths};
use crate::seqs::{opt_text, opt_view, texts, views};
use crate::table::{dup_option, push_all_new, Dup, NameSet};
use crate::text::{decimal, dup_opt, same, show_usize, trim, trimmed};

verus! {

broadcast use crate::seqs::group_text;

/// The largest page of output, in bytes.
pub const OUTPUT_PAGE_MAX: usize = 65536;

/// How much of the output of a run is kept, in bytes.
pub const MAX_RUN_OUTPUT_BYTES: usize = 16777216;

/// How much of the patch of a run is kept, in bytes.
pub const MAX_RUN_DIFF_BYTES: usize = 16777216;

/// How many completed runs are kept.
pub const COMPLETED_RUN_LIMIT: usize = 32;

/// How long a completed run is kept, in nanoseconds: half an hour.
pub const COMPLETED_RUN_TTL: u64 = 1800000000000;

/// What a run does.
#[derive(Clone, Copy, Debug, PartialEq, Eq, Structural)]
pub enum RunKind {
    Check,
    SafeCheck,
    SafeFix,
}

impl RunKind {
    pub open spec fn label_text(self) -> Seq<char> {
        match self {
            RunKind::Check => "check"@,
            RunKind::SafeCheck => "safe_check"@,
            RunKind::SafeFix => "safe_fix"@,
        }
    }

    /// The name of the kind.
    pub fn label(self) -> (r: &'static str)
        ensures
            r@ == self.label_text(),
    {
        match self {
            RunKind::Check => "check",
            RunKind::SafeCheck => "safe_check",
            RunKind::SafeFix => "safe_fix",
        }
    }

    pub open spec fn command_text(self) -> Seq<char> {
        match self {
            RunKind::Check => "check"@,
            RunKind::SafeCheck => "check"@,
            RunKind::SafeFix => "fix"@,
        }
    }

    /// The command that a run of the kind executes.
    pub fn command(self) -> (r: &'static str)
        ensures
            r@ == self.command_text(),
    {
        match self {
            RunKind::Check => "check",
            RunKind::SafeCheck => "check",
            RunKind::SafeFix => "fix",
        }
    }

    /// Whether unknown and destructive commands are refused.
    pub fn safe(self) -> (r: bool)
        ensures
            r == (self != RunKind::Check),
    {
        match self {
            RunKind::Check => false,
            _ => true,
        }
    }
}

/// The arguments of the command that a run executes in `root`.
pub open spec fn run_arguments(kind: RunKind, root: Seq<char>) -> Seq<Seq<char>> {
    let common = seq!["--cd"@, root, "--format"@, "jsonl"@, kind.command_text(), "--all"@];
    let safe = if kind != RunKind::Check {
        common.push("--safe"@)
    } else {
        common
    };
    if kind == RunKind::SafeFix {
        safe.push("--no-stage"@)
    } else {
        safe
    }
}

/// The arguments of the command that a run executes in `root`.
pub fn run_args(kind: RunKind, root: &str) -> (r: Vec<String>)
    ensures
        texts(r@) == run_arguments(kind, root@),
{
    let mut args: Vec<String> = Vec::new();
    args.push("--cd".to_owned());
    args.push(root.to_owned());
    args.push("--format".to_owned());
    args.push("jsonl".to_owned());
    args.push(kind.command().to_owned());
    args.push("--all".to_owned());
    assert(texts(args@) =~= seq![
        "--cd"@,
        root@,
        "--format"@,
        "jsonl"@,
        kind.command_text(),
        "--all"@,
    ]);
    if kind.safe() {
        args.push("--safe".to_owned());
    }
    if kind == RunKind::SafeFix {
        args.push("--no-stage".to_owned());
    }
    args
}

/// A fixing run never stages and always refuses unknown commands.
pub proof fn law_fix_runs_are_safe(root: Seq<char>)
    ensures
        run_arguments(RunKind::SafeFix, root).contains("--safe"@),
        run_arguments(RunKind::SafeFix, root).contains("--no-stage"@),
{
    let args = run_arguments(RunKind::SafeFix, root);
    assert(args[6] == "--safe"@);
    assert(args[7] == "--no-stage"@);
}

/// A run of the server.
pub struct RunRecord {
    pub id: String,
    pub root: String,
    pub kind: RunKind,
    pub status: String,
    pub started_at: String,
    pub finished_at: Option<String>,
    /// When the run was completed, in nanoseconds of a clock that never goes back.
    pub completed_at: Option<u64>,
    pub exit_code: Option<i32>,
    pub output: Vec<u8>,
    pub stdout: Vec<u8>,
    /// What came of a line that has no end yet.
    pub stdout_event_buffer: Vec<u8>,
    pub output_truncated: bool,
    pub stdout_truncated: bool,
    pub saw_run_completed: bool,
    pub result: Option<Json>,
    pub diff: String,
    pub diff_truncated: bool,
    pub error: Option<String>,
    /// The run was asked to stop.
    pub cancelled: bool,
}

/// What [`RunRecord`] stands for.
pub struct RunRecordView {
    pub id: Seq<char>,
    pub root: Seq<char>,
    pub kind: RunKind,
    pub status: Seq<char>,
    pub started_at: Seq<char>,
    pub finished_at: Option<Seq<char>>,
    pub completed_at: Option<u64>,
    pub exit_code: Option<i32>,
    pub output: Seq<u8>,
    pub stdout: Seq<u8>,
    pub stdout_event_buffer: Seq<u8>,
    pub output_truncated: bool,
    pub stdout_truncated: bool,
    pub saw_run_completed: bool,
    pub result: Option<JsonView>,
    pub diff: Seq<char>,
    pub diff_truncated: bool,
    pub error: Option<Seq<char>>,
    pub cancelled: bool,
}

impl View for RunRecord {
    type V = RunRecordView;

    open spec fn view(&self) -> RunRecordView {
        RunRecordView {
            id: self.id@,
            root: self.root@,
            kind: self.kind,
            status: self.status@,
            started_at: self.started_at@,
            finished_at: opt_text(self.finished_at),
            completed_at: self.completed_at,
            exit_code: self.exit_code,
            output: self.output@,
            stdout: self.stdout@,
            stdout_event_buffer: self.stdout_event_buffer@,
            output_truncated: self.output_truncated,
            stdout_truncated: self.stdout_truncated,
            saw_run_completed: self.saw_run_completed,
            result: opt_view(self.result),
            diff: self.diff@,
            diff_truncated: self.diff_truncated,
            error: opt_text(self.error),
            cancelled: self.cancelled,
        }
    }
}

/// What is told of a run.
pub struct RunSnapshot {
    pub schema_version: u32,
    pub id: String,
    pub root: String,
    pub kind: String,
    pub status: String,
    pub started_at: String,
    pub finished_at: Option<String>,
    pub exit_code: Option<i32>,
    pub output_bytes: usize,
    pub output_truncated: bool,
    pub has_diff: bool,
    pub diff_bytes: usize,
    pub diff_truncated: bool,
    pub result: Option<Json>,
    pub error: Option<String>,
}

/// What [`RunSnapshot`] stands for.
pub struct RunSnapshotView {
    pub schema_version: u32,
    pub id: Seq<char>,
    pub root: Seq<char>,
    pub kind: Seq<char>,
    pub status: Seq<char>,
    pub started_at: Seq<char>,
    pub finished_at: Option<Seq<char>>,
    pub exit_code: Option<i32>,
    pub output_bytes: usize,
    pub output_truncated: bool,
    pub has_diff: bool,
    pub diff_bytes: usize,
    pub diff_truncated: bool,
    pub result: Option<JsonView>,
    pub error: Option<Seq<char>>,
}

impl View for RunSnapshot {
    type V = RunSnapshotView;

    open spec fn view(&self) -> RunSnapshotView {
        RunSnapshotView {
            schema_version: self.schema_version,
            id: self.id@,
            root: self.root@,
            kind: self.kind@,
            status: self.status@,
            started_at: self.started_at@,
            finished_at: opt_text(self.finished_at),
            exit_code: self.exit_code,
            output_bytes: self.output_bytes,
            output_truncated: self.output_truncated,
            has_diff: self.has_diff,
            diff_bytes: self.diff_bytes,
            diff_truncated: self.diff_truncated,
            result: opt_view(self.result),
            error: opt_text(self.error),
        }
    }
}

/// A run that has not ended.
pub open spec fn is_active_status(status: Seq<char>) -> bool {
    status == "starting"@ || status == "running"@ || status == "cancelling"@
}

pub open spec fn is_active(run: RunRecordView) -> bool {
    is_active_status(run.status)
}

/// What is told of a run.
pub open spec fn snapshot_of(run: RunRecordView) -> RunSnapshotView {
    RunSnapshotView {
        schema_version: 1,
        id: run.id,
        root: run.root,
        kind: run.kind.label_text(),
        status: run.status,
        started_at: run.started_at,
        finished_at: run.finished_at,
        exit_code: run.exit_code,
        output_bytes: run.output.len() as usize,
        output_truncated: run.output_truncated,
        has_diff: encode_utf8(run.diff).len() as usize != 0,
        diff_bytes: encode_utf8(run.diff).len() as usize,
        diff_truncated: run.diff_truncated,
        result: run.result,
        error: run.error,
    }
}

/// A run that has just been started.
pub open spec fn new_run(
    id: Seq<char>,
    root: Seq<char>,
    kind: RunKind,
    started_at: Seq<char>,
) -> RunRecordView {
    RunRecordView {
        id,
        root,
        kind,
        status: "starting"@,
        started_at,
        finished_at: None,
        completed_at: None,
        exit_code: None,
        output: seq![],
        stdout: seq![],
        stdout_event_buffer: seq![],
        output_truncated: false,
        stdout_truncated: false,
        saw_run_completed: false,
        result: None,
        diff: seq![],
        diff_truncated: false,
        error: None,
        cancelled: false,
    }
}

impl RunRecord {
    /// A run that has just been started.
    pub fn new(id: String, root: String, kind: RunKind, started_at: String) -> (r: Self)
        ensures
            r@ == new_run(id@, root@, kind, started_at@),
    {
        RunRecord {
            id,
            root,
            kind,
            status: "starting".to_owned(),
            started_at,
            finished_at: None,
            completed_at: None,
            exit_code: None,
            output: Vec::new(),
            stdout: Vec::new(),
            stdout_event_buffer: Vec::new(),
            output_truncated: false,
            stdout_truncated: false,
            saw_run_completed: false,
            result: None,
            diff: String::new(),
            diff_truncated: false,
            error: None,
            cancelled: false,
        }
    }

    /// Whether the run has not ended.
    pub fn active(&self) -> (r: bool)
        ensures
            r == is_active(self@),
    {
        same(self.status.as_str(), "starting") || same(self.status.as_str(), "running") || same(
            self.status.as_str(),
            "cancelling",
        )
    }

    /// What is told of the run.
    pub fn snapshot(&self) -> (r: RunSnapshot)
        ensures
            r@ == snapshot_of(self@),
    {
        let diff_bytes: usize = self.diff.as_str().len();
        RunSnapshot {
            schema_version: 1,
            id: self.id.clone(),
            root: self.root.clone(),
            kind: self.kind.label().to_owned(),
            status: self.status.clone(),
            started_at: self.started_at.clone(),
            finished_at: dup_opt(&self.finished_at),
            exit_code: self.exit_code,
            output_bytes: self.output.len(),
            output_truncated: self.output_truncated,
            has_diff: diff_bytes != 0,
            diff_bytes,
            diff_truncated: self.diff_truncated,
            result: dup_option(&self.result),
            error: dup_opt(&self.error),
        }
    }
}

/// A continuation byte of UTF-8.
pub open spec fn is_continuation(b: u8) -> bool {
    b & 0b1100_0000 == 0b1000_0000
}

/// The first position from `i` on that no continuation byte stands at.
pub open spec fn skip_continuations(bytes: Seq<u8>, i: int) -> int
    decreases bytes.len() - i,
{
    if 0 <= i < bytes.len() && is_continuation(bytes[i]) {
        skip_continuations(bytes, i + 1)
    } else {
        i
    }
}

/// The last position up to `i`, and not before `low`, that no continuation
/// byte stands at.
pub open spec fn back_off(bytes: Seq<u8>, low: int, i: int) -> int
    decreases i - low,
{
    if low < i < bytes.len() && is_continuation(bytes[i]) {
        back_off(bytes, low, i - 1)
    } else {
        i
    }
}

/// Where a page of at most `limit` bytes from `requested` on begins and ends,
/// without cutting a character in two. A page holds at least one character.
pub open spec fn page_bounds(bytes: Seq<u8>, requested: int, limit: int) -> (int, int) {
    let from = skip_continuations(bytes, vstd::math::min(requested, bytes.len() as int));
    let to = back_off(bytes, from, vstd::math::min(from + limit, bytes.len() as int));
    if to == from && from < bytes.len() {
        (from, skip_continuations(bytes, from + 1))
    } else {
        (from, to)
    }
}

proof fn lemma_skip(bytes: Seq<u8>, i: int)
    requires
        0 <= i <= bytes.len(),
    ensures
        i <= skip_continuations(bytes, i) <= bytes.len(),
        skip_continuations(bytes, i) < bytes.len() ==> !is_continuation(
            bytes[skip_continuations(bytes, i)],
        ),
    decreases bytes.len() - i,
{
    if i < bytes.len() && is_continuation(bytes[i]) {
        lemma_skip(bytes, i + 1);
    }
}

proof fn lemma_back_off(bytes: Seq<u8>, low: int, i: int)
    requires
        0 <= low <= i <= bytes.len(),
    ensures
        low <= back_off(bytes, low, i) <= i,
        low < back_off(bytes, low, i) < bytes.len() ==> !is_continuation(
            bytes[back_off(bytes, low, i)],
        ),
    decreases i - low,
{
    if low < i < bytes.len() && is_continuation(bytes[i]) {
        lemma_back_off(bytes, low, i - 1);
    }
}

/// Where a page of at most `limit` bytes from `requested_offset` on begins and ends.
pub fn utf8_page_bounds(bytes: &[u8], requested_offset: usize, limit: usize) -> (r: (usize, usize))
    ensures
        (r.0 as int, r.1 as int) == page_bounds(bytes@, requested_offset as int, limit as int),
        r.0 <= r.1 <= bytes@.len(),
{
    let start: usize = if requested_offset < bytes.len() { requested_offset } else { bytes.len() };
    let mut offset: usize = start;
    while offset < bytes.len() && bytes[offset] & 0b1100_0000 == 0b1000_0000
        invariant
            start <= offset <= bytes@.len(),
            skip_continuations(bytes@, start as int) == skip_continuations(bytes@, offset as int),
        decreases bytes.len() - offset,
    {
        offset += 1;
    }
    let wanted: usize = offset.saturating_add(limit);
    let top: usize = if wanted < bytes.len() { wanted } else { bytes.len() };
    let mut end: usize = top;
    assert(top as int == vstd::math::min(offset + limit, bytes@.len() as int));
    while end > offset && end < bytes.len() && bytes[end] & 0b1100_0000 == 0b1000_0000
        invariant
            offset <= end <= bytes@.len(),
            back_off(bytes@, offset as int, top as int) == back_off(
                bytes@,
                offset as int,
                end as int,
            ),
        decreases end,
    {
        end -= 1;
    }
    if end == offset && offset < bytes.len() {
        end = offset + 1;
        while end < bytes.len() && bytes[end] & 0b1100_0000 == 0b1000_0000
            invariant
                offset < end <= bytes@.len(),
                skip_continuations(bytes@, offset + 1) == skip_continuations(bytes@, end as int),
            decreases bytes.len() - end,
        {
            end += 1;
        }
    }
    (offset, end)
}

/// A page that begins before the end of the output is not empty.
pub proof fn law_pages_advance(bytes: Seq<u8>, requested: int, limit: int)
    requires
        requested >= 0,
        limit >= 0,
    ensures
        ({
            let (from, to) = page_bounds(bytes, requested, limit);
            &&& 0 <= from <= to <= bytes.len()
            &&& (from < bytes.len() ==> to > from)
        }),
{
    let start = vstd::math::min(requested, bytes.len() as int);
    lemma_skip(bytes, start);
    let from = skip_continuations(bytes, start);
    lemma_back_off(bytes, from, vstd::math::min(from + limit, bytes.len() as int));
    if from < bytes.len() {
        lemma_skip(bytes, from + 1);
    }
}

/// No page begins or ends inside a character, and none is longer than its
/// limit unless it holds a single character.
pub proof fn law_pages_keep_characters_whole(bytes: Seq<u8>, requested: int, limit: int)
    requires
        requested >= 0,
        limit >= 0,
    ensures
        ({
            let (from, to) = page_bounds(bytes, requested, limit);
            &&& (from < bytes.len() ==> !is_continuation(bytes[from]))
            &&& (to < bytes.len() ==> !is_continuation(bytes[to]))
            &&& (to - from <= limit || forall|i: int|
                from < i < to ==> is_continuation(#[trigger] bytes[i]))
        }),
{
    let start = vstd::math::min(requested, bytes.len() as int);
    lemma_skip(bytes, start);
    let from = skip_continuations(bytes, start);
    lemma_back_off(bytes, from, vstd::math::min(from + limit, bytes.len() as int));
    if from < bytes.len() {
        lemma_skip(bytes, from + 1);
        lemma_skipped_are_continuations(bytes, from + 1);
    }
}

proof fn lemma_skipped_are_continuations(bytes: Seq<u8>, i: int)
    requires
        0 <= i <= bytes.len(),
    ensures
        forall|k: int| i <= k < skip_continuations(bytes, i) ==> is_continuation(#[trigger] bytes[k]),
    decreases bytes.len() - i,
{
    if i < bytes.len() && is_continuation(bytes[i]) {
        lemma_skipped_are_continuations(bytes, i + 1);
    }
}

/// The next page begins where the one before ended: reading page by page from
/// the start skips nothing.
pub proof fn law_pages_are_contiguous(bytes: Seq<u8>, requested: int, limit: int, next_limit: int)
    requires
        requested >= 0,
        limit >= 0,
        next_limit >= 0,
    ensures
        page_bounds(bytes, page_bounds(bytes, requested, limit).1, next_limit).0 == page_bounds(
            bytes,
            requested,
            limit,
        ).1,
{
    law_pages_advance(bytes, requested, limit);
    law_pages_keep_characters_whole(bytes, requested, limit);
}

/// The text that bytes stand for, with a mark for whatever is not UTF-8.
pub uninterp spec fn lossy_text(bytes: Seq<u8>) -> Seq<char>;

/// `String::from_utf8_lossy`: the text that bytes stand for. Bytes that are
/// UTF-8 stand for the text that they encode; what is put in the place of others
/// is left unsaid.
#[verifier::external_body]
pub(crate) fn from_utf8_lossy(bytes: &[u8]) -> (r: String)
    ensures
        r@ == lossy_text(bytes@),
        valid_utf8(bytes@) ==> encode_utf8(r@) == bytes@,
{
    String::from_utf8_lossy(bytes).into_owned()
}

/// A page of the output or of the patch of a run.
pub struct OutputPage {
    pub schema_version: u32,
    pub run_id: String,
    pub offset: usize,
    pub next_offset: usize,
    pub total_bytes: usize,
    pub eof: bool,
    pub truncated: bool,
    pub text: String,
}

/// What [`OutputPage`] stands for.
pub struct OutputPageView {
    pub schema_version: u32,
    pub run_id: Seq<char>,
    pub offset: usize,
    pub next_offset: usize,
    pub total_bytes: usize,
    pub eof: bool,
    pub truncated: bool,
    pub text: Seq<char>,
}

impl View for OutputPage {
    type V = OutputPageView;

    open spec fn view(&self) -> OutputPageView {
        OutputPageView {
            schema_version: self.schema_version,
            run_id: self.run_id@,
            offset: self.offset,
            next_offset: self.next_offset,
            total_bytes: self.total_bytes,
            eof: self.eof,
            truncated: self.truncated,
            text: self.text@,
        }
    }
}

/// `limit` between `low` and the largest page, which is the default.
pub open spec fn page_limit(limit: Option<usize>, low: usize) -> usize {
    match limit {
        Some(l) => if l < low {
            low
        } else if l > OUTPUT_PAGE_MAX {
            OUTPUT_PAGE_MAX
        } else {
            l
        },
        None => OUTPUT_PAGE_MAX,
    }
}

fn clamp_limit(limit: Option<usize>, low: usize) -> (r: usize)
    requires
        low <= OUTPUT_PAGE_MAX,
    ensures
        r == page_limit(limit, low),
        low <= r <= OUTPUT_PAGE_MAX,
{
    match limit {
        Some(l) => if l < low {
            low
        } else if l > OUTPUT_PAGE_MAX {
            OUTPUT_PAGE_MAX
        } else {
            l
        },
        None => OUTPUT_PAGE_MAX,
    }
}

/// The text that bytes stand for: what they encode where they are UTF-8.
pub open spec fn shown_text(bytes: Seq<u8>) -> Seq<char> {
    if valid_utf8(bytes) {
        decode_utf8(bytes)
    } else {
        lossy_text(bytes)
    }
}

/// A page of the output of a run.
pub open spec fn output_page(run: RunRecordView, offset: usize, limit: Option<usize>) -> OutputPageView {
    let (from, to) = page_bounds(run.output, offset as int, page_limit(limit, 1) as int);
    OutputPageView {
        schema_version: 1,
        run_id: run.id,
        offset: from as usize,
        next_offset: to as usize,
        total_bytes: run.output.len() as usize,
        eof: to == run.output.len(),
        truncated: run.output_truncated,
        text: shown_text(run.output.subrange(from, to)),
    }
}

/// The first boundary between characters from `i` on.
pub open spec fn next_boundary(bytes: Seq<u8>, i: int) -> int
    decreases bytes.len() - i,
{
    if 0 <= i < bytes.len() && !is_char_boundary(bytes, i) {
        next_boundary(bytes, i + 1)
    } else {
        i
    }
}

/// The last boundary between characters up to `i`, and not before `low`.
pub open spec fn last_boundary(bytes: Seq<u8>, low: int, i: int) -> int
    decreases i - low,
{
    if low < i && !is_char_boundary(bytes, i) {
        last_boundary(bytes, low, i - 1)
    } else {
        i
    }
}

/// Where a page of a text begins and ends.
pub open spec fn text_page_bounds(bytes: Seq<u8>, requested: int, limit: int) -> (int, int) {
    let from = next_boundary(bytes, vstd::math::min(requested, bytes.len() as int));
    (from, last_boundary(bytes, from, vstd::math::min(from + limit, bytes.len() as int)))
}

/// A page of the patch of a run.
pub open spec fn diff_page(run: RunRecordView, offset: usize, limit: Option<usize>) -> OutputPageView {
    let bytes = encode_utf8(run.diff);
    let (from, to) = text_page_bounds(bytes, offset as int, page_limit(limit, 4) as int);
    OutputPageView {
        schema_version: 1,
        run_id: run.id,
        offset: from as usize,
        next_offset: to as usize,
        total_bytes: bytes.len() as usize,
        eof: to == bytes.len(),
        truncated: run.diff_truncated,
        text: decode_utf8(bytes.subrange(from, to)),
    }
}

/// The page `bytes[from..to]`, as text.
fn page_text(bytes: &[u8], from: usize, to: usize) -> (r: String)
    requires
        from <= to <= bytes@.len(),
    ensures
        r@ == shown_text(bytes@.subrange(from as int, to as int)),
{
    let page = vstd::slice::slice_subrange(bytes, from, to);
    let text = from_utf8_lossy(page);
    proof {
        vstd::utf8::encode_utf8_decode_utf8(text@);
    }
    text
}

/// What stands between two boundaries of a text is a text.
proof fn lemma_between_boundaries(bytes: Seq<u8>, from: int, to: int)
    requires
        valid_utf8(bytes),
        0 <= from <= to <= bytes.len(),
        is_char_boundary(bytes, from),
        is_char_boundary(bytes, to),
    ensures
        valid_utf8(bytes.subrange(from, to)),
{
    let rest = bytes.subrange(from, bytes.len() as int);
    vstd::utf8::valid_utf8_split(bytes, from);
    if to < bytes.len() {
        assert(rest[to - from] == bytes[to]);
        vstd::utf8::is_char_boundary_iff_not_is_continuation_byte(bytes, to);
        vstd::utf8::is_char_boundary_iff_not_is_continuation_byte(rest, to - from);
    } else {
        vstd::utf8::is_char_boundary_start_end_of_seq(rest);
    }
    vstd::utf8::valid_utf8_split(rest, to - from);
    assert(rest.subrange(0, to - from) =~= bytes.subrange(from, to));
}

proof fn lemma_next_boundary(bytes: Seq<u8>, i: int)
    requires
        valid_utf8(bytes),
        0 <= i <= bytes.len(),
    ensures
        i <= next_boundary(bytes, i) <= bytes.len(),
        is_char_boundary(bytes, next_boundary(bytes, i)),
    decreases bytes.len() - i,
{
    vstd::utf8::is_char_boundary_start_end_of_seq(bytes);
    if i < bytes.len() && !is_char_boundary(bytes, i) {
        lemma_next_boundary(bytes, i + 1);
    }
}

proof fn lemma_last_boundary(bytes: Seq<u8>, low: int, i: int)
    requires
        is_char_boundary(bytes, low),
        low <= i,
    ensures
        low <= last_boundary(bytes, low, i) <= i,
        is_char_boundary(bytes, last_boundary(bytes, low, i)),
    decreases i - low,
{
    if low < i && !is_char_boundary(bytes, i) {
        lemma_last_boundary(bytes, low, i - 1);
    }
}

proof fn lemma_text_page(bytes: Seq<u8>, requested: int, limit: int)
    requires
        valid_utf8(bytes),
        requested >= 0,
        limit >= 0,
    ensures
        ({
            let (from, to) = text_page_bounds(bytes, requested, limit);
            &&& 0 <= from <= to <= bytes.len()
            &&& valid_utf8(bytes.subrange(from, to))
        }),
{
    let start = vstd::math::min(requested, bytes.len() as int);
    lemma_next_boundary(bytes, start);
    let from = next_boundary(bytes, start);
    let top = vstd::math::min(from + limit, bytes.len() as int);
    lemma_last_boundary(bytes, from, top);
    lemma_between_boundaries(bytes, from, last_boundary(bytes, from, top));
}

/// A page of a patch holds exactly the bytes of the patch between its bounds.
pub proof fn law_patch_pages_hold_the_patch(run: RunRecordView, offset: usize, limit: Option<usize>)
    ensures
        ({
            let bytes = encode_utf8(run.diff);
            let (from, to) = text_page_bounds(bytes, offset as int, page_limit(limit, 4) as int);
            &&& 0 <= from <= to <= bytes.len()
            &&& encode_utf8(diff_page(run, offset, limit).text) == bytes.subrange(from, to)
        }),
{
    let bytes = encode_utf8(run.diff);
    vstd::utf8::encode_utf8_valid_utf8(run.diff);
    lemma_text_page(bytes, offset as int, page_limit(limit, 4) as int);
    let (from, to) = text_page_bounds(bytes, offset as int, page_limit(limit, 4) as int);
    vstd::utf8::decode_utf8_encode_utf8(bytes.subrange(from, to));
}

/// A page of output that is text holds exactly the bytes of the output between its
/// bounds, however the pages are cut.
pub proof fn law_output_pages_hold_the_output(
    run: RunRecordView,
    offset: usize,
    limit: Option<usize>,
)
    requires
        valid_utf8(run.output),
    ensures
        ({
            let (from, to) = page_bounds(run.output, offset as int, page_limit(limit, 1) as int);
            &&& 0 <= from <= to <= run.output.len()
            &&& encode_utf8(output_page(run, offset, limit).text) == run.output.subrange(from, to)
        }),
{
    let bytes = run.output;
    let size = page_limit(limit, 1) as int;
    law_pages_advance(bytes, offset as int, size);
    law_pages_keep_characters_whole(bytes, offset as int, size);
    let (from, to) = page_bounds(bytes, offset as int, size);
    lemma_whole_is_boundary(bytes, from);
    lemma_whole_is_boundary(bytes, to);
    lemma_between_boundaries(bytes, from, to);
    vstd::utf8::decode_utf8_encode_utf8(bytes.subrange(from, to));
}

proof fn lemma_whole_is_boundary(bytes: Seq<u8>, i: int)
    requires
        valid_utf8(bytes),
        0 <= i <= bytes.len(),
        i < bytes.len() ==> !is_continuation(bytes[i]),
    ensures
        is_char_boundary(bytes, i),
{
    if i < bytes.len() {
        vstd::utf8::utf8_byte_ranges_bitwise(bytes[i]);
        vstd::utf8::is_char_boundary_iff_not_is_continuation_byte(bytes, i);
    } else {
        vstd::utf8::is_char_boundary_start_end_of_seq(bytes);
    }
}

impl RunRecord {
    /// A page of the output of the run.
    pub fn output_page(&self, offset: usize, limit: Option<usize>) -> (r: OutputPage)
        ensures
            r@ == output_page(self@, offset, limit),
    {
        let limit: usize = clamp_limit(limit, 1);
        let bytes = self.output.as_slice();
        let (from, to) = utf8_page_bounds(bytes, offset, limit);
        OutputPage {
            schema_version: 1,
            run_id: self.id.clone(),
            offset: from,
            next_offset: to,
            total_bytes: bytes.len(),
            eof: to == bytes.len(),
            truncated: self.output_truncated,
            text: page_text(bytes, from, to),
        }
    }

    /// A page of the patch of the run.
    pub fn diff_page(&self, offset: usize, limit: Option<usize>) -> (r: OutputPage)
        ensures
            r@ == diff_page(self@, offset, limit),
    {
        let limit: usize = clamp_limit(limit, 4);
        let diff = self.diff.as_str();
        let bytes = diff.as_bytes();
        let start: usize = if offset < bytes.len() { offset } else { bytes.len() };
        let mut from: usize = start;
        while from < bytes.len() && !diff.is_char_boundary(from)
            invariant
                bytes@ == encode_utf8(diff@),
                start <= from <= bytes@.len(),
                next_boundary(bytes@, start as int) == next_boundary(bytes@, from as int),
            decreases bytes.len() - from,
        {
            from += 1;
        }
        let wanted: usize = from.saturating_add(limit);
        let top: usize = if wanted < bytes.len() { wanted } else { bytes.len() };
        let mut to: usize = top;
        assert(top as int == vstd::math::min(from + limit, bytes@.len() as int));
        while to > from && !diff.is_char_boundary(to)
            invariant
                bytes@ == encode_utf8(diff@),
                from <= to <= bytes@.len(),
                last_boundary(bytes@, from as int, top as int) == last_boundary(
                    bytes@,
                    from as int,
                    to as int,
                ),
            decreases to,
        {
            to -= 1;
        }
        proof {
            vstd::utf8::encode_utf8_valid_utf8(diff@);
            lemma_text_page(bytes@, offset as int, limit as int);
        }
        OutputPage {
            schema_version: 1,
            run_id: self.id.clone(),
            offset: from,
            next_offset: to,
            total_bytes: bytes.len(),
            eof: to == bytes.len(),
            truncated: self.diff_truncated,
            text: page_text(bytes, from, to),
        }
    }
}

/// `target` with as much of `bytes` behind it as keeps it at or under `max`.
pub open spec fn capped(target: Seq<u8>, bytes: Seq<u8>, max: int) -> Seq<u8> {
    target + bytes.take(room(target, bytes, max))
}

/// How much of `bytes` goes behind `target`.
pub open spec fn room(target: Seq<u8>, bytes: Seq<u8>, max: int) -> int {
    let left = if target.len() < max {
        max - target.len()
    } else {
        0
    };
    vstd::math::min(left, bytes.len() as int)
}

fn append_up_to(target: &mut Vec<u8>, bytes: &[u8], max: usize) -> (r: bool)
    ensures
        final(target)@ == capped(old(target)@, bytes@, max as int),
        r == (room(old(target)@, bytes@, max as int) < bytes@.len()),
{
    let left: usize = max.saturating_sub(target.len());
    let n: usize = if bytes.len() < left { bytes.len() } else { left };
    let ghost start = target@;
    for i in 0..n
        invariant
            n <= bytes@.len(),
            target@ =~= start + bytes@.take(i as int),
    {
        target.push(bytes[i]);
    }
    bytes.len() > left
}

/// Adds to the output of a run as much of `bytes` as is kept; whether some of it was not.
pub fn append_capped(target: &mut Vec<u8>, bytes: &[u8]) -> (r: bool)
    ensures
        final(target)@ == capped(old(target)@, bytes@, MAX_RUN_OUTPUT_BYTES as int),
        r == (room(old(target)@, bytes@, MAX_RUN_OUTPUT_BYTES as int) < bytes@.len()),
{
    append_up_to(target, bytes, MAX_RUN_OUTPUT_BYTES)
}

/// Adds to the patch of a run as much of `bytes` as is kept; whether some of it was not.
pub fn append_diff(target: &mut Vec<u8>, bytes: &[u8]) -> (r: bool)
    ensures
        final(target)@ == capped(old(target)@, bytes@, MAX_RUN_DIFF_BYTES as int),
        r == (room(old(target)@, bytes@, MAX_RUN_DIFF_BYTES as int) < bytes@.len()),
{
    append_up_to(target, bytes, MAX_RUN_DIFF_BYTES)
}

/// What is kept never grows over the limit, and what was kept stays.
pub proof fn law_output_is_capped(target: Seq<u8>, bytes: Seq<u8>)
    requires
        target.len() <= MAX_RUN_OUTPUT_BYTES,
    ensures
        capped(target, bytes, MAX_RUN_OUTPUT_BYTES as int).len() <= MAX_RUN_OUTPUT_BYTES,
        capped(target, bytes, MAX_RUN_OUTPUT_BYTES as int).take(target.len() as int) == target,
{
    assert(capped(target, bytes, MAX_RUN_OUTPUT_BYTES as int).take(target.len() as int) =~= target);
}

/// The result of a run that is under way.
pub open spec fn running_result(hook: Seq<char>, started_at: Seq<char>) -> JsonView {
    JsonView::Object(
        seq![
            ("schema_version"@, JsonView::Number("1"@, Some(1))),
            ("kind"@, JsonView::String("run_result"@)),
            ("hook"@, JsonView::String(hook)),
            ("status"@, JsonView::String("running"@)),
            ("started_at"@, JsonView::String(started_at)),
            ("duration_ms"@, JsonView::Number("0"@, Some(0))),
            ("steps"@, JsonView::Array(seq![])),
        ],
    )
}

fn text_field(key: &str, value: &str) -> (r: (String, Json))
    ensures
        r.0@ == key@,
        r.1@ == JsonView::String(value@),
{
    (key.to_owned(), Json::String(value.to_owned()))
}

fn number_field(key: &str, text: &str, value: u64) -> (r: (String, Json))
    ensures
        r.0@ == key@,
        r.1@ == JsonView::Number(text@, Some(value)),
{
    (
        key.to_owned(),
        Json::Number(JsonNumber { text: text.to_owned(), unsigned: Some(value) }),
    )
}

fn new_running_result(hook: &str, started_at: &str) -> (r: Json)
    ensures
        r@ == running_result(hook@, started_at@),
{
    broadcast use group_json;

    let mut fields: Vec<(String, Json)> = Vec::new();
    fields.push(number_field("schema_version", "1", 1));
    fields.push(text_field("kind", "run_result"));
    fields.push(text_field("hook", hook));
    fields.push(text_field("status", "running"));
    fields.push(text_field("started_at", started_at));
    fields.push(number_field("duration_ms", "0", 0));
    let steps: Vec<Json> = Vec::new();
    assert(views(steps@) =~= seq![]);
    let list = Json::Array(steps);
    fields.push(("steps".to_owned(), list));
    assert(field_views(fields@) =~= running_result(hook@, started_at@)->Object_0);
    Json::Object(fields)
}

/// The message for a result that cannot be understood.
pub open spec fn parse_failure(what: Seq<char>) -> Seq<char> {
    "failed to parse hk structured result: "@ + what
}

fn failed_parse(what: &str) -> (r: String)
    ensures
        r@ == parse_failure(what@),
{
    let mut m = "failed to parse hk structured result: ".to_owned();
    m.append(what);
    m
}

/// A run with an error.
pub open spec fn with_error(run: RunRecordView, what: Seq<char>) -> RunRecordView {
    RunRecordView { error: Some(parse_failure(what)), ..run }
}

/// The position of the first step of the name, -1 where there is none.
pub open spec fn step_index(steps: Seq<JsonView>, name: Seq<char>) -> int
    decreases steps.len(),
{
    if steps.len() == 0 {
        -1
    } else {
        let before = step_index(steps.drop_last(), name);
        if before >= 0 {
            before
        } else if steps.last().field_text("name"@) == Some(name) {
            steps.len() - 1
        } else {
            -1
        }
    }
}

/// The steps with `data` in the place of the first of the name, else at the end.
pub open spec fn with_step(steps: Seq<JsonView>, name: Seq<char>, data: JsonView) -> Seq<JsonView> {
    if step_index(steps, name) >= 0 {
        steps.update(step_index(steps, name), data)
    } else {
        steps.push(data)
    }
}

/// A result with the steps that are planned. A result that is no object cannot have any.
pub open spec fn planned(run: RunRecordView, steps: Seq<JsonView>) -> RunRecordView {
    match run.result {
        None => run,
        Some(JsonView::Object(fields)) => RunRecordView {
            result: Some(
                JsonView::Object(with_member(fields, "steps"@, JsonView::Array(steps))),
            ),
            ..run
        },
        Some(JsonView::Null) => RunRecordView {
            result: Some(JsonView::Object(seq![("steps"@, JsonView::Array(steps))])),
            ..run
        },
        Some(_) => with_error(run, "steps are invalid"@),
    }
}

/// The result of a run, or that of a run under way where it has none.
pub open spec fn result_or_running(run: RunRecordView) -> JsonView {
    match run.result {
        Some(r) => r,
        None => running_result(run.kind.command_text(), run.started_at),
    }
}

/// A run after news of one of its steps.
pub open spec fn stepped(run: RunRecordView, name: Seq<char>, data: JsonView) -> RunRecordView {
    let result = result_or_running(run);
    match result.field("steps"@) {
        Some(JsonView::Array(steps)) => RunRecordView {
            result: Some(
                JsonView::Object(
                    with_member(
                        result->Object_0,
                        "steps"@,
                        JsonView::Array(with_step(steps, name, data)),
                    ),
                ),
            ),
            ..run
        },
        _ => with_error(RunRecordView { result: Some(result), ..run }, "steps are invalid"@),
    }
}

/// A run after an event of a kind with its data.
pub open spec fn with_event(run: RunRecordView, kind: Seq<char>, data: JsonView) -> RunRecordView {
    if kind == "run_started"@ {
        RunRecordView {
            result: Some(
                running_result(
                    match data.field_text("hook"@) {
                        Some(h) => h,
                        None => run.kind.command_text(),
                    },
                    match data.field_text("started_at"@) {
                        Some(s) => s,
                        None => run.started_at,
                    },
                ),
            ),
            ..run
        }
    } else if kind == "run_planned"@ {
        match data.field("steps"@) {
            Some(JsonView::Array(steps)) => planned(run, steps),
            _ => with_error(run, "planned steps are invalid"@),
        }
    } else if kind == "step_started"@ || kind == "step_completed"@ {
        match data.field_text("name"@) {
            Some(name) => stepped(run, name, data),
            None => with_error(run, "step name is missing"@),
        }
    } else if kind == "run_completed"@ {
        RunRecordView { result: Some(data), saw_run_completed: true, ..run }
    } else {
        run
    }
}

/// A run after a line of its structured output.
pub open spec fn with_line(
    run: RunRecordView,
    parsed: Result<JsonView, Seq<char>>,
) -> RunRecordView {
    match parsed {
        Err(e) => with_error(run, e),
        Ok(event) => match event.field_text("event"@) {
            None => with_error(run, "event name is missing"@),
            Some(kind) => match event.field("data"@) {
                None => with_error(run, "event data is missing"@),
                Some(data) => with_event(run, kind, data),
            },
        },
    }
}

fn find_step(steps: &Vec<Json>, name: &str) -> (r: Option<usize>)
    ensures
        match r {
            Some(i) => step_index(views(steps@), name@) == i && i < steps@.len(),
            None => step_index(views(steps@), name@) < 0,
        },
{
    let mut found: Option<usize> = None;
    for i in 0..steps.len()
        invariant
            match found {
                Some(k) => step_index(views(steps@).take(i as int), name@) == k && k < i,
                None => step_index(views(steps@).take(i as int), name@) < 0,
            },
    {
        assert(views(steps@)[i as int] == steps@[i as int]@);
        if found.is_none() {
            if let Some(n) = steps[i].get_str("name") {
                if same(n, name) {
                    found = Some(i);
                }
            }
        }
    }
    assert(views(steps@).take(steps@.len() as int) =~= views(steps@));
    found
}

fn put_step(steps: &mut Vec<Json>, name: &str, data: Json)
    ensures
        views(final(steps)@) == with_step(views(old(steps)@), name@, data@),
{
    let ghost start = views(steps@);
    let ghost d = data@;
    match find_step(steps, name) {
        Some(i) => {
            steps.set(i, data);
            assert(views(steps@) =~= start.update(i as int, d));
        },
        None => steps.push(data),
    }
}

/// Takes the items of the array under `key` out of an object.
fn take_array(fields: &mut Vec<(String, Json)>, key: &str) -> (r: Option<Vec<Json>>)
    ensures
        match r {
            Some(items) => member(field_views(old(fields)@), key@) == Some(
                JsonView::Array(views(items@)),
            ) && (forall|v: JsonView|
                #[trigger] crate::json::with_member(field_views(final(fields)@), key@, v)
                    == crate::json::with_member(field_views(old(fields)@), key@, v)),
            None => field_views(final(fields)@) == field_views(old(fields)@) && !(member(
                field_views(old(fields)@),
                key@,
            ) matches Some(JsonView::Array(_))),
        },
{
    broadcast use group_json;

    let ghost f = field_views(fields@);
    proof {
        crate::json::lemma_field_index(f, key@);
    }
    match find_field(fields, key) {
        None => None,
        Some(i) => {
            match &fields[i].1 {
                Json::Array(_) => {},
                _ => {
                    return None;
                },
            }
            let ghost item = fields@[i as int].1;
            let mut pair = (key.to_owned(), Json::Null);
            core::mem::swap(&mut fields[i], &mut pair);
            proof {
                let g = field_views(fields@);
                assert(f[i as int] == (key@, item@));
                assert(crate::json::field_index(f, key@) == i) by {
                    let k = crate::json::field_index(f, key@);
                    if k < i {
                        assert(f[k].0 != key@);
                    }
                }
                assert(g =~= f.update(i as int, (key@, JsonView::Null)));
                crate::json::lemma_field_index(g, key@);
                assert(g[i as int].0 == key@);
                assert(crate::json::field_index(g, key@) == i) by {
                    let k = crate::json::field_index(g, key@);
                    if k < i {
                        assert(f[k].0 == key@);
                    }
                }
                assert forall|v: JsonView| #[trigger]
                    crate::json::with_member(g, key@, v) == crate::json::with_member(f, key@, v) by {
                    assert(crate::json::with_member(g, key@, v) =~= crate::json::with_member(
                        f,
                        key@,
                        v,
                    ));
                }
            }
            match pair.1 {
                Json::Array(items) => Some(items),
                _ => None,
            }
        },
    }
}

fn apply_step(run: &mut RunRecord, name: &str, data: Json)
    ensures
        final(run)@ == stepped(old(run)@, name@, data@),
{
    broadcast use group_json;

    let ghost start = run@;
    let result = match run.result.take() {
        Some(r) => r,
        None => new_running_result(run.kind.command(), run.started_at.as_str()),
    };
    assert(result@ == result_or_running(start));
    match result {
        Json::Object(mut fields) => {
            match take_array(&mut fields, "steps") {
                Some(mut steps) => {
                    put_step(&mut steps, name, data);
                    let list = Json::Array(steps);
                    crate::json::set_field(&mut fields, "steps", list);
                    run.result = Some(Json::Object(fields));
                },
                None => {
                    run.result = Some(Json::Object(fields));
                    run.error = Some(failed_parse("steps are invalid"));
                },
            }
        },
        other => {
            run.result = Some(other);
            run.error = Some(failed_parse("steps are invalid"));
        },
    }
}

fn apply_plan(run: &mut RunRecord, steps: Vec<Json>)
    ensures
        final(run)@ == planned(old(run)@, views(steps@)),
{
    broadcast use group_json;

    match run.result.take() {
        None => {},
        Some(Json::Object(mut fields)) => {
            crate::json::set_field(&mut fields, "steps", Json::Array(steps));
            run.result = Some(Json::Object(fields));
        },
        Some(Json::Null) => {
            let mut fields: Vec<(String, Json)> = Vec::new();
            let list = Json::Array(steps);
            fields.push(("steps".to_owned(), list));
            assert(field_views(fields@) =~= seq![("steps"@, JsonView::Array(views(steps@)))]);
            run.result = Some(Json::Object(fields));
        },
        Some(other) => {
            run.result = Some(other);
            run.error = Some(failed_parse("steps are invalid"));
        },
    }
}

/// Takes the value of the field `key` out of an object.
fn take_field(value: Json, key: &str) -> (r: Option<Json>)
    ensures
        opt_view(r) == value@.field(key@),
{
    broadcast use group_json;

    match value {
        Json::Object(mut fields) => match find_field(&fields, key) {
            Some(i) => {
                let pair = fields.swap_remove(i);
                Some(pair.1)
            },
            None => None,
        },
        _ => None,
    }
}

fn apply_data(run: &mut RunRecord, kind: &str, data: Json)
    ensures
        final(run)@ == with_event(old(run)@, kind@, data@),
{
    broadcast use group_json;

    if same(kind, "run_started") {
        let hook = match data.get_str("hook") {
            Some(h) => h,
            None => run.kind.command(),
        };
        let result = match data.get_str("started_at") {
            Some(s) => new_running_result(hook, s),
            None => new_running_result(hook, run.started_at.as_str()),
        };
        run.result = Some(result);
    } else if same(kind, "run_planned") {
        match take_field(data, "steps") {
            Some(Json::Array(steps)) => apply_plan(run, steps),
            _ => {
                run.error = Some(failed_parse("planned steps are invalid"));
            },
        }
    } else if same(kind, "step_started") || same(kind, "step_completed") {
        let name = match data.get_str("name") {
            Some(n) => Some(n.to_owned()),
            None => None,
        };
        match name {
            Some(n) => apply_step(run, n.as_str(), data),
            None => {
                run.error = Some(failed_parse("step name is missing"));
            },
        }
    } else if same(kind, "run_completed") {
        run.result = Some(data);
        run.saw_run_completed = true;
    }
}

/// Takes account of a line of the structured output of a run, once it has been parsed.
pub fn apply_event(run: &mut RunRecord, parsed: Result<Json, String>)
    ensures
        final(run)@ == with_line(old(run)@, json_result(parsed)),
{
    match parsed {
        Err(e) => {
            run.error = Some(failed_parse(e.as_str()));
        },
        Ok(event) => {
            let kind = match event.get_str("event") {
                Some(k) => k.to_owned(),
                None => {
                    run.error = Some(failed_parse("event name is missing"));
                    return;
                },
            };
            match take_field(event, "data") {
                Some(data) => apply_data(run, kind.as_str(), data),
                None => {
                    run.error = Some(failed_parse("event data is missing"));
                },
            }
        },
    }
}

/// Takes account of a line of the structured output of a run.
pub fn apply_jsonl_event(run: &mut RunRecord, line: &[u8])
    ensures
        final(run)@ == with_line(old(run)@, parsed_json(line@)),
{
    let parsed = parse_json(line);
    apply_event(run, parsed);
}

/// White space of ASCII.
pub open spec fn is_ascii_space(b: u8) -> bool {
    b == 32 || b == 9 || b == 10 || b == 12 || b == 13
}

/// Nothing but white space.
pub open spec fn is_blank(line: Seq<u8>) -> bool {
    forall|i: int| 0 <= i < line.len() ==> is_ascii_space(#[trigger] line[i])
}

fn blank(line: &[u8]) -> (r: bool)
    ensures
        r == is_blank(line@),
{
    for i in 0..line.len()
        invariant
            forall|k: int| 0 <= k < i ==> is_ascii_space(#[trigger] line@[k]),
    {
        let b = line[i];
        if !(b == 32 || b == 9 || b == 10 || b == 12 || b == 13) {
            assert(!is_ascii_space(line@[i as int]));
            return false;
        }
    }
    true
}

/// A run after one more byte of its structured output: a line that is complete
/// and not blank is taken account of.
pub open spec fn with_byte(run: RunRecordView, b: u8) -> RunRecordView {
    if b == 10 {
        let line = run.stdout_event_buffer;
        let cleared = RunRecordView { stdout_event_buffer: seq![], ..run };
        if is_blank(line) {
            cleared
        } else {
            with_line(cleared, parsed_json(line))
        }
    } else {
        RunRecordView { stdout_event_buffer: run.stdout_event_buffer.push(b), ..run }
    }
}

/// A run after the bytes of its structured output, one by one.
pub open spec fn fold_bytes(run: RunRecordView, bytes: Seq<u8>) -> RunRecordView
    decreases bytes.len(),
{
    if bytes.len() == 0 {
        run
    } else {
        with_byte(fold_bytes(run, bytes.drop_last()), bytes.last())
    }
}

/// A run that holds no incomplete line.
pub open spec fn without_buffer(run: RunRecordView) -> RunRecordView {
    RunRecordView { stdout_event_buffer: seq![], ..run }
}

/// A run after more of its structured output: every line of what it held and of what
/// came is taken account of, and what follows the last line is held.
pub open spec fn with_bytes(run: RunRecordView, bytes: Seq<u8>) -> RunRecordView {
    fold_bytes(without_buffer(run), run.stdout_event_buffer + bytes)
}

/// What follows the last line break.
pub open spec fn last_line(bytes: Seq<u8>) -> Seq<u8>
    decreases bytes.len(),
{
    if bytes.len() == 0 || bytes.last() == 10 {
        seq![]
    } else {
        last_line(bytes.drop_last()).push(bytes.last())
    }
}

fn take_bytes(run: &mut RunRecord, bytes: &[u8])
    ensures
        final(run)@ == fold_bytes(old(run)@, bytes@),
{
    let ghost start = run@;
    for i in 0..bytes.len()
        invariant
            run@ == fold_bytes(start, bytes@.take(i as int)),
    {
        let b = bytes[i];
        assert(bytes@.take(i + 1).drop_last() =~= bytes@.take(i as int));
        if b == 10 {
            let mut line: Vec<u8> = Vec::new();
            core::mem::swap(&mut run.stdout_event_buffer, &mut line);
            assert(run@.stdout_event_buffer =~= seq![]);
            if !blank(&line) {
                apply_jsonl_event(run, &line);
            }
        } else {
            run.stdout_event_buffer.push(b);
        }
    }
    assert(bytes@.take(bytes@.len() as int) =~= bytes@);
}

fn has_line_break(bytes: &Vec<u8>) -> (r: bool)
    ensures
        r == bytes@.contains(10),
{
    for i in 0..bytes.len()
        invariant
            forall|k: int| 0 <= k < i ==> bytes@[k] != 10,
    {
        if bytes[i] == 10 {
            return true;
        }
    }
    false
}

/// Takes account of more of the structured output of a run, line by line.
pub fn consume_jsonl_events(run: &mut RunRecord, bytes: &[u8])
    ensures
        final(run)@ == with_bytes(old(run)@, bytes@),
        final(run)@.stdout_event_buffer == last_line(old(run)@.stdout_event_buffer + bytes@),
{
    let ghost start = without_buffer(run@);
    let ghost held = run@.stdout_event_buffer;
    proof {
        lemma_fold_holds_last_line(start, held + bytes@);
    }
    if has_line_break(&run.stdout_event_buffer) {
        let mut all: Vec<u8> = Vec::new();
        core::mem::swap(&mut run.stdout_event_buffer, &mut all);
        all.extend_from_slice(bytes);
        assert(all@ =~= held + bytes@);
        assert(run@.stdout_event_buffer =~= seq![]);
        take_bytes(run, &all);
    } else {
        proof {
            lemma_fold_in_two(start, held, bytes@);
            lemma_fold_without_break(start, held);
            assert(start.stdout_event_buffer + held =~= held);
        }
        take_bytes(run, bytes);
    }
}

proof fn lemma_fold_holds_last_line(run: RunRecordView, bytes: Seq<u8>)
    requires
        run.stdout_event_buffer.len() == 0,
    ensures
        fold_bytes(run, bytes).stdout_event_buffer == last_line(bytes),
    decreases bytes.len(),
{
    if bytes.len() > 0 {
        lemma_fold_holds_last_line(run, bytes.drop_last());
        let before = fold_bytes(run, bytes.drop_last());
        if bytes.last() == 10 {
            assert(with_byte(before, 10).stdout_event_buffer =~= seq![]);
        }
    } else {
        assert(run.stdout_event_buffer =~= seq![]);
    }
}

proof fn lemma_fold_in_two(run: RunRecordView, a: Seq<u8>, b: Seq<u8>)
    ensures
        fold_bytes(run, a + b) == fold_bytes(fold_bytes(run, a), b),
    decreases b.len(),
{
    if b.len() == 0 {
        assert(a + b =~= a);
    } else {
        lemma_fold_in_two(run, a, b.drop_last());
        assert((a + b).drop_last() =~= a + b.drop_last());
    }
}

proof fn lemma_last_line_has_no_break(bytes: Seq<u8>)
    ensures
        !last_line(bytes).contains(10),
    decreases bytes.len(),
{
    if bytes.len() > 0 && bytes.last() != 10 {
        lemma_last_line_has_no_break(bytes.drop_last());
        let init = last_line(bytes.drop_last());
        let all = last_line(bytes);
        assert forall|i: int| 0 <= i < all.len() implies all[i] != 10 by {
            if i < init.len() {
                assert(init.contains(init[i]));
            }
        }
    }
}

/// Bytes without a line break are only held.
proof fn lemma_fold_without_break(run: RunRecordView, bytes: Seq<u8>)
    requires
        !bytes.contains(10),
    ensures
        fold_bytes(run, bytes) == (RunRecordView {
            stdout_event_buffer: run.stdout_event_buffer + bytes,
            ..run
        }),
    decreases bytes.len(),
{
    if bytes.len() == 0 {
        assert(run.stdout_event_buffer + bytes =~= run.stdout_event_buffer);
    } else {
        let init = bytes.drop_last();
        assert(bytes.contains(bytes[bytes.len() - 1]));
        assert(!init.contains(10)) by {
            if init.contains(10) {
                let i = choose|i: int| 0 <= i < init.len() && init[i] == 10;
                assert(bytes[i] == 10);
            }
        }
        lemma_fold_without_break(run, init);
        assert((run.stdout_event_buffer + init).push(bytes.last()) =~= run.stdout_event_buffer + bytes);
    }
}

/// What a run holds of its structured output has no line break: it is what follows
/// the last one.
pub proof fn law_no_line_is_held_back(run: RunRecordView, bytes: Seq<u8>)
    ensures
        with_bytes(run, bytes).stdout_event_buffer == last_line(run.stdout_event_buffer + bytes),
        !with_bytes(run, bytes).stdout_event_buffer.contains(10),
{
    let all = run.stdout_event_buffer + bytes;
    lemma_fold_holds_last_line(without_buffer(run), all);
    lemma_last_line_has_no_break(all);
}

/// Output that comes in two pieces has the same effect as output that comes at
/// once, wherever it is cut.
pub proof fn law_output_may_be_cut_anywhere(run: RunRecordView, a: Seq<u8>, b: Seq<u8>)
    ensures
        with_bytes(run, a + b) == with_bytes(with_bytes(run, a), b),
{
    let start = without_buffer(run);
    let held = run.stdout_event_buffer;
    let middle = with_bytes(run, a);
    assert(held + (a + b) =~= (held + a) + b);
    lemma_fold_in_two(start, held + a, b);
    law_no_line_is_held_back(run, a);
    let kept = middle.stdout_event_buffer;
    lemma_fold_in_two(without_buffer(middle), kept, b);
    lemma_fold_without_break(without_buffer(middle), kept);
    assert(without_buffer(middle).stdout_event_buffer + kept =~= kept);
    assert(fold_bytes(without_buffer(middle), kept) == middle);
}

/// A run whose output has ended, and whether its result is missing.
pub open spec fn result_checked(run: RunRecordView) -> (RunRecordView, bool) {
    if run.saw_run_completed && run.result is Some {
        (run, false)
    } else if run.stdout_truncated {
        (
            RunRecordView {
                error: Some(
                    "structured result exceeded the "@ + decimal(MAX_RUN_OUTPUT_BYTES as nat)
                        + " byte capture limit"@,
                ),
                ..run
            },
            true,
        )
    } else if run.error is None {
        (with_error(run, "missing run_completed event"@), true)
    } else {
        (run, true)
    }
}

/// Whether the result of a run whose output has ended is missing; then the run has an error.
pub fn parse_run_result(run: &mut RunRecord) -> (r: bool)
    ensures
        (final(run)@, r) == result_checked(old(run)@),
{
    if run.saw_run_completed && run.result.is_some() {
        return false;
    }
    if run.stdout_truncated {
        let mut m = "structured result exceeded the ".to_owned();
        m.append(show_usize(MAX_RUN_OUTPUT_BYTES).as_str());
        m.append(" byte capture limit");
        run.error = Some(m);
        return true;
    }
    if run.error.is_none() {
        run.error = Some(failed_parse("missing run_completed event"));
    }
    true
}

/// A run without a result always has an error that says why.
pub proof fn law_missing_result_is_an_error(run: RunRecordView)
    ensures
        result_checked(run).1 ==> result_checked(run).0.error is Some,
        !result_checked(run).1 ==> result_checked(run).0 == run && run.result is Some,
{
}

/// A run after more output: standard output goes to the structured output,
/// everything else to the log.
pub open spec fn received(run: RunRecordView, bytes: Seq<u8>, is_stdout: bool) -> RunRecordView {
    let max = MAX_RUN_OUTPUT_BYTES as int;
    if is_stdout {
        let kept = bytes.take(room(run.stdout, bytes, max));
        with_bytes(
            RunRecordView {
                stdout: run.stdout + kept,
                stdout_truncated: run.stdout_truncated || kept.len() < bytes.len(),
                ..run
            },
            kept,
        )
    } else {
        RunRecordView {
            output: capped(run.output, bytes, max),
            output_truncated: run.output_truncated || room(run.output, bytes, max) < bytes.len(),
            ..run
        }
    }
}

impl RunRecord {
    /// Takes account of more output of the run.
    pub fn receive(&mut self, bytes: &[u8], is_stdout: bool)
        ensures
            final(self)@ == received(old(self)@, bytes@, is_stdout),
    {
        let ghost start = self@;
        if is_stdout {
            let previous: usize = self.stdout.len();
            if append_capped(&mut self.stdout, bytes) {
                self.stdout_truncated = true;
            }
            let mut kept: Vec<u8> = Vec::new();
            let ghost part = bytes@.take(room(start.stdout, bytes@, MAX_RUN_OUTPUT_BYTES as int));
            for i in previous..self.stdout.len()
                invariant
                    previous == start.stdout.len(),
                    self.stdout@ == start.stdout + part,
                    kept@ =~= part.take(i - previous),
            {
                kept.push(self.stdout[i]);
            }
            assert(kept@ =~= part);
            consume_jsonl_events(self, &kept);
        } else if append_capped(&mut self.output, bytes) {
            self.output_truncated = true;
        }
    }
}

/// What the server holds: the roots it was started with, those it may use, and its runs, the oldest first.
pub struct McpState {
    pub startup_roots: NameSet,
    pub roots: NameSet,
    pub runs: Vec<RunRecord>,
}

/// What [`McpState`] stands for.
pub struct McpStateView {
    pub startup_roots: Seq<Seq<char>>,
    pub roots: Seq<Seq<char>>,
    pub runs: Seq<RunRecordView>,
}

impl View for McpState {
    type V = McpStateView;

    open spec fn view(&self) -> McpStateView {
        McpStateView {
            startup_roots: self.startup_roots@,
            roots: self.roots@,
            runs: views(self.runs@),
        }
    }
}

/// A run that is kept: it is not completed, or not longer ago than completed runs are kept.
pub open spec fn is_fresh(run: RunRecordView, now: u64) -> bool {
    match run.completed_at {
        Some(at) => now - at <= COMPLETED_RUN_TTL,
        None => true,
    }
}

/// The runs that are kept at `now`.
pub open spec fn fresh_runs(runs: Seq<RunRecordView>, now: u64) -> Seq<RunRecordView>
    decreases runs.len(),
{
    if runs.len() == 0 {
        seq![]
    } else {
        let before = fresh_runs(runs.drop_last(), now);
        if is_fresh(runs.last(), now) {
            before.push(runs.last())
        } else {
            before
        }
    }
}

/// How many of the runs have ended.
pub open spec fn ended_count(runs: Seq<RunRecordView>) -> nat
    decreases runs.len(),
{
    if runs.len() == 0 {
        0
    } else {
        ended_count(runs.drop_last()) + (if is_active(runs.last()) {
            0nat
        } else {
            1nat
        })
    }
}

/// The runs without the first `excess` that have ended, and how many are still to go.
pub open spec fn without_oldest(
    runs: Seq<RunRecordView>,
    excess: nat,
) -> (Seq<RunRecordView>, nat)
    decreases runs.len(),
{
    if runs.len() == 0 {
        (seq![], excess)
    } else {
        let (kept, left) = without_oldest(runs.drop_last(), excess);
        if left > 0 && !is_active(runs.last()) {
            (kept, (left - 1) as nat)
        } else {
            (kept.push(runs.last()), left)
        }
    }
}

/// How many runs that have ended are too many.
pub open spec fn excess_of(runs: Seq<RunRecordView>) -> nat {
    if ended_count(runs) > COMPLETED_RUN_LIMIT {
        (ended_count(runs) - COMPLETED_RUN_LIMIT) as nat
    } else {
        0
    }
}

/// The runs that the server keeps at `now`.
pub open spec fn cleaned(runs: Seq<RunRecordView>, now: u64) -> Seq<RunRecordView> {
    let fresh = fresh_runs(runs, now);
    without_oldest(fresh, excess_of(fresh)).0
}

impl McpState {
    /// A server that was started on `root`.
    pub fn new(root: String) -> (r: Self)
        ensures
            r@ == (McpStateView { startup_roots: seq![root@], roots: seq![root@], runs: seq![] }),
    {
        let mut roots = NameSet::new();
        roots.insert(root);
        assert(roots@ =~= seq![root@]);
        let runs: Vec<RunRecord> = Vec::new();
        assert(views(runs@) =~= seq![]);
        McpState { startup_roots: roots.dup(), roots, runs }
    }

    /// Lets the server use, besides the roots it was started with, `client_roots` and no others.
    pub fn replace_client_roots(&mut self, client_roots: &NameSet)
        ensures
            final(self)@ == (McpStateView {
                roots: push_all_new(old(self)@.startup_roots, client_roots@),
                ..old(self)@
            }),
    {
        let mut roots = self.startup_roots.dup();
        roots.extend(client_roots);
        self.roots = roots;
    }

    /// Forgets runs that were completed too long ago, and the oldest where too many are kept.
    pub fn cleanup_at(&mut self, now: u64)
        ensures
            final(self)@ == (McpStateView { runs: cleaned(old(self)@.runs, now), ..old(self)@ }),
    {
        let mut runs: Vec<RunRecord> = Vec::new();
        core::mem::swap(&mut self.runs, &mut runs);
        let ghost rs = runs@;
        let mut fresh: Vec<RunRecord> = Vec::new();
        let mut ended: usize = 0;
        assert(views(fresh@) =~= fresh_runs(views(rs).take(0), now));
        assert(ended_count(views(fresh@)) == 0);
        for run in it: runs
            invariant
                it.seq() == rs,
                views(fresh@) == fresh_runs(views(rs).take(it.index()), now),
                ended == ended_count(views(fresh@)),
                ended <= fresh@.len(),
                fresh@.len() <= it.index(),
                it.index() <= rs.len(),
        {
            let ghost i = it.index();
            assert(run == rs[i]);
            assert(views(rs)[i] == run@);
            let keep = match run.completed_at {
                Some(at) => at > now || now - at <= COMPLETED_RUN_TTL,
                None => true,
            };
            if keep {
                let active = run.active();
                let ghost before = views(fresh@);
                fresh.push(run);
                assert(views(fresh@).drop_last() =~= before);
                let n: usize = fresh.len();
                assert(ended < n);
                if !active {
                    ended = ended + 1;
                }
            }
        }
        assert(views(rs).take(rs.len() as int) =~= views(rs));
        let ghost fs = fresh@;
        let mut excess: usize = if ended > COMPLETED_RUN_LIMIT {
            ended - COMPLETED_RUN_LIMIT
        } else {
            0
        };
        let ghost e = excess as nat;
        let mut kept: Vec<RunRecord> = Vec::new();
        assert(views(kept@) =~= without_oldest(views(fs).take(0), e).0);
        for run in it: fresh
            invariant
                it.seq() == fs,
                (views(kept@), excess as nat) == without_oldest(views(fs).take(it.index()), e),
        {
            let ghost i = it.index();
            assert(run == fs[i]);
            assert(views(fs)[i] == run@);
            if excess > 0 && !run.active() {
                excess = excess - 1;
            } else {
                kept.push(run);
            }
        }
        assert(views(fs).take(fs.len() as int) =~= views(fs));
        self.runs = kept;
    }
}

proof fn lemma_without_oldest(runs: Seq<RunRecordView>, excess: nat)
    ensures
        ({
            let (kept, left) = without_oldest(runs, excess);
            &&& left <= excess
            &&& (excess <= ended_count(runs) ==> left == 0 && ended_count(kept) == ended_count(runs)
                - excess)
            &&& (excess > ended_count(runs) ==> left == excess - ended_count(runs) && ended_count(
                kept,
            ) == 0)
            &&& forall|r: RunRecordView|
                #![trigger kept.contains(r)]
                is_active(r) && runs.contains(r) ==> kept.contains(r)
            &&& forall|r: RunRecordView| #[trigger] kept.contains(r) ==> runs.contains(r)
        }),
    decreases runs.len(),
{
    if runs.len() > 0 {
        let init = runs.drop_last();
        let last = runs.last();
        lemma_without_oldest(init, excess);
        let (before, left0) = without_oldest(init, excess);
        let (kept, left) = without_oldest(runs, excess);
        assert(before.push(last).drop_last() =~= before);
        assert(runs[runs.len() - 1] == last);
        assert forall|r: RunRecordView| is_active(r) && runs.contains(r) implies kept.contains(r) by {
            if r == last {
                assert(kept[kept.len() - 1] == last);
            } else {
                let i = choose|i: int| 0 <= i < runs.len() && runs[i] == r;
                assert(init[i] == r);
                assert(before.contains(r));
                let j = choose|j: int| 0 <= j < before.len() && before[j] == r;
                assert(kept[j] == r);
            }
        }
        assert forall|r: RunRecordView| #[trigger] kept.contains(r) implies runs.contains(r) by {
            let j = choose|j: int| 0 <= j < kept.len() && kept[j] == r;
            if j < before.len() {
                assert(before[j] == r);
                assert(before.contains(r));
                assert(init.contains(r));
                let i = choose|i: int| 0 <= i < init.len() && init[i] == r;
                assert(runs[i] == r);
            }
        }
    }
}

proof fn lemma_fresh_runs(runs: Seq<RunRecordView>, now: u64, r: RunRecordView)
    ensures
        fresh_runs(runs, now).contains(r) <==> (runs.contains(r) && is_fresh(r, now)),
    decreases runs.len(),
{
    if runs.len() > 0 {
        let init = runs.drop_last();
        lemma_fresh_runs(init, now, r);
        let before = fresh_runs(init, now);
        let all = fresh_runs(runs, now);
        assert(runs[runs.len() - 1] == runs.last());
        if runs.contains(r) && r != runs.last() {
            let i = choose|i: int| 0 <= i < runs.len() && runs[i] == r;
            assert(init[i] == r);
        }
        if init.contains(r) {
            let i = choose|i: int| 0 <= i < init.len() && init[i] == r;
            assert(runs[i] == r);
        }
        if before.contains(r) {
            let i = choose|i: int| 0 <= i < before.len() && before[i] == r;
            assert(all[i] == r);
        }
        if all.contains(r) {
            let i = choose|i: int| 0 <= i < all.len() && all[i] == r;
            if i < before.len() {
                assert(before[i] == r);
            }
        }
        if is_fresh(runs.last(), now) {
            assert(all[all.len() - 1] == runs.last());
        }
    }
}

/// After a cleanup no more runs that have ended are kept than the limit allows.
pub proof fn law_cleanup_bounds_ended_runs(runs: Seq<RunRecordView>, now: u64)
    ensures
        ended_count(cleaned(runs, now)) <= COMPLETED_RUN_LIMIT,
{
    let fresh = fresh_runs(runs, now);
    lemma_without_oldest(fresh, excess_of(fresh));
}

/// A cleanup never forgets a run that is active and not marked as completed.
pub proof fn law_cleanup_keeps_active_runs(runs: Seq<RunRecordView>, now: u64, run: RunRecordView)
    requires
        runs.contains(run),
        is_active(run),
        run.completed_at is None,
    ensures
        cleaned(runs, now).contains(run),
{
    let fresh = fresh_runs(runs, now);
    lemma_fresh_runs(runs, now, run);
    lemma_without_oldest(fresh, excess_of(fresh));
}

/// A cleanup forgets every run that was completed longer ago than runs are kept.
pub proof fn law_cleanup_expires_old_runs(runs: Seq<RunRecordView>, now: u64, run: RunRecordView)
    requires
        cleaned(runs, now).contains(run),
    ensures
        runs.contains(run),
        run.completed_at is Some ==> now - run.completed_at->0 <= COMPLETED_RUN_TTL,
{
    let fresh = fresh_runs(runs, now);
    lemma_without_oldest(fresh, excess_of(fresh));
    lemma_fresh_runs(runs, now, run);
}

/// The root that a request asks for: one of those that the server may use, the
/// only one where none is named.
pub open spec fn chosen_root(
    roots: Seq<Seq<char>>,
    requested: Option<Seq<char>>,
) -> Result<Seq<char>, Seq<char>> {
    match requested {
        Some(r) => if roots.contains(r) {
            Ok(r)
        } else {
            Err("root is outside the MCP server allowlist"@)
        },
        None => if roots.len() == 1 {
            Ok(roots[0])
        } else {
            Err("multiple roots are available; select one returned by inspect_project"@)
        },
    }
}

/// What a result of two texts stands for.
pub open spec fn text_or_error(r: Result<String, String>) -> Result<Seq<char>, Seq<char>> {
    match r {
        Ok(s) => Ok(s@),
        Err(e) => Err(e@),
    }
}

/// A request can never bring the server to use a root that it may not.
pub proof fn law_roots_come_from_the_allowlist(
    roots: Seq<Seq<char>>,
    requested: Option<Seq<char>>,
)
    ensures
        chosen_root(roots, requested) matches Ok(r) ==> roots.contains(r),
{
    if requested is None && roots.len() == 1 {
        assert(roots[0] == roots[0]);
        assert(roots.contains(roots[0]));
    }
}

/// Some run of `root` is active.
pub open spec fn busy(runs: Seq<RunRecordView>, root: Seq<char>) -> bool {
    exists|i: int| 0 <= i < runs.len() && (#[trigger] runs[i]).root == root && is_active(runs[i])
}

/// The position of the first run of the name, -1 where there is none.
pub open spec fn run_index(runs: Seq<RunRecordView>, id: Seq<char>) -> int
    decreases runs.len(),
{
    if runs.len() == 0 {
        -1
    } else {
        let before = run_index(runs.drop_last(), id);
        if before >= 0 {
            before
        } else if runs.last().id == id {
            runs.len() - 1
        } else {
            -1
        }
    }
}

proof fn lemma_run_index(runs: Seq<RunRecordView>, id: Seq<char>)
    ensures
        -1 <= run_index(runs, id) < runs.len(),
        run_index(runs, id) >= 0 ==> runs[run_index(runs, id)].id == id,
    decreases runs.len(),
{
    if runs.len() > 0 {
        lemma_run_index(runs.drop_last(), id);
    }
}

/// The runs with `change` made to the run `id`, where there is one.
pub open spec fn run_changed(
    runs: Seq<RunRecordView>,
    id: Seq<char>,
    change: spec_fn(RunRecordView) -> RunRecordView,
) -> Seq<RunRecordView> {
    let i = run_index(runs, id);
    if i >= 0 {
        runs.update(i, change(runs[i]))
    } else {
        runs
    }
}

/// The name of the run of a number.
pub open spec fn run_name(n: nat) -> Seq<char> {
    "hk-"@ + decimal(n)
}

/// The name of the run of a number.
pub fn run_id(n: usize) -> (r: String)
    ensures
        r@ == run_name(n as nat),
{
    let mut id = "hk-".to_owned();
    id.append(show_usize(n).as_str());
    id
}

/// How a run ended: with an exit code and whether that means success, or it
/// could not be waited for.
pub enum Ending {
    Exited(Option<i32>, bool),
    WaitFailed(String),
}

/// A run that was cancelled, failed or succeeded.
pub open spec fn final_status(cancelled: bool, invalid: bool, success: bool) -> Seq<char> {
    if cancelled {
        "cancelled"@
    } else if invalid || !success {
        "failed"@
    } else {
        "succeeded"@
    }
}

/// A run that has ended.
pub open spec fn ended_run(
    run: RunRecordView,
    finished_at: Seq<char>,
    completed_at: u64,
    diff: Seq<char>,
    diff_truncated: bool,
    ending: Ending,
    cancelled: bool,
) -> RunRecordView {
    let stopped = RunRecordView {
        finished_at: Some(finished_at),
        completed_at: Some(completed_at),
        diff,
        diff_truncated,
        ..run
    };
    match ending {
        Ending::Exited(code, success) => {
            let (checked, invalid) = result_checked(RunRecordView { exit_code: code, ..stopped });
            RunRecordView { status: final_status(cancelled, invalid, success), ..checked }
        },
        Ending::WaitFailed(e) => RunRecordView {
            status: "failed"@,
            error: Some("failed to wait for hk: "@ + e@),
            ..stopped
        },
    }
}

impl RunRecord {
    /// Takes down how the run ended.
    pub fn end(
        &mut self,
        finished_at: String,
        completed_at: u64,
        diff: String,
        diff_truncated: bool,
        ending: Ending,
        cancelled: bool,
    )
        ensures
            final(self)@ == ended_run(
                old(self)@,
                finished_at@,
                completed_at,
                diff@,
                diff_truncated,
                ending,
                cancelled,
            ),
    {
        self.finished_at = Some(finished_at);
        self.completed_at = Some(completed_at);
        self.diff = diff;
        self.diff_truncated = diff_truncated;
        match ending {
            Ending::Exited(code, success) => {
                self.exit_code = code;
                let invalid = parse_run_result(self);
                let status = if cancelled {
                    "cancelled"
                } else if invalid || !success {
                    "failed"
                } else {
                    "succeeded"
                };
                self.status = status.to_owned();
            },
            Ending::WaitFailed(e) => {
                let mut m = "failed to wait for hk: ".to_owned();
                m.append(e.as_str());
                self.status = "failed".to_owned();
                self.error = Some(m);
            },
        }
    }

    /// Asks the run to stop, where it is active.
    pub fn cancel(&mut self) -> (r: bool)
        ensures
            r == is_active(old(self)@),
            final(self)@ == cancelled_run(old(self)@),
    {
        if self.active() {
            self.status = "cancelling".to_owned();
            self.cancelled = true;
            true
        } else {
            false
        }
    }
}

/// A run that was asked to stop.
pub open spec fn cancelled_run(run: RunRecordView) -> RunRecordView {
    if is_active(run) {
        RunRecordView { status: "cancelling"@, cancelled: true, ..run }
    } else {
        run
    }
}

/// A run that has ended is not active.
pub proof fn law_ended_runs_are_not_active(
    run: RunRecordView,
    finished_at: Seq<char>,
    completed_at: u64,
    diff: Seq<char>,
    diff_truncated: bool,
    ending: Ending,
    cancelled: bool,
)
    ensures
        !is_active(
            ended_run(run, finished_at, completed_at, diff, diff_truncated, ending, cancelled),
        ),
{
    reveal_strlit("starting");
    reveal_strlit("running");
    reveal_strlit("cancelling");
    reveal_strlit("cancelled");
    reveal_strlit("failed");
    reveal_strlit("succeeded");
    assert("starting"@.len() == 8 && "running"@.len() == 7 && "cancelling"@.len() == 10);
    assert("cancelled"@.len() == 9 && "failed"@.len() == 6 && "succeeded"@.len() == 9);
}

/// What is told of a run that was asked for by name.
pub open spec fn found_snapshot(
    runs: Seq<RunRecordView>,
    id: Seq<char>,
) -> Result<RunSnapshotView, Seq<char>> {
    let i = run_index(runs, id);
    if i >= 0 {
        Ok(snapshot_of(runs[i]))
    } else {
        Err("run not found or expired"@)
    }
}

/// What a result with a snapshot stands for.
pub open spec fn snapshot_result(
    r: Result<RunSnapshot, String>,
) -> Result<RunSnapshotView, Seq<char>> {
    match r {
        Ok(s) => Ok(s@),
        Err(e) => Err(e@),
    }
}

/// What a result with a page stands for.
pub open spec fn page_result(r: Result<OutputPage, String>) -> Result<OutputPageView, Seq<char>> {
    match r {
        Ok(s) => Ok(s@),
        Err(e) => Err(e@),
    }
}

/// The runs, each active one asked to stop, and how many were.
pub open spec fn all_cancelled(runs: Seq<RunRecordView>) -> (Seq<RunRecordView>, nat)
    decreases runs.len(),
{
    if runs.len() == 0 {
        (seq![], 0)
    } else {
        let (before, n) = all_cancelled(runs.drop_last());
        (
            before.push(cancelled_run(runs.last())),
            if is_active(runs.last()) {
                n + 1
            } else {
                n
            },
        )
    }
}

impl McpState {
    fn find_run(&self, id: &str) -> (r: Option<usize>)
        ensures
            match r {
                Some(i) => run_index(self@.runs, id@) == i && i < self.runs@.len(),
                None => run_index(self@.runs, id@) < 0,
            },
    {
        let mut found: Option<usize> = None;
        for i in 0..self.runs.len()
            invariant
                match found {
                    Some(k) => run_index(self@.runs.take(i as int), id@) == k && k < i,
                    None => run_index(self@.runs.take(i as int), id@) < 0,
                },
        {
            assert(self@.runs[i as int] == self.runs@[i as int]@);
            if found.is_none() && same(self.runs[i].id.as_str(), id) {
                found = Some(i);
            }
        }
        assert(self@.runs.take(self.runs@.len() as int) =~= self@.runs);
        found
    }

    /// The root that a request asks for.
    pub fn select_root(&mut self, requested: Option<&str>, now: u64) -> (r: Result<String, String>)
        ensures
            final(self)@ == (McpStateView { runs: cleaned(old(self)@.runs, now), ..old(self)@ }),
            text_or_error(r) == chosen_root(
                old(self)@.roots,
                match requested {
                    Some(s) => Some(s@),
                    None => None,
                },
            ),
    {
        self.cleanup_at(now);
        match requested {
            Some(s) => {
                if self.roots.contains(s) {
                    Ok(s.to_owned())
                } else {
                    Err("root is outside the MCP server allowlist".to_owned())
                }
            },
            None => {
                if self.roots.len() == 1 {
                    Ok(self.roots.at(0).clone())
                } else {
                    Err(
                        "multiple roots are available; select one returned by inspect_project".to_owned(),
                    )
                }
            },
        }
    }

    fn is_busy(&self, root: &str) -> (r: bool)
        ensures
            r == busy(self@.runs, root@),
    {
        for i in 0..self.runs.len()
            invariant
                forall|k: int|
                    0 <= k < i ==> !((#[trigger] self@.runs[k]).root == root@ && is_active(
                        self@.runs[k],
                    )),
        {
            assert(self@.runs[i as int] == self.runs@[i as int]@);
            if same(self.runs[i].root.as_str(), root) && self.runs[i].active() {
                return true;
            }
        }
        false
    }

    /// Starts the run of number `number` in `root`, unless one is active there.
    pub fn start(
        &mut self,
        number: usize,
        root: String,
        kind: RunKind,
        started_at: String,
        now: u64,
    ) -> (r: Result<RunSnapshot, String>)
        ensures
            ({
                let runs = cleaned(old(self)@.runs, now);
                let run = new_run(run_name(number as nat), root@, kind, started_at@);
                if busy(runs, root@) {
                    &&& final(self)@ == (McpStateView { runs, ..old(self)@ })
                    &&& snapshot_result(r) == Err::<RunSnapshotView, Seq<char>>(
                        "a run is already active for "@ + root@,
                    )
                } else {
                    &&& final(self)@ == (McpStateView { runs: runs.push(run), ..old(self)@ })
                    &&& snapshot_result(r) == Ok::<RunSnapshotView, Seq<char>>(snapshot_of(run))
                }
            }),
    {
        self.cleanup_at(now);
        if self.is_busy(root.as_str()) {
            let mut m = "a run is already active for ".to_owned();
            m.append(root.as_str());
            return Err(m);
        }
        let run = RunRecord::new(run_id(number), root, kind, started_at);
        let snapshot = run.snapshot();
        self.runs.push(run);
        Ok(snapshot)
    }

    /// Sets the status of a run.
    pub fn set_status(&mut self, id: &str, status: &str)
        ensures
            final(self)@ == (McpStateView {
                runs: run_changed(
                    old(self)@.runs,
                    id@,
                    |run: RunRecordView| RunRecordView { status: status@, ..run },
                ),
                ..old(self)@
            }),
    {
        let ghost start = self@.runs;
        match self.find_run(id) {
            Some(i) => {
                let run = &mut self.runs[i];
                run.status = status.to_owned();
                assert(self@.runs =~= start.update(
                    i as int,
                    RunRecordView { status: status@, ..start[i as int] },
                ));
            },
            None => {},
        }
    }

    /// Ends a run that could not be carried out.
    pub fn finish_error(&mut self, id: &str, error: String, finished_at: String, completed_at: u64)
        ensures
            final(self)@ == (McpStateView {
                runs: run_changed(
                    old(self)@.runs,
                    id@,
                    |run: RunRecordView|
                        RunRecordView {
                            status: "failed"@,
                            error: Some(error@),
                            finished_at: Some(finished_at@),
                            completed_at: Some(completed_at),
                            ..run
                        },
                ),
                ..old(self)@
            }),
    {
        let ghost start = self@.runs;
        let ghost e = error@;
        let ghost f = finished_at@;
        match self.find_run(id) {
            Some(i) => {
                let run = &mut self.runs[i];
                run.status = "failed".to_owned();
                run.error = Some(error);
                run.finished_at = Some(finished_at);
                run.completed_at = Some(completed_at);
                assert(self@.runs =~= start.update(
                    i as int,
                    RunRecordView {
                        status: "failed"@,
                        error: Some(e),
                        finished_at: Some(f),
                        completed_at: Some(completed_at),
                        ..start[i as int]
                    },
                ));
            },
            None => {},
        }
    }

    /// Takes account of more output of a run; whether the run is still known.
    pub fn receive(&mut self, id: &str, bytes: &[u8], is_stdout: bool) -> (r: bool)
        ensures
            r == (run_index(old(self)@.runs, id@) >= 0),
            final(self)@ == (McpStateView {
                runs: run_changed(
                    old(self)@.runs,
                    id@,
                    |run: RunRecordView| received(run, bytes@, is_stdout),
                ),
                ..old(self)@
            }),
    {
        let ghost start = self@.runs;
        match self.find_run(id) {
            Some(i) => {
                let run = &mut self.runs[i];
                run.receive(bytes, is_stdout);
                assert(self@.runs =~= start.update(
                    i as int,
                    received(start[i as int], bytes@, is_stdout),
                ));
                true
            },
            None => false,
        }
    }

    /// Takes down how a run ended, and cleans up.
    pub fn finish(
        &mut self,
        id: &str,
        finished_at: String,
        completed_at: u64,
        diff: String,
        diff_truncated: bool,
        ending: Ending,
        cancelled: bool,
    )
        ensures
            ({
                let i = run_index(old(self)@.runs, id@);
                final(self)@ == if i >= 0 {
                    McpStateView {
                        runs: cleaned(
                            old(self)@.runs.update(
                                i,
                                ended_run(
                                    old(self)@.runs[i],
                                    finished_at@,
                                    completed_at,
                                    diff@,
                                    diff_truncated,
                                    ending,
                                    cancelled,
                                ),
                            ),
                            completed_at,
                        ),
                        ..old(self)@
                    }
                } else {
                    old(self)@
                }
            }),
    {
        let ghost start = self@.runs;
        match self.find_run(id) {
            Some(i) => {
                let ghost changed = ended_run(
                    start[i as int],
                    finished_at@,
                    completed_at,
                    diff@,
                    diff_truncated,
                    ending,
                    cancelled,
                );
                let run = &mut self.runs[i];
                run.end(finished_at, completed_at, diff, diff_truncated, ending, cancelled);
                assert(self@.runs =~= start.update(i as int, changed));
                self.cleanup_at(completed_at);
            },
            None => {},
        }
    }

    /// What is told of a run that is asked for by name.
    pub fn snapshot(&mut self, id: &str, now: u64) -> (r: Result<RunSnapshot, String>)
        ensures
            final(self)@ == (McpStateView { runs: cleaned(old(self)@.runs, now), ..old(self)@ }),
            snapshot_result(r) == found_snapshot(cleaned(old(self)@.runs, now), id@),
    {
        self.cleanup_at(now);
        match self.find_run(id) {
            Some(i) => {
                assert(self@.runs[i as int] == self.runs@[i as int]@);
                Ok(self.runs[i].snapshot())
            },
            None => Err("run not found or expired".to_owned()),
        }
    }

    /// A page of the output of a run.
    pub fn get_output(&mut self, id: &str, offset: usize, limit: Option<usize>, now: u64) -> (r:
        Result<OutputPage, String>)
        ensures
            final(self)@ == (McpStateView { runs: cleaned(old(self)@.runs, now), ..old(self)@ }),
            ({
                let runs = cleaned(old(self)@.runs, now);
                let i = run_index(runs, id@);
                page_result(r) == if i >= 0 {
                    Ok(output_page(runs[i], offset, limit))
                } else {
                    Err("run not found or expired"@)
                }
            }),
    {
        self.cleanup_at(now);
        match self.find_run(id) {
            Some(i) => {
                assert(self@.runs[i as int] == self.runs@[i as int]@);
                Ok(self.runs[i].output_page(offset, limit))
            },
            None => Err("run not found or expired".to_owned()),
        }
    }

    /// A page of the patch of a run.
    pub fn get_diff(&mut self, id: &str, offset: usize, limit: Option<usize>, now: u64) -> (r:
        Result<OutputPage, String>)
        ensures
            final(self)@ == (McpStateView { runs: cleaned(old(self)@.runs, now), ..old(self)@ }),
            ({
                let runs = cleaned(old(self)@.runs, now);
                let i = run_index(runs, id@);
                page_result(r) == if i >= 0 {
                    Ok(diff_page(runs[i], offset, limit))
                } else {
                    Err("run not found or expired"@)
                }
            }),
    {
        self.cleanup_at(now);
        match self.find_run(id) {
            Some(i) => {
                assert(self@.runs[i as int] == self.runs@[i as int]@);
                Ok(self.runs[i].diff_page(offset, limit))
            },
            None => Err("run not found or expired".to_owned()),
        }
    }

    /// Asks a run to stop, and tells how it is.
    pub fn cancel_run(&mut self, id: &str, now: u64) -> (r: Result<RunSnapshot, String>)
        ensures
            ({
                let runs = run_changed(
                    cleaned(old(self)@.runs, now),
                    id@,
                    |run: RunRecordView| cancelled_run(run),
                );
                &&& final(self)@ == (McpStateView { runs, ..old(self)@ })
                &&& snapshot_result(r) == found_snapshot(runs, id@)
            }),
    {
        self.cleanup_at(now);
        let ghost start = self@.runs;
        match self.find_run(id) {
            Some(i) => {
                let run = &mut self.runs[i];
                run.cancel();
                let snapshot = self.runs[i].snapshot();
                proof {
                    let changed = start.update(i as int, cancelled_run(start[i as int]));
                    assert(self@.runs =~= changed);
                    assert(self@.runs[i as int] == self.runs@[i as int]@);
                    lemma_run_index(start, id@);
                    lemma_run_index_ids(start, changed, id@);
                }
                Ok(snapshot)
            },
            None => Err("run not found or expired".to_owned()),
        }
    }

    /// Asks every active run to stop; how many there were.
    pub fn prepare_debug_shutdown(&mut self, now: u64) -> (r: usize)
        ensures
            ({
                let (runs, n) = all_cancelled(cleaned(old(self)@.runs, now));
                final(self)@ == (McpStateView { runs, ..old(self)@ }) && r == n
            }),
    {
        self.cleanup_at(now);
        let mut runs: Vec<RunRecord> = Vec::new();
        core::mem::swap(&mut self.runs, &mut runs);
        let ghost rs = runs@;
        let mut active: usize = 0;
        let mut out: Vec<RunRecord> = Vec::new();
        assert(views(out@) =~= all_cancelled(views(rs).take(0)).0);
        for run in it: runs
            invariant
                it.seq() == rs,
                (views(out@), active as nat) == all_cancelled(views(rs).take(it.index())),
                active <= it.index(),
                it.index() <= rs.len(),
                out@.len() == it.index(),
        {
            let ghost i = it.index();
            assert(run == rs[i]);
            assert(views(rs)[i] == run@);
            let mut run = run;
            let cancelled = run.cancel();
            out.push(run);
            let n: usize = out.len();
            assert(active < n);
            if cancelled {
                active = active + 1;
            }
        }
        assert(views(rs).take(rs.len() as int) =~= views(rs));
        self.runs = out;
        active
    }
}

/// The position of a run depends on the names alone.
proof fn lemma_run_index_ids(a: Seq<RunRecordView>, b: Seq<RunRecordView>, id: Seq<char>)
    requires
        a.len() == b.len(),
        forall|i: int| 0 <= i < a.len() ==> (#[trigger] a[i]).id == b[i].id,
    ensures
        run_index(a, id) == run_index(b, id),
    decreases a.len(),
{
    if a.len() > 0 {
        assert(a[a.len() - 1].id == b[b.len() - 1].id);
        assert forall|i: int| 0 <= i < a.len() - 1 implies (#[trigger] a.drop_last()[i]).id
            == b.drop_last()[i].id by {
            assert(a[i].id == b[i].id);
        }
        lemma_run_index_ids(a.drop_last(), b.drop_last(), id);
    }
}

/// While a run of a root is active, no other run of that root starts.
pub proof fn law_one_active_run_per_root(
    runs: Seq<RunRecordView>,
    run: RunRecordView,
    now: u64,
)
    requires
        runs.contains(run),
        is_active(run),
        run.completed_at is None,
    ensures
        busy(cleaned(runs, now), run.root),
{
    law_cleanup_keeps_active_runs(runs, now, run);
    let kept = cleaned(runs, now);
    let i = choose|i: int| 0 <= i < kept.len() && kept[i] == run;
    assert(kept[i].root == run.root && is_active(kept[i]));
}

/// Whether `path` is one of the roots that the server was started with, or lies below one.
pub fn is_within_startup_roots(startup_roots: &NameSet, path: &str) -> (r: bool)
    ensures
        r == (exists|i: int|
            0 <= i < startup_roots@.len() && lies_within(path@, #[trigger] startup_roots@[i])),
{
    let n: usize = startup_roots.len();
    for i in 0..n
        invariant
            n == startup_roots@.len(),
            forall|k: int| 0 <= k < i ==> !lies_within(path@, #[trigger] startup_roots@[k]),
    {
        if is_within(path, startup_roots.at(i).as_str()) {
            return true;
        }
    }
    false
}

/// The roots of a client that lie within those that the server was started with.
pub open spec fn roots_within(
    startup: Seq<Seq<char>>,
    client: Seq<Seq<char>>,
) -> Seq<Seq<char>>
    decreases client.len(),
{
    if client.len() == 0 {
        seq![]
    } else {
        let before = roots_within(startup, client.drop_last());
        if exists|i: int| 0 <= i < startup.len() && lies_within(client.last(), #[trigger] startup[i]) {
            crate::table::push_new(before, client.last())
        } else {
            before
        }
    }
}

impl McpState {
    /// Lets the server use, besides the roots it was started with, those of the
    /// client's directories that lie within them.
    pub fn refresh_client_roots(&mut self, directories: &Vec<String>)
        ensures
            final(self)@ == (McpStateView {
                roots: push_all_new(
                    old(self)@.startup_roots,
                    roots_within(old(self)@.startup_roots, texts(directories@)),
                ),
                ..old(self)@
            }),
    {
        let mut client = NameSet::new();
        for i in 0..directories.len()
            invariant
                client@ == roots_within(self@.startup_roots, texts(directories@).take(i as int)),
        {
            assert(texts(directories@)[i as int] == directories@[i as int]@);
            if is_within_startup_roots(&self.startup_roots, directories[i].as_str()) {
                client.insert(directories[i].clone());
            }
        }
        assert(texts(directories@).take(directories@.len() as int) =~= texts(directories@));
        self.replace_client_roots(&client);
    }
}

/// Whatever directories a client offers, the server uses only such that lie
/// within the roots it was started with.
pub proof fn law_client_roots_stay_within_startup_roots(
    startup: Seq<Seq<char>>,
    client: Seq<Seq<char>>,
    root: Seq<char>,
)
    requires
        push_all_new(startup, roots_within(startup, client)).contains(root),
    ensures
        startup.contains(root) || exists|i: int|
            0 <= i < startup.len() && lies_within(root, #[trigger] startup[i]),
{
    crate::table::lemma_push_all_new(startup, roots_within(startup, client));
    if !startup.contains(root) {
        lemma_roots_within(startup, client, root);
    }
}

proof fn lemma_roots_within(startup: Seq<Seq<char>>, client: Seq<Seq<char>>, root: Seq<char>)
    requires
        roots_within(startup, client).contains(root),
    ensures
        exists|i: int| 0 <= i < startup.len() && lies_within(root, #[trigger] startup[i]),
    decreases client.len(),
{
    let before = roots_within(startup, client.drop_last());
    let all = roots_within(startup, client);
    let j = choose|j: int| 0 <= j < all.len() && all[j] == root;
    if before.contains(root) {
        lemma_roots_within(startup, client.drop_last(), root);
    } else {
        if j < before.len() {
            assert(before[j] == root);
        }
        assert(root == client.last());
    }
}

/// `url::Url::parse`, `url::Url::to_file_path` and `OsString::into_encoded_bytes`: the
/// path that a `file:` URI names, if it is one, byte by byte. What it is depends on the
/// platform, so nothing is said of it.
#[verifier::external_body]
pub(crate) fn file_uri_path(uri: String) -> (r: Option<Vec<u8>>) {
    let path = url::Url::parse(uri.as_str()).ok()?.to_file_path().ok()?;
    Some(path.into_os_string().into_encoded_bytes())
}

/// The paths that were found.
pub open spec fn found_paths(found: Seq<Option<Seq<u8>>>) -> Seq<Seq<u8>>
    decreases found.len(),
{
    if found.len() == 0 {
        seq![]
    } else {
        match found.last() {
            Some(path) => found_paths(found.drop_last()).push(path),
            None => found_paths(found.drop_last()),
        }
    }
}

/// What optional paths stand for.
pub open spec fn path_views(found: Seq<Option<Vec<u8>>>) -> Seq<Option<Seq<u8>>> {
    found.map_values(|o: Option<Vec<u8>>| opt_view(o))
}

/// The paths that were found.
pub fn keep_found(found: &Vec<Option<Vec<u8>>>) -> (r: Vec<Vec<u8>>)
    ensures
        views(r@) == found_paths(path_views(found@)),
{
    let ghost all = path_views(found@);
    let mut out: Vec<Vec<u8>> = Vec::new();
    assert(views(out@) =~= found_paths(all.take(0)));
    for i in 0..found.len()
        invariant
            all == path_views(found@),
            views(out@) == found_paths(all.take(i as int)),
    {
        assert(all.take(i + 1).drop_last() =~= all.take(i as int));
        assert(all.take(i + 1).last() == opt_view(found@[i as int]));
        if let Some(path) = &found[i] {
            let copy = path.clone();
            let ghost before = out@;
            assert(copy@ =~= path@);
            out.push(copy);
            assert(views(out@) =~= views(before).push(path@));
        }
    }
    assert(all.take(found@.len() as int) =~= all);
    out
}

/// What `name` gave for a text equal to `uri`.
pub open spec fn asked<F: Fn(String) -> Option<Vec<u8>>>(
    name: F,
    uri: Seq<char>,
    path: Option<Vec<u8>>,
) -> bool {
    exists|s: String| s@ == uri && #[trigger] name.ensures((s,), path)
}

/// What `name` gave for each of `uris`, in their order.
pub open spec fn asked_all<F: Fn(String) -> Option<Vec<u8>>>(
    name: F,
    uris: Seq<String>,
    found: Seq<Option<Vec<u8>>>,
) -> bool {
    &&& found.len() == uris.len()
    &&& forall|i: int| 0 <= i < uris.len() ==> asked(name, uris[i]@, #[trigger] found[i])
}

/// The paths that `name` finds for URIs, in their order; a URI for which it finds none is
/// left out.
pub fn named_paths<F: Fn(String) -> Option<Vec<u8>>>(uris: &Vec<String>, name: F) -> (r: Vec<
    Vec<u8>,
>)
    requires
        forall|s: String| #[trigger] name.requires((s,)),
    ensures
        exists|found: Seq<Option<Vec<u8>>>| #[trigger]
            asked_all(name, uris@, found) && views(r@) == found_paths(path_views(found)),
{
    let mut found: Vec<Option<Vec<u8>>> = Vec::new();
    for i in 0..uris.len()
        invariant
            found@.len() == i,
            forall|s: String| #[trigger] name.requires((s,)),
            forall|k: int| 0 <= k < i ==> asked(name, uris@[k]@, #[trigger] found@[k]),
    {
        let uri = uris[i].clone();
        let ghost text = uri;
        let path = name(uri);
        assert(text@ == uris@[i as int]@ && name.ensures((text,), path));
        found.push(path);
    }
    let r = keep_found(&found);
    assert(asked_all(name, uris@, found@));
    r
}

/// The paths are those that the URIs name, in their order, without the URIs that name
/// none.
pub open(crate) spec fn are_named_by(uris: Seq<String>, paths: Seq<Seq<u8>>) -> bool {
    exists|found: Seq<Option<Vec<u8>>>| #[trigger]
        asked_all(file_uri_path, uris, found) && paths == found_paths(path_views(found))
}

/// The paths that URIs of a client name, in their order; a URI that names none is left
/// out. Which path a URI names depends on the platform.
pub fn client_paths(uris: &Vec<String>) -> (r: Vec<Vec<u8>>)
    ensures
        are_named_by(uris@, views(r@)),
        exists|found: Seq<Option<Seq<u8>>>|
            found.len() == uris@.len() && views(r@) == #[trigger] found_paths(found),
{
    let r = named_paths(uris, file_uri_path);
    proof {
        let found = choose|found: Seq<Option<Vec<u8>>>| #[trigger]
            asked_all(file_uri_path, uris@, found) && views(r@) == found_paths(path_views(found));
        assert(path_views(found).len() == uris@.len());
    }
    r
}

/// The plan that the program printed, where `parsed` is the JSON value of its output.
pub open spec fn plan_result(parsed: Result<JsonView, Seq<char>>) -> Result<JsonView, Seq<char>> {
    match parsed {
        Ok(plan) => Ok(plan),
        Err(e) => Err("hk returned an invalid plan: "@ + e),
    }
}

/// The plan that the program printed, where `parsed` is the JSON value of its output.
pub fn plan_of(parsed: Result<Json, String>) -> (r: Result<Json, String>)
    ensures
        json_result(r) == plan_result(json_result(parsed)),
{
    match parsed {
        Ok(plan) => Ok(plan),
        Err(e) => {
            let mut m = "hk returned an invalid plan: ".to_owned();
            m.append(e.as_str());
            Err(m)
        },
    }
}

/// The plan that the program printed, or what is said of an output that is none.
pub fn read_plan(stdout: &[u8]) -> (r: Result<Json, String>)
    ensures
        json_result(r) == match parsed_json(stdout@) {
            Ok(plan) => Ok(plan),
            Err(e) => Err("hk returned an invalid plan: "@ + e),
        },
{
    plan_of(parse_json(stdout))
}

/// The patch that a call of git gave, as text, and whether some of it was not kept:
/// nothing where the call failed.
pub fn captured_diff(success: bool, kept: &[u8], truncated: bool) -> (r: (String, bool))
    ensures
        (r.0@, r.1) == if success {
            (shown_text(kept@), truncated)
        } else {
            (Seq::<char>::empty(), false)
        },
{
    if success {
        let text = page_text(kept, 0, kept.len());
        assert(kept@.subrange(0, kept@.len() as int) =~= kept@);
        (text, truncated)
    } else {
        let none = String::new();
        assert(none@ =~= Seq::<char>::empty());
        (none, false)
    }
}

/// How the program is called for the plan of the project at `root`.
pub fn plan_args(root: &str) -> (r: Vec<String>)
    ensures
        texts(r@) == seq!["--cd"@, root@, "check"@, "--all"@, "--plan"@, "--json"@],
{
    let mut args: Vec<String> = Vec::new();
    args.push("--cd".to_owned());
    args.push(root.to_owned());
    args.push("check".to_owned());
    args.push("--all".to_owned());
    args.push("--plan".to_owned());
    args.push("--json".to_owned());
    assert(texts(args@) =~= seq!["--cd"@, root@, "check"@, "--all"@, "--plan"@, "--json"@]);
    args
}

/// The plan that a call of the program gave, or why it gave none: it failed, or what it
/// printed is no plan.
pub fn captured_plan(success: bool, stdout: &[u8], stderr: &[u8]) -> (r: Result<Json, String>)
    ensures
        json_result(r) == if success {
            plan_result(parsed_json(stdout@))
        } else {
            Err("hk failed: "@ + trimmed(lossy_text(stderr@)))
        },
{
    if success {
        read_plan(stdout)
    } else {
        Err(capture_error(stderr))
    }
}

/// The options of the server.
pub struct Mcp {
    /// The root that the tools are restricted to, the current directory where it is not given.
    pub root: Option<String>,
}

/// What [`Mcp`] stands for.
pub struct McpView {
    pub root: Option<Seq<char>>,
}

impl View for Mcp {
    type V = McpView;

    open spec fn view(&self) -> McpView {
        McpView {
            root: opt_text(self.root),
        }
    }
}

impl Mcp {
    /// The directory that the server is started for.
    pub fn start_dir(&self) -> (r: String)
        ensures
            r@ == match self@.root {
                Some(root) => root,
                None => "."@,
            },
    {
        match &self.root {
            Some(root) => root.clone(),
            None => ".".to_owned(),
        }
    }
}

/// The root for the resolved directory `root`, where `is_dir` says whether it is one.
pub fn canonical_directory(root: String, is_dir: bool) -> (r: Result<String, String>)
    ensures
        match r {
            Ok(dir) => is_dir && dir == root,
            Err(e) => !is_dir && e@ == "MCP root is not a directory: "@ + root@,
        },
{
    if is_dir {
        Ok(root)
    } else {
        let mut m = "MCP root is not a directory: ".to_owned();
        m.append(root.as_str());
        Err(m)
    }
}

/// The text that bytes stand for, without the white space around it.
pub fn trimmed_output(stdout: &[u8]) -> (r: String)
    ensures
        r@ == trimmed(lossy_text(stdout@)),
{
    trim(from_utf8_lossy(stdout).as_str())
}

/// Where the index of the repository at `root` lies, from what git printed.
pub fn index_path(root: &str, stdout: &[u8]) -> (r: String)
    ensures
        r@ == joined_path(root@, trimmed(lossy_text(stdout@))),
{
    let path = trimmed_output(stdout);
    join_path(root, path.as_str())
}

/// What is said of a command of the program that failed.
pub fn capture_error(stderr: &[u8]) -> (r: String)
    ensures
        r@ == "hk failed: "@ + trimmed(lossy_text(stderr@)),
{
    let mut m = "hk failed: ".to_owned();
    m.append(trimmed_output(stderr).as_str());
    m
}

/// What an inspection of a project tells.
pub open spec fn inspection(
    root: Seq<char>,
    roots: Seq<Seq<char>>,
    has_config: bool,
    is_git_repository: bool,
) -> JsonView {
    JsonView::Object(
        seq![
            ("schema_version"@, JsonView::Number("1"@, Some(1))),
            ("root"@, JsonView::String(root)),
            ("roots"@, JsonView::Array(roots.map_values(|r: Seq<char>| JsonView::String(r)))),
            ("has_config"@, JsonView::Bool(has_config)),
            ("is_git_repository"@, JsonView::Bool(is_git_repository)),
        ],
    )
}

impl McpState {
    /// What an inspection of the project at `root` tells, with the roots in order.
    pub fn inspect_project(&self, root: &str, has_config: bool, is_git_repository: bool) -> (r: Json)
        ensures
            r@ == inspection(root@, sorted_paths(self@.roots), has_config, is_git_repository),
    {
        broadcast use group_json;

        let roots = sort_paths(&self.roots.to_list());
        let ghost names = texts(roots@).map_values(|r: Seq<char>| JsonView::String(r));
        let mut list: Vec<Json> = Vec::new();
        for i in 0..roots.len()
            invariant
                names == texts(roots@).map_values(|r: Seq<char>| JsonView::String(r)),
                views(list@) =~= names.take(i as int),
        {
            list.push(Json::String(roots[i].clone()));
        }
        assert(views(list@) =~= names);
        let mut fields: Vec<(String, Json)> = Vec::new();
        fields.push(number_field("schema_version", "1", 1));
        fields.push(text_field("root", root));
        let roots = Json::Array(list);
        fields.push(("roots".to_owned(), roots));
        fields.push(("has_config".to_owned(), Json::Bool(has_config)));
        fields.push(("is_git_repository".to_owned(), Json::Bool(is_git_repository)));
        assert(field_views(fields@) =~= inspection(
            root@,
            sorted_paths(self@.roots),
            has_config,
            is_git_repository,
        )->Object_0);
        Json::Object(fields)
    }

    /// Whether some run has not ended, so that the server cannot stop yet.
    pub fn has_active_runs(&self) -> (r: bool)
        ensures
            r == (exists|i: int| 0 <= i < self@.runs.len() && is_active(#[trigger] self@.runs[i])),
    {
        for i in 0..self.runs.len()
            invariant
                forall|k: int| 0 <= k < i ==> !is_active(#[trigger] self@.runs[k]),
        {
            assert(self@.runs[i as int] == self.runs@[i as int]@);
            if self.runs[i].active() {
                return true;
            }
        }
        false
    }
}

/// The address of the page that shows a run.
pub open spec fn dashboard_uri() -> Seq<char> {
    "ui://hk/run-dashboard"@
}

/// Whether a resource is the page that shows a run, which is the only one.
pub fn is_dashboard(uri: &str) -> (r: bool)
    ensures
        r == (uri@ == dashboard_uri()),
{
    same(uri, "ui://hk/run-dashboard")
}

/// A run works on all files of its root and tells of it line by line; it fixes only where
/// it is a fixing run, and every run but a plain check refuses unknown commands.
pub proof fn law_runs_do_what_their_kind_says(kind: RunKind, root: Seq<char>)
    ensures
        ({
            let args = run_arguments(kind, root);
            let asked = args.skip(2);
            &&& args[0] == "--cd"@ && args[1] == root
            &&& asked.contains("--all"@)
            &&& asked[0] == "--format"@ && asked[1] == "jsonl"@
            &&& asked.contains("fix"@) <==> kind == RunKind::SafeFix
            &&& asked.contains("check"@) <==> kind != RunKind::SafeFix
            &&& asked.contains("--safe"@) <==> kind != RunKind::Check
            &&& asked.contains("--no-stage"@) <==> kind == RunKind::SafeFix
        }),
{
    let asked = run_arguments(kind, root).skip(2);
    reveal_strlit("--format");
    reveal_strlit("jsonl");
    reveal_strlit("check");
    reveal_strlit("fix");
    reveal_strlit("--all");
    reveal_strlit("--safe");
    reveal_strlit("--no-stage");
    assert("--format"@.len() == 8 && "jsonl"@.len() == 5 && "check"@.len() == 5 && "fix"@.len() == 3
        && "--all"@.len() == 5 && "--safe"@.len() == 6 && "--no-stage"@.len() == 10);
    assert("jsonl"@[0] == 'j' && "check"@[0] == 'c' && "--all"@[0] == '-');
    assert(asked[2] == kind.command_text() && asked[3] == "--all"@);
    if kind != RunKind::Check {
        assert(asked[4] == "--safe"@);
    }
    if kind == RunKind::SafeFix {
        assert(asked[5] == "--no-stage"@);
    }
    assert(asked.len() == if kind == RunKind::SafeFix {
        6int
    } else if kind == RunKind::SafeCheck {
        5int
    } else {
        4int
    });
}

/// A run is under way from its start to its end, whatever the end is.
pub proof fn law_runs_are_active_until_they_end(
    id: Seq<char>,
    root: Seq<char>,
    kind: RunKind,
    started_at: Seq<char>,
)
    ensures
        ({
            let run = new_run(id, root, kind, started_at);
            &&& is_active(run) && run.completed_at is None && !run.cancelled
            &&& run.id == id && run.root == root && run.kind == kind && run.started_at == started_at
            &&& run.result is None && run.error is None && run.output.len() == 0
        }),
        is_active_status("running"@),
        is_active_status("cancelling"@),
        !is_active_status("succeeded"@),
        !is_active_status("failed"@),
        !is_active_status("cancelled"@),
{
    reveal_strlit("starting");
    reveal_strlit("running");
    reveal_strlit("cancelling");
    reveal_strlit("cancelled");
    reveal_strlit("failed");
    reveal_strlit("succeeded");
    assert("starting"@.len() == 8 && "running"@.len() == 7 && "cancelling"@.len() == 10);
    assert("cancelled"@.len() == 9 && "failed"@.len() == 6 && "succeeded"@.len() == 9);
}

/// A snapshot tells of the run what is so, and how much there is to read.
pub proof fn law_snapshots_tell_of_the_run(run: RunRecordView)
    requires
        run.output.len() <= usize::MAX,
        encode_utf8(run.diff).len() <= usize::MAX,
    ensures
        ({
            let told = snapshot_of(run);
            &&& told.id == run.id && told.root == run.root && told.kind == run.kind.label_text()
            &&& told.status == run.status && told.exit_code == run.exit_code
            &&& told.started_at == run.started_at && told.finished_at == run.finished_at
            &&& told.result == run.result && told.error == run.error
            &&& told.output_bytes == run.output.len()
            &&& told.output_truncated == run.output_truncated
            &&& told.diff_bytes == encode_utf8(run.diff).len()
            &&& told.diff_truncated == run.diff_truncated
            &&& run.diff.len() > 0 ==> told.has_diff
            &&& run.diff.len() == 0 ==> !told.has_diff
        }),
{
    if run.diff.len() == 0 {
        assert(run.diff =~= seq![]);
    }
}

/// The kinds of runs have names of their own.
pub proof fn law_kinds_have_their_names(a: RunKind, b: RunKind)
    ensures
        a.label_text() == b.label_text() ==> a == b,
{
    reveal_strlit("check");
    reveal_strlit("safe_check");
    reveal_strlit("safe_fix");
    assert("check"@.len() == 5 && "safe_check"@.len() == 10 && "safe_fix"@.len() == 8);
}

/// A page is as long as was asked for, within the limits; without a wish it is the largest.
pub proof fn law_pages_have_the_wished_size(limit: usize, low: usize)
    requires
        low <= 65536,
    ensures
        low <= limit <= 65536 ==> page_limit(Some(limit), low) == limit,
        limit < low ==> page_limit(Some(limit), low) == low,
        limit > 65536 ==> page_limit(Some(limit), low) == 65536,
        page_limit(None, low) == 65536,
{
}

proof fn lemma_lines_keep_output(run: RunRecordView, bytes: Seq<u8>)
    ensures
        ({
            let r = fold_bytes(run, bytes);
            &&& r.output == run.output && r.output_truncated == run.output_truncated
            &&& r.stdout == run.stdout && r.stdout_truncated == run.stdout_truncated
            &&& r.id == run.id && r.root == run.root && r.kind == run.kind && r.status == run.status
            &&& r.cancelled == run.cancelled && r.completed_at == run.completed_at
            &&& r.started_at == run.started_at && r.finished_at == run.finished_at
            &&& r.diff == run.diff && r.exit_code == run.exit_code
        }),
    decreases bytes.len(),
{
    if bytes.len() > 0 {
        lemma_lines_keep_output(run, bytes.drop_last());
    }
}

/// What a run writes is kept, all of it as long as there is room, and else as much as there
/// is room for; that something was not kept is taken down.
pub proof fn law_output_is_kept(run: RunRecordView, bytes: Seq<u8>, is_stdout: bool)
    requires
        run.output.len() <= MAX_RUN_OUTPUT_BYTES,
        run.stdout.len() <= MAX_RUN_OUTPUT_BYTES,
    ensures
        ({
            let r = received(run, bytes, is_stdout);
            let before = if is_stdout { run.stdout } else { run.output };
            let after = if is_stdout { r.stdout } else { r.output };
            let was_cut = if is_stdout { run.stdout_truncated } else { run.output_truncated };
            let is_cut = if is_stdout { r.stdout_truncated } else { r.output_truncated };
            &&& before.len() + bytes.len() <= MAX_RUN_OUTPUT_BYTES ==> after == before + bytes
                && is_cut == was_cut
            &&& before.len() + bytes.len() > MAX_RUN_OUTPUT_BYTES ==> is_cut && after == (before
                + bytes).take(MAX_RUN_OUTPUT_BYTES as int)
            &&& is_stdout ==> r.output == run.output && r.output_truncated == run.output_truncated
            &&& !is_stdout ==> r.stdout == run.stdout && r.stdout_truncated == run.stdout_truncated
                && r.result == run.result && r.error == run.error
            &&& r.id == run.id && r.status == run.status && r.cancelled == run.cancelled
        }),
{
    let max = MAX_RUN_OUTPUT_BYTES as int;
    let before = if is_stdout { run.stdout } else { run.output };
    let n = room(before, bytes, max);
    let kept = bytes.take(n);
    if before.len() + bytes.len() <= MAX_RUN_OUTPUT_BYTES {
        assert(kept =~= bytes);
    } else {
        assert(before + kept =~= (before + bytes).take(max));
    }
    if is_stdout {
        let started = RunRecordView {
            stdout: run.stdout + kept,
            stdout_truncated: run.stdout_truncated || kept.len() < bytes.len(),
            ..run
        };
        lemma_lines_keep_output(without_buffer(started), started.stdout_event_buffer + kept);
    }
}

/// A line of structured output is taken account of when it ends, and only then.
pub proof fn law_lines_count_when_they_end(run: RunRecordView, line: Seq<u8>)
    requires
        !line.contains(10),
        run.stdout_event_buffer.len() == 0,
    ensures
        with_bytes(run, line) == (RunRecordView { stdout_event_buffer: line, ..run }),
        with_bytes(run, line.push(10)) == if is_blank(line) {
            run
        } else {
            with_line(run, parsed_json(line))
        },
{
    let start = without_buffer(run);
    assert(run.stdout_event_buffer =~= seq![]);
    assert(start == run);
    assert(run.stdout_event_buffer + line =~= line);
    assert(run.stdout_event_buffer + line.push(10) =~= line.push(10));
    lemma_fold_without_break(start, line);
    assert(start.stdout_event_buffer + line =~= line);
    assert(line.push(10).drop_last() =~= line);
}

/// The event that completes a run brings its result.
pub proof fn law_completed_runs_have_their_result(run: RunRecordView, event: JsonView, data: JsonView)
    requires
        event.field_text("event"@) == Some("run_completed"@),
        event.field("data"@) == Some(data),
    ensures
        with_line(run, Ok(event)) == (RunRecordView {
            result: Some(data),
            saw_run_completed: true,
            ..run
        }),
{
    lemma_event_names();
}

proof fn lemma_event_names()
    ensures
        "run_completed"@ != "run_started"@,
        "run_completed"@ != "run_planned"@,
        "run_completed"@ != "step_started"@,
        "run_completed"@ != "step_completed"@,
        "run_planned"@ != "run_started"@,
        "step_started"@ != "run_started"@,
        "step_started"@ != "run_planned"@,
        "step_completed"@ != "run_started"@,
        "step_completed"@ != "run_planned"@,
{
    reveal_strlit("run_completed");
    reveal_strlit("run_started");
    reveal_strlit("run_planned");
    reveal_strlit("step_started");
    reveal_strlit("step_completed");
    assert("run_completed"@.len() == 13 && "run_started"@.len() == 11 && "run_planned"@.len() == 11
        && "step_started"@.len() == 12 && "step_completed"@.len() == 14);
    assert("run_started"@[4] != "run_planned"@[4]);
}

/// The event that starts a run makes its result one under way, with no steps yet.
pub proof fn law_started_runs_are_under_way(
    run: RunRecordView,
    event: JsonView,
    data: JsonView,
    hook: Seq<char>,
    started_at: Seq<char>,
)
    requires
        event.field_text("event"@) == Some("run_started"@),
        event.field("data"@) == Some(data),
        data.field_text("hook"@) == Some(hook),
        data.field_text("started_at"@) == Some(started_at),
    ensures
        ({
            let r = with_line(run, Ok(event));
            &&& r.result matches Some(result) && result.field_text("hook"@) == Some(hook)
                && result.field_text("started_at"@) == Some(started_at) && result.field_text(
                "status"@,
            ) == Some("running"@) && result.field("steps"@) == Some(JsonView::Array(seq![]))
            &&& r.error == run.error && r.saw_run_completed == run.saw_run_completed
        }),
{
    lemma_running_result(hook, started_at);
}

proof fn lemma_running_result(hook: Seq<char>, started_at: Seq<char>)
    ensures
        running_result(hook, started_at).field("hook"@) == Some(JsonView::String(hook)),
        running_result(hook, started_at).field("started_at"@) == Some(JsonView::String(started_at)),
        running_result(hook, started_at).field("status"@) == Some(JsonView::String("running"@)),
        running_result(hook, started_at).field("steps"@) == Some(JsonView::Array(seq![])),
{
    reveal_strlit("schema_version");
    reveal_strlit("kind");
    reveal_strlit("hook");
    reveal_strlit("status");
    reveal_strlit("started_at");
    reveal_strlit("duration_ms");
    reveal_strlit("steps");
    assert("schema_version"@.len() == 14 && "kind"@.len() == 4 && "hook"@.len() == 4
        && "status"@.len() == 6 && "started_at"@.len() == 10 && "duration_ms"@.len() == 11
        && "steps"@.len() == 5);
    assert("kind"@[0] != "hook"@[0]);
    let fields = running_result(hook, started_at)->Object_0;
    assert(fields.len() == 7);
    crate::json::lemma_field_index(fields, "hook"@);
    crate::json::lemma_field_index(fields, "status"@);
    crate::json::lemma_field_index(fields, "started_at"@);
    crate::json::lemma_field_index(fields, "steps"@);
    assert(fields[0].0 == "schema_version"@ && fields[1].0 == "kind"@ && fields[2].0 == "hook"@
        && fields[3].0 == "status"@ && fields[4].0 == "started_at"@ && fields[5].0 == "duration_ms"@
        && fields[6].0 == "steps"@);
}

/// The plan of a run gives its result the planned steps and leaves the other fields.
pub proof fn law_planned_steps_are_told(
    run: RunRecordView,
    event: JsonView,
    data: JsonView,
    steps: Seq<JsonView>,
    other: Seq<char>,
)
    requires
        event.field_text("event"@) == Some("run_planned"@),
        event.field("data"@) == Some(data),
        data.field("steps"@) == Some(JsonView::Array(steps)),
        run.result is Some,
        run.result->0 is Object,
        other != "steps"@,
    ensures
        ({
            let r = with_line(run, Ok(event));
            &&& r.result matches Some(result) && result.field("steps"@) == Some(
                JsonView::Array(steps),
            ) && result.field(other) == run.result->0.field(other)
            &&& r.error == run.error
        }),
{
    lemma_event_names();
    crate::json::law_set_fields_read_back(
        run.result->0->Object_0,
        "steps"@,
        JsonView::Array(steps),
        other,
    );
}

proof fn lemma_step_index(steps: Seq<JsonView>, name: Seq<char>)
    ensures
        -1 <= step_index(steps, name) < steps.len(),
        step_index(steps, name) >= 0 ==> steps[step_index(steps, name)].field_text("name"@) == Some(
            name,
        ),
        forall|k: int|
            0 <= k < steps.len() && (#[trigger] steps[k]).field_text("name"@) == Some(name)
                ==> 0 <= step_index(steps, name) <= k,
    decreases steps.len(),
{
    if steps.len() > 0 {
        let init = steps.drop_last();
        lemma_step_index(init, name);
        assert forall|k: int|
            0 <= k < steps.len() && (#[trigger] steps[k]).field_text("name"@) == Some(
                name,
            ) implies 0 <= step_index(steps, name) <= k by {
            if k < init.len() {
                assert(init[k].field_text("name"@) == Some(name));
            }
        }
    }
}

/// News of a step take the place of what was known of the step, or come last where nothing
/// was; what is known of the other steps stays.
pub proof fn law_news_of_steps_are_told(
    run: RunRecordView,
    event: JsonView,
    data: JsonView,
    name: Seq<char>,
    steps: Seq<JsonView>,
    other: Seq<char>,
)
    requires
        event.field_text("event"@) == Some("step_started"@) || event.field_text("event"@) == Some(
            "step_completed"@,
        ),
        event.field("data"@) == Some(data),
        data.field_text("name"@) == Some(name),
        run.result matches Some(result) && result.field("steps"@) == Some(JsonView::Array(steps)),
        other != "steps"@,
    ensures
        ({
            let r = with_line(run, Ok(event));
            &&& r.error == run.error
            &&& r.result is Some && r.result->0.field(other) == run.result->0.field(other)
            &&& r.result->0.field("steps"@) matches Some(JsonView::Array(after)) && {
                &&& after.contains(data)
                &&& steps.len() <= after.len() <= steps.len() + 1
                &&& forall|i: int|
                    0 <= i < steps.len() && (#[trigger] steps[i]).field_text("name"@) != Some(name)
                        ==> after[i] == steps[i]
                &&& (exists|i: int|
                    0 <= i < steps.len() && (#[trigger] steps[i]).field_text("name"@) == Some(name))
                    <==> after.len() == steps.len()
            }
        }),
{
    lemma_event_names();
    lemma_step_index(steps, name);
    let after = with_step(steps, name, data);
    let fields = run.result->0->Object_0;
    crate::json::law_set_fields_read_back(fields, "steps"@, JsonView::Array(after), other);
    if step_index(steps, name) >= 0 {
        assert(after[step_index(steps, name)] == data);
    } else {
        assert(after[after.len() - 1] == data);
    }
}

/// The first news of a step, where no result is there yet, begin one.
pub proof fn law_first_news_begin_a_result(
    run: RunRecordView,
    event: JsonView,
    data: JsonView,
    name: Seq<char>,
)
    requires
        event.field_text("event"@) == Some("step_started"@) || event.field_text("event"@) == Some(
            "step_completed"@,
        ),
        event.field("data"@) == Some(data),
        data.field_text("name"@) == Some(name),
        run.result is None,
    ensures
        with_line(run, Ok(event)).result matches Some(result) && result.field("steps"@) == Some(
            JsonView::Array(seq![data]),
        ) && result.field_text("hook"@) == Some(run.kind.command_text()) && result.field_text(
            "started_at"@,
        ) == Some(run.started_at),
{
    lemma_event_names();
    let hook = run.kind.command_text();
    let fields = running_result(hook, run.started_at)->Object_0;
    lemma_running_result(hook, run.started_at);
    let steps = with_step(seq![], name, data);
    assert(steps =~= seq![data]);
    reveal_strlit("steps");
    reveal_strlit("hook");
    reveal_strlit("started_at");
    assert("steps"@.len() == 5 && "hook"@.len() == 4 && "started_at"@.len() == 10);
    crate::json::law_set_fields_read_back(fields, "steps"@, JsonView::Array(steps), "hook"@);
    crate::json::law_set_fields_read_back(fields, "steps"@, JsonView::Array(steps), "started_at"@);
}

/// A line that cannot be understood leaves an error that tells why, and nothing else; one of
/// a kind that is not known leaves nothing.
pub proof fn law_bad_lines_are_errors(run: RunRecordView, event: JsonView, fault: Seq<char>)
    ensures
        with_line(run, Err(fault)) == (RunRecordView {
            error: Some("failed to parse hk structured result: "@ + fault),
            ..run
        }),
        event.field_text("event"@) is None || event.field("data"@) is None ==> with_line(
            run,
            Ok(event),
        ).error is Some && with_line(run, Ok(event)).result == run.result,
        event.field_text("event"@) matches Some(kind) && kind != "run_started"@ && kind
            != "run_planned"@ && kind != "step_started"@ && kind != "step_completed"@ && kind
            != "run_completed"@ && event.field("data"@) is Some ==> with_line(run, Ok(event)) == run,
{
}

/// A run that told its result has it when it ends; of any other an error says why not.
pub proof fn law_results_are_there_or_missed(run: RunRecordView)
    ensures
        result_checked(run).1 <==> !(run.saw_run_completed && run.result is Some),
        result_checked(run).0.result == run.result,
        result_checked(run).1 && !run.stdout_truncated && run.error is Some ==> result_checked(
            run,
        ).0.error == run.error,
        !result_checked(run).1 ==> result_checked(run).0.error == run.error,
{
}

/// A run succeeded exactly where it ended with success, told its result and was not
/// cancelled.
pub proof fn law_success_is_earned(
    run: RunRecordView,
    finished_at: Seq<char>,
    completed_at: u64,
    diff: Seq<char>,
    diff_truncated: bool,
    code: Option<i32>,
    success: bool,
    cancelled: bool,
)
    ensures
        ({
            let r = ended_run(
                run,
                finished_at,
                completed_at,
                diff,
                diff_truncated,
                Ending::Exited(code, success),
                cancelled,
            );
            &&& r.status == "succeeded"@ <==> success && !cancelled && run.saw_run_completed
                && run.result is Some
            &&& r.status == "cancelled"@ <==> cancelled
            &&& r.status == "failed"@ <==> !cancelled && !(success && run.saw_run_completed
                && run.result is Some)
            &&& r.exit_code == code && r.finished_at == Some(finished_at) && r.completed_at == Some(
                completed_at,
            )
            &&& r.diff == diff && r.diff_truncated == diff_truncated
            &&& r.result == run.result && r.output == run.output && r.id == run.id
        }),
{
    reveal_strlit("cancelled");
    reveal_strlit("failed");
    reveal_strlit("succeeded");
    assert("cancelled"@.len() == 9 && "failed"@.len() == 6 && "succeeded"@.len() == 9);
    assert("cancelled"@[0] != "succeeded"@[0]);
}

/// A run that could not be waited for failed, and tells why.
pub proof fn law_lost_runs_failed(
    run: RunRecordView,
    finished_at: Seq<char>,
    completed_at: u64,
    diff: Seq<char>,
    diff_truncated: bool,
    fault: String,
    cancelled: bool,
)
    ensures
        ({
            let r = ended_run(
                run,
                finished_at,
                completed_at,
                diff,
                diff_truncated,
                Ending::WaitFailed(fault),
                cancelled,
            );
            &&& r.status == "failed"@ && r.error == Some("failed to wait for hk: "@ + fault@)
            &&& r.completed_at == Some(completed_at) && r.finished_at == Some(finished_at)
            &&& r.diff == diff
        }),
{
}

/// A cleanup keeps every run that has not been completed for more than half an hour, as
/// long as no more have ended than the limit allows.
pub proof fn law_cleanup_keeps_recent_runs(runs: Seq<RunRecordView>, now: u64, run: RunRecordView)
    requires
        runs.contains(run),
        run.completed_at is None || now <= run.completed_at->0 || now - run.completed_at->0
            <= 30 * 60 * 1_000_000_000,
        ended_count(runs) <= 32,
    ensures
        cleaned(runs, now).contains(run),
{
    let fresh = fresh_runs(runs, now);
    lemma_fresh_runs(runs, now, run);
    lemma_fresh_ended(runs, now);
    lemma_nothing_to_drop(fresh);
}

proof fn lemma_fresh_ended(runs: Seq<RunRecordView>, now: u64)
    ensures
        ended_count(fresh_runs(runs, now)) <= ended_count(runs),
    decreases runs.len(),
{
    if runs.len() > 0 {
        let init = runs.drop_last();
        lemma_fresh_ended(init, now);
        assert(fresh_runs(init, now).push(runs.last()).drop_last() =~= fresh_runs(init, now));
    }
}

proof fn lemma_nothing_to_drop(runs: Seq<RunRecordView>)
    ensures
        without_oldest(runs, 0) == (runs, 0nat),
    decreases runs.len(),
{
    if runs.len() > 0 {
        lemma_nothing_to_drop(runs.drop_last());
        assert(runs.drop_last().push(runs.last()) =~= runs);
    } else {
        assert(runs =~= seq![]);
    }
}

/// The runs that are active, in order.
pub open spec fn active_runs(runs: Seq<RunRecordView>) -> Seq<RunRecordView> {
    runs.filter(|r: RunRecordView| is_active(r))
}

/// What a cleanup forgets of the recent runs are the oldest that have ended: up to some
/// run all that have ended, and none from there on.
pub proof fn law_cleanup_forgets_the_oldest(runs: Seq<RunRecordView>, now: u64)
    ensures
        exists|cut: int|
            0 <= cut <= fresh_runs(runs, now).len() && cleaned(runs, now) == active_runs(
                #[trigger] fresh_runs(runs, now).take(cut),
            ) + fresh_runs(runs, now).skip(cut),
        ended_count(fresh_runs(runs, now)) <= 32 ==> cleaned(runs, now) == fresh_runs(runs, now),
        ended_count(fresh_runs(runs, now)) > 32 ==> ended_count(cleaned(runs, now)) == 32,
{
    let fresh = fresh_runs(runs, now);
    lemma_without_oldest(fresh, excess_of(fresh));
    lemma_cut(fresh, excess_of(fresh));
    lemma_nothing_to_drop(fresh);
}

proof fn lemma_cut(runs: Seq<RunRecordView>, excess: nat)
    ensures
        exists|cut: int|
            0 <= cut <= runs.len() && without_oldest(runs, excess).0 == active_runs(
                #[trigger] runs.take(cut),
            ) + runs.skip(cut) && (without_oldest(runs, excess).1 > 0 ==> cut == runs.len()),
    decreases runs.len(),
{
    reveal(Seq::filter);
    if runs.len() == 0 {
        assert(without_oldest(runs, excess).0 =~= active_runs(runs.take(0)) + runs.skip(0));
    } else {
        let init = runs.drop_last();
        lemma_cut(init, excess);
        let (kept, left) = without_oldest(init, excess);
        let cut = choose|cut: int|
            0 <= cut <= init.len() && kept == active_runs(#[trigger] init.take(cut)) + init.skip(cut)
                && (left > 0 ==> cut == init.len());
        if left > 0 {
            let n = runs.len() as int;
            assert(runs.take(n) =~= runs);
            assert(runs.take(n).drop_last() =~= init.take(cut));
            assert(runs.take(n).last() == runs.last());
            assert(init.skip(cut) =~= seq![]);
            assert(kept =~= active_runs(init.take(cut)));
            assert(without_oldest(runs, excess).0 =~= active_runs(runs.take(n)) + runs.skip(n));
        } else {
            assert(runs.take(cut) =~= init.take(cut));
            assert(runs.skip(cut) =~= init.skip(cut).push(runs.last()));
            assert(without_oldest(runs, excess).0 =~= active_runs(runs.take(cut)) + runs.skip(cut));
        }
    }
}

/// A root that the server may use is had for the asking, and the only one without asking.
pub proof fn law_allowed_roots_are_given(roots: Seq<Seq<char>>, root: Seq<char>)
    ensures
        roots.contains(root) <==> chosen_root(roots, Some(root)) is Ok,
        roots.contains(root) ==> chosen_root(roots, Some(root)) == Ok::<Seq<char>, Seq<char>>(root),
        roots == seq![root] ==> chosen_root(roots, None) == Ok::<Seq<char>, Seq<char>>(root),
        roots.len() != 1 ==> chosen_root(roots, None) is Err,
{
}

/// A root where no run is active has no active run after a cleanup.
pub proof fn law_idle_roots_are_free(runs: Seq<RunRecordView>, root: Seq<char>, now: u64)
    requires
        forall|i: int|
            0 <= i < runs.len() && (#[trigger] runs[i]).root == root ==> !is_active(runs[i]),
    ensures
        !busy(cleaned(runs, now), root),
{
    let kept = cleaned(runs, now);
    if busy(kept, root) {
        let i = choose|i: int|
            0 <= i < kept.len() && (#[trigger] kept[i]).root == root && is_active(kept[i]);
        assert(kept.contains(kept[i]));
        law_cleanup_expires_old_runs(runs, now, kept[i]);
        let j = choose|j: int| 0 <= j < runs.len() && runs[j] == kept[i];
        assert(!is_active(runs[j]));
    }
}

proof fn lemma_run_known(runs: Seq<RunRecordView>, id: Seq<char>, k: int)
    requires
        0 <= k < runs.len(),
        runs[k].id == id,
    ensures
        0 <= run_index(runs, id) <= k,
    decreases runs.len(),
{
    lemma_run_index(runs.drop_last(), id);
    if k < runs.len() - 1 {
        lemma_run_known(runs.drop_last(), id, k);
    }
}

/// A change to the run of a name reaches that run and no other.
pub proof fn law_changes_reach_one_run(
    runs: Seq<RunRecordView>,
    id: Seq<char>,
    change: spec_fn(RunRecordView) -> RunRecordView,
    k: int,
)
    requires
        0 <= k < runs.len(),
    ensures
        run_changed(runs, id, change).len() == runs.len(),
        runs[k].id != id ==> run_changed(runs, id, change)[k] == runs[k],
        runs[k].id == id && (forall|j: int| 0 <= j < k ==> (#[trigger] runs[j]).id != id)
            ==> run_changed(runs, id, change)[k] == change(runs[k]),
{
    lemma_run_index(runs, id);
    if runs[k].id == id {
        lemma_run_known(runs, id, k);
        let i = run_index(runs, id);
        if i < k {
            assert(runs[i].id == id);
        }
    }
}

/// Who asks for a run by name is told of the run of that name; that there is none is told
/// exactly where none is known.
pub proof fn law_runs_are_found_by_name(runs: Seq<RunRecordView>, id: Seq<char>, k: int)
    requires
        0 <= k < runs.len(),
        runs[k].id == id,
    ensures
        found_snapshot(runs, id) matches Ok(told) && told.id == id,
        (forall|j: int| 0 <= j < k ==> (#[trigger] runs[j]).id != id) ==> found_snapshot(runs, id)
            == Ok::<RunSnapshotView, Seq<char>>(snapshot_of(runs[k])),
{
    lemma_run_index(runs, id);
    lemma_run_known(runs, id, k);
    let i = run_index(runs, id);
    if i < k {
        assert(runs[i].id == id);
    }
}

/// A run that is not known is told to be gone.
pub proof fn law_unknown_runs_are_gone(runs: Seq<RunRecordView>, id: Seq<char>)
    requires
        forall|j: int| 0 <= j < runs.len() ==> (#[trigger] runs[j]).id != id,
    ensures
        found_snapshot(runs, id) == Err::<RunSnapshotView, Seq<char>>("run not found or expired"@),
{
    lemma_run_index(runs, id);
    if run_index(runs, id) >= 0 {
        assert(runs[run_index(runs, id)].id == id);
    }
}

/// The runs of different numbers have different names.
pub proof fn law_runs_have_names_of_their_own(a: nat, b: nat)
    ensures
        run_name(a) == run_name(b) ==> a == b,
{
    if run_name(a) == run_name(b) {
        let n = "hk-"@.len() as int;
        assert(run_name(a).skip(n) =~= decimal(a));
        assert(run_name(b).skip(n) =~= decimal(b));
        crate::text::law_numbers_read_back(a);
        crate::text::law_numbers_read_back(b);
    }
}

/// When the server shuts down every active run is asked to stop, and counted; the others
/// stay as they are.
pub proof fn law_shutdown_stops_every_run(runs: Seq<RunRecordView>)
    ensures
        ({
            let (after, n) = all_cancelled(runs);
            &&& after.len() == runs.len()
            &&& forall|i: int|
                0 <= i < runs.len() ==> if is_active(runs[i]) {
                    (#[trigger] after[i]).cancelled && after[i].status == "cancelling"@ && after[i].id
                        == runs[i].id && after[i].output == runs[i].output
                } else {
                    after[i] == runs[i]
                }
            &&& n == active_runs(runs).len()
        }),
    decreases runs.len(),
{
    reveal(Seq::filter);
    if runs.len() > 0 {
        let init = runs.drop_last();
        law_shutdown_stops_every_run(init);
        let (after, n) = all_cancelled(runs);
        let before = all_cancelled(init).0;
        assert forall|i: int| 0 <= i < runs.len() implies if is_active(runs[i]) {
            (#[trigger] after[i]).cancelled && after[i].status == "cancelling"@ && after[i].id
                == runs[i].id && after[i].output == runs[i].output
        } else {
            after[i] == runs[i]
        } by {
            if i < init.len() {
                assert(init[i] == runs[i]);
                assert(after[i] == before[i]);
            }
        }
    }
}

/// Every directory that a client offers within the roots that the server was started with
/// may be used, and so may those roots.
pub proof fn law_offered_roots_may_be_used(
    startup: Seq<Seq<char>>,
    client: Seq<Seq<char>>,
    root: Seq<char>,
    i: int,
)
    ensures
        startup.contains(root) ==> push_all_new(startup, roots_within(startup, client)).contains(root),
        client.contains(root) && 0 <= i < startup.len() && lies_within(root, startup[i])
            ==> push_all_new(startup, roots_within(startup, client)).contains(root),
{
    crate::table::lemma_push_all_new(startup, roots_within(startup, client));
    if client.contains(root) && 0 <= i < startup.len() && lies_within(root, startup[i]) {
        lemma_offered_within(startup, client, root, i);
    }
}

proof fn lemma_offered_within(startup: Seq<Seq<char>>, client: Seq<Seq<char>>, root: Seq<char>, i: int)
    requires
        client.contains(root),
        0 <= i < startup.len(),
        lies_within(root, startup[i]),
    ensures
        roots_within(startup, client).contains(root),
    decreases client.len(),
{
    let before = roots_within(startup, client.drop_last());
    crate::seqs::lemma_last_or_before(client, root);
    crate::seqs::lemma_pushed(before, client.last(), root);
    crate::seqs::lemma_pushed(before, root, root);
    if client.drop_last().contains(root) {
        lemma_offered_within(startup, client.drop_last(), root, i);
    }
}

/// A path is kept exactly where it was found.
pub proof fn law_found_paths_are_kept(found: Seq<Option<Seq<u8>>>, path: Seq<u8>)
    ensures
        found_paths(found).contains(path) <==> found.contains(Some(path)),
        (forall|i: int| 0 <= i < found.len() ==> #[trigger] found[i] is Some) ==> found_paths(found).len()
            == found.len(),
    decreases found.len(),
{
    if found.len() > 0 {
        let init = found.drop_last();
        law_found_paths_are_kept(init, path);
        crate::seqs::lemma_last_or_before(found, Some(path));
        if found.last() is Some {
            crate::seqs::lemma_pushed(found_paths(init), found.last()->0, path);
        }
        if forall|i: int| 0 <= i < found.len() ==> #[trigger] found[i] is Some {
            assert forall|i: int| 0 <= i < init.len() implies #[trigger] init[i] is Some by {
                assert(found[i] is Some);
            }
            assert(found[found.len() - 1] is Some);
        }
    }
}

/// An inspection tells the root, the roots that may be used, and whether there is a
/// configuration and a repository.
pub proof fn law_inspections_tell_of_the_project(
    root: Seq<char>,
    roots: Seq<Seq<char>>,
    has_config: bool,
    is_git_repository: bool,
    i: int,
)
    ensures
        ({
            let told = inspection(root, roots, has_config, is_git_repository);
            &&& told.field_text("root"@) == Some(root)
            &&& told.field("has_config"@) == Some(JsonView::Bool(has_config))
            &&& told.field("is_git_repository"@) == Some(JsonView::Bool(is_git_repository))
            &&& told.field("roots"@) matches Some(JsonView::Array(list)) && list.len() == roots.len()
                && (0 <= i < roots.len() ==> list[i] == JsonView::String(roots[i]))
        }),
{
    reveal_strlit("schema_version");
    reveal_strlit("root");
    reveal_strlit("roots");
    reveal_strlit("has_config");
    reveal_strlit("is_git_repository");
    assert("schema_version"@.len() == 14 && "root"@.len() == 4 && "roots"@.len() == 5
        && "has_config"@.len() == 10 && "is_git_repository"@.len() == 17);
    let fields = inspection(root, roots, has_config, is_git_repository)->Object_0;
    assert(fields.len() == 5);
    crate::json::lemma_field_index(fields, "root"@);
    crate::json::lemma_field_index(fields, "roots"@);
    crate::json::lemma_field_index(fields, "has_config"@);
    crate::json::lemma_field_index(fields, "is_git_repository"@);
    assert(fields[0].0 == "schema_version"@ && fields[1].0 == "root"@ && fields[2].0 == "roots"@
        && fields[3].0 == "has_config"@ && fields[4].0 == "is_git_repository"@);
}

/// A plan is handed on as it was printed; output that is none is an error that tells why.
pub proof fn law_plans_are_handed_on(plan: JsonView, fault: Seq<char>)
    ensures
        plan_result(Ok(plan)) == Ok::<JsonView, Seq<char>>(plan),
        plan_result(Err(fault)) == Err::<JsonView, Seq<char>>("hk returned an invalid plan: "@ + fault),
{
}

/// A page tells where it begins and ends and how much there is; it is the last exactly where
/// it ends with what there is.
pub proof fn law_pages_tell_where_they_end(run: RunRecordView, offset: usize, limit: Option<usize>)
    requires
        run.output.len() <= usize::MAX,
        encode_utf8(run.diff).len() <= usize::MAX,
    ensures
        ({
            let page = output_page(run, offset, limit);
            &&& page.run_id == run.id && page.truncated == run.output_truncated
            &&& page.total_bytes == run.output.len()
            &&& page.offset <= page.next_offset <= page.total_bytes
            &&& page.eof <==> page.next_offset == page.total_bytes
        }),
        ({
            let page = diff_page(run, offset, limit);
            &&& page.run_id == run.id && page.truncated == run.diff_truncated
            &&& page.total_bytes == encode_utf8(run.diff).len()
            &&& page.offset <= page.next_offset <= page.total_bytes
            &&& page.eof <==> page.next_offset == page.total_bytes
        }),
{
    law_pages_advance(run.output, offset as int, page_limit(limit, 1) as int);
    vstd::utf8::encode_utf8_valid_utf8(run.diff);
    lemma_text_page(encode_utf8(run.diff), offset as int, page_limit(limit, 4) as int);
}

} // verus!
