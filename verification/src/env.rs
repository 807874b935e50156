//! What environment variables say.

use vstd::prelude::*;
use vstd::string::*;
use crate::hook::StashMethod;
use crate::seqs::{opt_text, texts};
use crate::table::{push_all_new, NameSet};
use crate::text::{lower_case, same, split, split_on, to_chars, to_lower, trim, trimmed};

verus! {

broadcast use crate::seqs::group_text;

/// How a run is traced.
#[derive(Clone, Copy, Debug, PartialEq, Eq, Structural)]
pub enum TraceMode {
    Off,
    Text,
    Json,
}

/// How much is logged.
#[derive(Clone, Copy, Debug, PartialEq, Eq, Structural)]
pub enum LogLevel {
    Off,
    Error,
    Warn,
    Info,
    Debug,
    Trace,
}

/// A word in lower case that turns something on.
pub open spec fn turns_on(lower: Seq<char>) -> bool {
    lower == "true"@ || lower == "1"@
}

/// A word in lower case that turns something off.
pub open spec fn turns_off(lower: Seq<char>) -> bool {
    lower == "false"@ || lower == "0"@
}

/// Whether a word in lower case turns something on.
pub fn is_on(lower: &str) -> (r: bool)
    ensures
        r == turns_on(lower@),
{
    same(lower, "true") || same(lower, "1")
}

/// Whether a word in lower case turns something off.
pub fn is_off(lower: &str) -> (r: bool)
    ensures
        r == turns_off(lower@),
{
    same(lower, "false") || same(lower, "0")
}

/// Whether a variable is set and turns something on.
pub fn var_true(value: &Option<String>) -> (r: bool)
    ensures
        r == (value is Some && turns_on(lower_case(value->0@))),
{
    match value {
        Some(v) => is_on(to_lower(v.as_str()).as_str()),
        None => false,
    }
}

/// Whether a variable is set and turns something off.
pub fn var_false(value: &Option<String>) -> (r: bool)
    ensures
        r == (value is Some && turns_off(lower_case(value->0@))),
{
    match value {
        Some(v) => is_off(to_lower(v.as_str()).as_str()),
        None => false,
    }
}

/// The trimmed pieces of a text between commas.
pub open spec fn pieces(s: Seq<char>) -> Seq<Seq<char>> {
    split_on(s, ',').map_values(|p: Seq<char>| trimmed(p))
}

/// The distinct names in a variable, between commas.
pub fn var_csv(value: &Option<String>) -> (r: Option<NameSet>)
    ensures
        crate::seqs::opt_view(r) == match value {
            Some(v) => Some(push_all_new(seq![], pieces(v@))),
            None => None,
        },
{
    match value {
        Some(v) => {
            let parts = split(v.as_str(), ',');
            let ghost all = pieces(v@);
            let mut out: Vec<String> = Vec::new();
            for i in 0..parts.len()
                invariant
                    texts(parts@) == split_on(v@, ','),
                    all == pieces(v@),
                    texts(out@) =~= all.take(i as int),
            {
                assert(texts(parts@)[i as int] == parts@[i as int]@);
                out.push(trim(parts[i].as_str()));
            }
            assert(texts(out@) =~= all);
            Some(NameSet::of(&out))
        },
        None => None,
    }
}

/// The steps that the environment skips: those of the first variable, else of the second.
pub fn skip_steps(first: &Option<String>, second: &Option<String>) -> (r: NameSet)
    ensures
        r@ == match (first, second) {
            (Some(v), _) => push_all_new(seq![], pieces(v@)),
            (None, Some(v)) => push_all_new(seq![], pieces(v@)),
            (None, None) => seq![],
        },
{
    match var_csv(first) {
        Some(names) => names,
        None => match var_csv(second) {
            Some(names) => names,
            None => NameSet::new(),
        },
    }
}

/// A letter of ASCII in lower case.
pub open spec fn ascii_lower(c: char) -> char {
    if 'A' <= c <= 'Z' {
        ((c as u32 + 32) as u8) as char
    } else {
        c
    }
}

/// Two texts are the same but for the case of letters of ASCII.
pub open spec fn same_but_case(a: Seq<char>, b: Seq<char>) -> bool {
    a.len() == b.len() && forall|i: int| 0 <= i < a.len() ==> ascii_lower(#[trigger] a[i]) == ascii_lower(b[i])
}

fn lower_char(c: char) -> (r: char)
    ensures
        r == ascii_lower(c),
{
    if 'A' <= c && c <= 'Z' {
        ((c as u32 + 32) as u8) as char
    } else {
        c
    }
}

/// Whether two texts are the same but for the case of letters of ASCII.
pub fn eq_ignore_case(a: &str, b: &str) -> (r: bool)
    ensures
        r == same_but_case(a@, b@),
{
    let x = to_chars(a);
    let y = to_chars(b);
    if x.len() != y.len() {
        return false;
    }
    for i in 0..x.len()
        invariant
            x@ == a@,
            y@ == b@,
            x@.len() == y@.len(),
            forall|k: int| 0 <= k < i ==> ascii_lower(#[trigger] a@[k]) == ascii_lower(b@[k]),
    {
        if lower_char(x[i]) != lower_char(y[i]) {
            assert(ascii_lower(a@[i as int]) != ascii_lower(b@[i as int]));
            return false;
        }
    }
    true
}

/// The level that a word names, in any case.
pub open spec fn level_named(word: Seq<char>) -> Option<LogLevel> {
    if same_but_case(word, "off"@) {
        Some(LogLevel::Off)
    } else if same_but_case(word, "error"@) {
        Some(LogLevel::Error)
    } else if same_but_case(word, "warn"@) {
        Some(LogLevel::Warn)
    } else if same_but_case(word, "info"@) {
        Some(LogLevel::Info)
    } else if same_but_case(word, "debug"@) {
        Some(LogLevel::Debug)
    } else if same_but_case(word, "trace"@) {
        Some(LogLevel::Trace)
    } else {
        None
    }
}

/// The level that a variable names.
pub fn var_log_level(value: &Option<String>) -> (r: Option<LogLevel>)
    ensures
        r == (match value {
            Some(v) => level_named(v@),
            None => None,
        }),
{
    let word = match value {
        Some(v) => v.as_str(),
        None => {
            return None;
        },
    };
    if eq_ignore_case(word, "off") {
        Some(LogLevel::Off)
    } else if eq_ignore_case(word, "error") {
        Some(LogLevel::Error)
    } else if eq_ignore_case(word, "warn") {
        Some(LogLevel::Warn)
    } else if eq_ignore_case(word, "info") {
        Some(LogLevel::Info)
    } else if eq_ignore_case(word, "debug") {
        Some(LogLevel::Debug)
    } else if eq_ignore_case(word, "trace") {
        Some(LogLevel::Trace)
    } else {
        None
    }
}

/// The level of the console: that of the first variable that names one, else `info`.
pub fn console_level(hk_log: &Option<String>, hk_log_level: &Option<String>) -> (r: LogLevel)
    ensures
        r == match (
            match hk_log {
                Some(v) => level_named(v@),
                None => None,
            },
            match hk_log_level {
                Some(v) => level_named(v@),
                None => None,
            },
        ) {
            (Some(l), _) => l,
            (None, Some(l)) => l,
            (None, None) => LogLevel::Info,
        },
{
    match var_log_level(hk_log) {
        Some(l) => l,
        None => match var_log_level(hk_log_level) {
            Some(l) => l,
            None => LogLevel::Info,
        },
    }
}

/// The path that a variable holds.
pub fn var_path(value: &Option<String>) -> (r: Option<String>)
    ensures
        opt_text(r) == opt_text(*value),
{
    crate::text::dup_opt(value)
}

/// The path that a variable holds, unless that is empty; else the default.
pub fn path_or(value: &Option<String>, default: &str) -> (r: String)
    ensures
        r@ == (match value {
            Some(v) => if v@.len() > 0 {
                v@
            } else {
                default@
            },
            None => default@,
        }),
{
    match value {
        Some(v) => if v.as_str().is_empty() {
            default.to_owned()
        } else {
            v.clone()
        },
        None => default.to_owned(),
    }
}

/// How a run is traced, from a variable in lower case.
pub open spec fn trace_mode(lower: Option<Seq<char>>) -> TraceMode {
    match lower {
        Some(v) => if v == "json"@ {
            TraceMode::Json
        } else if v == "1"@ || v == "true"@ {
            TraceMode::Text
        } else {
            TraceMode::Off
        },
        None => TraceMode::Off,
    }
}

/// How a run is traced, from a variable that is in lower case.
pub fn read_trace_mode(lower: &Option<String>) -> (r: TraceMode)
    ensures
        r == trace_mode(opt_text(*lower)),
{
    match lower {
        Some(v) => if same(v.as_str(), "json") {
            TraceMode::Json
        } else if same(v.as_str(), "1") || same(v.as_str(), "true") {
            TraceMode::Text
        } else {
            TraceMode::Off
        },
        None => TraceMode::Off,
    }
}

/// How a run is traced, from a variable.
pub fn var_trace_mode(value: &Option<String>) -> (r: TraceMode)
    ensures
        r == trace_mode(
            match value {
                Some(v) => Some(lower_case(v@)),
                None => None,
            },
        ),
{
    let lower = match value {
        Some(v) => Some(to_lower(v.as_str())),
        None => None,
    };
    read_trace_mode(&lower)
}

/// How the environment puts unstaged work aside, where it says so; an unknown
/// word is an error.
pub open spec fn stash_setting(
    value: Option<Seq<char>>,
    lower: Option<Seq<char>>,
) -> Result<Option<StashMethod>, Seq<char>> {
    match (value, lower) {
        (Some(v), Some(l)) => if turns_off(l) {
            Ok(Some(StashMethod::Off))
        } else {
            match StashMethod::named(v) {
                Some(m) => Ok(Some(m)),
                None => Err("invalid HK_STASH value"@),
            }
        },
        _ => Ok(None),
    }
}

/// What a result with a stash method stands for.
pub open spec fn stash_result(
    r: Result<Option<StashMethod>, String>,
) -> Result<Option<StashMethod>, Seq<char>> {
    match r {
        Ok(m) => Ok(m),
        Err(e) => Err(e@),
    }
}

/// How the environment puts unstaged work aside, where it says so.
pub fn var_stash(value: &Option<String>) -> (r: Result<Option<StashMethod>, String>)
    ensures
        stash_result(r) == stash_setting(
            opt_text(*value),
            match value {
                Some(v) => Some(lower_case(v@)),
                None => None,
            },
        ),
{
    match value {
        Some(v) => {
            let lower = to_lower(v.as_str());
            read_stash(v.as_str(), lower.as_str())
        },
        None => Ok(None),
    }
}

/// How a word, which is `lower` in lower case, puts unstaged work aside.
pub fn read_stash(value: &str, lower: &str) -> (r: Result<Option<StashMethod>, String>)
    ensures
        stash_result(r) == stash_setting(Some(value@), Some(lower@)),
{
    if is_off(lower) {
        return Ok(Some(StashMethod::Off));
    }
    match StashMethod::parse(value) {
        Some(m) => Ok(Some(m)),
        None => Err("invalid HK_STASH value".to_owned()),
    }
}

/// Whether the cache is used: as the variable says, else as the build does.
pub fn cache_enabled(value: &Option<String>, release: bool) -> (r: bool)
    ensures
        r == (match value {
            Some(v) => !turns_off(lower_case(v@)),
            None => release,
        }),
{
    match value {
        Some(_) => !var_false(value),
        None => release,
    }
}

/// The longest command line: what the system says, where it says something, else 128 KiB.
pub fn arg_max(system: i64) -> (r: u64)
    ensures
        r == if system > 0 {
            system as u64
        } else {
            131072
        },
{
    if system > 0 {
        system as u64
    } else {
        131072
    }
}

/// The error for an evaluator of Pkl that is not supported.
pub open spec fn backend_refusal(value: Option<Seq<char>>) -> Option<Seq<char>> {
    match value {
        None => None,
        Some(v) => if v == "pklr"@ {
            None
        } else {
            Some(
                "HK_PKL_BACKEND="@ + v
                    + " is not supported; see https://hk.jdx.dev/migration-v2"@,
            )
        },
    }
}

/// Whether the evaluator of Pkl that a variable asks for is supported: only
/// `pklr` is, and it is the one that is used anyway.
pub fn check_pkl_backend(value: &Option<String>) -> (r: Result<(), String>)
    ensures
        crate::config::error_of(r) == backend_refusal(opt_text(*value)),
{
    match value {
        None => Ok(()),
        Some(v) => {
            if same(v.as_str(), "pklr") {
                return Ok(());
            }
            let mut m = "HK_PKL_BACKEND=".to_owned();
            m.append(v.as_str());
            m.append(" is not supported; see https://hk.jdx.dev/migration-v2");
            Err(m)
        },
    }
}

/// No word turns something both on and off.
pub proof fn law_words_turn_on_or_off(lower: Seq<char>)
    ensures
        !(turns_on(lower) && turns_off(lower)),
        turns_on("true"@) && turns_on("1"@),
        turns_off("false"@) && turns_off("0"@),
{
    reveal_strlit("true");
    reveal_strlit("1");
    reveal_strlit("false");
    reveal_strlit("0");
    assert("true"@.len() == 4 && "1"@.len() == 1 && "false"@.len() == 5 && "0"@.len() == 1);
    assert("1"@[0] != "0"@[0]);
}

/// The names in a variable are what stands between its commas, without the white space
/// around it.
pub proof fn law_names_stand_between_commas(s: Seq<char>, name: Seq<char>)
    ensures
        push_all_new(seq![], pieces(s)).contains(name) <==> exists|i: int|
            0 <= i < split_on(s, ',').len() && trimmed(#[trigger] split_on(s, ',')[i]) == name,
        push_all_new(seq![], pieces(s)).no_duplicates(),
{
    crate::table::lemma_push_all_new(seq![], pieces(s));
    let parts = split_on(s, ',');
    if pieces(s).contains(name) {
        let i = choose|i: int| 0 <= i < pieces(s).len() && pieces(s)[i] == name;
        assert(trimmed(parts[i]) == name);
    }
    if exists|i: int| 0 <= i < parts.len() && trimmed(#[trigger] parts[i]) == name {
        let i = choose|i: int| 0 <= i < parts.len() && trimmed(#[trigger] parts[i]) == name;
        assert(pieces(s)[i] == name);
    }
}

/// A letter in lower case is itself, and one in upper case is that in lower case.
pub proof fn law_only_upper_case_changes(c: char)
    ensures
        !('A' <= c <= 'Z') ==> ascii_lower(c) == c,
        ascii_lower(ascii_lower(c)) == ascii_lower(c),
        ascii_lower('A') == 'a',
        ascii_lower('Z') == 'z',
        'A' <= c <= 'Z' ==> ascii_lower(c) as u32 == c as u32 + 32,
{
}

/// A level is named by its word in any case, and by no other word.
pub proof fn law_levels_are_named_in_any_case(word: Seq<char>)
    ensures
        level_named(word) == Some(LogLevel::Off) <==> same_but_case(word, "off"@),
        level_named(word) == Some(LogLevel::Error) <==> same_but_case(word, "error"@),
        level_named(word) == Some(LogLevel::Warn) <==> same_but_case(word, "warn"@),
        level_named(word) == Some(LogLevel::Info) <==> same_but_case(word, "info"@),
        level_named(word) == Some(LogLevel::Debug) <==> same_but_case(word, "debug"@),
        level_named(word) == Some(LogLevel::Trace) <==> same_but_case(word, "trace"@),
{
    reveal_strlit("off");
    reveal_strlit("error");
    reveal_strlit("warn");
    reveal_strlit("info");
    reveal_strlit("debug");
    reveal_strlit("trace");
    assert("off"@.len() == 3 && "error"@.len() == 5 && "warn"@.len() == 4 && "info"@.len() == 4
        && "debug"@.len() == 5 && "trace"@.len() == 5);
    assert("error"@[0] == 'e' && "warn"@[0] == 'w' && "info"@[0] == 'i' && "debug"@[0] == 'd'
        && "trace"@[0] == 't');
    assert(word.len() > 0 ==> ascii_lower(word[0]) == ascii_lower(word[0]));
    assert(ascii_lower("warn"@[0]) == 'w' && ascii_lower("info"@[0]) == 'i' && ascii_lower(
        "error"@[0],
    ) == 'e' && ascii_lower("debug"@[0]) == 'd' && ascii_lower("trace"@[0]) == 't');
    assert(same_but_case(word, "warn"@) ==> ascii_lower(word[0]) == 'w');
    assert(same_but_case(word, "info"@) ==> ascii_lower(word[0]) == 'i');
    assert(same_but_case(word, "error"@) ==> ascii_lower(word[0]) == 'e');
    assert(same_but_case(word, "debug"@) ==> ascii_lower(word[0]) == 'd');
    assert(same_but_case(word, "trace"@) ==> ascii_lower(word[0]) == 't');
}

/// A run is traced as text by a word that turns tracing on, as JSON by that word, and else
/// not at all.
pub proof fn law_tracing_is_off_unless_asked_for(lower: Seq<char>)
    ensures
        trace_mode(None) == TraceMode::Off,
        trace_mode(Some(lower)) == TraceMode::Text <==> lower == "true"@ || lower == "1"@,
        trace_mode(Some(lower)) == TraceMode::Json <==> lower == "json"@,
{
    reveal_strlit("true");
    reveal_strlit("1");
    reveal_strlit("json");
    assert("true"@.len() == 4 && "1"@.len() == 1 && "json"@.len() == 4);
    assert("true"@[0] != "json"@[0]);
}

/// The environment says how work is put aside by a known word only: a word that turns off
/// always does, a known one means itself, and any other is an error.
pub proof fn law_unknown_stash_words_are_errors(value: Seq<char>, lower: Seq<char>)
    ensures
        stash_setting(None, None) == Ok::<Option<StashMethod>, Seq<char>>(None),
        lower == "false"@ || lower == "0"@ ==> stash_setting(Some(value), Some(lower)) == Ok::<
            Option<StashMethod>,
            Seq<char>,
        >(Some(StashMethod::Off)),
        lower != "false"@ && lower != "0"@ && value == "git"@ ==> stash_setting(
            Some(value),
            Some(lower),
        ) == Ok::<Option<StashMethod>, Seq<char>>(Some(StashMethod::Git)),
        lower != "false"@ && lower != "0"@ && value == "patch-file"@ ==> stash_setting(
            Some(value),
            Some(lower),
        ) == Ok::<Option<StashMethod>, Seq<char>>(Some(StashMethod::PatchFile)),
        value == "none"@ ==> stash_setting(Some(value), Some(lower)) == Ok::<
            Option<StashMethod>,
            Seq<char>,
        >(Some(StashMethod::Off)),
        stash_setting(Some(value), Some(lower)) is Err <==> lower != "false"@ && lower != "0"@ && !(
        value == "git"@ || value == "true"@ || value == "1"@ || value == "patch-file"@ || value
            == "none"@ || value == "false"@ || value == "0"@),
{
    reveal_strlit("git");
    reveal_strlit("true");
    reveal_strlit("1");
    reveal_strlit("patch-file");
    reveal_strlit("none");
    assert("git"@.len() == 3 && "true"@.len() == 4 && "1"@.len() == 1 && "patch-file"@.len() == 10
        && "none"@.len() == 4);
    assert("none"@[0] != "true"@[0]);
}

/// Only one evaluator is supported; a refusal names the one that was asked for.
pub proof fn law_other_evaluators_are_refused(v: Seq<char>)
    ensures
        backend_refusal(None) is None,
        backend_refusal(Some(v)) is None <==> v == "pklr"@,
        backend_refusal(Some(v)) matches Some(m) ==> crate::text::has_text(m, v),
{
    crate::text::lemma_stands_between(
        "HK_PKL_BACKEND="@,
        v,
        " is not supported; see https://hk.jdx.dev/migration-v2"@,
    );
}

} // verus!
