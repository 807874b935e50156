//! Starting the program.

use vstd::prelude::*;
use vstd::string::*;
use crate::seqs::texts;
use crate::text::{has_char, same};

verus! {

broadcast use crate::seqs::group_text;

/// Whether the arguments ask for the list of builtins and for nothing else.
pub fn is_bare_builtins_invocation(args: &[String]) -> (r: bool)
    ensures
        r == (texts(args@) == seq!["builtins"@]),
{
    if args.len() == 1 && same(args[0].as_str(), "builtins") {
        assert(texts(args@) =~= seq!["builtins"@]);
        true
    } else {
        proof {
            if texts(args@) == seq!["builtins"@] {
                assert(texts(args@).len() == 1);
                assert(texts(args@)[0] == args@[0]@);
            }
        }
        false
    }
}

/// How many threads carry the work: as many as can run at once, at least one
/// and at most sixteen.
pub fn runtime_worker_threads(available_parallelism: usize) -> (r: usize)
    ensures
        r == if available_parallelism < 1 {
            1
        } else if available_parallelism > 16 {
            16
        } else {
            available_parallelism as int
        },
        1 <= r <= 16,
{
    if available_parallelism < 1 {
        1
    } else if available_parallelism > 16 {
        16
    } else {
        available_parallelism
    }
}

/// How writing a line went.
pub enum WriteOutcome {
    Written,
    /// The reader is gone.
    BrokenPipe,
    Failed(String),
}

/// How writing lines goes on: with the next line, or with an end.
pub open spec fn writing(outcomes: Seq<WriteOutcome>) -> Option<Result<(), String>>
    decreases outcomes.len(),
{
    if outcomes.len() == 0 {
        None
    } else {
        match writing(outcomes.drop_last()) {
            Some(end) => Some(end),
            None => match outcomes.last() {
                WriteOutcome::Written => None,
                WriteOutcome::BrokenPipe => Some(Ok(())),
                WriteOutcome::Failed(e) => Some(Err(e)),
            },
        }
    }
}

/// How writing the builtins ends, where `outcomes` says how each line went: a
/// reader that is gone wants no more, anything else that goes wrong is an error.
pub fn write_builtins(outcomes: Vec<WriteOutcome>) -> (r: Result<(), String>)
    ensures
        r == match writing(outcomes@) {
            Some(end) => end,
            None => Ok(()),
        },
{
    let ghost all = outcomes@;
    let mut end: Option<Result<(), String>> = None;
    for outcome in it: outcomes
        invariant
            it.seq() == all,
            end == writing(all.take(it.index())),
    {
        assert(outcome == all[it.index()]);
        if end.is_none() {
            end = match outcome {
                WriteOutcome::Written => None,
                WriteOutcome::BrokenPipe => Some(Ok(())),
                WriteOutcome::Failed(e) => Some(Err(e)),
            };
        }
    }
    assert(all.take(all.len() as int) =~= all);
    match end {
        Some(r) => r,
        None => Ok(()),
    }
}

/// The code that the program exits with, where that of a command is known.
pub fn exit_code(code: Option<i32>) -> (r: i32)
    ensures
        r == match code {
            Some(c) => c as int,
            None => 1,
        },
{
    match code {
        Some(c) => c,
        None => 1,
    }
}

/// A text without the codes that steer a terminal.
pub uninterp spec fn without_codes(s: Seq<char>) -> Seq<char>;

/// `console::strip_ansi_codes`: the text without the codes that steer a terminal.
/// The same text always gives the same. Every code begins with one of two
/// characters, so a text with neither is kept.
#[verifier::external_body]
fn strip_ansi_codes(s: &str) -> (r: String)
    ensures
        r@ == without_codes(s@),
        !has_char(s@, '\u{1b}') && !has_char(s@, '\u{9b}') ==> r@ == s@,
{
    console::strip_ansi_codes(s).into_owned()
}

/// What is written to the file with the output of a command that failed.
pub fn output_file_content(combined_output: &str) -> (r: String)
    ensures
        r@ == without_codes(combined_output@),
        !has_char(combined_output@, '\u{1b}') && !has_char(combined_output@, '\u{9b}') ==> r@
            == combined_output@,
{
    strip_ansi_codes(combined_output)
}

/// Where the output of a command that failed is said to be.
pub fn output_file_hint(path: &str) -> (r: String)
    ensures
        r@ == "\nSee "@ + path@ + " for full command output"@,
{
    let mut s = "\nSee ".to_owned();
    s.append(path);
    s.append(" for full command output");
    s
}

/// Writing goes on as long as every line was written, and ends with the first that was not:
/// well where the reader is gone, else with the error.
pub proof fn law_the_first_fault_ends_writing(outcomes: Seq<WriteOutcome>, i: int)
    requires
        0 <= i < outcomes.len(),
        !(outcomes[i] is Written),
        forall|k: int| 0 <= k < i ==> #[trigger] outcomes[k] is Written,
    ensures
        outcomes[i] is BrokenPipe ==> writing(outcomes) == Some(Ok::<(), String>(())),
        outcomes[i] matches WriteOutcome::Failed(e) ==> writing(outcomes) == Some(
            Err::<(), String>(e),
        ),
    decreases outcomes.len(),
{
    let init = outcomes.drop_last();
    if i < init.len() {
        assert(init[i] == outcomes[i]);
        assert forall|k: int| 0 <= k < i implies #[trigger] init[k] is Written by {
            assert(outcomes[k] is Written);
        }
        law_the_first_fault_ends_writing(init, i);
    } else {
        assert forall|k: int| 0 <= k < init.len() implies #[trigger] init[k] is Written by {
            assert(outcomes[k] is Written);
        }
        law_written_lines_end_nothing(init);
    }
}

/// Lines that were all written end nothing.
pub proof fn law_written_lines_end_nothing(outcomes: Seq<WriteOutcome>)
    requires
        forall|k: int| 0 <= k < outcomes.len() ==> #[trigger] outcomes[k] is Written,
    ensures
        writing(outcomes) is None,
    decreases outcomes.len(),
{
    if outcomes.len() > 0 {
        let init = outcomes.drop_last();
        assert forall|k: int| 0 <= k < init.len() implies #[trigger] init[k] is Written by {
            assert(outcomes[k] is Written);
        }
        law_written_lines_end_nothing(init);
        assert(outcomes[outcomes.len() - 1] is Written);
    }
}

} // verus!
