//! The options of a hook invocation, and what they lead to.

use vstd::prelude::*;
use vstd::string::*;
use vstd::utf8::{encode_utf8, valid_utf8};
use crate::config::{error_of, Config, ConfigView};
use crate::seqs::{opt_text, opt_texts, texts};
use crate::settings::OutputFormat;
use crate::table::{keys_of, lookup, Dup};
use crate::text::{dup_list, dup_opt, dup_opt_list, same, trim, trimmed};

verus! {

broadcast use crate::seqs::group_text;

/// The options of a hook invocation.
pub struct HookOptions {
    /// Run on these files.
    pub files: Option<Vec<String>>,
    /// Run on all files of the repository.
    pub all: bool,
    /// Run check commands.
    pub check: bool,
    /// Leave out files that match these patterns.
    pub exclude: Option<Vec<String>>,
    /// Run fix commands.
    pub fix: bool,
    /// Run on files that match these patterns.
    pub glob: Option<Vec<String>>,
    pub json: bool,
    /// Print the plan instead of running.
    pub plan: bool,
    /// Run only these steps.
    pub step: Vec<String>,
    /// Explain the plan, of one step where it is named.
    pub why: Option<String>,
    pub fail_fast: bool,
    /// Where to read a NUL-delimited list of files from.
    pub files0_from: Option<String>,
    pub format: Option<OutputFormat>,
    /// Invoked by an installed git hook.
    pub from_hook: bool,
    pub from_ref: Option<String>,
    pub no_fail_fast: bool,
    pub no_stage: bool,
    /// Run on the files of the current branch.
    pub pr: bool,
    /// Refuse commands with unknown or destructive effects.
    pub safe: bool,
    pub sarif: Option<String>,
    /// Skip these steps.
    pub skip_step: Vec<String>,
    pub stage: bool,
    /// Run on staged files, without stashing.
    pub staged: bool,
    pub stash: Option<String>,
    pub stats: bool,
    pub to_ref: Option<String>,
    /// Run on unstaged and untracked files, without stashing.
    pub unstaged: bool,
}

/// What [`HookOptions`] stands for.
pub struct HookOptionsView {
    pub files: Option<Seq<Seq<char>>>,
    pub all: bool,
    pub check: bool,
    pub exclude: Option<Seq<Seq<char>>>,
    pub fix: bool,
    pub glob: Option<Seq<Seq<char>>>,
    pub json: bool,
    pub plan: bool,
    pub step: Seq<Seq<char>>,
    pub why: Option<Seq<char>>,
    pub fail_fast: bool,
    pub files0_from: Option<Seq<char>>,
    pub format: Option<OutputFormat>,
    pub from_hook: bool,
    pub from_ref: Option<Seq<char>>,
    pub no_fail_fast: bool,
    pub no_stage: bool,
    pub pr: bool,
    pub safe: bool,
    pub sarif: Option<Seq<char>>,
    pub skip_step: Seq<Seq<char>>,
    pub stage: bool,
    pub staged: bool,
    pub stash: Option<Seq<char>>,
    pub stats: bool,
    pub to_ref: Option<Seq<char>>,
    pub unstaged: bool,
}

impl View for HookOptions {
    type V = HookOptionsView;

    open spec fn view(&self) -> HookOptionsView {
        HookOptionsView {
            files: opt_texts(self.files),
            all: self.all,
            check: self.check,
            exclude: opt_texts(self.exclude),
            fix: self.fix,
            glob: opt_texts(self.glob),
            json: self.json,
            plan: self.plan,
            step: texts(self.step@),
            why: opt_text(self.why),
            fail_fast: self.fail_fast,
            files0_from: opt_text(self.files0_from),
            format: self.format,
            from_hook: self.from_hook,
            from_ref: opt_text(self.from_ref),
            no_fail_fast: self.no_fail_fast,
            no_stage: self.no_stage,
            pr: self.pr,
            safe: self.safe,
            sarif: opt_text(self.sarif),
            skip_step: texts(self.skip_step@),
            stage: self.stage,
            staged: self.staged,
            stash: opt_text(self.stash),
            stats: self.stats,
            to_ref: opt_text(self.to_ref),
            unstaged: self.unstaged,
        }
    }
}

impl Dup for HookOptions {
    fn dup(&self) -> (r: Self) {
        HookOptions {
            files: dup_opt_list(&self.files),
            all: self.all,
            check: self.check,
            exclude: dup_opt_list(&self.exclude),
            fix: self.fix,
            glob: dup_opt_list(&self.glob),
            json: self.json,
            plan: self.plan,
            step: dup_list(&self.step),
            why: dup_opt(&self.why),
            fail_fast: self.fail_fast,
            files0_from: dup_opt(&self.files0_from),
            format: self.format,
            from_hook: self.from_hook,
            from_ref: dup_opt(&self.from_ref),
            no_fail_fast: self.no_fail_fast,
            no_stage: self.no_stage,
            pr: self.pr,
            safe: self.safe,
            sarif: dup_opt(&self.sarif),
            skip_step: dup_list(&self.skip_step),
            stage: self.stage,
            staged: self.staged,
            stash: dup_opt(&self.stash),
            stats: self.stats,
            to_ref: dup_opt(&self.to_ref),
            unstaged: self.unstaged,
        }
    }
}

impl Default for HookOptions {
    fn default() -> (r: Self)
        ensures
            r@ == blank_options(),
    {
        let r = HookOptions {
            files: None,
            all: false,
            check: false,
            exclude: None,
            fix: false,
            glob: None,
            json: false,
            plan: false,
            step: Vec::new(),
            why: None,
            fail_fast: false,
            files0_from: None,
            format: None,
            from_hook: false,
            from_ref: None,
            no_fail_fast: false,
            no_stage: false,
            pr: false,
            safe: false,
            sarif: None,
            skip_step: Vec::new(),
            stage: false,
            staged: false,
            stash: None,
            stats: false,
            to_ref: None,
            unstaged: false,
        };
        assert(r@.step =~= seq![]);
        assert(r@.skip_step =~= seq![]);
        r
    }
}

/// No option given.
pub open spec fn blank_options() -> HookOptionsView {
    HookOptionsView {
        files: None,
        all: false,
        check: false,
        exclude: None,
        fix: false,
        glob: None,
        json: false,
        plan: false,
        step: seq![],
        why: None,
        fail_fast: false,
        files0_from: None,
        format: None,
        from_hook: false,
        from_ref: None,
        no_fail_fast: false,
        no_stage: false,
        pr: false,
        safe: false,
        sarif: None,
        skip_step: seq![],
        stage: false,
        staged: false,
        stash: None,
        stats: false,
        to_ref: None,
        unstaged: false,
    }
}

/// Why options cannot stand together, if they cannot.
pub open spec fn conflict(o: HookOptionsView) -> Option<Seq<char>> {
    if o.staged && o.stash is Some {
        Some("argument '--staged' cannot be used with '--stash <STASH>'"@)
    } else if o.unstaged && o.stash is Some {
        Some("argument '--unstaged' cannot be used with '--stash <STASH>'"@)
    } else {
        None
    }
}

/// The runs of bytes between zero bytes, leaving out empty ones; the last run
/// may still grow.
pub open spec fn zero_runs(bytes: Seq<u8>) -> (Seq<Seq<u8>>, Seq<u8>)
    decreases bytes.len(),
{
    if bytes.len() == 0 {
        (seq![], seq![])
    } else {
        let (done, open) = zero_runs(bytes.drop_last());
        if bytes.last() == 0 {
            (if open.len() == 0 { done } else { done.push(open) }, seq![])
        } else {
            (done, open.push(bytes.last()))
        }
    }
}

/// The non-empty runs of bytes between zero bytes.
#[verifier::opaque]
pub open spec fn zero_delimited(bytes: Seq<u8>) -> Seq<Seq<u8>> {
    let (done, open) = zero_runs(bytes);
    if open.len() == 0 {
        done
    } else {
        done.push(open)
    }
}

/// `String::from_utf8`: the text that bytes in UTF-8 stand for, and `None`
/// exactly where the bytes are not UTF-8.
#[verifier::external_body]
pub(crate) fn utf8_text(bytes: Vec<u8>) -> (r: Option<String>)
    ensures
        r is Some == valid_utf8(bytes@),
        r matches Some(s) ==> encode_utf8(s@) == bytes@,
{
    String::from_utf8(bytes).ok()
}

/// The bytes of each text.
#[verifier::opaque]
pub open spec fn encoded(v: Seq<Seq<char>>) -> Seq<Seq<u8>> {
    v.map_values(|s: Seq<char>| encode_utf8(s))
}

/// Every run is UTF-8.
#[verifier::opaque]
pub open spec fn all_utf8(runs: Seq<Seq<u8>>) -> bool {
    forall|i: int| 0 <= i < runs.len() ==> valid_utf8(#[trigger] runs[i])
}

proof fn lemma_all_utf8_push(done: Seq<Seq<u8>>, b: Seq<u8>)
    ensures
        all_utf8(done.push(b)) <==> (all_utf8(done) && valid_utf8(b)),
{
    reveal(all_utf8);
    if all_utf8(done.push(b)) {
        assert(valid_utf8(done.push(b)[done.len() as int]));
        assert forall|k: int| 0 <= k < done.len() implies valid_utf8(#[trigger] done[k]) by {
            assert(valid_utf8(done.push(b)[k]));
        }
    }
}

fn add_run(files: &mut Vec<String>, run: Vec<u8>) -> (r: bool)
    ensures
        r == valid_utf8(run@),
        r ==> encoded(texts(final(files)@)) == encoded(texts(old(files)@)).push(run@),
{
    reveal(encoded);
    let ghost b = run@;
    let ghost before = files@;
    match utf8_text(run) {
        Some(s) => {
            files.push(s);
            assert(encoded(texts(files@)) =~= encoded(texts(before)).push(b));
            true
        },
        None => false,
    }
}

/// The paths in a NUL-delimited list. The error comes exactly when some path
/// is not UTF-8.
pub fn split_files0(bytes: &[u8]) -> (r: Result<Vec<String>, String>)
    ensures
        r is Ok == all_utf8(zero_delimited(bytes@)),
        r matches Ok(files) ==> encoded(texts(files@)) == zero_delimited(bytes@),
        r matches Err(e) ==> e@ == "--files0-from contains a path that is not valid UTF-8"@,
{
    reveal(zero_delimited);
    reveal(all_utf8);
    reveal(encoded);
    let mut files: Vec<String> = Vec::new();
    let mut open: Vec<u8> = Vec::new();
    let mut valid = true;
    assert(encoded(texts(files@)) =~= zero_runs(bytes@.take(0)).0);
    assert(open@ =~= zero_runs(bytes@.take(0)).1);
    for i in 0..bytes.len()
        invariant
            open@ == zero_runs(bytes@.take(i as int)).1,
            valid == all_utf8(zero_runs(bytes@.take(i as int)).0),
            valid ==> encoded(texts(files@)) == zero_runs(bytes@.take(i as int)).0,
    {
        let ghost done = zero_runs(bytes@.take(i as int)).0;
        if bytes[i] == 0 {
            if open.len() > 0 {
                let run = open;
                let ghost b = run@;
                open = Vec::new();
                let ok = add_run(&mut files, run);
                proof {
                    lemma_all_utf8_push(done, b);
                }
                valid = valid && ok;
            }
            assert(open@ =~= Seq::<u8>::empty());
        } else {
            open.push(bytes[i]);
        }
    }
    assert(bytes@.take(bytes@.len() as int) =~= bytes@);
    let ghost done = zero_runs(bytes@).0;
    if open.len() > 0 {
        let ghost b = open@;
        let ok = add_run(&mut files, open);
        proof {
            lemma_all_utf8_push(done, b);
        }
        valid = valid && ok;
    }
    if valid {
        Ok(files)
    } else {
        Err("--files0-from contains a path that is not valid UTF-8".to_owned())
    }
}

/// What loading a NUL-delimited list makes of options: the list, where one was
/// asked for, becomes the files to run on; a path that is not UTF-8 is an error.
pub open spec fn files0_loaded(
    before: HookOptionsView,
    bytes: Seq<u8>,
    result: HookOptionsView,
    error: Option<Seq<char>>,
) -> bool {
    if before.files0_from is None {
        error is None && result == before
    } else if all_utf8(zero_delimited(bytes)) {
        &&& error is None
        &&& result.files is Some
        &&& encoded(result.files->0) == zero_delimited(bytes)
        &&& result == HookOptionsView { files0_from: None, files: result.files, ..before }
    } else {
        &&& error == Some("--files0-from contains a path that is not valid UTF-8"@)
        &&& result == HookOptionsView { files0_from: None, ..before }
    }
}

/// The suggestion for a name that is not among `candidates`, if one is close.
pub uninterp spec fn close_name(input: Seq<char>, candidates: Seq<Seq<char>>) -> Option<Seq<char>>;

/// `xx::suggest::did_you_mean`: a question that names the candidate most like
/// the input, where one is like it at all.
#[verifier::external_body]
fn did_you_mean(input: &str, candidates: &Vec<String>) -> (r: Option<String>)
    ensures
        opt_text(r) == close_name(input@, texts(candidates@)),
        r is Some ==> candidates@.len() > 0,
{
    xx::suggest::did_you_mean(input, candidates)
}

/// What an invocation leads to.
pub enum Dispatch {
    /// Nothing runs, for the reason given.
    Noop(String),
    Stats,
    Plan,
    Run,
    Fail(String),
}

/// What [`Dispatch`] stands for.
pub enum DispatchView {
    Noop(Seq<char>),
    Stats,
    Plan,
    Run,
    Fail(Seq<char>),
}

impl View for Dispatch {
    type V = DispatchView;

    open spec fn view(&self) -> DispatchView {
        match self {
            Dispatch::Noop(s) => DispatchView::Noop(s@),
            Dispatch::Stats => DispatchView::Stats,
            Dispatch::Plan => DispatchView::Plan,
            Dispatch::Run => DispatchView::Run,
            Dispatch::Fail(s) => DispatchView::Fail(s@),
        }
    }
}

/// The branch that a pull request is compared with: the configured one unless
/// it is blank, else that of the repository, else `main`.
pub open spec fn base_branch(
    configured: Option<Seq<char>>,
    repository: Option<Seq<char>>,
) -> Seq<char> {
    match configured {
        Some(b) => if trimmed(b).len() > 0 {
            b
        } else {
            match repository {
                Some(r) => r,
                None => "main"@,
            }
        },
        None => match repository {
            Some(r) => r,
            None => "main"@,
        },
    }
}

/// JSON output is asked for with nothing that can give it.
pub open spec fn json_misused(o: HookOptionsView, trace: bool) -> bool {
    o.json && !o.plan && o.why is None && !trace
}

/// The error for a hook that is not defined.
pub open spec fn missing_hook(name: Seq<char>, suggestion: Option<Seq<char>>) -> Seq<char> {
    match suggestion {
        Some(s) => "Hook '"@ + name + "' not found. "@ + s,
        None => "Hook '"@ + name + "' not found"@,
    }
}

/// What an invocation of the hook `name` leads to once the configuration is
/// loaded, where `suggestion` is that for an unknown name.
pub open spec fn dispatched(
    o: HookOptionsView,
    name: Seq<char>,
    config: ConfigView,
    trace: bool,
    suggestion: Option<Seq<char>>,
) -> DispatchView {
    if json_misused(o, trace) {
        DispatchView::Fail("--json requires --plan or --why"@)
    } else {
        match lookup(config.hooks, name) {
            Some(hook) => if !hook.enabled {
                DispatchView::Noop("hook disabled by configuration"@)
            } else if o.stats {
                DispatchView::Stats
            } else if o.plan || o.why is Some {
                DispatchView::Plan
            } else {
                DispatchView::Run
            },
            None => if o.from_hook {
                DispatchView::Noop("hook not defined in project configuration"@)
            } else {
                DispatchView::Fail(missing_hook(name, suggestion))
            },
        }
    }
}

impl HookOptions {
    /// Whether the options can stand together.
    pub fn validate(&self) -> (r: Result<(), String>)
        ensures
            error_of(r) == conflict(self@),
    {
        if self.staged && self.stash.is_some() {
            return Err("argument '--staged' cannot be used with '--stash <STASH>'".to_owned());
        }
        if self.unstaged && self.stash.is_some() {
            return Err("argument '--unstaged' cannot be used with '--stash <STASH>'".to_owned());
        }
        Ok(())
    }

    /// Whether the list of files comes from standard input.
    pub fn reads_file_list_from_stdin(&self) -> (r: bool)
        ensures
            r == (self@.files0_from == Some("-"@)),
    {
        match &self.files0_from {
            Some(source) => same(source.as_str(), "-"),
            None => false,
        }
    }

    fn take_files(&mut self, files: Vec<String>)
        ensures
            final(self)@ == (HookOptionsView {
                files0_from: None,
                files: Some(texts(files@)),
                ..old(self)@
            }),
    {
        self.files0_from = None;
        self.files = Some(files);
    }

    /// Takes over the files of a NUL-delimited list, where one was asked for.
    pub fn load_files0(&mut self, bytes: &[u8]) -> (r: Result<(), String>)
        ensures
            files0_loaded(old(self)@, bytes@, final(self)@, error_of(r)),
    {
        if self.files0_from.is_none() {
            return Ok(());
        }
        match split_files0(bytes) {
            Ok(files) => {
                self.take_files(files);
                Ok(())
            },
            Err(e) => {
                self.files0_from = None;
                Err(e)
            },
        }
    }

    /// Whether the options turn staging on or off.
    pub fn should_stage(&self) -> (r: Option<bool>)
        ensures
            r == if self@.stage {
                Some(true)
            } else if self@.no_stage {
                Some(false)
            } else {
                None
            },
    {
        if self.stage {
            Some(true)
        } else if self.no_stage {
            Some(false)
        } else {
            None
        }
    }

    /// What an invocation leads to before the configuration is loaded, where
    /// that is settled already: an installed hook does nothing in a project
    /// without a configuration.
    pub fn before_config(&self, project_config_exists: bool) -> (r: Option<Dispatch>)
        ensures
            match conflict(self@) {
                Some(e) => r is Some && r->0@ == DispatchView::Fail(e),
                None => if self@.from_hook && !project_config_exists {
                    r is Some && r->0@ == DispatchView::Noop(
                        "no project configuration found for installed hook"@,
                    )
                } else {
                    r is None
                },
            },
    {
        if let Err(e) = self.validate() {
            return Some(Dispatch::Fail(e));
        }
        if self.from_hook && !project_config_exists {
            return Some(
                Dispatch::Noop("no project configuration found for installed hook".to_owned()),
            );
        }
        None
    }

    /// Where the files of a pull request are asked for, compares the default
    /// branch with the head.
    pub fn resolve_pr(&mut self, configured: &Option<String>, repository: &Option<String>)
        ensures
            final(self)@ == if old(self)@.pr {
                HookOptionsView {
                    from_ref: Some(base_branch(opt_text(*configured), opt_text(*repository))),
                    to_ref: Some("HEAD"@),
                    ..old(self)@
                }
            } else {
                old(self)@
            },
    {
        if self.pr {
            let fallback = match repository {
                Some(r) => r.clone(),
                None => "main".to_owned(),
            };
            let branch = match configured {
                Some(b) => if !trim(b.as_str()).as_str().is_empty() {
                    b.clone()
                } else {
                    fallback
                },
                None => fallback,
            };
            self.from_ref = Some(branch);
            self.to_ref = Some("HEAD".to_owned());
        }
    }

    /// What an invocation of the hook `name` leads to once the configuration is
    /// loaded. `trace` says that JSON output was asked for as a trace.
    pub fn dispatch(&self, name: &str, config: &Config, trace: bool) -> (r: Dispatch)
        ensures
            r@ == dispatched(
                self@,
                name@,
                config@,
                trace,
                close_name(name@, keys_of(config@.hooks)),
            ),
    {
        let mut names: Vec<String> = Vec::new();
        let n: usize = config.hooks.len();
        for i in 0..n
            invariant
                n == config.hooks@.len(),
                texts(names@) =~= keys_of(config.hooks@).take(i as int),
        {
            names.push(config.hooks.key_at(i).clone());
        }
        assert(texts(names@) =~= keys_of(config.hooks@));
        let suggestion = did_you_mean(name, &names);
        self.dispatch_with(name, config, trace, &suggestion)
    }

    /// As [`HookOptions::dispatch`], with the suggestion for an unknown name given.
    pub fn dispatch_with(
        &self,
        name: &str,
        config: &Config,
        trace: bool,
        suggestion: &Option<String>,
    ) -> (r: Dispatch)
        ensures
            r@ == dispatched(self@, name@, config@, trace, opt_text(*suggestion)),
    {
        if self.json && !self.plan && self.why.is_none() && !trace {
            return Dispatch::Fail("--json requires --plan or --why".to_owned());
        }
        match config.hooks.get(name) {
            Some(hook) => {
                if !hook.enabled {
                    Dispatch::Noop("hook disabled by configuration".to_owned())
                } else if self.stats {
                    Dispatch::Stats
                } else if self.plan || self.why.is_some() {
                    Dispatch::Plan
                } else {
                    Dispatch::Run
                }
            },
            None => {
                if self.from_hook {
                    Dispatch::Noop("hook not defined in project configuration".to_owned())
                } else {
                    let mut m = "Hook '".to_owned();
                    m.append(name);
                    match suggestion {
                        Some(s) => {
                            m.append("' not found. ");
                            m.append(s.as_str());
                        },
                        None => m.append("' not found"),
                    }
                    Dispatch::Fail(m)
                }
            },
        }
    }
}

/// An installed hook never fails for want of a configuration or of a hook in
/// it: it leads to an error only where its own options conflict.
pub proof fn law_installed_hook_is_silent(
    o: HookOptionsView,
    name: Seq<char>,
    config: ConfigView,
    suggestion: Option<Seq<char>>,
)
    requires
        o.from_hook,
        !o.json,
    ensures
        !(dispatched(o, name, config, false, suggestion) is Fail),
        lookup(config.hooks, name) is None ==> dispatched(o, name, config, false, suggestion)
            is Noop,
{
}

/// Options conflict exactly where an invocation on staged or unstaged files is also to put
/// work aside.
pub proof fn law_stashing_conflicts_with_a_selection(o: HookOptionsView)
    ensures
        conflict(o) is Some <==> o.stash is Some && (o.staged || o.unstaged),
{
}

/// An invocation runs a hook exactly where the hook is there and enabled, and neither
/// statistics nor a plan is asked for; what is asked for is what it leads to.
pub proof fn law_invocations_do_what_is_asked(
    o: HookOptionsView,
    name: Seq<char>,
    config: ConfigView,
    trace: bool,
    suggestion: Option<Seq<char>>,
)
    ensures
        ({
            let d = dispatched(o, name, config, trace, suggestion);
            let hook = lookup(config.hooks, name);
            let misused = o.json && !o.plan && o.why is None && !trace;
            let ready = !misused && hook is Some && hook->0.enabled;
            &&& d is Run <==> ready && !o.stats && !o.plan && o.why is None
            &&& d is Stats <==> ready && o.stats
            &&& d is Plan <==> ready && !o.stats && (o.plan || o.why is Some)
            &&& d is Noop <==> !misused && ((hook is Some && !hook->0.enabled) || (hook is None
                && o.from_hook))
            &&& d is Fail <==> misused || (hook is None && !o.from_hook)
        }),
{
}

/// A pull request is compared with the branch that is configured, unless that is blank;
/// else with that of the repository, else with `main`.
pub proof fn law_pull_requests_have_a_base(configured: Option<Seq<char>>, repository: Option<Seq<char>>)
    ensures
        configured is Some && trimmed(configured->0).len() > 0 ==> base_branch(
            configured,
            repository,
        ) == configured->0,
        configured is None || trimmed(configured->0).len() == 0 ==> base_branch(
            configured,
            repository,
        ) == (if repository is Some {
            repository->0
        } else {
            seq!['m', 'a', 'i', 'n']
        }),
{
    reveal_strlit("main");
    assert("main"@ =~= seq!['m', 'a', 'i', 'n']);
}

/// A list between zero bytes holds what stands between them: no item is empty or holds a
/// zero byte, and one more item with a zero byte behind it is one more item of the list.
pub proof fn law_zero_delimited_lists_hold_their_items(list: Seq<u8>, item: Seq<u8>)
    requires
        list.len() == 0 || list.last() == 0,
        item.len() > 0,
        !item.contains(0),
    ensures
        zero_delimited(list + item.push(0)) == zero_delimited(list).push(item),
        zero_delimited(list + item) == zero_delimited(list).push(item),
        zero_delimited(list.push(0)) == zero_delimited(list),
{
    reveal(zero_delimited);
    lemma_zero_open(list, item);
    let (done, open) = zero_runs(list);
    assert(open.len() == 0);
    assert(open + item =~= item);
    let t = list + item.push(0);
    assert(t =~= (list + item).push(0));
    assert(t.drop_last() =~= list + item);
    assert(list.push(0).drop_last() =~= list);
}

proof fn lemma_zero_open(list: Seq<u8>, item: Seq<u8>)
    requires
        !item.contains(0),
    ensures
        zero_runs(list + item) == (zero_runs(list).0, zero_runs(list).1 + item),
    decreases item.len(),
{
    if item.len() == 0 {
        assert(list + item =~= list);
        assert(zero_runs(list).1 + item =~= zero_runs(list).1);
    } else {
        let init = item.drop_last();
        crate::seqs::lemma_last_or_before(item, 0);
        lemma_zero_open(list, init);
        assert((list + item).drop_last() =~= list + init);
        assert((list + item).last() == item.last());
        assert((zero_runs(list).1 + init).push(item.last()) =~= zero_runs(list).1 + item);
    }
}

} // verus!
