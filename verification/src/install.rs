//! Installing hooks into git: what is written where, and how paths are quoted.

use vstd::prelude::*;
use vstd::string::*;
use crate::config::Config;
use crate::hook::HookView;
use crate::seqs::{opt_text, texts};
use crate::table::{push_new, NameSet};
use crate::text::{
    contains, decimal, ends, ends_with, has_text, join, joined, lines, lines_of, same, show_i32,
    show_usize, signed_decimal, trim, trimmed,
};

verus! {

broadcast use crate::seqs::group_text;

/// The options of an installation.
#[derive(Clone, Copy, Debug, PartialEq, Eq, Structural)]
pub struct Install {
    /// Install into the repository even where hooks are installed for the user.
    pub force_local: bool,
    /// Install for the user.
    pub global: bool,
    /// Write scripts instead of configuration.
    pub legacy: bool,
    /// Run the hooks through mise.
    pub mise: bool,
}

/// What an installation does.
#[derive(Clone, Copy, Debug, PartialEq, Eq, Structural)]
pub enum InstallMode {
    /// Git is too old for hooks in the user's configuration.
    Unsupported,
    Global,
    /// Hooks are installed for the user already: only stale local ones are removed.
    CleanLocal,
    LocalConfig,
    LocalScripts,
}

impl Install {
    pub open spec fn mode_of(self, config_hooks: bool, has_global: bool) -> InstallMode {
        if self.global {
            if config_hooks {
                InstallMode::Global
            } else {
                InstallMode::Unsupported
            }
        } else if !self.force_local && has_global {
            InstallMode::CleanLocal
        } else if !self.legacy && config_hooks {
            InstallMode::LocalConfig
        } else {
            InstallMode::LocalScripts
        }
    }

    /// What the installation does, where `config_hooks` says that git takes
    /// hooks from its configuration and `has_global` that hooks are installed for
    /// the user.
    pub fn mode(&self, config_hooks: bool, has_global: bool) -> (r: InstallMode)
        ensures
            r == self.mode_of(config_hooks, has_global),
    {
        if self.global {
            if config_hooks {
                InstallMode::Global
            } else {
                InstallMode::Unsupported
            }
        } else if !self.force_local && has_global {
            InstallMode::CleanLocal
        } else if !self.legacy && config_hooks {
            InstallMode::LocalConfig
        } else {
            InstallMode::LocalScripts
        }
    }

    /// The error where git is too old.
    pub fn unsupported_message() -> (r: String)
        ensures
            r@
                == "`hk install --global` requires Git 2.54+ (config-based hooks). Detected git version does not support this. Upgrade git, or install per-repo with `hk install`."@,
    {
        "`hk install --global` requires Git 2.54+ (config-based hooks). Detected git version does not support this. Upgrade git, or install per-repo with `hk install`.".to_owned()
    }
}

/// Hooks never fire twice by accident: where they are installed for the user, a
/// local installation adds none unless it is forced to.
pub proof fn law_global_hooks_are_not_doubled(install: Install, config_hooks: bool)
    requires
        !install.global,
        !install.force_local,
    ensures
        install.mode_of(config_hooks, true) == InstallMode::CleanLocal,
{
}

/// What is said where hooks are installed for the user already.
pub open spec fn clean_message(removed: nat) -> Seq<char> {
    if removed > 0 {
        "hk hooks already configured globally (~/.gitconfig); removed "@ + decimal(removed)
            + " stale local hook(s) and did not install new ones. Pass `--force-local` to install per-repo hooks anyway."@
    } else {
        "hk hooks already configured globally (~/.gitconfig); skipping local install. Pass `--force-local` to install per-repo hooks anyway."@
    }
}

/// What is said where hooks are installed for the user already.
pub fn cleaned_message(removed: usize) -> (r: String)
    ensures
        r@ == clean_message(removed as nat),
{
    if removed > 0 {
        let mut m = "hk hooks already configured globally (~/.gitconfig); removed ".to_owned();
        m.append(show_usize(removed).as_str());
        m.append(
            " stale local hook(s) and did not install new ones. Pass `--force-local` to install per-repo hooks anyway.",
        );
        m
    } else {
        "hk hooks already configured globally (~/.gitconfig); skipping local install. Pass `--force-local` to install per-repo hooks anyway.".to_owned()
    }
}

/// What is said where there is no hook to install.
pub open spec fn nothing_message(removed: nat) -> Seq<char> {
    if removed > 0 {
        "no hooks configured in hk.pkl — removed "@ + decimal(removed)
            + " previously-installed hk hook(s) and did not install any new ones"@
    } else {
        "no hooks configured in hk.pkl — nothing to install"@
    }
}

/// What is said where there is no hook to install.
pub fn nothing_to_install_message(removed: usize) -> (r: String)
    ensures
        r@ == nothing_message(removed as nat),
{
    if removed > 0 {
        let mut m = "no hooks configured in hk.pkl — removed ".to_owned();
        m.append(show_usize(removed).as_str());
        m.append(" previously-installed hk hook(s) and did not install any new ones");
        m
    } else {
        "no hooks configured in hk.pkl — nothing to install".to_owned()
    }
}

/// The failure of a search in git's configuration.
pub open spec fn search_failure(code: i32, stderr: Seq<char>) -> Seq<char> {
    "git config --get-regexp failed (exit "@ + signed_decimal(code as int) + "): "@ + trimmed(stderr)
}

fn search_failed(code: i32, stderr: &str) -> (r: String)
    ensures
        r@ == search_failure(code, stderr@),
{
    let mut m = "git config --get-regexp failed (exit ".to_owned();
    m.append(show_i32(code).as_str());
    m.append("): ");
    m.append(trim(stderr).as_str());
    m
}

/// What a search in git's configuration found: 0 means that it found something,
/// 1 or no code that it did not, anything else that it failed.
pub open spec fn search_result(
    code: Option<i32>,
    stdout_empty: bool,
    stderr: Seq<char>,
) -> Result<bool, Seq<char>> {
    let c = match code {
        Some(c) => c,
        None => 1,
    };
    if c == 0 {
        Ok(!stdout_empty)
    } else if c == 1 {
        Ok(false)
    } else {
        Err(search_failure(c, stderr))
    }
}

/// Whether hooks are installed for the user, from what the search in the
/// user's configuration gave.
pub fn has_global_hk_hooks(code: Option<i32>, stdout_empty: bool, stderr: &str) -> (r: Result<
    bool,
    String,
>)
    ensures
        crate::execution::flag_result(r) == search_result(code, stdout_empty, stderr@),
{
    let c: i32 = match code {
        Some(c) => c,
        None => 1,
    };
    if c == 0 {
        Ok(!stdout_empty)
    } else if c == 1 {
        Ok(false)
    } else {
        Err(search_failed(c, stderr))
    }
}

/// The command that hooks of a repository run.
pub open spec fn local_command(use_mise: bool) -> Seq<char> {
    if use_mise {
        "mise x -- hk"@
    } else {
        "hk"@
    }
}

/// The command that hooks of a repository run.
pub fn local_hook_command(use_mise: bool) -> (r: String)
    ensures
        r@ == local_command(use_mise),
{
    if use_mise {
        "mise x -- hk".to_owned()
    } else {
        "hk".to_owned()
    }
}

/// A byte that a shell takes as it is.
pub open spec fn is_plain(b: u8) -> bool {
    ||| 97 <= b <= 122
    ||| 65 <= b <= 90
    ||| 48 <= b <= 57
    ||| b == 95
    ||| b == 64
    ||| b == 37
    ||| b == 43
    ||| b == 61
    ||| b == 58
    ||| b == 44
    ||| b == 46
    ||| b == 47
    ||| b == 45
}

/// Whether a shell takes a byte as it is: letters, digits and `_@%+=:,./-`.
pub fn is_shell_safe_byte(b: &u8) -> (r: bool)
    ensures
        r == is_plain(*b),
{
    let b: u8 = *b;
    (97 <= b && b <= 122) || (65 <= b && b <= 90) || (48 <= b && b <= 57) || b == 95 || b == 64 || b
        == 37 || b == 43 || b == 61 || b == 58 || b == 44 || b == 46 || b == 47 || b == 45
}

pub open spec fn all_plain(path: Seq<u8>) -> bool {
    forall|i: int| 0 <= i < path.len() ==> is_plain(#[trigger] path[i])
}

/// Whether a shell takes a path as it is.
pub fn is_shell_safe_path(path: &[u8]) -> (r: bool)
    ensures
        r == all_plain(path@),
{
    for i in 0..path.len()
        invariant
            forall|k: int| 0 <= k < i ==> is_plain(#[trigger] path@[k]),
    {
        if !is_shell_safe_byte(&path[i]) {
            assert(!is_plain(path@[i as int]));
            return false;
        }
    }
    true
}

/// A path between quotes, where a quote in it ends the quotes, stands escaped and begins them anew.
pub open spec fn quoted_body(path: Seq<u8>) -> Seq<u8>
    decreases path.len(),
{
    if path.len() == 0 {
        seq![]
    } else if path.last() == 39 {
        quoted_body(path.drop_last()) + seq![39u8, 92u8, 39u8, 39u8]
    } else {
        quoted_body(path.drop_last()).push(path.last())
    }
}

/// A path as one word of a shell.
pub open spec fn shell_word(path: Seq<u8>) -> Seq<u8> {
    if all_plain(path) {
        path
    } else {
        (seq![39u8] + quoted_body(path)).push(39u8)
    }
}

/// A path as one word of a shell.
pub fn shell_quote_path(path: &[u8]) -> (r: Vec<u8>)
    ensures
        r@ == shell_word(path@),
{
    let mut out: Vec<u8> = Vec::new();
    if is_shell_safe_path(path) {
        for i in 0..path.len()
            invariant
                out@ =~= path@.take(i as int),
        {
            out.push(path[i]);
        }
        return out;
    }
    out.push(39);
    assert(out@ =~= seq![39u8] + quoted_body(path@.take(0)));
    for i in 0..path.len()
        invariant
            out@ == seq![39u8] + quoted_body(path@.take(i as int)),
    {
        let ghost body = quoted_body(path@.take(i as int));
        if path[i] == 39 {
            out.push(39);
            out.push(92);
            out.push(39);
            out.push(39);
            assert(out@ =~= seq![39u8] + (body + seq![39u8, 92u8, 39u8, 39u8]));
        } else {
            out.push(path[i]);
            assert(out@ =~= seq![39u8] + body.push(path@[i as int]));
        }
    }
    assert(path@.take(path@.len() as int) =~= path@);
    out.push(39);
    out
}

/// What a shell has read of a word: the bytes, whether it is between quotes,
/// and whether the next byte is escaped.
pub open spec fn shell_read(word: Seq<u8>) -> (Seq<u8>, bool, bool)
    decreases word.len(),
{
    if word.len() == 0 {
        (seq![], false, false)
    } else {
        let (read, quoted, escaped) = shell_read(word.drop_last());
        let b = word.last();
        if escaped {
            (read.push(b), quoted, false)
        } else if b == 39 {
            (read, !quoted, false)
        } else if b == 92 && !quoted {
            (read, quoted, true)
        } else {
            (read.push(b), quoted, false)
        }
    }
}

proof fn lemma_read_plain(path: Seq<u8>)
    requires
        all_plain(path),
    ensures
        shell_read(path) == (path, false, false),
    decreases path.len(),
{
    if path.len() > 0 {
        let init = path.drop_last();
        assert forall|i: int| 0 <= i < init.len() implies is_plain(#[trigger] init[i]) by {
            assert(init[i] == path[i]);
        }
        lemma_read_plain(init);
        assert(is_plain(path[path.len() - 1]));
        assert(init.push(path.last()) =~= path);
    } else {
        assert(path =~= seq![]);
    }
}

proof fn lemma_read_quoted(path: Seq<u8>)
    ensures
        shell_read(seq![39u8] + quoted_body(path)) == (path, true, false),
    decreases path.len(),
{
    let open = seq![39u8];
    if path.len() == 0 {
        assert(open + quoted_body(path) =~= open);
        assert(open.drop_last() =~= seq![]);
        reveal_with_fuel(shell_read, 2);
        assert(path =~= seq![]);
    } else {
        let init = path.drop_last();
        lemma_read_quoted(init);
        let before = open + quoted_body(init);
        if path.last() == 39 {
            let w1 = before.push(39u8);
            let w2 = w1.push(92u8);
            let w3 = w2.push(39u8);
            let w4 = w3.push(39u8);
            assert(open + quoted_body(path) =~= w4);
            assert(w1.drop_last() =~= before);
            assert(w2.drop_last() =~= w1);
            assert(w3.drop_last() =~= w2);
            assert(w4.drop_last() =~= w3);
            assert(shell_read(w1) == (init, false, false));
            assert(shell_read(w2) == (init, false, true));
            assert(shell_read(w3) == (init.push(39u8), false, false));
            assert(init.push(39u8) =~= path);
        } else {
            let w = before.push(path.last());
            assert(open + quoted_body(path) =~= w);
            assert(w.drop_last() =~= before);
            assert(init.push(path.last()) =~= path);
        }
    }
}

/// A shell reads a quoted path as that path, byte for byte, whatever bytes it holds.
pub proof fn law_quoted_path_reads_back(path: Seq<u8>)
    ensures
        shell_read(shell_word(path)) == (path, false, false),
{
    if all_plain(path) {
        lemma_read_plain(path);
    } else {
        lemma_read_quoted(path);
        let body = seq![39u8] + quoted_body(path);
        assert(body.push(39u8).drop_last() =~= body);
    }
}

/// A path in a command: below the home directory by a tilde where a shell takes
/// the rest as it is, else as one quoted word. `relative` is the path below the
/// home directory, if it lies there.
pub open spec fn command_path(path: Seq<u8>, relative: Option<Seq<u8>>) -> Seq<u8> {
    match relative {
        Some(rest) => if rest.len() > 0 && all_plain(rest) {
            seq![126u8, 47u8] + rest
        } else {
            shell_word(path)
        },
        None => shell_word(path),
    }
}

fn push_all(out: &mut Vec<u8>, bytes: &[u8])
    ensures
        final(out)@ == old(out)@ + bytes@,
{
    let ghost start = out@;
    for i in 0..bytes.len()
        invariant
            out@ =~= start + bytes@.take(i as int),
    {
        out.push(bytes[i]);
    }
    assert(bytes@.take(bytes@.len() as int) =~= bytes@);
}

/// A path in a command.
pub fn shell_path_for_command(path: &[u8], relative: Option<&[u8]>) -> (r: Vec<u8>)
    ensures
        r@ == command_path(
            path@,
            match relative {
                Some(rest) => Some(rest@),
                None => None,
            },
        ),
{
    if let Some(rest) = relative {
        if rest.len() > 0 && is_shell_safe_path(rest) {
            let mut out: Vec<u8> = Vec::new();
            out.push(126);
            out.push(47);
            assert(out@ =~= seq![126u8, 47u8]);
            push_all(&mut out, rest);
            return out;
        }
    }
    shell_quote_path(path)
}

/// The command that hooks of the user run.
pub fn hk_hook_command(hk: &[u8], relative: Option<&[u8]>) -> (r: Vec<u8>)
    ensures
        r@ == command_path(
            hk@,
            match relative {
                Some(rest) => Some(rest@),
                None => None,
            },
        ),
{
    shell_path_for_command(hk, relative)
}

/// The command that hooks of the user run through mise.
pub fn mise_hook_command(mise: &[u8], relative: Option<&[u8]>) -> (r: Vec<u8>)
    ensures
        r@ == command_path(
            mise@,
            match relative {
                Some(rest) => Some(rest@),
                None => None,
            },
        ) + " x hk -- hk".spec_bytes(),
{
    let mut out = shell_path_for_command(mise, relative);
    push_all(&mut out, " x hk -- hk".as_bytes());
    out
}

/// The events that a configuration can be installed for: its enabled hooks but
/// `check` and `fix`, which are no events.
pub open spec fn events_of(hooks: Seq<(Seq<char>, HookView)>) -> Seq<Seq<char>>
    decreases hooks.len(),
{
    if hooks.len() == 0 {
        seq![]
    } else {
        let before = events_of(hooks.drop_last());
        let (name, hook) = hooks.last();
        if hook.enabled && name != "check"@ && name != "fix"@ {
            before.push(name)
        } else {
            before
        }
    }
}

/// The events that a configuration can be installed for.
pub fn hook_events(config: &Config) -> (r: Vec<String>)
    ensures
        texts(r@) == events_of(config@.hooks),
{
    let mut out: Vec<String> = Vec::new();
    let n: usize = config.hooks.len();
    assert(texts(out@) =~= events_of(config@.hooks.take(0)));
    for i in 0..n
        invariant
            n == config.hooks@.len(),
            texts(out@) == events_of(config@.hooks.take(i as int)),
    {
        let name = config.hooks.key_at(i);
        if config.hooks.value_at(i).enabled && !same(name.as_str(), "check") && !same(
            name.as_str(),
            "fix",
        ) {
            out.push(name.clone());
        }
    }
    assert(config@.hooks.take(n as int) =~= config@.hooks);
    out
}

/// The events that hooks of the user are installed for where no configuration says more.
pub open spec fn core_events() -> Seq<Seq<char>> {
    seq!["commit-msg"@, "pre-commit"@, "pre-push"@, "prepare-commit-msg"@]
}

/// The events that hooks of the user are installed for.
pub fn global_hook_events(config: Option<&Config>) -> (r: Vec<String>)
    ensures
        texts(r@) == match config {
            Some(c) => events_of(c@.hooks),
            None => core_events(),
        },
{
    match config {
        Some(c) => hook_events(c),
        None => {
            let mut out: Vec<String> = Vec::new();
            out.push("commit-msg".to_owned());
            out.push("pre-commit".to_owned());
            out.push("pre-push".to_owned());
            out.push("prepare-commit-msg".to_owned());
            assert(texts(out@) =~= core_events());
            out
        },
    }
}

/// A disabled hook is never installed.
pub proof fn law_disabled_hooks_are_not_installed(
    hooks: Seq<(Seq<char>, HookView)>,
    name: Seq<char>,
)
    requires
        forall|i: int| 0 <= i < hooks.len() && (#[trigger] hooks[i]).0 == name ==> !hooks[i].1.enabled,
    ensures
        !events_of(hooks).contains(name),
    decreases hooks.len(),
{
    if hooks.len() > 0 {
        let init = hooks.drop_last();
        assert forall|i: int| 0 <= i < init.len() && (#[trigger] init[i]).0 == name implies !init[
            i
        ].1.enabled by {
            assert(init[i] == hooks[i]);
        }
        law_disabled_hooks_are_not_installed(init, name);
        let before = events_of(init);
        assert(hooks[hooks.len() - 1] == hooks.last());
        if events_of(hooks).contains(name) {
            let all = events_of(hooks);
            let i = choose|i: int| 0 <= i < all.len() && all[i] == name;
            if i < before.len() {
                assert(before[i] == name);
            }
        }
    }
}

/// The script of a hook: it does nothing where `HK` is 0, else hands over to the command.
pub open spec fn hook_script(hk: Seq<char>, hook: Seq<char>) -> Seq<char> {
    "#!/bin/sh\ntest \"${HK:-1}\" = \"0\" || exec "@ + hk + " run "@ + hook
        + " --from-hook \"$@\"\n"@
}

/// The script of a hook.
pub fn git_hook_content(hk: &str, hook: &str) -> (r: String)
    ensures
        r@ == hook_script(hk@, hook@),
{
    let mut s = "#!/bin/sh\ntest \"${HK:-1}\" = \"0\" || exec ".to_owned();
    s.append(hk);
    s.append(" run ");
    s.append(hook);
    s.append(" --from-hook \"$@\"\n");
    s
}

/// The arguments of the command of a hook. Git hands on its own by itself.
pub open spec fn run_arguments(event: Seq<char>, staged_pre_commit: bool) -> Seq<char> {
    " run "@ + event + " --from-hook"@ + (if staged_pre_commit && event == "pre-commit"@ {
        " --staged"@
    } else {
        ""@
    })
}

/// The arguments of the command of a hook.
pub fn hook_run_args(event: &str, staged_pre_commit: bool) -> (r: String)
    ensures
        r@ == run_arguments(event@, staged_pre_commit),
{
    let mut s = " run ".to_owned();
    s.append(event);
    s.append(" --from-hook");
    s.append(
        if staged_pre_commit && same(event, "pre-commit") {
            " --staged"
        } else {
            ""
        },
    );
    s
}

/// An entry of git's configuration.
pub struct ConfigEntry {
    pub key: String,
    pub value: Vec<u8>,
}

/// The key of a hook in git's configuration.
pub open spec fn hook_key(event: Seq<char>, name: Seq<char>) -> Seq<char> {
    "hook.hk-"@ + event + "."@ + name
}

fn key_of(event: &str, name: &str) -> (r: String)
    ensures
        r@ == hook_key(event@, name@),
{
    let mut k = "hook.hk-".to_owned();
    k.append(event);
    k.append(".");
    k.append(name);
    k
}

/// The command of a hook in git's configuration: it does nothing where `HK` is 0.
pub open spec fn config_command(
    command: Seq<u8>,
    event: Seq<char>,
    staged_pre_commit: bool,
) -> Seq<u8> {
    "test \"${HK:-1}\" = \"0\" || ".spec_bytes() + command + vstd::utf8::encode_utf8(
        run_arguments(event, staged_pre_commit),
    )
}

/// The two entries that install a hook into git's configuration: its command
/// and its event.
pub fn config_hook(command: &[u8], event: &str, staged_pre_commit: bool) -> (r: (
    ConfigEntry,
    ConfigEntry,
))
    ensures
        r.0.key@ == hook_key(event@, "command"@),
        r.0.value@ == config_command(command@, event@, staged_pre_commit),
        r.1.key@ == hook_key(event@, "event"@),
        r.1.value@ == vstd::utf8::encode_utf8(event@),
{
    let mut value: Vec<u8> = Vec::new();
    push_all(&mut value, "test \"${HK:-1}\" = \"0\" || ".as_bytes());
    assert(value@ =~= "test \"${HK:-1}\" = \"0\" || ".spec_bytes());
    push_all(&mut value, command);
    let args = hook_run_args(event, staged_pre_commit);
    push_all(&mut value, args.as_str().as_bytes());
    let mut name: Vec<u8> = Vec::new();
    push_all(&mut name, event.as_bytes());
    assert(name@ =~= vstd::utf8::encode_utf8(event@));
    (
        ConfigEntry { key: key_of(event, "command"), value },
        ConfigEntry { key: key_of(event, "event"), value: name },
    )
}

/// The keys among the lines that git printed, each once, in order.
pub open spec fn printed_keys(lines: Seq<Seq<char>>) -> Seq<Seq<char>>
    decreases lines.len(),
{
    if lines.len() == 0 {
        seq![]
    } else {
        let before = printed_keys(lines.drop_last());
        let key = trimmed(lines.last());
        if key.len() == 0 {
            before
        } else {
            push_new(before, key)
        }
    }
}

/// How many of the keys are commands: one for each hook.
pub open spec fn command_count(keys: Seq<Seq<char>>) -> nat
    decreases keys.len(),
{
    if keys.len() == 0 {
        0
    } else {
        command_count(keys.drop_last()) + (if ends(keys.last(), ".command"@) {
            1nat
        } else {
            0nat
        })
    }
}

/// What there is to remove from git's configuration: the keys, and how many hooks they make.
pub struct Removal {
    pub keys: NameSet,
    pub hooks: usize,
}

/// What there is to remove from git's configuration, from what a search in it
/// gave; or why the search failed.
pub fn find_config_entries(code: Option<i32>, stdout: &str, stderr: &str) -> (r: Result<
    Removal,
    String,
>)
    ensures
        match code {
            Some(0) => r is Ok && r->Ok_0.keys@ == printed_keys(lines_of(stdout@)) && r->Ok_0.hooks
                == command_count(r->Ok_0.keys@),
            Some(c) => if c == 1 {
                r is Ok && r->Ok_0.keys@.len() == 0 && r->Ok_0.hooks == 0
            } else {
                r is Err && r->Err_0@ == search_failure(c, stderr@)
            },
            None => r is Ok && r->Ok_0.keys@.len() == 0 && r->Ok_0.hooks == 0,
        },
{
    let c: i32 = match code {
        Some(c) => c,
        None => 1,
    };
    let mut keys = NameSet::new();
    if c == 1 {
        return Ok(Removal { keys, hooks: 0 });
    }
    if c != 0 {
        return Err(search_failed(c, stderr));
    }
    let printed = lines(stdout);
    for i in 0..printed.len()
        invariant
            keys@ == printed_keys(texts(printed@).take(i as int)),
    {
        let key = trim(printed[i].as_str());
        if !key.as_str().is_empty() {
            keys.insert(key);
        }
    }
    assert(texts(printed@).take(printed@.len() as int) =~= texts(printed@));
    let mut hooks: usize = 0;
    let n: usize = keys.len();
    for i in 0..n
        invariant
            n == keys@.len(),
            hooks <= i,
            hooks == command_count(keys@.take(i as int)),
    {
        if ends_with(keys.at(i).as_str(), ".command") {
            hooks = hooks + 1;
        }
    }
    assert(keys@.take(n as int) =~= keys@);
    Ok(Removal { keys, hooks })
}

/// Whether a script is one that an installation wrote.
pub fn is_hk_script(content: &str) -> (r: bool)
    ensures
        r == (has_text(content@, "test \"${HK:-1}\" = \"0\""@) && has_text(content@, "hk run"@)),
{
    contains(content, "test \"${HK:-1}\" = \"0\"") && contains(content, "hk run")
}

/// How the hook of an event that is installed for the user is turned off in a repository.
pub open spec fn disable_command(event: Seq<char>) -> Seq<char> {
    "`git config --local hook.hk-"@ + event + ".enabled false`"@
}

/// What is said where hooks are installed both for the user and locally.
pub open spec fn overlap_warning(events: Seq<Seq<char>>) -> Option<Seq<char>> {
    if events.len() == 0 {
        None
    } else {
        Some(
            "both global (~/.gitconfig) and local hk hooks are active for: "@ + joined(events, ", "@)
                + ". Git will run hk twice per event. To run only the local install, disable the global entries in this repo: "@
                + joined(events.map_values(|e: Seq<char>| disable_command(e)), " ; "@),
        )
    }
}

/// What is said where hooks are installed both for the user and locally.
pub fn warn_if_global_overlap(events: &Vec<String>) -> (r: Option<String>)
    ensures
        opt_text(r) == overlap_warning(texts(events@)),
{
    if events.len() == 0 {
        return None;
    }
    let ghost all = texts(events@).map_values(|e: Seq<char>| disable_command(e));
    let mut commands: Vec<String> = Vec::new();
    for i in 0..events.len()
        invariant
            all == texts(events@).map_values(|e: Seq<char>| disable_command(e)),
            texts(commands@) =~= all.take(i as int),
    {
        let mut c = "`git config --local hook.hk-".to_owned();
        c.append(events[i].as_str());
        c.append(".enabled false`");
        commands.push(c);
    }
    assert(texts(commands@) =~= all);
    let mut m = "both global (~/.gitconfig) and local hk hooks are active for: ".to_owned();
    m.append(join(events, ", ").as_str());
    m.append(
        ". Git will run hk twice per event. To run only the local install, disable the global entries in this repo: ",
    );
    m.append(join(&commands, " ; ").as_str());
    Some(m)
}

/// The warnings on a directory for hooks that is set in one scope of git's configuration.
pub open spec fn hooks_path_warning(
    adverb: Seq<char>,
    scope: Seq<char>,
    path: Option<Seq<char>>,
) -> Seq<Seq<char>> {
    match path {
        Some(p) => if trimmed(p).len() > 0 {
            seq![
                "core.hooksPath is set "@ + adverb + " to '"@ + trimmed(p)
                    + "'. This may prevent hk hooks from running."@,
                "Run 'git config "@ + scope + " --unset-all core.hooksPath' to remove it."@,
            ]
        } else {
            seq![]
        },
        None => seq![],
    }
}

fn add_hooks_path_warning(out: &mut Vec<String>, adverb: &str, scope: &str, path: &Option<String>)
    ensures
        texts(final(out)@) == texts(old(out)@) + hooks_path_warning(
            adverb@,
            scope@,
            opt_text(*path),
        ),
{
    let ghost start = texts(out@);
    if let Some(p) = path {
        let value = trim(p.as_str());
        if !value.as_str().is_empty() {
            let mut a = "core.hooksPath is set ".to_owned();
            a.append(adverb);
            a.append(" to '");
            a.append(value.as_str());
            a.append("'. This may prevent hk hooks from running.");
            let mut b = "Run 'git config ".to_owned();
            b.append(scope);
            b.append(" --unset-all core.hooksPath' to remove it.");
            let ghost pair = seq![a@, b@];
            out.push(a);
            out.push(b);
            assert(texts(out@) =~= start + pair);
            return;
        }
    }
    assert(texts(out@) =~= start + Seq::<Seq<char>>::empty());
}

/// The warnings on directories for hooks that are set in git's configuration,
/// which keep git from looking where hooks are installed.
pub fn check_hooks_path_config(global: &Option<String>, local: &Option<String>) -> (r: Vec<String>)
    ensures
        texts(r@) == hooks_path_warning("globally"@, "--global"@, opt_text(*global))
            + hooks_path_warning("locally"@, "--local"@, opt_text(*local)),
{
    let mut out: Vec<String> = Vec::new();
    add_hooks_path_warning(&mut out, "globally", "--global", global);
    add_hooks_path_warning(&mut out, "locally", "--local", local);
    assert(texts(out@) =~= hooks_path_warning("globally"@, "--global"@, opt_text(*global))
        + hooks_path_warning("locally"@, "--local"@, opt_text(*local)));
    out
}

/// The error of a git command that failed.
pub fn git_failed(args: &Vec<String>) -> (r: String)
    ensures
        r@ == "git "@ + joined(texts(args@), " "@) + " failed"@,
{
    let mut m = "git ".to_owned();
    m.append(join(args, " ").as_str());
    m.append(" failed");
    m
}

/// Where git takes hooks from its configuration they are installed there, for the user
/// exactly where that is asked for; scripts are written where they are asked for or git
/// takes nothing else.
pub proof fn law_installations_do_what_is_asked(install: Install, config_hooks: bool, has_global: bool)
    ensures
        install.global && config_hooks <==> install.mode_of(config_hooks, has_global)
            == InstallMode::Global,
        install.global && !config_hooks <==> install.mode_of(config_hooks, has_global)
            == InstallMode::Unsupported,
        !install.global && (install.force_local || !has_global) && !install.legacy && config_hooks
            <==> install.mode_of(config_hooks, has_global) == InstallMode::LocalConfig,
        !install.global && (install.force_local || !has_global) && (install.legacy || !config_hooks)
            <==> install.mode_of(config_hooks, has_global) == InstallMode::LocalScripts,
{
}

/// An enabled hook is installed exactly where its name is that of an event of git: `check`
/// and `fix` are none.
pub proof fn law_enabled_hooks_are_installed(hooks: Seq<(Seq<char>, HookView)>, event: Seq<char>)
    ensures
        events_of(hooks).contains(event) <==> event != "check"@ && event != "fix"@ && exists|i: int|
            0 <= i < hooks.len() && (#[trigger] hooks[i]).0 == event && hooks[i].1.enabled,
    decreases hooks.len(),
{
    if hooks.len() > 0 {
        let init = hooks.drop_last();
        law_enabled_hooks_are_installed(init, event);
        crate::seqs::lemma_pushed(events_of(init), hooks.last().0, event);
        let n = hooks.len() - 1;
        assert(hooks[n] == hooks.last());
        if exists|i: int| 0 <= i < init.len() && (#[trigger] init[i]).0 == event && init[i].1.enabled {
            let i = choose|i: int|
                0 <= i < init.len() && (#[trigger] init[i]).0 == event && init[i].1.enabled;
            assert(hooks[i].0 == event && hooks[i].1.enabled);
        }
        if exists|i: int| 0 <= i < hooks.len() && (#[trigger] hooks[i]).0 == event && hooks[i].1.enabled {
            let i = choose|i: int|
                0 <= i < hooks.len() && (#[trigger] hooks[i]).0 == event && hooks[i].1.enabled;
            if i < n {
                assert(init[i].0 == event && init[i].1.enabled);
            }
        }
    }
}

/// A script that an installation wrote for a repository is known for one again, whatever
/// the hook is called.
pub proof fn law_own_scripts_are_recognized(use_mise: bool, hook: Seq<char>)
    ensures
        has_text(hook_script(local_command(use_mise), hook), "test \"${HK:-1}\" = \"0\""@),
        has_text(hook_script(local_command(use_mise), hook), "hk run"@),
        has_text(hook_script(local_command(use_mise), hook), hook),
{
    let hk = local_command(use_mise);
    let guard = "test \"${HK:-1}\" = \"0\""@;
    let start = "#!/bin/sh\ntest \"${HK:-1}\" = \"0\" || exec "@;
    let tail = " --from-hook \"$@\"\n"@;
    let script = hook_script(hk, hook);
    reveal_strlit("test \"${HK:-1}\" = \"0\"");
    reveal_strlit("#!/bin/sh\ntest \"${HK:-1}\" = \"0\" || exec ");
    reveal_strlit("hk run");
    reveal_strlit("mise x -- hk");
    reveal_strlit("hk");
    reveal_strlit(" run ");
    assert("#!/bin/sh\n"@ + guard + " || exec "@ =~= start) by {
        reveal_strlit("#!/bin/sh\n");
        reveal_strlit(" || exec ");
    }
    let rest = hk + " run "@ + hook + tail;
    crate::text::lemma_stands_between("#!/bin/sh\n"@, guard, " || exec "@ + rest);
    assert("#!/bin/sh\n"@ + guard + (" || exec "@ + rest) =~= script);
    crate::text::lemma_stands_between(start + hk + " run "@, hook, tail);
    let before = if use_mise {
        start + "mise x -- "@
    } else {
        start
    };
    reveal_strlit("mise x -- ");
    assert("mise x -- "@ + "hk"@ =~= "mise x -- hk"@);
    assert("hk"@ + " run "@ =~= "hk run"@ + seq![' ']);
    crate::text::lemma_stands_between(before, "hk run"@, seq![' '] + hook + tail);
    assert(before + "hk run"@ + (seq![' '] + hook + tail) =~= script) by {
        assert(start + hk =~= before + "hk"@);
        assert(before + "hk"@ + " run "@ =~= before + ("hk"@ + " run "@));
        assert(script =~= (start + hk) + " run "@ + hook + tail);
    }
}

/// The command of a hook runs that hook, on staged files only where a commit asks for it.
pub proof fn law_hooks_run_their_event(event: Seq<char>, staged: bool)
    ensures
        has_text(run_arguments(event, staged), " run "@ + event + " --from-hook"@),
        event == "pre-commit"@ ==> run_arguments(event, true) == run_arguments(event, false)
            + " --staged"@,
        event != "pre-commit"@ ==> run_arguments(event, true) == run_arguments(event, false),
{
    reveal_strlit("");
    let head = " run "@ + event + " --from-hook"@;
    let tail = run_arguments(event, staged).skip(head.len() as int);
    crate::text::lemma_stands_between(seq![], head, tail);
    assert(seq![] + head + tail =~= run_arguments(event, staged));
    assert(run_arguments(event, false) =~= head);
}

/// Hooks of different events have different keys in git's configuration.
pub proof fn law_events_have_keys_of_their_own(a: Seq<char>, b: Seq<char>, name: Seq<char>)
    ensures
        hook_key(a, name) == hook_key(b, name) ==> a == b,
{
    if hook_key(a, name) == hook_key(b, name) {
        let k = hook_key(a, name);
        let n = "hook.hk-"@.len() as int;
        assert(k.len() == n + a.len() + "."@.len() + name.len());
        assert(k.len() == n + b.len() + "."@.len() + name.len());
        assert(k.subrange(n, n + a.len()) =~= a);
        assert(k.subrange(n, n + b.len()) =~= b);
    }
}

/// A configured hook does what its command and arguments say, behind the guard, and nothing
/// between.
pub proof fn law_configured_hooks_run_the_command(command: Seq<u8>, event: Seq<char>, staged: bool)
    ensures
        exists|guard: Seq<u8>|
            config_command(command, event, staged) == #[trigger] (guard + command
                + vstd::utf8::encode_utf8(run_arguments(event, staged))),
{
    let guard = "test \"${HK:-1}\" = \"0\" || ".spec_bytes();
    assert(config_command(command, event, staged) == guard + command + vstd::utf8::encode_utf8(
        run_arguments(event, staged),
    ));
}

/// A path below the home directory is written with a tilde, which a shell takes for that
/// directory; any other is read back by a shell as it is.
pub proof fn law_commands_name_the_path(path: Seq<u8>, rest: Seq<u8>)
    ensures
        shell_read(command_path(path, None)).0 == path,
        rest.len() == 0 || !all_plain(rest) ==> shell_read(command_path(path, Some(rest))).0 == path,
        rest.len() > 0 && all_plain(rest) ==> command_path(path, Some(rest)) == seq![126u8, 47u8]
            + rest,
{
    law_quoted_path_reads_back(path);
}

/// Exactly the keys that git printed are removed, each once.
pub proof fn law_printed_keys_are_removed(lines: Seq<Seq<char>>, key: Seq<char>)
    ensures
        printed_keys(lines).contains(key) <==> key.len() > 0 && exists|i: int|
            0 <= i < lines.len() && trimmed(#[trigger] lines[i]) == key,
        printed_keys(lines).no_duplicates(),
    decreases lines.len(),
{
    if lines.len() > 0 {
        let init = lines.drop_last();
        law_printed_keys_are_removed(init, key);
        let before = printed_keys(init);
        let new = trimmed(lines.last());
        crate::seqs::lemma_pushed(before, new, key);
        let n = lines.len() - 1;
        assert(lines[n] == lines.last());
        if exists|i: int| 0 <= i < init.len() && trimmed(#[trigger] init[i]) == key {
            let i = choose|i: int| 0 <= i < init.len() && trimmed(#[trigger] init[i]) == key;
            assert(trimmed(lines[i]) == key);
        }
        if exists|i: int| 0 <= i < lines.len() && trimmed(#[trigger] lines[i]) == key {
            let i = choose|i: int| 0 <= i < lines.len() && trimmed(#[trigger] lines[i]) == key;
            if i < n {
                assert(trimmed(init[i]) == key);
            }
        }
        if new.len() > 0 && !before.contains(new) {
            let all = printed_keys(lines);
            assert forall|i: int, j: int| 0 <= i < j < all.len() implies all[i] != all[j] by {
                assert(all[i] == before[i]);
                if j == before.len() {
                    assert(before.contains(before[i]));
                }
            }
        }
    }
}

/// As many hooks are removed as there are commands among the keys.
pub proof fn law_removed_hooks_are_counted(keys: Seq<Seq<char>>)
    ensures
        command_count(keys) == keys.filter(|k: Seq<char>| ends(k, ".command"@)).len(),
    decreases keys.len(),
{
    reveal(Seq::filter);
    if keys.len() > 0 {
        law_removed_hooks_are_counted(keys.drop_last());
    }
}

/// A search in git's configuration fails where git does, and finds where git printed.
pub proof fn law_searches_find_what_is_printed(code: i32, empty: bool, stderr: Seq<char>)
    ensures
        search_result(Some(code), empty, stderr) is Err <==> code != 0 && code != 1,
        search_result(Some(code), empty, stderr) == Ok::<bool, Seq<char>>(true) <==> code == 0 && !empty,
        search_result(None, empty, stderr) == Ok::<bool, Seq<char>>(false),
        search_result(Some(code), empty, stderr) matches Err(e) ==> has_text(e, trimmed(stderr)),
{
    crate::text::lemma_stands_between(
        "git config --get-regexp failed (exit "@ + signed_decimal(code as int) + "): "@,
        trimmed(stderr),
        seq![],
    );
    assert("git config --get-regexp failed (exit "@ + signed_decimal(code as int) + "): "@ + trimmed(
        stderr,
    ) + seq![] =~= search_failure(code, stderr));
}

/// Who has hooks twice is told of each event, and how to turn it off; who has not is told
/// nothing.
pub proof fn law_overlaps_are_told(events: Seq<Seq<char>>, i: int)
    ensures
        overlap_warning(events) is None <==> events.len() == 0,
        0 <= i < events.len() ==> has_text(overlap_warning(events)->0, disable_command(events[i]))
            && has_text(overlap_warning(events)->0, joined(events, ", "@)) && has_text(
            disable_command(events[i]),
            events[i],
        ),
{
    if 0 <= i < events.len() {
        let commands = events.map_values(|e: Seq<char>| disable_command(e));
        let head = "both global (~/.gitconfig) and local hk hooks are active for: "@;
        let middle
            = ". Git will run hk twice per event. To run only the local install, disable the global entries in this repo: "@;
        let a = joined(events, ", "@);
        let b = joined(commands, " ; "@);
        let whole = overlap_warning(events)->0;
        crate::text::lemma_part_stands_in_joined(commands, " ; "@, i);
        assert(commands[i] == disable_command(events[i]));
        crate::text::lemma_stands_in_part(head + a + middle, b, seq![], commands[i]);
        assert(head + a + middle + b + seq![] =~= whole);
        crate::text::lemma_stands_between(head, a, middle + b);
        assert(head + a + (middle + b) =~= whole);
        crate::text::lemma_stands_between(
            "`git config --local hook.hk-"@,
            events[i],
            ".enabled false`"@,
        );
    }
}

/// A directory for hooks that is set is warned of with its name; one that is not, or blank,
/// is not.
pub proof fn law_hook_directories_are_warned_of(
    adverb: Seq<char>,
    scope: Seq<char>,
    path: Option<Seq<char>>,
)
    ensures
        path is None || trimmed(path->0).len() == 0 <==> hooks_path_warning(adverb, scope, path).len()
            == 0,
        path is Some && trimmed(path->0).len() > 0 ==> hooks_path_warning(adverb, scope, path).len()
            == 2 && has_text(hooks_path_warning(adverb, scope, path)[0], trimmed(path->0)) && has_text(
            hooks_path_warning(adverb, scope, path)[0],
            adverb,
        ) && has_text(hooks_path_warning(adverb, scope, path)[1], scope),
{
    if path is Some && trimmed(path->0).len() > 0 {
        let p = trimmed(path->0);
        let tail = "'. This may prevent hk hooks from running."@;
        crate::text::lemma_stands_between("core.hooksPath is set "@ + adverb + " to '"@, p, tail);
        crate::text::lemma_stands_between(
            "core.hooksPath is set "@,
            adverb,
            " to '"@ + p + tail,
        );
        assert("core.hooksPath is set "@ + adverb + (" to '"@ + p + tail) =~= hooks_path_warning(
            adverb,
            scope,
            path,
        )[0]);
        crate::text::lemma_stands_between(
            "Run 'git config "@,
            scope,
            " --unset-all core.hooksPath' to remove it."@,
        );
    }
}

/// How many hooks were removed is told where some were.
pub proof fn law_removed_hooks_are_told(removed: nat)
    ensures
        removed > 0 ==> has_text(clean_message(removed), decimal(removed)) && has_text(
            nothing_message(removed),
            decimal(removed),
        ),
{
    if removed > 0 {
        crate::text::lemma_stands_between(
            "hk hooks already configured globally (~/.gitconfig); removed "@,
            decimal(removed),
            " stale local hook(s) and did not install new ones. Pass `--force-local` to install per-repo hooks anyway."@,
        );
        crate::text::lemma_stands_between(
            "no hooks configured in hk.pkl — removed "@,
            decimal(removed),
            " previously-installed hk hook(s) and did not install any new ones"@,
        );
    }
}

} // verus!
