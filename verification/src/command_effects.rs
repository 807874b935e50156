//! What each command of the program does to the world.
//!
//! A command that is not listed is unknown, not safe: leaving one out is the
//! conservative choice.

use vstd::prelude::*;
use crate::step::CommandEffect;
use crate::text::same;

verus! {

broadcast use crate::seqs::group_text;

/// The commands whose effect is fixed, by their full names.
pub open spec fn fixed_effects() -> Seq<(Seq<char>, CommandEffect)> {
    seq![
        ("agent"@, CommandEffect::Read),
        ("agent hooks"@, CommandEffect::Read),
        ("agent instructions"@, CommandEffect::Read),
        ("agent mcp"@, CommandEffect::Read),
        ("builtins"@, CommandEffect::Read),
        ("cache"@, CommandEffect::Read),
        ("cache clear"@, CommandEffect::Write),
        ("completion"@, CommandEffect::Read),
        ("config"@, CommandEffect::Read),
        ("config dump"@, CommandEffect::Read),
        ("config explain"@, CommandEffect::Read),
        ("config get"@, CommandEffect::Read),
        ("config sources"@, CommandEffect::Read),
        ("generate"@, CommandEffect::Read),
        ("init"@, CommandEffect::Write),
        ("install"@, CommandEffect::Write),
        ("migrate"@, CommandEffect::Read),
        ("migrate pre-commit"@, CommandEffect::Write),
        ("sponsors"@, CommandEffect::Read),
        ("uninstall"@, CommandEffect::Destructive),
        ("usage"@, CommandEffect::Read),
        ("util"@, CommandEffect::Read),
        ("util check-added-large-files"@, CommandEffect::Read),
        ("util check-byte-order-marker"@, CommandEffect::Read),
        ("util check-case-conflict"@, CommandEffect::Read),
        ("util check-conventional-commit"@, CommandEffect::Read),
        ("util check-executables-have-shebangs"@, CommandEffect::Read),
        ("util check-merge-conflict"@, CommandEffect::Read),
        ("util check-shebang-scripts-are-executable"@, CommandEffect::Read),
        ("util check-symlinks"@, CommandEffect::Read),
        ("util destroyed-symlinks"@, CommandEffect::Read),
        ("util detect-private-key"@, CommandEffect::Read),
        ("util end-of-file-fixer"@, CommandEffect::Write),
        ("util fix-byte-order-marker"@, CommandEffect::Write),
        ("util fix-smart-quotes"@, CommandEffect::Write),
        ("util forbid-submodules"@, CommandEffect::Read),
        ("util mixed-line-ending"@, CommandEffect::Write),
        ("util no-commit-to-branch"@, CommandEffect::Read),
        ("util python-check-ast"@, CommandEffect::Read),
        ("util python-debug-statements"@, CommandEffect::Read),
        ("util trailing-whitespace"@, CommandEffect::Write),
        ("validate"@, CommandEffect::Read),
        ("version"@, CommandEffect::Read),
    ]
}

/// What pairs of names and effects stand for.
pub open spec fn effect_texts(v: Seq<(&'static str, CommandEffect)>) -> Seq<(Seq<char>, CommandEffect)> {
    v.map_values(|p: (&'static str, CommandEffect)| (p.0@, p.1))
}

/// The commands whose effect is fixed, by their full names.
pub fn effects() -> (r: Vec<(&'static str, CommandEffect)>)
    ensures
        effect_texts(r@) == fixed_effects(),
{
    let mut v: Vec<(&'static str, CommandEffect)> = Vec::new();
    v.push(("agent", CommandEffect::Read));
    v.push(("agent hooks", CommandEffect::Read));
    v.push(("agent instructions", CommandEffect::Read));
    v.push(("agent mcp", CommandEffect::Read));
    v.push(("builtins", CommandEffect::Read));
    v.push(("cache", CommandEffect::Read));
    v.push(("cache clear", CommandEffect::Write));
    v.push(("completion", CommandEffect::Read));
    v.push(("config", CommandEffect::Read));
    v.push(("config dump", CommandEffect::Read));
    v.push(("config explain", CommandEffect::Read));
    v.push(("config get", CommandEffect::Read));
    v.push(("config sources", CommandEffect::Read));
    v.push(("generate", CommandEffect::Read));
    v.push(("init", CommandEffect::Write));
    v.push(("install", CommandEffect::Write));
    v.push(("migrate", CommandEffect::Read));
    v.push(("migrate pre-commit", CommandEffect::Write));
    v.push(("sponsors", CommandEffect::Read));
    v.push(("uninstall", CommandEffect::Destructive));
    v.push(("usage", CommandEffect::Read));
    v.push(("util", CommandEffect::Read));
    v.push(("util check-added-large-files", CommandEffect::Read));
    v.push(("util check-byte-order-marker", CommandEffect::Read));
    v.push(("util check-case-conflict", CommandEffect::Read));
    v.push(("util check-conventional-commit", CommandEffect::Read));
    v.push(("util check-executables-have-shebangs", CommandEffect::Read));
    v.push(("util check-merge-conflict", CommandEffect::Read));
    v.push(("util check-shebang-scripts-are-executable", CommandEffect::Read));
    v.push(("util check-symlinks", CommandEffect::Read));
    v.push(("util destroyed-symlinks", CommandEffect::Read));
    v.push(("util detect-private-key", CommandEffect::Read));
    v.push(("util end-of-file-fixer", CommandEffect::Write));
    v.push(("util fix-byte-order-marker", CommandEffect::Write));
    v.push(("util fix-smart-quotes", CommandEffect::Write));
    v.push(("util forbid-submodules", CommandEffect::Read));
    v.push(("util mixed-line-ending", CommandEffect::Write));
    v.push(("util no-commit-to-branch", CommandEffect::Read));
    v.push(("util python-check-ast", CommandEffect::Read));
    v.push(("util python-debug-statements", CommandEffect::Read));
    v.push(("util trailing-whitespace", CommandEffect::Write));
    v.push(("validate", CommandEffect::Read));
    v.push(("version", CommandEffect::Read));
    assert(effect_texts(v@) =~= fixed_effects());
    v
}

/// The commands without a fixed effect, each with the reason: they run what a
/// configuration declares.
pub open spec fn open_effects() -> Seq<(Seq<char>, Seq<char>)> {
    seq![
        ("check"@, "runs check steps declared in hk.pkl"@),
        ("fix"@, "runs fix steps declared in hk.pkl"@),
        ("mcp"@, "serves effect-classified project tools to MCP clients"@),
        ("run"@, "runs the steps a hook declares in hk.pkl"@),
        ("run commit-msg"@, "runs the steps this hook declares"@),
        ("run post-checkout"@, "runs the steps this hook declares"@),
        ("run post-commit"@, "runs the steps this hook declares"@),
        ("run post-merge"@, "runs the steps this hook declares"@),
        ("run post-rewrite"@, "runs the steps this hook declares"@),
        ("run pre-commit"@, "runs the steps this hook declares"@),
        ("run pre-push"@, "runs the steps this hook declares"@),
        ("run pre-rebase"@, "runs the steps this hook declares"@),
        ("run prepare-commit-msg"@, "runs the steps this hook declares"@),
        ("test"@, "runs step-defined tests, which are arbitrary commands"@),
    ]
}

/// What pairs of names and reasons stand for.
pub open spec fn reason_texts(v: Seq<(&'static str, &'static str)>) -> Seq<(Seq<char>, Seq<char>)> {
    v.map_values(|p: (&'static str, &'static str)| (p.0@, p.1@))
}

/// The commands without a fixed effect, each with the reason.
pub fn unclassified() -> (r: Vec<(&'static str, &'static str)>)
    ensures
        reason_texts(r@) == open_effects(),
{
    let mut v: Vec<(&'static str, &'static str)> = Vec::new();
    v.push(("check", "runs check steps declared in hk.pkl"));
    v.push(("fix", "runs fix steps declared in hk.pkl"));
    v.push(("mcp", "serves effect-classified project tools to MCP clients"));
    v.push(("run", "runs the steps a hook declares in hk.pkl"));
    v.push(("run commit-msg", "runs the steps this hook declares"));
    v.push(("run post-checkout", "runs the steps this hook declares"));
    v.push(("run post-commit", "runs the steps this hook declares"));
    v.push(("run post-merge", "runs the steps this hook declares"));
    v.push(("run post-rewrite", "runs the steps this hook declares"));
    v.push(("run pre-commit", "runs the steps this hook declares"));
    v.push(("run pre-push", "runs the steps this hook declares"));
    v.push(("run pre-rebase", "runs the steps this hook declares"));
    v.push(("run prepare-commit-msg", "runs the steps this hook declares"));
    v.push(("test", "runs step-defined tests, which are arbitrary commands"));
    assert(reason_texts(v@) =~= open_effects());
    v
}

/// The effect of the first command of the name.
pub open spec fn listed_effect(
    list: Seq<(Seq<char>, CommandEffect)>,
    name: Seq<char>,
) -> Option<CommandEffect>
    decreases list.len(),
{
    if list.len() == 0 {
        None
    } else {
        match listed_effect(list.drop_last(), name) {
            Some(e) => Some(e),
            None => if list.last().0 == name {
                Some(list.last().1)
            } else {
                None
            },
        }
    }
}

/// The effect of a command, where it is fixed.
pub fn effect_of(name: &str) -> (r: Option<CommandEffect>)
    ensures
        r == listed_effect(fixed_effects(), name@),
{
    let list = effects();
    let ghost l = effect_texts(list@);
    let mut found: Option<CommandEffect> = None;
    for i in 0..list.len()
        invariant
            l == effect_texts(list@),
            found == listed_effect(l.take(i as int), name@),
    {
        assert(l[i as int] == (list@[i as int].0@, list@[i as int].1));
        if found.is_none() && same(list[i].0, name) {
            found = Some(list[i].1);
        }
    }
    assert(l.take(l.len() as int) =~= l);
    found
}

/// The effect of a command is that of its entry in the list; a command that is not listed
/// has none.
pub proof fn law_listed_commands_have_their_effect(
    list: Seq<(Seq<char>, CommandEffect)>,
    name: Seq<char>,
)
    ensures
        match listed_effect(list, name) {
            Some(e) => list.contains((name, e)),
            None => forall|i: int| 0 <= i < list.len() ==> (#[trigger] list[i]).0 != name,
        },
    decreases list.len(),
{
    if list.len() > 0 {
        let init = list.drop_last();
        law_listed_commands_have_their_effect(init, name);
        match listed_effect(init, name) {
            Some(e) => {
                crate::seqs::lemma_last_or_before(list, (name, e));
            },
            None => {
                let last = list.last();
                crate::seqs::lemma_last_or_before(list, last);
                assert forall|i: int| 0 <= i < list.len() && (#[trigger] list[i]).0 == name implies i
                    == list.len() - 1 by {
                    if i < init.len() {
                        assert(init[i].0 != name);
                    }
                }
            },
        }
    }
}

proof fn lemma_fixed_names()
    ensures
        forall|i: int|
            0 <= i < fixed_effects().len() ==> {
                let name = (#[trigger] fixed_effects()[i]).0;
                name.len() >= 2 && name[0] != 'r' && name[0] != 'f' && name[0] != 't' && !(name[0]
                    == 'c' && name[1] == 'h') && !(name[0] == 'm' && name[1] == 'c')
            },
{
    let list = fixed_effects();
    reveal_strlit("agent");
    reveal_strlit("agent hooks");
    reveal_strlit("agent instructions");
    reveal_strlit("agent mcp");
    reveal_strlit("builtins");
    reveal_strlit("cache");
    reveal_strlit("cache clear");
    reveal_strlit("completion");
    reveal_strlit("config");
    reveal_strlit("config dump");
    reveal_strlit("config explain");
    reveal_strlit("config get");
    reveal_strlit("config sources");
    reveal_strlit("generate");
    reveal_strlit("init");
    reveal_strlit("install");
    reveal_strlit("migrate");
    reveal_strlit("migrate pre-commit");
    reveal_strlit("sponsors");
    reveal_strlit("uninstall");
    reveal_strlit("usage");
    reveal_strlit("util");
    reveal_strlit("util check-added-large-files");
    reveal_strlit("util check-byte-order-marker");
    reveal_strlit("util check-case-conflict");
    reveal_strlit("util check-conventional-commit");
    reveal_strlit("util check-executables-have-shebangs");
    reveal_strlit("util check-merge-conflict");
    reveal_strlit("util check-shebang-scripts-are-executable");
    reveal_strlit("util check-symlinks");
    reveal_strlit("util destroyed-symlinks");
    reveal_strlit("util detect-private-key");
    reveal_strlit("util end-of-file-fixer");
    reveal_strlit("util fix-byte-order-marker");
    reveal_strlit("util fix-smart-quotes");
    reveal_strlit("util forbid-submodules");
    reveal_strlit("util mixed-line-ending");
    reveal_strlit("util no-commit-to-branch");
    reveal_strlit("util python-check-ast");
    reveal_strlit("util python-debug-statements");
    reveal_strlit("util trailing-whitespace");
    reveal_strlit("validate");
    reveal_strlit("version");
    assert(list.len() == 43);
    assert(list[0].0 == "agent"@ && list[0].0[0] == 'a' && list[0].0[1] == 'g');
    assert(list[1].0 == "agent hooks"@ && list[1].0[0] == 'a' && list[1].0[1] == 'g');
    assert(list[2].0 == "agent instructions"@ && list[2].0[0] == 'a' && list[2].0[1] == 'g');
    assert(list[3].0 == "agent mcp"@ && list[3].0[0] == 'a' && list[3].0[1] == 'g');
    assert(list[4].0 == "builtins"@ && list[4].0[0] == 'b' && list[4].0[1] == 'u');
    assert(list[5].0 == "cache"@ && list[5].0[0] == 'c' && list[5].0[1] == 'a');
    assert(list[6].0 == "cache clear"@ && list[6].0[0] == 'c' && list[6].0[1] == 'a');
    assert(list[7].0 == "completion"@ && list[7].0[0] == 'c' && list[7].0[1] == 'o');
    assert(list[8].0 == "config"@ && list[8].0[0] == 'c' && list[8].0[1] == 'o');
    assert(list[9].0 == "config dump"@ && list[9].0[0] == 'c' && list[9].0[1] == 'o');
    assert(list[10].0 == "config explain"@ && list[10].0[0] == 'c' && list[10].0[1] == 'o');
    assert(list[11].0 == "config get"@ && list[11].0[0] == 'c' && list[11].0[1] == 'o');
    assert(list[12].0 == "config sources"@ && list[12].0[0] == 'c' && list[12].0[1] == 'o');
    assert(list[13].0 == "generate"@ && list[13].0[0] == 'g' && list[13].0[1] == 'e');
    assert(list[14].0 == "init"@ && list[14].0[0] == 'i' && list[14].0[1] == 'n');
    assert(list[15].0 == "install"@ && list[15].0[0] == 'i' && list[15].0[1] == 'n');
    assert(list[16].0 == "migrate"@ && list[16].0[0] == 'm' && list[16].0[1] == 'i');
    assert(list[17].0 == "migrate pre-commit"@ && list[17].0[0] == 'm' && list[17].0[1] == 'i');
    assert(list[18].0 == "sponsors"@ && list[18].0[0] == 's' && list[18].0[1] == 'p');
    assert(list[19].0 == "uninstall"@ && list[19].0[0] == 'u' && list[19].0[1] == 'n');
    assert(list[20].0 == "usage"@ && list[20].0[0] == 'u' && list[20].0[1] == 's');
    assert(list[21].0 == "util"@ && list[21].0[0] == 'u' && list[21].0[1] == 't');
    assert(list[22].0 == "util check-added-large-files"@ && list[22].0[0] == 'u' && list[22].0[1] == 't');
    assert(list[23].0 == "util check-byte-order-marker"@ && list[23].0[0] == 'u' && list[23].0[1] == 't');
    assert(list[24].0 == "util check-case-conflict"@ && list[24].0[0] == 'u' && list[24].0[1] == 't');
    assert(list[25].0 == "util check-conventional-commit"@ && list[25].0[0] == 'u' && list[25].0[1] == 't');
    assert(list[26].0 == "util check-executables-have-shebangs"@ && list[26].0[0] == 'u' && list[26].0[1] == 't');
    assert(list[27].0 == "util check-merge-conflict"@ && list[27].0[0] == 'u' && list[27].0[1] == 't');
    assert(list[28].0 == "util check-shebang-scripts-are-executable"@ && list[28].0[0] == 'u' && list[28].0[1] == 't');
    assert(list[29].0 == "util check-symlinks"@ && list[29].0[0] == 'u' && list[29].0[1] == 't');
    assert(list[30].0 == "util destroyed-symlinks"@ && list[30].0[0] == 'u' && list[30].0[1] == 't');
    assert(list[31].0 == "util detect-private-key"@ && list[31].0[0] == 'u' && list[31].0[1] == 't');
    assert(list[32].0 == "util end-of-file-fixer"@ && list[32].0[0] == 'u' && list[32].0[1] == 't');
    assert(list[33].0 == "util fix-byte-order-marker"@ && list[33].0[0] == 'u' && list[33].0[1] == 't');
    assert(list[34].0 == "util fix-smart-quotes"@ && list[34].0[0] == 'u' && list[34].0[1] == 't');
    assert(list[35].0 == "util forbid-submodules"@ && list[35].0[0] == 'u' && list[35].0[1] == 't');
    assert(list[36].0 == "util mixed-line-ending"@ && list[36].0[0] == 'u' && list[36].0[1] == 't');
    assert(list[37].0 == "util no-commit-to-branch"@ && list[37].0[0] == 'u' && list[37].0[1] == 't');
    assert(list[38].0 == "util python-check-ast"@ && list[38].0[0] == 'u' && list[38].0[1] == 't');
    assert(list[39].0 == "util python-debug-statements"@ && list[39].0[0] == 'u' && list[39].0[1] == 't');
    assert(list[40].0 == "util trailing-whitespace"@ && list[40].0[0] == 'u' && list[40].0[1] == 't');
    assert(list[41].0 == "validate"@ && list[41].0[0] == 'v' && list[41].0[1] == 'a');
    assert(list[42].0 == "version"@ && list[42].0[0] == 'v' && list[42].0[1] == 'e');
}

proof fn lemma_open_names()
    ensures
        forall|i: int|
            0 <= i < open_effects().len() ==> {
                let name = (#[trigger] open_effects()[i]).0;
                name.len() >= 2 && (name[0] == 'r' || name[0] == 'f' || name[0] == 't' || (name[0]
                    == 'c' && name[1] == 'h') || (name[0] == 'm' && name[1] == 'c'))
            },
{
    let list = open_effects();
    reveal_strlit("check");
    reveal_strlit("fix");
    reveal_strlit("mcp");
    reveal_strlit("run");
    reveal_strlit("run commit-msg");
    reveal_strlit("run post-checkout");
    reveal_strlit("run post-commit");
    reveal_strlit("run post-merge");
    reveal_strlit("run post-rewrite");
    reveal_strlit("run pre-commit");
    reveal_strlit("run pre-push");
    reveal_strlit("run pre-rebase");
    reveal_strlit("run prepare-commit-msg");
    reveal_strlit("test");
    assert(list.len() == 14);
    assert(list[0].0 == "check"@ && list[0].0[0] == 'c' && list[0].0[1] == 'h');
    assert(list[1].0 == "fix"@ && list[1].0[0] == 'f' && list[1].0[1] == 'i');
    assert(list[2].0 == "mcp"@ && list[2].0[0] == 'm' && list[2].0[1] == 'c');
    assert(list[3].0 == "run"@ && list[3].0[0] == 'r' && list[3].0[1] == 'u');
    assert(list[4].0 == "run commit-msg"@ && list[4].0[0] == 'r' && list[4].0[1] == 'u');
    assert(list[5].0 == "run post-checkout"@ && list[5].0[0] == 'r' && list[5].0[1] == 'u');
    assert(list[6].0 == "run post-commit"@ && list[6].0[0] == 'r' && list[6].0[1] == 'u');
    assert(list[7].0 == "run post-merge"@ && list[7].0[0] == 'r' && list[7].0[1] == 'u');
    assert(list[8].0 == "run post-rewrite"@ && list[8].0[0] == 'r' && list[8].0[1] == 'u');
    assert(list[9].0 == "run pre-commit"@ && list[9].0[0] == 'r' && list[9].0[1] == 'u');
    assert(list[10].0 == "run pre-push"@ && list[10].0[0] == 'r' && list[10].0[1] == 'u');
    assert(list[11].0 == "run pre-rebase"@ && list[11].0[0] == 'r' && list[11].0[1] == 'u');
    assert(list[12].0 == "run prepare-commit-msg"@ && list[12].0[0] == 'r' && list[12].0[1] == 'u');
    assert(list[13].0 == "test"@ && list[13].0[0] == 't' && list[13].0[1] == 'e');
}

/// A command that runs what a configuration declares has no fixed effect.
pub proof fn law_declared_work_has_no_fixed_effect(i: int)
    requires
        0 <= i < open_effects().len(),
    ensures
        listed_effect(fixed_effects(), open_effects()[i].0) is None,
{
    lemma_fixed_names();
    lemma_open_names();
    let name = open_effects()[i].0;
    law_listed_commands_have_their_effect(fixed_effects(), name);
    if let Some(e) = listed_effect(fixed_effects(), name) {
        let list = fixed_effects();
        let k = choose|k: int| 0 <= k < list.len() && list[k] == (name, e);
        assert(list[k].0 == name);
    }
}

} // verus!
