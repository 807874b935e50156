//! Finding the configuration of a project and of its parts, and putting them together.

use vstd::prelude::*;
use vstd::string::*;
use crate::config::{
    blank_config, config_below, error_of, hooks_error, materialized, merged_hkrc, merged_subproject,
    new_pairs, pair_texts, user_applied, Config, ConfigView, UserConfig, UserConfigView,
};
use crate::hook::{initialized_hook, Hook, HookView};
use crate::paths::{
    ancestors, ancestors_of, join_path, joined_path, last_name, name_of, parent_of, parent_path,
    path_below, strip_base,
};
use crate::seqs::{opt_text, texts, views};
use crate::table::{distinct, has_key, lookup, Table};
use crate::text::{
    after, contains, contains_char, has_char, has_text, list_has, same, sort, sorted, split,
    split_on, starts, starts_with, strip_end, stripped_end, to_chars,
};
use crate::version::{current_version, semver_order, version_refusal};

verus! {

broadcast use crate::seqs::group_text;

/// The texts of two parts.
fn both(a: &str, b: &str) -> (r: String)
    ensures
        r@ == a@ + b@,
{
    let mut s = a.to_owned();
    s.append(b);
    s
}

/// The directory of the project that a configuration belongs to: that in which it
/// lies, or the one above where it lies in `.config`.
pub open spec fn project_root(config_path: Seq<char>) -> Seq<char> {
    match parent_path(config_path) {
        Some(dir) => if dir.len() == 0 {
            "."@
        } else if last_name(dir) == Some(".config"@) {
            match parent_path(dir) {
                Some(above) => if above.len() == 0 {
                    "."@
                } else {
                    above
                },
                None => "."@,
            }
        } else {
            dir
        },
        None => "."@,
    }
}

/// The way from the root of the work tree to the directory of a project, where
/// that is another.
pub open spec fn root_offset(config_path: Seq<char>, git_root: Option<Seq<char>>) -> Option<Seq<char>> {
    match git_root {
        Some(root) => match path_below(project_root(config_path), root) {
            Some(way) => if way.len() == 0 {
                None
            } else {
                Some(way)
            },
            None => None,
        },
        None => None,
    }
}

/// The names of the configuration of a project, the most important first.
pub open spec fn config_names() -> Seq<Seq<char>> {
    seq!["hk.local.pkl"@, ".config/hk.local.pkl"@, "hk.pkl"@, ".config/hk.pkl"@]
}

/// The names of the configuration of a subproject, the most important first.
pub open spec fn subproject_names() -> Seq<Seq<char>> {
    config_names() + seq!["hk.toml"@, "hk.yaml"@, "hk.yml"@, "hk.json"@]
}

/// The names under which a project's configuration is searched for: the one that
/// is set, else the usual ones, those of formats that are going out of use among them.
pub open spec fn search_names(hk_file: Option<Seq<char>>) -> Seq<Seq<char>> {
    match hk_file {
        Some(f) => seq![f],
        None => subproject_names(),
    }
}

/// The names of configurations in formats that stay in use: the one that is set, else
/// the usual ones.
pub open spec fn current_names(hk_file: Option<Seq<char>>) -> Seq<Seq<char>> {
    match hk_file {
        Some(f) => seq![f],
        None => config_names(),
    }
}

/// Every name in a directory.
pub open spec fn in_dir(dir: Seq<char>, names: Seq<Seq<char>>) -> Seq<Seq<char>> {
    names.map_values(|n: Seq<char>| joined_path(dir, n))
}

/// Every name in every directory, directory by directory.
pub open spec fn in_dirs(dirs: Seq<Seq<char>>, names: Seq<Seq<char>>) -> Seq<Seq<char>>
    decreases dirs.len(),
{
    if dirs.len() == 0 {
        seq![]
    } else {
        in_dirs(dirs.drop_last(), names) + in_dir(dirs.last(), names)
    }
}

/// The first candidate that is there.
pub open spec fn first_there(candidates: Seq<Seq<char>>, there: Seq<bool>) -> Option<Seq<char>>
    decreases candidates.len(),
{
    if candidates.len() == 0 {
        None
    } else {
        match first_there(candidates.drop_last(), there) {
            Some(c) => Some(c),
            None => if there[candidates.len() - 1] {
                Some(candidates.last())
            } else {
                None
            },
        }
    }
}

fn list_config_names() -> (r: Vec<String>)
    ensures
        texts(r@) == config_names(),
{
    let mut v: Vec<String> = Vec::new();
    v.push("hk.local.pkl".to_owned());
    v.push(".config/hk.local.pkl".to_owned());
    v.push("hk.pkl".to_owned());
    v.push(".config/hk.pkl".to_owned());
    assert(texts(v@) =~= config_names());
    v
}

fn list_all_names() -> (r: Vec<String>)
    ensures
        texts(r@) == subproject_names(),
{
    let mut names = list_config_names();
    names.push("hk.toml".to_owned());
    names.push("hk.yaml".to_owned());
    names.push("hk.yml".to_owned());
    names.push("hk.json".to_owned());
    assert(texts(names@) =~= subproject_names());
    names
}

fn add_in_dir(out: &mut Vec<String>, dir: &str, names: &Vec<String>)
    ensures
        texts(final(out)@) == texts(old(out)@) + in_dir(dir@, texts(names@)),
{
    let ghost all = in_dir(dir@, texts(names@));
    let ghost start = texts(out@);
    assert(texts(out@) =~= start + all.take(0));
    for i in 0..names.len()
        invariant
            all == in_dir(dir@, texts(names@)),
            start == texts(old(out)@),
            texts(out@) =~= start + all.take(i as int),
    {
        let path = join_path(dir, names[i].as_str());
        assert(path@ == all[i as int]);
        out.push(path);
    }
    assert(all.take(names@.len() as int) =~= all);
}

/// The first candidate that is there.
pub fn first_present(candidates: &Vec<String>, there: &Vec<bool>) -> (r: Option<String>)
    requires
        candidates@.len() == there@.len(),
    ensures
        opt_text(r) == first_there(texts(candidates@), there@),
{
    let ghost cs = texts(candidates@);
    let mut found: Option<usize> = None;
    for i in 0..candidates.len()
        invariant
            candidates@.len() == there@.len(),
            cs == texts(candidates@),
            match found {
                Some(k) => k < i && first_there(cs.take(i as int), there@) == Some(cs[k as int]),
                None => first_there(cs.take(i as int), there@) is None,
            },
    {
        assert(cs.take(i + 1).drop_last() =~= cs.take(i as int));
        if found.is_none() && there[i] {
            found = Some(i);
        }
    }
    assert(cs.take(candidates@.len() as int) =~= cs);
    match found {
        Some(k) => Some(candidates[k].clone()),
        None => None,
    }
}

impl Config {
    /// The directory of the project that a configuration belongs to.
    pub fn project_root_of(config_path: &str) -> (r: String)
        ensures
            r@ == project_root(config_path@),
    {
        match parent_of(config_path) {
            Some(dir) => {
                if dir.as_str().is_empty() {
                    return ".".to_owned();
                }
                let in_config = match name_of(dir.as_str()) {
                    Some(name) => same(name.as_str(), ".config"),
                    None => false,
                };
                if in_config {
                    match parent_of(dir.as_str()) {
                        Some(above) => if above.as_str().is_empty() {
                            ".".to_owned()
                        } else {
                            above
                        },
                        None => ".".to_owned(),
                    }
                } else {
                    dir
                }
            },
            None => ".".to_owned(),
        }
    }

    /// The way from the root of the work tree to the directory that holds a
    /// configuration, or `None` where that is the root or there is no work tree.
    pub fn implicit_root_dir(config_path: &str, git_root: &Option<String>) -> (r: Option<String>)
        ensures
            opt_text(r) == root_offset(config_path@, opt_text(*git_root)),
    {
        match git_root {
            Some(root) => {
                let dir = Config::project_root_of(config_path);
                match strip_base(dir.as_str(), root.as_str()) {
                    Some(way) => if way.as_str().is_empty() {
                        None
                    } else {
                        Some(way)
                    },
                    None => None,
                }
            },
            None => None,
        }
    }

    /// The names under which the configuration of a project is searched for.
    pub fn project_config_search_paths(hk_file: &Option<String>) -> (r: Vec<String>)
        ensures
            texts(r@) == search_names(opt_text(*hk_file)),
    {
        match hk_file {
            Some(f) => {
                let mut v: Vec<String> = Vec::new();
                v.push(f.clone());
                assert(texts(v@) =~= seq![f@]);
                v
            },
            None => list_all_names(),
        }
    }

    /// The names of configurations in formats that stay in use.
    pub fn current_config_names(hk_file: &Option<String>) -> (r: Vec<String>)
        ensures
            texts(r@) == current_names(opt_text(*hk_file)),
    {
        match hk_file {
            Some(f) => {
                let mut v: Vec<String> = Vec::new();
                v.push(f.clone());
                assert(texts(v@) =~= seq![f@]);
                v
            },
            None => list_config_names(),
        }
    }

    /// Where the configuration of a project can lie that is searched for from
    /// `start`: in that directory and in those above it, the nearest first.
    pub fn project_config_candidates(start: &str, paths: &Vec<String>) -> (r: Vec<String>)
        ensures
            texts(r@) == in_dirs(ancestors(start@), texts(paths@)),
    {
        let dirs = ancestors_of(start);
        let mut out: Vec<String> = Vec::new();
        for i in 0..dirs.len()
            invariant
                texts(out@) == in_dirs(texts(dirs@).take(i as int), texts(paths@)),
        {
            add_in_dir(&mut out, dirs[i].as_str(), paths);
        }
        assert(texts(dirs@).take(dirs@.len() as int) =~= texts(dirs@));
        out
    }

    /// The configuration of the project that `start` lies in, where `there` says
    /// which of the candidates are there.
    pub fn find_project_config_from(start: &str, paths: &Vec<String>, there: &Vec<bool>) -> (r: Option<
        String,
    >)
        requires
            there@.len() == in_dirs(ancestors(start@), texts(paths@)).len(),
        ensures
            opt_text(r) == first_there(in_dirs(ancestors(start@), texts(paths@)), there@),
    {
        let candidates = Config::project_config_candidates(start, paths);
        assert(texts(candidates@).len() == candidates@.len());
        first_present(&candidates, there)
    }

    /// Whether a project has a configuration in a format that stays in use, where `there`
    /// says which of the candidates are there.
    pub fn project_config_exists_from(start: &str, hk_file: &Option<String>, there: &Vec<bool>) -> (r:
        bool)
        requires
            there@.len() == in_dirs(ancestors(start@), current_names(opt_text(*hk_file))).len(),
        ensures
            r == (first_there(in_dirs(ancestors(start@), current_names(opt_text(*hk_file))), there@)
                is Some),
    {
        let paths = Config::current_config_names(hk_file);
        Config::find_project_config_from(start, &paths, there).is_some()
    }

    /// Where the configuration of a subproject can lie.
    pub fn subproject_candidates(dir: &str) -> (r: Vec<String>)
        ensures
            texts(r@) == in_dir(dir@, subproject_names()),
    {
        let names = list_all_names();
        let mut out: Vec<String> = Vec::new();
        add_in_dir(&mut out, dir, &names);
        assert(texts(out@) =~= in_dir(dir@, subproject_names()));
        out
    }

    /// The configuration of the subproject at `dir`, where `there` says which of
    /// the candidates are there.
    pub fn find_subproject_config(dir: &str, there: &Vec<bool>) -> (r: Option<String>)
        requires
            there@.len() == subproject_names().len(),
        ensures
            opt_text(r) == first_there(in_dir(dir@, subproject_names()), there@),
    {
        let candidates = Config::subproject_candidates(dir);
        assert(texts(candidates@).len() == candidates@.len());
        first_present(&candidates, there)
    }
}

/// The nearest configuration wins: where one of the names is there in a directory,
/// none of a directory further up is chosen.
pub proof fn law_nearest_config_wins(
    near: Seq<Seq<char>>,
    far: Seq<Seq<char>>,
    there: Seq<bool>,
)
    requires
        first_there(near, there) is Some,
    ensures
        first_there(near + far, there) == first_there(near, there),
    decreases far.len(),
{
    if far.len() == 0 {
        assert(near + far =~= near);
    } else {
        assert((near + far).drop_last() =~= near + far.drop_last());
        law_nearest_config_wins(near, far.drop_last(), there);
    }
}

/// What is found is there, and nothing before it is.
pub proof fn law_first_present_is_first(candidates: Seq<Seq<char>>, there: Seq<bool>)
    requires
        candidates.len() == there.len(),
    ensures
        match first_there(candidates, there) {
            Some(c) => exists|i: int|
                0 <= i < candidates.len() && #[trigger] there[i] && candidates[i] == c && (forall|k: int|
                    0 <= k < i ==> !(#[trigger] there[k])),
            None => forall|k: int| 0 <= k < candidates.len() ==> !(#[trigger] there[k]),
        },
    decreases candidates.len(),
{
    if candidates.len() > 0 {
        let fewer = candidates.drop_last();
        let n = candidates.len() - 1;
        assert(there.take(n).len() == fewer.len());
        lemma_first_there_prefix(fewer, there, there.take(n));
        law_first_present_is_first(fewer, there.take(n));
        match first_there(fewer, there) {
            Some(c) => {
                let i = choose|i: int|
                    0 <= i < fewer.len() && #[trigger] there.take(n)[i] && fewer[i] == c && (forall|k: int|
                        0 <= k < i ==> !(#[trigger] there.take(n)[k]));
                assert(there[i] && candidates[i] == c);
                assert forall|k: int| 0 <= k < i implies !(#[trigger] there[k]) by {
                    assert(!there.take(n)[k]);
                }
            },
            None => {
                assert forall|k: int| 0 <= k < n implies !(#[trigger] there[k]) by {
                    assert(!there.take(n)[k]);
                }
                if there[n] {
                    assert(candidates[n] == candidates.last());
                }
            },
        }
    }
}

proof fn lemma_first_there_prefix(candidates: Seq<Seq<char>>, a: Seq<bool>, b: Seq<bool>)
    requires
        candidates.len() <= a.len(),
        candidates.len() <= b.len(),
        forall|i: int| 0 <= i < candidates.len() ==> a[i] == b[i],
    ensures
        first_there(candidates, a) == first_there(candidates, b),
    decreases candidates.len(),
{
    if candidates.len() > 0 {
        lemma_first_there_prefix(candidates.drop_last(), a, b);
    }
}

impl Config {
    /// Whether the project that the process runs in has a configuration, in whatever
    /// format, where `cwd` is the directory of the process if it is known.
    pub fn project_config_exists(cwd: &Option<String>, hk_file: &Option<String>, there: &Vec<bool>) -> (r:
        bool)
        requires
            cwd is Some ==> there@.len() == in_dirs(
                ancestors(cwd->0@),
                search_names(opt_text(*hk_file)),
            ).len(),
        ensures
            r == (cwd is Some && first_there(
                in_dirs(ancestors(cwd->0@), search_names(opt_text(*hk_file))),
                there@,
            ) is Some),
    {
        match cwd {
            Some(dir) => {
                let paths = Config::project_config_search_paths(hk_file);
                Config::find_project_config_from(dir.as_str(), &paths, there).is_some()
            },
            None => false,
        }
    }
}

/// A pattern leads out of the project: it starts at the root of the file system
/// or goes up.
pub open spec fn leads_out(pattern: Seq<char>) -> bool {
    starts(pattern, "/"@) || split_on(pattern, '/').contains(".."@)
}

/// Why the patterns of the subprojects cannot be used, if they cannot.
pub open spec fn patterns_error(patterns: Seq<Seq<char>>) -> Option<Seq<char>>
    decreases patterns.len(),
{
    if patterns.len() == 0 {
        None
    } else {
        match patterns_error(patterns.drop_last()) {
            Some(e) => Some(e),
            None => if leads_out(patterns.last()) {
                Some(
                    "subprojects entries must be relative paths without '..': "@ + patterns.last(),
                )
            } else {
                None
            },
        }
    }
}

/// Whether the patterns of the subprojects can be used.
pub fn check_patterns(patterns: &Vec<String>) -> (r: Result<(), String>)
    ensures
        error_of(r) == patterns_error(texts(patterns@)),
{
    let ghost ps = texts(patterns@);
    let mut fault: Option<String> = None;
    for i in 0..patterns.len()
        invariant
            ps == texts(patterns@),
            opt_text(fault) == patterns_error(ps.take(i as int)),
    {
        assert(ps.take(i + 1).drop_last() =~= ps.take(i as int));
        let pattern = patterns[i].as_str();
        assert(ps.take(i + 1).last() == pattern@);
        if fault.is_none() {
            let parts = split(pattern, '/');
            if starts_with(pattern, "/") || list_has(&parts, "..") {
                fault = Some(
                    both("subprojects entries must be relative paths without '..': ", pattern),
                );
            }
        }
    }
    assert(ps.take(patterns@.len() as int) =~= ps);
    match fault {
        Some(e) => Err(e),
        None => Ok(()),
    }
}

/// A pattern that stands for any number of directories.
pub open spec fn is_pattern(p: Seq<char>) -> bool {
    has_char(p, '*') || has_char(p, '?') || has_char(p, '[') || has_char(p, '{')
}

/// Whether a pattern stands for any number of directories.
pub fn is_glob(p: &str) -> (r: bool)
    ensures
        r == is_pattern(p@),
{
    contains_char(p, '*') || contains_char(p, '?') || contains_char(p, '[') || contains_char(p, '{')
}

/// How far down directories are searched for a pattern that may match at any depth.
pub const MAX_WALK_DEPTH: usize = 32;

/// How far down the directories that a pattern matches lie.
pub open spec fn pattern_depth(p: Seq<char>) -> nat {
    if has_text(p, "**"@) {
        MAX_WALK_DEPTH as nat
    } else {
        split_on(p, '/').len()
    }
}

/// How far down directories have to be searched for the patterns, if at all.
pub open spec fn search_depth(patterns: Seq<Seq<char>>) -> Option<nat>
    decreases patterns.len(),
{
    if patterns.len() == 0 {
        None
    } else {
        let before = search_depth(patterns.drop_last());
        let depth = pattern_depth(patterns.last());
        if !is_pattern(patterns.last()) {
            before
        } else {
            match before {
                Some(d) => Some(if d > depth {
                    d
                } else {
                    depth
                }),
                None => Some(depth),
            }
        }
    }
}

/// How far down directories have to be searched for the patterns, if at all.
pub fn walk_depth(patterns: &Vec<String>) -> (r: Option<usize>)
    ensures
        match r {
            Some(d) => search_depth(texts(patterns@)) == Some(d as nat),
            None => search_depth(texts(patterns@)) is None,
        },
{
    let ghost ps = texts(patterns@);
    let mut deepest: Option<usize> = None;
    for i in 0..patterns.len()
        invariant
            ps == texts(patterns@),
            match deepest {
                Some(d) => search_depth(ps.take(i as int)) == Some(d as nat),
                None => search_depth(ps.take(i as int)) is None,
            },
    {
        assert(ps.take(i + 1).drop_last() =~= ps.take(i as int));
        let pattern = patterns[i].as_str();
        assert(ps.take(i + 1).last() == pattern@);
        if is_glob(pattern) {
            let depth: usize = if contains(pattern, "**") {
                MAX_WALK_DEPTH
            } else {
                let parts = split(pattern, '/');
                assert(texts(parts@).len() == parts@.len());
                parts.len()
            };
            deepest = match deepest {
                Some(d) => Some(if d > depth {
                    d
                } else {
                    depth
                }),
                None => Some(depth),
            };
        }
    }
    assert(ps.take(patterns@.len() as int) =~= ps);
    deepest
}

/// What becomes of an entry of a directory in a search: whether it is one of the
/// directories found, and whether it is searched in turn.
#[derive(Clone, Copy, Debug, PartialEq, Eq, Structural)]
pub struct WalkStep {
    pub list: bool,
    pub descend: bool,
}

/// An entry at `rel` below the project that is a directory of that name: hidden
/// ones and those of packages are passed over.
pub open spec fn walk_step(name: Seq<char>, rel: Seq<char>, is_dir: bool, max_depth: nat) -> WalkStep {
    let depth = split_on(rel, '/').len();
    let seen = is_dir && !starts(name, "."@) && name != "node_modules"@;
    WalkStep { list: seen && depth <= max_depth, descend: seen && depth < max_depth }
}

/// What becomes of the entry `name`, at `rel` below the project, where `is_dir`
/// says whether it is a directory and no link.
pub fn visit(name: &str, rel: &str, is_dir: bool, max_depth: usize) -> (r: WalkStep)
    ensures
        r == walk_step(name@, rel@, is_dir, max_depth as nat),
{
    if !is_dir || starts_with(name, ".") || same(name, "node_modules") {
        return WalkStep { list: false, descend: false };
    }
    let parts = split(rel, '/');
    let depth: usize = parts.len();
    assert(texts(parts@).len() == depth);
    WalkStep { list: depth <= max_depth, descend: depth < max_depth }
}

/// Whether a path matches a pattern, or why the pattern is none, where
/// `literal_separator` keeps wildcards from matching `/` and `empty_alternates`
/// lets an alternative be empty.
pub uninterp spec fn glob_match(
    pattern: Seq<char>,
    path: Seq<char>,
    literal_separator: bool,
    empty_alternates: bool,
) -> Result<bool, Seq<char>>;

/// What a result with a match stands for.
pub open spec fn match_result(r: Result<bool, String>) -> Result<bool, Seq<char>> {
    match r {
        Ok(b) => Ok(b),
        Err(e) => Err(e@),
    }
}

/// The longest pattern, in characters.
pub const MAX_GLOB_LENGTH: usize = 0x1000_0000;

/// The most alternatives that may be nested in a pattern.
pub const MAX_GLOB_NESTING: usize = 1000;

/// How many alternatives are open behind a part of a pattern, where `closing` says that a
/// brace closes one wherever it stands.
pub open spec fn open_braces(part: Seq<char>, closing: bool) -> int
    decreases part.len(),
{
    if part.len() == 0 {
        0
    } else {
        open_braces(part.drop_last(), closing) + if part.last() == '{' {
            1int
        } else if part.last() == '}' && closing {
            -1
        } else {
            0
        }
    }
}

/// No class and no escape can keep a brace from closing.
pub open spec fn braces_close(pattern: Seq<char>) -> bool {
    !has_char(pattern, '[') && !has_char(pattern, '\\')
}

/// A pattern can be read without exhausting the stack: it nests no more alternatives
/// than are allowed.
pub open spec fn is_readable(pattern: Seq<char>) -> bool {
    &&& pattern.len() <= MAX_GLOB_LENGTH
    &&& forall|k: int|
        0 <= k <= pattern.len() ==> open_braces(#[trigger] pattern.take(k), braces_close(pattern))
            <= MAX_GLOB_NESTING
}

/// Whether a pattern can be read.
pub fn can_be_read(pattern: &str) -> (r: bool)
    ensures
        r == is_readable(pattern@),
{
    let chars = to_chars(pattern);
    let n: usize = chars.len();
    if n > MAX_GLOB_LENGTH {
        return false;
    }
    let closing: bool = !contains_char(pattern, '[') && !contains_char(pattern, '\\');
    let mut depth: i64 = 0;
    let mut shallow: bool = true;
    assert(pattern@.take(0).len() == 0);
    for i in 0..n
        invariant
            chars@ == pattern@,
            n == pattern@.len(),
            n <= MAX_GLOB_LENGTH,
            closing == braces_close(pattern@),
            depth == open_braces(pattern@.take(i as int), closing),
            -i <= depth <= i,
            shallow == forall|k: int|
                0 <= k <= i ==> open_braces(#[trigger] pattern@.take(k), closing)
                    <= MAX_GLOB_NESTING,
    {
        let c: char = chars[i];
        assert(pattern@.take(i + 1).drop_last() =~= pattern@.take(i as int));
        if c == '{' {
            depth += 1;
        } else if c == '}' && closing {
            depth -= 1;
        }
        if depth > MAX_GLOB_NESTING as i64 {
            shallow = false;
        }
    }
    shallow
}

/// The patterns that stand for any number of directories can be read.
pub open spec fn all_readable(patterns: Seq<Seq<char>>) -> bool {
    forall|i: int|
        0 <= i < patterns.len() && is_pattern(#[trigger] patterns[i]) ==> is_readable(patterns[i])
}

/// `globset::GlobBuilder::build`, `GlobSet::new` and `GlobSet::is_match`: whether
/// a path matches a pattern, or the message of the error. Without backslashes,
/// which are separators on some systems, the same arguments always give the same;
/// with them nothing is said. Nested alternatives are read recursively, so there
/// must not be too many.
#[verifier::external_body]
fn glob_matches(
    pattern: &str,
    path: &str,
    literal_separator: bool,
    empty_alternates: bool,
) -> (r: Result<bool, String>)
    requires
        is_readable(pattern@),
    ensures
        !has_char(pattern@, '\\') && !has_char(path@, '\\') ==> match_result(r) == glob_match(
            pattern@,
            path@,
            literal_separator,
            empty_alternates,
        ),
{
    globset::GlobBuilder::new(pattern)
        .literal_separator(literal_separator)
        .empty_alternates(empty_alternates)
        .build()
        .and_then(|glob| globset::GlobSet::new([glob]))
        .map(|set| set.is_match(path))
        .map_err(|e| e.to_string())
}

/// Which directories a pattern matches, or why it is no pattern.
pub open spec fn glob_hits(pattern: Seq<char>, dirs: Seq<Seq<char>>) -> Result<Seq<bool>, Seq<char>>
    decreases dirs.len(),
{
    if dirs.len() == 0 {
        match glob_match(pattern, ""@, true, true) {
            Ok(_) => Ok(seq![]),
            Err(e) => Err(e),
        }
    } else {
        match glob_hits(pattern, dirs.drop_last()) {
            Ok(before) => match glob_match(pattern, dirs.last(), true, true) {
                Ok(hit) => Ok(before.push(hit)),
                Err(e) => Err(e),
            },
            Err(e) => Err(e),
        }
    }
}

/// What is said of a pattern that is none.
pub open spec fn glob_message(pattern: Seq<char>, e: Seq<char>) -> Seq<char> {
    "invalid subprojects glob: "@ + pattern + ": "@ + e
}

/// Which directories each pattern matches, up to the first that is no pattern, and what
/// is said of that one. A directory that is named matches none.
pub open spec fn all_hits(
    patterns: Seq<Seq<char>>,
    dirs: Seq<Seq<char>>,
) -> (Seq<Seq<bool>>, Option<Seq<char>>)
    decreases patterns.len(),
{
    if patterns.len() == 0 {
        (seq![], None)
    } else {
        let (before, fault) = all_hits(patterns.drop_last(), dirs);
        if fault is Some {
            (before, fault)
        } else if is_pattern(patterns.last()) {
            match glob_hits(patterns.last(), dirs) {
                Ok(hits) => (before.push(hits), None),
                Err(e) => (before, Some(glob_message(patterns.last(), e))),
            }
        } else {
            (before.push(seq![]), None)
        }
    }
}

/// No text holds a backslash.
pub open spec fn no_backslashes(list: Seq<Seq<char>>) -> bool {
    forall|i: int| 0 <= i < list.len() ==> !has_char(#[trigger] list[i], '\\')
}

/// What a result with matches stands for.
pub open spec fn hits_result(r: Result<Vec<bool>, String>) -> Result<Seq<bool>, Seq<char>> {
    match r {
        Ok(v) => Ok(v@),
        Err(e) => Err(e@),
    }
}

/// What lists of matches stand for.
pub open spec fn hit_lists(v: Seq<Vec<bool>>) -> Seq<Seq<bool>> {
    v.map_values(|h: Vec<bool>| h@)
}

/// No backslash meets a pattern, so that what it matches is the same on every system.
pub open spec fn portable(patterns: Seq<Seq<char>>, dirs: Seq<Seq<char>>) -> bool {
    forall|i: int|
        0 <= i < patterns.len() && is_pattern(#[trigger] patterns[i]) ==> !has_char(
            patterns[i],
            '\\',
        ) && no_backslashes(dirs)
}

fn match_dirs(pattern: &str, dirs: &Vec<String>) -> (r: Result<Vec<bool>, String>)
    requires
        is_readable(pattern@),
    ensures
        !has_char(pattern@, '\\') && no_backslashes(texts(dirs@)) ==> hits_result(r) == glob_hits(
            pattern@,
            texts(dirs@),
        ),
        r matches Ok(hits) ==> hits@.len() == dirs@.len(),
{
    let ghost ds = texts(dirs@);
    let ghost known = !has_char(pattern@, '\\') && no_backslashes(ds);
    proof {
        reveal_strlit("");
        assert(!has_char(""@, '\\'));
    }
    let mut hits: Vec<bool> = Vec::new();
    let mut fault: Option<String> = match glob_matches(pattern, "", true, true) {
        Ok(_) => None,
        Err(e) => Some(e),
    };
    assert(ds.take(0) =~= Seq::<Seq<char>>::empty());
    for i in 0..dirs.len()
        invariant
            is_readable(pattern@),
            ds == texts(dirs@),
            known == (!has_char(pattern@, '\\') && no_backslashes(ds)),
            fault is None ==> hits@.len() == i,
            known ==> glob_hits(pattern@, ds.take(i as int)) == (match fault {
                Some(e) => Err(e@),
                None => Ok(hits@),
            }),
    {
        assert(ds.take(i + 1).drop_last() =~= ds.take(i as int));
        assert(ds.take(i + 1).last() == dirs@[i as int]@);
        assert(ds[i as int] == dirs@[i as int]@);
        if fault.is_none() {
            match glob_matches(pattern, dirs[i].as_str(), true, true) {
                Ok(hit) => {
                    hits.push(hit);
                },
                Err(e) => {
                    fault = Some(e);
                },
            }
        }
    }
    assert(ds.take(dirs@.len() as int) =~= ds);
    match fault {
        Some(e) => Err(e),
        None => Ok(hits),
    }
}

/// What is said is said of the first pattern that has no list, which is a glob.
pub open spec fn blames(patterns: Seq<Seq<char>>, n: int, message: Seq<char>) -> bool {
    &&& 0 <= n < patterns.len()
    &&& is_pattern(patterns[n])
    &&& exists|e: Seq<char>| message == #[trigger] glob_message(patterns[n], e)
}

/// Which of the directories each pattern matches, up to the first that is no pattern,
/// and what is said of that one.
pub fn match_patterns(patterns: &Vec<String>, dirs: &Vec<String>) -> (r: (
    Vec<Vec<bool>>,
    Option<String>,
))
    requires
        all_readable(texts(patterns@)),
    ensures
        portable(texts(patterns@), texts(dirs@)) ==> (hit_lists(r.0@), opt_text(r.1)) == all_hits(
            texts(patterns@),
            texts(dirs@),
        ),
        r.0@.len() <= patterns@.len(),
        fits(texts(patterns@).take(r.0@.len() as int), texts(dirs@), hit_lists(r.0@)),
        match r.1 {
            Some(e) => blames(texts(patterns@), r.0@.len() as int, e@),
            None => r.0@.len() == patterns@.len(),
        },
{
    let ghost ps = texts(patterns@);
    let ghost ds = texts(dirs@);
    let ghost known = portable(ps, ds);
    let mut lists: Vec<Vec<bool>> = Vec::new();
    let mut fault: Option<String> = None;
    assert(ps.take(0) =~= Seq::<Seq<char>>::empty());
    assert(hit_lists(lists@) =~= Seq::<Seq<bool>>::empty());
    for i in 0..patterns.len()
        invariant
            all_readable(ps),
            ps == texts(patterns@),
            ds == texts(dirs@),
            known == portable(ps, ds),
            lists@.len() <= i,
            fits(ps.take(lists@.len() as int), ds, hit_lists(lists@)),
            match fault {
                Some(e) => blames(ps, lists@.len() as int, e@),
                None => lists@.len() == i,
            },
            known ==> all_hits(ps.take(i as int), ds) == (hit_lists(lists@), opt_text(fault)),
    {
        let pattern = patterns[i].as_str();
        assert(ps.take(i + 1).drop_last() =~= ps.take(i as int));
        assert(ps.take(i + 1).last() == pattern@);
        assert(ps[i as int] == pattern@);
        if fault.is_none() {
            let ghost before = lists@;
            if is_glob(pattern) {
                match match_dirs(pattern, dirs) {
                    Ok(hits) => {
                        lists.push(hits);
                        assert(hit_lists(lists@) =~= hit_lists(before).push(hits@));
                    },
                    Err(e) => {
                        let mut m = both("invalid subprojects glob: ", pattern);
                        m.append(": ");
                        m.append(e.as_str());
                        assert(m@ == glob_message(pattern@, e@));
                        fault = Some(m);
                    },
                }
            } else {
                let none: Vec<bool> = Vec::new();
                lists.push(none);
                assert(none@ =~= Seq::<bool>::empty());
                assert(hit_lists(lists@) =~= hit_lists(before).push(none@));
            }
            if fault.is_none() {
                assert(fits(ps.take(i + 1), ds, hit_lists(lists@))) by {
                    let now = hit_lists(lists@);
                    assert forall|k: int| 0 <= k < now.len() && is_pattern(#[trigger] ps.take(i + 1)[k]) implies now[k].len()
                        == ds.len() by {
                        if k < i {
                            assert(ps.take(i as int)[k] == ps.take(i + 1)[k]);
                            assert(now[k] == hit_lists(before)[k]);
                        }
                    }
                }
            }
        }
    }
    assert(ps.take(patterns@.len() as int) =~= ps);
    (lists, fault)
}

/// There is a list of matches for each pattern, with one match for each directory
/// where the pattern stands for any number of them.
pub open spec fn fits(patterns: Seq<Seq<char>>, dirs: Seq<Seq<char>>, hits: Seq<Seq<bool>>) -> bool {
    &&& hits.len() == patterns.len()
    &&& forall|k: int|
        0 <= k < hits.len() && is_pattern(#[trigger] patterns[k]) ==> hits[k].len() == dirs.len()
}

/// What is known of a directory of a project: whether it is one, and the configuration that lies in it.
pub struct DirFacts {
    pub is_dir: bool,
    pub config: Option<String>,
}

/// What [`DirFacts`] stands for.
pub struct DirFactsView {
    pub is_dir: bool,
    pub config: Option<Seq<char>>,
}

impl View for DirFacts {
    type V = DirFactsView;

    open spec fn view(&self) -> DirFactsView {
        DirFactsView {
            is_dir: self.is_dir,
            config: opt_text(self.config),
        }
    }
}

/// The configuration that lies in a directory.
pub open spec fn config_in(facts: Seq<(Seq<char>, DirFactsView)>, dir: Seq<char>) -> Option<Seq<char>> {
    match crate::table::lookup(facts, dir) {
        Some(f) => f.config,
        None => None,
    }
}

/// The directories that one pattern adds to those found: each that it matches and
/// that has a configuration, unless it is found already.
pub open spec fn with_hits(
    found: Seq<(Seq<char>, Seq<char>)>,
    dirs: Seq<Seq<char>>,
    hits: Seq<bool>,
    facts: Seq<(Seq<char>, DirFactsView)>,
) -> Seq<(Seq<char>, Seq<char>)>
    decreases dirs.len(),
{
    if dirs.len() == 0 {
        found
    } else {
        let before = with_hits(found, dirs.drop_last(), hits, facts);
        let dir = dirs.last();
        if hits[dirs.len() - 1] && !has_key(before, dir) && config_in(facts, dir) is Some {
            before.push((dir, config_in(facts, dir)->0))
        } else {
            before
        }
    }
}

/// What has been found of the subprojects, and what has been said of those that are missing.
pub struct Discovery {
    pub found: Seq<(Seq<char>, Seq<char>)>,
    pub warnings: Seq<Seq<char>>,
}

/// What the directory that is named adds.
pub open spec fn with_named(
    d: Discovery,
    name: Seq<char>,
    facts: Seq<(Seq<char>, DirFactsView)>,
) -> Discovery {
    let dir = stripped_end(name, '/');
    let known = crate::table::lookup(facts, dir);
    if !(known is Some && known->0.is_dir) {
        Discovery { warnings: d.warnings.push("subprojects: directory not found: "@ + dir), ..d }
    } else if has_key(d.found, dir) {
        d
    } else {
        match known->0.config {
            Some(config) => Discovery { found: d.found.push((dir, config)), ..d },
            None => Discovery {
                warnings: d.warnings.push("subprojects: no hk config found in "@ + dir),
                ..d
            },
        }
    }
}

/// The subprojects that the patterns stand for, in the order of the patterns.
pub open spec fn discovered(
    patterns: Seq<Seq<char>>,
    dirs: Seq<Seq<char>>,
    hits: Seq<Seq<bool>>,
    facts: Seq<(Seq<char>, DirFactsView)>,
) -> Discovery
    decreases patterns.len(),
{
    if patterns.len() == 0 {
        Discovery { found: seq![], warnings: seq![] }
    } else {
        let before = discovered(patterns.drop_last(), dirs, hits, facts);
        if is_pattern(patterns.last()) {
            Discovery {
                found: with_hits(before.found, dirs, hits[patterns.len() - 1], facts),
                ..before
            }
        } else {
            with_named(before, patterns.last(), facts)
        }
    }
}

/// Adds a key that is new.
fn add_new(found: &mut Table<String>, dir: &str, config: &str)
    requires
        !has_key(old(found)@, dir@),
    ensures
        final(found)@ == old(found)@.push((dir@, config@)),
{
    found.insert(dir.to_owned(), config.to_owned());
}

fn add_hits(found: &mut Table<String>, dirs: &Vec<String>, hits: &Vec<bool>, facts: &Table<DirFacts>)
    requires
        hits@.len() == dirs@.len(),
    ensures
        final(found)@ == with_hits(old(found)@, texts(dirs@), hits@, facts@),
{
    let ghost ds = texts(dirs@);
    for i in 0..dirs.len()
        invariant
            hits@.len() == dirs@.len(),
            ds == texts(dirs@),
            found@ == with_hits(old(found)@, ds.take(i as int), hits@, facts@),
    {
        let dir = dirs[i].as_str();
        assert(ds.take(i + 1).drop_last() =~= ds.take(i as int));
        assert(ds.take(i + 1).last() == dir@);
        if hits[i] && !found.contains_key(dir) {
            if let Some(f) = facts.get(dir) {
                if let Some(config) = &f.config {
                    add_new(found, dir, config.as_str());
                }
            }
        }
    }
    assert(ds.take(dirs@.len() as int) =~= ds);
}

fn add_named(
    found: &mut Table<String>,
    warnings: &mut Vec<String>,
    name: &str,
    facts: &Table<DirFacts>,
)
    ensures
        ({
            let d = with_named(
                Discovery { found: old(found)@, warnings: texts(old(warnings)@) },
                name@,
                facts@,
            );
            final(found)@ == d.found && texts(final(warnings)@) == d.warnings
        }),
{
    let dir = strip_end(name, '/');
    match facts.get(dir.as_str()) {
        Some(f) => {
            if !f.is_dir {
                warnings.push(both("subprojects: directory not found: ", dir.as_str()));
            } else if !found.contains_key(dir.as_str()) {
                match &f.config {
                    Some(config) => {
                        add_new(found, dir.as_str(), config.as_str());
                    },
                    None => {
                        warnings.push(both("subprojects: no hk config found in ", dir.as_str()));
                    },
                }
            }
        },
        None => {
            warnings.push(both("subprojects: directory not found: ", dir.as_str()));
        },
    }
}

/// The subprojects that the first patterns stand for, as many as there are lists in
/// `hits`, with their configurations, and what is said of those that are missing. `hits`
/// says which of the directories each pattern matches.
pub fn discover_with(
    patterns: &Vec<String>,
    dirs: &Vec<String>,
    hits: &Vec<Vec<bool>>,
    facts: &Table<DirFacts>,
) -> (r: (Table<String>, Vec<String>))
    requires
        hits@.len() <= patterns@.len(),
        fits(texts(patterns@).take(hits@.len() as int), texts(dirs@), hit_lists(hits@)),
    ensures
        (Discovery { found: r.0@, warnings: texts(r.1@) }) == discovered(
            texts(patterns@).take(hits@.len() as int),
            texts(dirs@),
            hit_lists(hits@),
            facts@,
        ),
{
    let ghost ps = texts(patterns@);
    let ghost hs = hit_lists(hits@);
    let mut found: Table<String> = Table::new();
    let mut warnings: Vec<String> = Vec::new();
    assert(texts(warnings@) =~= Seq::<Seq<char>>::empty());
    for i in 0..hits.len()
        invariant
            ps == texts(patterns@),
            hs == hit_lists(hits@),
            hits@.len() <= patterns@.len(),
            fits(ps.take(hits@.len() as int), texts(dirs@), hs),
            (Discovery { found: found@, warnings: texts(warnings@) }) == discovered(
                ps.take(i as int),
                texts(dirs@),
                hs,
                facts@,
            ),
    {
        let pattern = patterns[i].as_str();
        assert(ps.take(i + 1).drop_last() =~= ps.take(i as int));
        assert(ps.take(i + 1).last() == pattern@);
        assert(ps.take(hits@.len() as int)[i as int] == pattern@);
        if is_glob(pattern) {
            assert(hs[i as int] == hits@[i as int]@);
            add_hits(&mut found, dirs, &hits[i], facts);
        } else {
            add_named(&mut found, &mut warnings, pattern, facts);
        }
    }
    (found, warnings)
}

/// What discovery gave stands for: what was found and said; or the error, and what had
/// been said before it.
pub open spec fn discovery_result(r: Result<(Table<String>, Vec<String>), (String, Vec<String>)>) -> Result<
    Discovery,
    (Seq<char>, Seq<Seq<char>>),
> {
    match r {
        Ok(d) => Ok(Discovery { found: d.0@, warnings: texts(d.1@) }),
        Err(e) => Err((e.0@, texts(e.1@))),
    }
}

/// What discovery gives where `hits` holds what the patterns match, up to the first that
/// is no pattern, of which `fault` is said.
pub open spec fn discovery(
    patterns: Seq<Seq<char>>,
    dirs: Seq<Seq<char>>,
    hits: Seq<Seq<bool>>,
    fault: Option<Seq<char>>,
    facts: Seq<(Seq<char>, DirFactsView)>,
) -> Result<Discovery, (Seq<char>, Seq<Seq<char>>)> {
    let all = discovered(patterns.take(hits.len() as int), dirs, hits, facts);
    match fault {
        Some(e) => Err((e, all.warnings)),
        None => Ok(all),
    }
}

impl Config {
    /// The subprojects that the patterns stand for, with their configurations,
    /// and what is said of those that are missing; or what is said of the first pattern
    /// that is none, and what had been said before it. `walked` holds the directories of
    /// the project in any order. What a pattern matches where a backslash is involved
    /// depends on the system; all else does not.
    pub fn discover_subprojects(
        patterns: &Vec<String>,
        walked: &Vec<String>,
        facts: &Table<DirFacts>,
    ) -> (r: Result<(Table<String>, Vec<String>), (String, Vec<String>)>)
        requires
            all_readable(texts(patterns@)),
        ensures
            portable(texts(patterns@), sorted(texts(walked@))) ==> discovery_result(r) == ({
                let (hits, fault) = all_hits(texts(patterns@), sorted(texts(walked@)));
                discovery(texts(patterns@), sorted(texts(walked@)), hits, fault, facts@)
            }),
            r is Ok ==> exists|hits: Seq<Seq<bool>>|
                fits(texts(patterns@), sorted(texts(walked@)), hits) && (Discovery {
                    found: r->Ok_0.0@,
                    warnings: texts(r->Ok_0.1@),
                }) == #[trigger] discovered(
                    texts(patterns@),
                    sorted(texts(walked@)),
                    hits,
                    facts@,
                ),
            r is Err ==> exists|hits: Seq<Seq<bool>>|
                {
                    &&& blames(texts(patterns@), hits.len() as int, r->Err_0.0@)
                    &&& fits(
                        texts(patterns@).take(hits.len() as int),
                        sorted(texts(walked@)),
                        hits,
                    )
                    &&& texts(r->Err_0.1@) == (#[trigger] discovered(
                        texts(patterns@).take(hits.len() as int),
                        sorted(texts(walked@)),
                        hits,
                        facts@,
                    )).warnings
                },
    {
        let dirs = sort(walked);
        let (hits, fault) = match_patterns(patterns, &dirs);
        let ghost ps = texts(patterns@);
        let ghost hs = hit_lists(hits@);
        assert(hs.len() == hits@.len());
        let (found, warnings) = discover_with(patterns, &dirs, &hits, facts);
        assert((Discovery { found: found@, warnings: texts(warnings@) }) == discovered(
            ps.take(hs.len() as int),
            sorted(texts(walked@)),
            hs,
            facts@,
        ));
        match fault {
            Some(e) => Err((e, warnings)),
            None => {
                assert(ps.take(hs.len() as int) =~= ps);
                Ok((found, warnings))
            },
        }
    }
}

/// Directories that are named need no pattern to be understood: what is found does not
/// depend on the system, and nothing fails.
pub proof fn law_named_directories_never_fail(
    patterns: Seq<Seq<char>>,
    dirs: Seq<Seq<char>>,
)
    requires
        forall|i: int| 0 <= i < patterns.len() ==> !is_pattern(#[trigger] patterns[i]),
    ensures
        portable(patterns, dirs),
        all_hits(patterns, dirs).1 is None,
        all_hits(patterns, dirs).0.len() == patterns.len(),
    decreases patterns.len(),
{
    if patterns.len() > 0 {
        let init = patterns.drop_last();
        assert forall|i: int| 0 <= i < init.len() implies !is_pattern(#[trigger] init[i]) by {
            assert(!is_pattern(patterns[i]));
        }
        law_named_directories_never_fail(init, dirs);
        assert(!is_pattern(patterns[patterns.len() - 1]));
    }
}

/// Every subproject that is found has the configuration that lies in its directory,
/// and no directory is found twice.
pub proof fn law_subprojects_have_configs(
    patterns: Seq<Seq<char>>,
    dirs: Seq<Seq<char>>,
    hits: Seq<Seq<bool>>,
    facts: Seq<(Seq<char>, DirFactsView)>,
)
    ensures
        ({
            let found = discovered(patterns, dirs, hits, facts).found;
            &&& distinct(found)
            &&& forall|i: int|
                0 <= i < found.len() ==> config_in(facts, (#[trigger] found[i]).0) == Some(found[i].1)
        }),
    decreases patterns.len(),
{
    if patterns.len() > 0 {
        law_subprojects_have_configs(patterns.drop_last(), dirs, hits, facts);
        let before = discovered(patterns.drop_last(), dirs, hits, facts);
        if is_pattern(patterns.last()) {
            lemma_hits_have_configs(before.found, dirs, hits[patterns.len() - 1], facts);
        } else {
            let dir = stripped_end(patterns.last(), '/');
            if !has_key(before.found, dir) {
                lemma_distinct_push(before.found, dir, config_in(facts, dir)->0);
            }
        }
    }
}

proof fn lemma_distinct_push(found: Seq<(Seq<char>, Seq<char>)>, dir: Seq<char>, config: Seq<char>)
    requires
        distinct(found),
        !has_key(found, dir),
    ensures
        distinct(found.push((dir, config))),
{
    crate::table::lemma_position(found, dir);
}

proof fn lemma_hits_have_configs(
    found: Seq<(Seq<char>, Seq<char>)>,
    dirs: Seq<Seq<char>>,
    hits: Seq<bool>,
    facts: Seq<(Seq<char>, DirFactsView)>,
)
    requires
        distinct(found),
        forall|i: int| 0 <= i < found.len() ==> config_in(facts, (#[trigger] found[i]).0) == Some(found[i].1),
    ensures
        ({
            let all = with_hits(found, dirs, hits, facts);
            &&& distinct(all)
            &&& forall|i: int|
                0 <= i < all.len() ==> config_in(facts, (#[trigger] all[i]).0) == Some(all[i].1)
        }),
    decreases dirs.len(),
{
    if dirs.len() > 0 {
        lemma_hits_have_configs(found, dirs.drop_last(), hits, facts);
        let before = with_hits(found, dirs.drop_last(), hits, facts);
        let dir = dirs.last();
        if !has_key(before, dir) {
            lemma_distinct_push(before, dir, config_in(facts, dir)->0);
        }
    }
}

/// A subproject whose configuration was read.
pub struct LoadedSubproject {
    pub dir: String,
    pub config_path: String,
    pub config: Config,
}

/// What [`LoadedSubproject`] stands for.
pub struct LoadedSubprojectView {
    pub dir: Seq<char>,
    pub config_path: Seq<char>,
    pub config: ConfigView,
}

impl View for LoadedSubproject {
    type V = LoadedSubprojectView;

    open spec fn view(&self) -> LoadedSubprojectView {
        LoadedSubprojectView {
            dir: self.dir@,
            config_path: self.config_path@,
            config: self.config@,
        }
    }
}

/// A configuration with the subprojects merged in one after the other, up to the
/// first that cannot be.
pub open spec fn with_subprojects(
    c: ConfigView,
    root_offset: Option<Seq<char>>,
    subs: Seq<LoadedSubprojectView>,
) -> (ConfigView, Option<Seq<char>>)
    decreases subs.len(),
{
    if subs.len() == 0 {
        (c, None)
    } else {
        let (before, failure) = with_subprojects(c, root_offset, subs.drop_last());
        if failure is Some {
            (before, failure)
        } else {
            let sub = subs.last();
            let (merged, e) = merged_subproject(before, sub.dir, root_offset, sub.config);
            (
                merged,
                match e {
                    Some(e) => Some(
                        "failed to merge subproject config: "@ + sub.config_path + ": "@ + e,
                    ),
                    None => None,
                },
            )
        }
    }
}

/// The settings of a user: in the form of their own, or in that of a configuration.
pub enum UserSettings {
    Legacy(UserConfig),
    Config(Config),
}

/// What [`UserSettings`] stands for.
pub enum UserSettingsView {
    Legacy(UserConfigView),
    Config(ConfigView),
}

impl View for UserSettings {
    type V = UserSettingsView;

    open spec fn view(&self) -> UserSettingsView {
        match self {
            UserSettings::Legacy(u) => UserSettingsView::Legacy(u@),
            UserSettings::Config(c) => UserSettingsView::Config(c@),
        }
    }
}

/// A configuration that lies at `path`, with its hooks initialized.
pub open spec fn initialized_config(c: ConfigView, path: Seq<char>) -> ConfigView {
    ConfigView {
        path,
        hooks: c.hooks.map_values(|h: (Seq<char>, HookView)| (h.0, initialized_hook(h.1, h.0))),
        ..c
    }
}

/// Why a configuration cannot be used, if it cannot: it asks for a later version,
/// where `order` is how that stands to the version of the program.
pub open spec fn config_refusal(
    c: ConfigView,
    order: Result<crate::version::VersionOrder, Seq<char>>,
) -> Option<Seq<char>> {
    match c.min_hk_version {
        Some(v) => version_refusal(v, order),
        None => None,
    }
}

/// How the version that a configuration asks for stands to that of the program.
pub open spec fn asked_order(c: ConfigView) -> Result<crate::version::VersionOrder, Seq<char>> {
    match c.min_hk_version {
        Some(v) => semver_order(v, current_version()),
        None => Ok(crate::version::VersionOrder::Equal),
    }
}

/// The variables of a table, in order.
fn variables(env: &Table<String>) -> (r: Vec<(String, String)>)
    ensures
        pair_texts(r@) == env@,
{
    let n: usize = env.len();
    let mut out: Vec<(String, String)> = Vec::new();
    assert(pair_texts(out@) =~= env@.take(0));
    for i in 0..n
        invariant
            n == env@.len(),
            pair_texts(out@) =~= env@.take(i as int),
    {
        let ghost before = out@;
        out.push((env.key_at(i).clone(), env.value_at(i).clone()));
        assert(pair_texts(out@) =~= pair_texts(before).push(env@[i as int]));
    }
    assert(env@.take(n as int) =~= env@);
    out
}

impl Config {
    fn init_hooks(&mut self)
        ensures
            final(self)@ == (ConfigView {
                hooks: old(self)@.hooks.map_values(
                    |h: (Seq<char>, HookView)| (h.0, initialized_hook(h.1, h.0)),
                ),
                ..old(self)@
            }),
    {
        let ghost f = |h: (Seq<char>, HookView)| (h.0, initialized_hook(h.1, h.0));
        let ghost from = self.hooks@;
        let ghost c = self@;
        let n: usize = self.hooks.len();
        for i in 0..n
            invariant
                n == from.len(),
                f == (|h: (Seq<char>, HookView)| (h.0, initialized_hook(h.1, h.0))),
                self.hooks@ =~= from.map_values(f).take(i as int) + from.skip(i as int),
                self@ == (ConfigView { hooks: self.hooks@, ..c }),
        {
            let name = self.hooks.key_at(i).clone();
            let mut hook = self.hooks.replace_at(i, Hook::default());
            assert(from.skip(i as int)[0] == from[i as int]);
            assert(name@ == from[i as int].0);
            assert(hook@ == from[i as int].1);
            hook.init(name.as_str());
            self.hooks.replace_at(i, hook);
            assert(f(from[i as int]) == from.map_values(f)[i as int]);
        }
        assert(self.hooks@ =~= from.map_values(f));
    }

    /// Takes over a configuration that was read from `path`, where `order` is how
    /// the version that it asks for stands to that of the program. Returns the
    /// variables that the process has to export: those of the configuration,
    /// where it is that of the project.
    pub fn init_with(
        &mut self,
        path: &str,
        apply_env: bool,
        order: Result<crate::version::VersionOrder, String>,
    ) -> (r: Result<Vec<(String, String)>, String>)
        ensures
            match r {
                Ok(exported) => config_refusal(old(self)@, crate::version::order_result(order)) is None
                    && final(self)@ == initialized_config(old(self)@, path@) && pair_texts(exported@) == (
                if apply_env {
                    old(self)@.env
                } else {
                    seq![]
                }),
                Err(e) => config_refusal(old(self)@, crate::version::order_result(order)) == Some(e@)
                    && final(self)@ == (ConfigView { path: path@, ..old(self)@ }),
            },
    {
        self.path = path.to_owned();
        if let Some(v) = &self.min_hk_version {
            if let Err(e) = crate::version::require_version(v.as_str(), order) {
                return Err(e);
            }
        }
        self.init_hooks();
        if apply_env {
            Ok(variables(&self.env))
        } else {
            let none: Vec<(String, String)> = Vec::new();
            assert(pair_texts(none@) =~= Seq::<(Seq<char>, Seq<char>)>::empty());
            Ok(none)
        }
    }

    /// Takes over a configuration that was read from `path`. Returns the variables
    /// that the process has to export.
    pub fn init(&mut self, path: &str, apply_env: bool) -> (r: Result<Vec<(String, String)>, String>)
        ensures
            match r {
                Ok(exported) => config_refusal(old(self)@, asked_order(old(self)@)) is None && final(self)@
                    == initialized_config(old(self)@, path@) && pair_texts(exported@) == (if apply_env {
                    old(self)@.env
                } else {
                    seq![]
                }),
                Err(e) => config_refusal(old(self)@, asked_order(old(self)@)) == Some(e@) && final(self)@
                    == (ConfigView { path: path@, ..old(self)@ }),
            },
            old(self)@.min_hk_version is None ==> r is Ok,
    {
        let order = match &self.min_hk_version {
            Some(v) => crate::version::version_cmp(v.as_str()),
            None => Ok(crate::version::VersionOrder::Equal),
        };
        self.init_with(path, apply_env, order)
    }

    /// Merges the configurations of the subprojects into this one.
    pub fn merge_subprojects(
        &mut self,
        root_offset: &Option<String>,
        subs: Vec<LoadedSubproject>,
    ) -> (r: Result<(), String>)
        ensures
            (final(self)@, error_of(r)) == with_subprojects(
                old(self)@,
                opt_text(*root_offset),
                views(subs@),
            ),
    {
        let ghost all = views(subs@);
        let ghost ss = subs@;
        let mut fault: Option<String> = None;
        for sub in it: subs
            invariant
                it.seq() == ss,
                all == views(ss),
                (self@, opt_text(fault)) == with_subprojects(
                    old(self)@,
                    opt_text(*root_offset),
                    all.take(it.index() as int),
                ),
        {
            assert(sub == ss[it.index() as int]);
            assert(all[it.index() as int] == sub@);
            assert(all.take(it.index() + 1).drop_last() =~= all.take(it.index() as int));
            assert(all.take(it.index() + 1).last() == sub@);
            if fault.is_none() {
                let LoadedSubproject { dir, config_path, config } = sub;
                let offset: Option<&str> = match root_offset {
                    Some(o) => Some(o.as_str()),
                    None => None,
                };
                if let Err(e) = self.merge_subproject(dir.as_str(), offset, config) {
                    let mut m = both("failed to merge subproject config: ", config_path.as_str());
                    m.append(": ");
                    m.append(e.as_str());
                    fault = Some(m);
                }
            }
        }
        assert(all.take(ss.len() as int) =~= all);
        match fault {
            Some(e) => Err(e),
            None => Ok(()),
        }
    }
}

/// A configuration with the settings of its user.
pub open spec fn with_user(c: ConfigView, user: Option<UserSettingsView>) -> ConfigView {
    match user {
        Some(UserSettingsView::Legacy(u)) => user_applied(c, u),
        Some(UserSettingsView::Config(u)) => merged_hkrc(c, materialized(u)),
        None => c,
    }
}

/// The variables that the settings of a user let the process export.
pub open spec fn user_exports(
    c: ConfigView,
    user: Option<UserSettingsView>,
) -> Seq<(Seq<char>, Seq<char>)> {
    match user {
        Some(UserSettingsView::Legacy(u)) => u.environment,
        Some(UserSettingsView::Config(u)) => new_pairs(c.env, u.env),
        None => seq![],
    }
}

/// The configuration that a run works with, or why there is none: that of the
/// project, with those of its subprojects, its default hooks and the settings of
/// the user.
pub open spec fn resolved(
    project: ConfigView,
    root_offset: Option<Seq<char>>,
    subs: Seq<LoadedSubprojectView>,
    user: Option<UserSettingsView>,
) -> Result<ConfigView, Seq<char>> {
    let (merged, failure) = with_subprojects(project, root_offset, subs);
    if failure is Some {
        Err(failure->0)
    } else {
        let c = with_user(materialized(merged), user);
        match hooks_error(c.hooks) {
            Some(e) => Err(e),
            None => Ok(c),
        }
    }
}

impl Config {
    /// Applies the settings of the user, where there are any. Returns the
    /// variables that the process has to export on their account.
    pub fn apply_hkrc(&mut self, user: Option<UserSettings>) -> (r: Vec<(String, String)>)
        ensures
            final(self)@ == with_user(old(self)@, match user {
                Some(u) => Some(u@),
                None => None,
            }),
            pair_texts(r@) == user_exports(old(self)@, match user {
                Some(u) => Some(u@),
                None => None,
            }),
    {
        match user {
            Some(UserSettings::Legacy(u)) => {
                let exported = variables(&u.environment);
                let some = Some(u);
                self.apply_user_config(&some);
                exported
            },
            Some(UserSettings::Config(u)) => {
                let mut u = u;
                let ghost given = u@;
                u.materialize_default_hooks();
                assert(u@.env == given.env);
                self.merge_from_hkrc(u)
            },
            None => {
                let none: Vec<(String, String)> = Vec::new();
                assert(pair_texts(none@) =~= Seq::<(Seq<char>, Seq<char>)>::empty());
                none
            },
        }
    }

    /// The configuration that a run works with, and the variables that the process
    /// has to export on account of the settings of the user.
    pub fn load(
        project: Config,
        root_offset: &Option<String>,
        subs: Vec<LoadedSubproject>,
        user: Option<UserSettings>,
    ) -> (r: Result<(Config, Vec<(String, String)>), String>)
        ensures
            match r {
                Ok((config, exported)) => resolved(
                    project@,
                    opt_text(*root_offset),
                    views(subs@),
                    match user {
                        Some(u) => Some(u@),
                        None => None,
                    },
                ) == Ok::<ConfigView, Seq<char>>(config@) && pair_texts(exported@) == user_exports(
                    materialized(
                        with_subprojects(project@, opt_text(*root_offset), views(subs@)).0,
                    ),
                    match user {
                        Some(u) => Some(u@),
                        None => None,
                    },
                ),
                Err(e) => resolved(
                    project@,
                    opt_text(*root_offset),
                    views(subs@),
                    match user {
                        Some(u) => Some(u@),
                        None => None,
                    },
                ) == Err::<ConfigView, Seq<char>>(e@),
            },
    {
        let mut config = project;
        if let Err(e) = config.merge_subprojects(root_offset, subs) {
            return Err(e);
        }
        config.materialize_default_hooks();
        let exported = config.apply_hkrc(user);
        if let Err(e) = config.validate() {
            return Err(e);
        }
        Ok((config, exported))
    }

    /// The configuration of a project: one that was found and initialized, with its
    /// entries in its directory, or an empty one under the first name.
    pub fn load_project_config(found: Option<Config>, root_offset: &Option<String>, first_name: &str) -> (r:
        Config)
        ensures
            r@ == match found {
                Some(c) => config_below(c@, opt_text(*root_offset)),
                None => ConfigView { path: first_name@, ..blank_config() },
            },
    {
        match found {
            Some(c) => {
                let mut config = c;
                let offset: Option<&str> = match root_offset {
                    Some(o) => Some(o.as_str()),
                    None => None,
                };
                config.apply_implicit_root_dir(offset);
                config
            },
            None => {
                let mut config = Config::default();
                config.path = first_name.to_owned();
                config
            },
        }
    }
}

/// A configuration that a run works with has no faulty hook.
pub proof fn law_resolved_configs_are_valid(
    project: ConfigView,
    root_offset: Option<Seq<char>>,
    subs: Seq<LoadedSubprojectView>,
    user: Option<UserSettingsView>,
)
    ensures
        resolved(project, root_offset, subs, user) matches Ok(c) ==> hooks_error(c.hooks) is None,
{
}

/// A project without subprojects and without settings of a user works with its own
/// configuration.
pub proof fn law_plain_projects_keep_their_config(project: ConfigView, root_offset: Option<Seq<char>>)
    requires
        hooks_error(materialized(project).hooks) is None,
    ensures
        resolved(project, root_offset, seq![], None) == Ok::<ConfigView, Seq<char>>(
            materialized(project),
        ),
{
}

/// A variable that names the configuration leaves no other name to search for; without it
/// the names of old formats are searched for behind the others, unless only formats that
/// stay in use are asked for.
pub proof fn law_a_named_config_is_the_only_one(hk_file: Option<Seq<char>>, name: Seq<char>)
    ensures
        hk_file is Some ==> (search_names(hk_file).contains(name) <==> name == hk_file->0),
        hk_file is Some ==> (current_names(hk_file).contains(name) <==> name == hk_file->0),
        hk_file is None ==> (search_names(hk_file).contains(name) <==> name == "hk.local.pkl"@ || name
            == ".config/hk.local.pkl"@ || name == "hk.pkl"@ || name == ".config/hk.pkl"@ || name
            == "hk.toml"@ || name == "hk.yaml"@ || name == "hk.yml"@ || name == "hk.json"@),
        hk_file is None ==> search_names(hk_file).take(current_names(hk_file).len() as int)
            == current_names(hk_file),
        hk_file is None ==> current_names(hk_file)[0] == "hk.local.pkl"@ && current_names(hk_file)[2]
            == "hk.pkl"@ && current_names(hk_file).len() == 4,
{
    if hk_file is Some {
        let one = seq![hk_file->0];
        assert(one[0] == hk_file->0);
    } else {
        let all = search_names(hk_file);
        assert(all.take(4) =~= config_names());
        assert(all[0] == "hk.local.pkl"@ && all[1] == ".config/hk.local.pkl"@ && all[2] == "hk.pkl"@
            && all[3] == ".config/hk.pkl"@ && all[4] == "hk.toml"@ && all[5] == "hk.yaml"@ && all[6]
            == "hk.yml"@ && all[7] == "hk.json"@);
    }
}

/// The candidates are every name in every directory, and no other.
pub proof fn law_every_directory_is_searched(
    dirs: Seq<Seq<char>>,
    names: Seq<Seq<char>>,
    path: Seq<char>,
)
    ensures
        in_dirs(dirs, names).contains(path) <==> exists|d: int, n: int|
            0 <= d < dirs.len() && 0 <= n < names.len() && path == #[trigger] joined_path(
                dirs[d],
                names[n],
            ),
        in_dirs(dirs, names).len() == dirs.len() * names.len(),
    decreases dirs.len(),
{
    if dirs.len() > 0 {
        let init = dirs.drop_last();
        law_every_directory_is_searched(init, names, path);
        let last = in_dir(dirs.last(), names);
        crate::seqs::lemma_either(in_dirs(init, names), last, path);
        assert(init.len() * names.len() + names.len() == dirs.len() * names.len())
            by (nonlinear_arith)
            requires
                init.len() + 1 == dirs.len(),
        ;
        let m = dirs.len() - 1;
        if last.contains(path) {
            let n = choose|n: int| 0 <= n < last.len() && last[n] == path;
            assert(path == joined_path(dirs[m], names[n]));
        }
        if in_dirs(init, names).contains(path) {
            let (d, n) = choose|d: int, n: int|
                0 <= d < init.len() && 0 <= n < names.len() && path == #[trigger] joined_path(
                    init[d],
                    names[n],
                );
            assert(path == joined_path(dirs[d], names[n]));
        }
        if exists|d: int, n: int|
            0 <= d < dirs.len() && 0 <= n < names.len() && path == #[trigger] joined_path(
                dirs[d],
                names[n],
            ) {
            let (d, n) = choose|d: int, n: int|
                0 <= d < dirs.len() && 0 <= n < names.len() && path == #[trigger] joined_path(
                    dirs[d],
                    names[n],
                );
            if d < m {
                assert(path == joined_path(init[d], names[n]));
            } else {
                assert(last[n] == path);
            }
        }
    } else {
        assert(dirs.len() * names.len() == 0) by (nonlinear_arith)
            requires
                dirs.len() == 0,
        ;
    }
}

/// A project is the directory that its configuration lies in, or the one above where that
/// is `.config`.
pub proof fn law_projects_are_where_their_config_lies(config_path: Seq<char>)
    ensures
        parent_path(config_path) matches Some(dir) ==> {
            &&& dir.len() > 0 && last_name(dir) != Some(".config"@) ==> project_root(config_path)
                == dir
            &&& dir.len() > 0 && last_name(dir) == Some(".config"@) ==> project_root(config_path) == (
            match parent_path(dir) {
                Some(above) => if above.len() > 0 {
                    above
                } else {
                    "."@
                },
                None => "."@,
            })
            &&& dir.len() == 0 ==> project_root(config_path) == "."@
        },
{
}

/// Steps are run below the directory of a project where that lies below the root of the
/// work tree, and only there.
pub proof fn law_offsets_lead_to_the_project(config_path: Seq<char>, git_root: Option<Seq<char>>)
    ensures
        root_offset(config_path, git_root) matches Some(way) ==> way.len() > 0 && git_root is Some
            && path_below(project_root(config_path), git_root->0) == Some(way),
        git_root is None ==> root_offset(config_path, git_root) is None,
        git_root matches Some(root) ==> (path_below(project_root(config_path), root) matches Some(
            way,
        ) ==> (way.len() > 0 ==> root_offset(config_path, git_root) == Some(way))),
{
}

/// Patterns of subprojects are refused exactly where one begins at the root of the file
/// system or goes up.
pub proof fn law_patterns_stay_in_the_project(patterns: Seq<Seq<char>>)
    ensures
        patterns_error(patterns) is None <==> forall|i: int|
            0 <= i < patterns.len() ==> stays_inside(#[trigger] patterns[i]),
    decreases patterns.len(),
{
    if patterns.len() > 0 {
        let init = patterns.drop_last();
        law_patterns_stay_in_the_project(init);
        let n = patterns.len() - 1;
        lemma_stays_inside(patterns.last());
        if patterns_error(patterns) is None {
            assert forall|i: int| 0 <= i < patterns.len() implies stays_inside(
                #[trigger] patterns[i],
            ) by {
                if i < n {
                    assert(stays_inside(init[i]));
                }
            }
        }
        if forall|i: int| 0 <= i < patterns.len() ==> stays_inside(#[trigger] patterns[i]) {
            assert forall|i: int| 0 <= i < init.len() implies stays_inside(#[trigger] init[i]) by {
                assert(stays_inside(patterns[i]));
            }
            assert(stays_inside(patterns[n]));
        }
    }
}

/// A path neither begins at the root of the file system nor has a part that goes up.
pub open spec fn stays_inside(pattern: Seq<char>) -> bool {
    &&& !(pattern.len() > 0 && pattern[0] == '/')
    &&& !split_on(pattern, '/').contains(seq!['.', '.'])
}

proof fn lemma_stays_inside(pattern: Seq<char>)
    ensures
        leads_out(pattern) <==> !stays_inside(pattern),
{
    reveal_strlit("/");
    reveal_strlit("..");
    assert(".."@ =~= seq!['.', '.']);
    if pattern.len() > 0 {
        assert(pattern.subrange(0, 1) =~= seq![pattern[0]]);
        assert("/"@ =~= seq!['/']);
        if pattern.subrange(0, 1) == "/"@ {
            assert(pattern.subrange(0, 1)[0] == '/');
        }
    }
}

/// Directories are searched as deep as the deepest pattern leads, and only for patterns.
pub proof fn law_the_deepest_pattern_bounds_the_search(patterns: Seq<Seq<char>>, i: int)
    ensures
        search_depth(patterns) is None <==> forall|k: int|
            0 <= k < patterns.len() ==> !is_pattern(#[trigger] patterns[k]),
        0 <= i < patterns.len() && is_pattern(patterns[i]) ==> search_depth(patterns) is Some
            && pattern_depth(patterns[i]) <= search_depth(patterns)->0,
        search_depth(patterns) is Some ==> exists|k: int|
            0 <= k < patterns.len() && is_pattern(#[trigger] patterns[k]) && pattern_depth(patterns[k])
                == search_depth(patterns)->0,
    decreases patterns.len(),
{
    if patterns.len() > 0 {
        let init = patterns.drop_last();
        law_the_deepest_pattern_bounds_the_search(init, i);
        let n = patterns.len() - 1;
        assert(patterns[n] == patterns.last());
        if 0 <= i < n {
            assert(init[i] == patterns[i]);
        }
        if search_depth(init) is Some {
            let k = choose|k: int|
                0 <= k < init.len() && is_pattern(#[trigger] init[k]) && pattern_depth(init[k])
                    == search_depth(init)->0;
            assert(is_pattern(patterns[k]) && pattern_depth(patterns[k]) == search_depth(init)->0);
        }
        if search_depth(patterns) is None {
            assert forall|k: int| 0 <= k < patterns.len() implies !is_pattern(
                #[trigger] patterns[k],
            ) by {
                if k < n {
                    assert(!is_pattern(init[k]));
                }
            }
        }
        if forall|k: int| 0 <= k < patterns.len() ==> !is_pattern(#[trigger] patterns[k]) {
            assert forall|k: int| 0 <= k < init.len() implies !is_pattern(#[trigger] init[k]) by {
                assert(!is_pattern(patterns[k]));
            }
        }
    }
}

/// A search lists the directories that are not hidden, are no `node_modules` and lie deep
/// enough, and goes on into those that may hold more.
pub proof fn law_searches_pass_hidden_directories(
    name: Seq<char>,
    rel: Seq<char>,
    is_dir: bool,
    max_depth: nat,
)
    ensures
        ({
            let step = walk_step(name, rel, is_dir, max_depth);
            let hidden = name.len() > 0 && name[0] == '.';
            let seen = is_dir && !hidden && name != "node_modules"@;
            let depth = split_on(rel, '/').len();
            &&& step.list <==> seen && depth <= max_depth
            &&& step.descend <==> seen && depth < max_depth
        }),
{
    reveal_strlit(".");
    if name.len() > 0 {
        assert(name.subrange(0, 1) =~= seq![name[0]]);
        assert("."@ =~= seq!['.']);
        if name.subrange(0, 1) == "."@ {
            assert(name.subrange(0, 1)[0] == '.');
        }
    }
}

/// Nothing that was found is lost when more patterns are looked at.
proof fn lemma_hits_keep(
    found: Seq<(Seq<char>, Seq<char>)>,
    dirs: Seq<Seq<char>>,
    hits: Seq<bool>,
    facts: Seq<(Seq<char>, DirFactsView)>,
    dir: Seq<char>,
    k: int,
)
    ensures
        has_key(found, dir) ==> has_key(with_hits(found, dirs, hits, facts), dir),
        0 <= k < dirs.len() && dirs[k] == dir && hits[k] && config_in(facts, dir) is Some
            ==> has_key(with_hits(found, dirs, hits, facts), dir),
    decreases dirs.len(),
{
    if dirs.len() > 0 {
        let init = dirs.drop_last();
        lemma_hits_keep(found, init, hits, facts, dir, k);
        let before = with_hits(found, init, hits, facts);
        let config = config_in(facts, dirs.last())->0;
        crate::table::lemma_lookup_put(before, dirs.last(), config, dir);
        if k == dirs.len() - 1 {
            assert(dirs[k] == dirs.last());
        } else if 0 <= k < init.len() {
            assert(init[k] == dirs[k]);
        }
    }
}

/// Every directory that a pattern matches and that has a configuration is found, and so is
/// every directory that is named and has one.
pub proof fn law_every_subproject_is_found(
    patterns: Seq<Seq<char>>,
    dirs: Seq<Seq<char>>,
    hits: Seq<Seq<bool>>,
    facts: Seq<(Seq<char>, DirFactsView)>,
    i: int,
    k: int,
)
    requires
        0 <= i < patterns.len(),
    ensures
        is_pattern(patterns[i]) && 0 <= k < dirs.len() && hits[i][k] && config_in(facts, dirs[k])
            is Some ==> has_key(discovered(patterns, dirs, hits, facts).found, dirs[k]),
        !is_pattern(patterns[i]) && lookup(facts, stripped_end(patterns[i], '/')) is Some && lookup(
            facts,
            stripped_end(patterns[i], '/'),
        )->0.is_dir && config_in(facts, stripped_end(patterns[i], '/')) is Some ==> has_key(
            discovered(patterns, dirs, hits, facts).found,
            stripped_end(patterns[i], '/'),
        ),
    decreases patterns.len(),
{
    let init = patterns.drop_last();
    let before = discovered(init, dirs, hits, facts);
    let n = patterns.len() - 1;
    let named = stripped_end(patterns[i], '/');
    if i < n {
        assert(init[i] == patterns[i]);
        law_every_subproject_is_found(init, dirs, hits, facts, i, k);
    }
    if is_pattern(patterns.last()) {
        lemma_hits_keep(before.found, dirs, hits[n], facts, dirs[k], k);
        lemma_hits_keep(before.found, dirs, hits[n], facts, named, -1);
    } else {
        let dir = stripped_end(patterns.last(), '/');
        let config = config_in(facts, dir)->0;
        crate::table::lemma_lookup_put(before.found, dir, config, dirs[k]);
        crate::table::lemma_lookup_put(before.found, dir, config, named);
    }
}

/// What is found was matched by a pattern or named.
pub proof fn law_only_subprojects_are_found(
    patterns: Seq<Seq<char>>,
    dirs: Seq<Seq<char>>,
    hits: Seq<Seq<bool>>,
    facts: Seq<(Seq<char>, DirFactsView)>,
    dir: Seq<char>,
)
    requires
        has_key(discovered(patterns, dirs, hits, facts).found, dir),
    ensures
        exists|i: int|
            0 <= i < patterns.len() && selects(#[trigger] patterns[i], dirs, hits[i], dir),
    decreases patterns.len(),
{
    if patterns.len() > 0 {
        let init = patterns.drop_last();
        let before = discovered(init, dirs, hits, facts);
        let n = patterns.len() - 1;
        assert(patterns[n] == patterns.last());
        if has_key(before.found, dir) {
            law_only_subprojects_are_found(init, dirs, hits, facts, dir);
            let i = choose|i: int|
                0 <= i < init.len() && selects(#[trigger] init[i], dirs, hits[i], dir);
            assert(selects(patterns[i], dirs, hits[i], dir));
        } else if is_pattern(patterns.last()) {
            lemma_hits_select(before.found, dirs, hits[n], facts, dir);
            assert(selects(patterns[n], dirs, hits[n], dir));
        } else {
            let name = stripped_end(patterns.last(), '/');
            crate::table::lemma_lookup_put(before.found, name, config_in(facts, name)->0, dir);
            assert(selects(patterns[n], dirs, hits[n], dir));
        }
    }
}

/// A pattern matches a directory that was listed, or names it.
pub open spec fn selects(
    pattern: Seq<char>,
    dirs: Seq<Seq<char>>,
    hits: Seq<bool>,
    dir: Seq<char>,
) -> bool {
    if is_pattern(pattern) {
        exists|k: int| 0 <= k < dirs.len() && #[trigger] dirs[k] == dir && hits[k]
    } else {
        dir == stripped_end(pattern, '/')
    }
}

proof fn lemma_hits_select(
    found: Seq<(Seq<char>, Seq<char>)>,
    dirs: Seq<Seq<char>>,
    hits: Seq<bool>,
    facts: Seq<(Seq<char>, DirFactsView)>,
    dir: Seq<char>,
)
    requires
        !has_key(found, dir),
        has_key(with_hits(found, dirs, hits, facts), dir),
    ensures
        exists|k: int| 0 <= k < dirs.len() && #[trigger] dirs[k] == dir && hits[k],
    decreases dirs.len(),
{
    if dirs.len() > 0 {
        let init = dirs.drop_last();
        let before = with_hits(found, init, hits, facts);
        let n = dirs.len() - 1;
        assert(dirs[n] == dirs.last());
        if has_key(before, dir) {
            lemma_hits_select(found, init, hits, facts, dir);
            let k = choose|k: int| 0 <= k < init.len() && #[trigger] init[k] == dir && hits[k];
            assert(dirs[k] == dir);
        } else {
            crate::table::lemma_lookup_put(
                before,
                dirs.last(),
                config_in(facts, dirs.last())->0,
                dir,
            );
        }
    }
}

/// A directory that is named and is none, or has no configuration, is warned of.
pub proof fn law_missing_subprojects_are_warned_of(
    d: Discovery,
    name: Seq<char>,
    facts: Seq<(Seq<char>, DirFactsView)>,
)
    ensures
        ({
            let dir = stripped_end(name, '/');
            let known = lookup(facts, dir);
            let is_dir = known is Some && known->0.is_dir;
            let after = with_named(d, name, facts);
            &&& !is_dir ==> after.found == d.found && after.warnings == d.warnings.push(
                "subprojects: directory not found: "@ + dir,
            )
            &&& is_dir && !has_key(d.found, dir) && known->0.config is None ==> after.found
                == d.found && after.warnings == d.warnings.push(
                "subprojects: no hk config found in "@ + dir,
            )
            &&& is_dir && known->0.config is Some ==> after.warnings == d.warnings
        }),
{
}

/// A pattern of directories that could not be understood fails with its name, and those
/// before it are matched.
pub proof fn law_the_first_bad_pattern_is_told(patterns: Seq<Seq<char>>, dirs: Seq<Seq<char>>)
    ensures
        ({
            let (hits, fault) = all_hits(patterns, dirs);
            &&& hits.len() <= patterns.len()
            &&& fault is None ==> hits.len() == patterns.len()
            &&& fault is Some ==> hits.len() < patterns.len() && is_pattern(
                patterns[hits.len() as int],
            ) && glob_hits(patterns[hits.len() as int], dirs) is Err
        }),
    decreases patterns.len(),
{
    if patterns.len() > 0 {
        law_the_first_bad_pattern_is_told(patterns.drop_last(), dirs);
    }
}

/// A pattern is asked about each directory in turn, with wildcards that do not cross
/// directories.
pub proof fn law_patterns_match_directory_by_directory(
    pattern: Seq<char>,
    dirs: Seq<Seq<char>>,
    i: int,
)
    requires
        glob_hits(pattern, dirs) is Ok,
    ensures
        glob_hits(pattern, dirs)->Ok_0.len() == dirs.len(),
        0 <= i < dirs.len() ==> glob_match(pattern, dirs[i], true, true) == Ok::<bool, Seq<char>>(
            glob_hits(pattern, dirs)->Ok_0[i],
        ),
    decreases dirs.len(),
{
    if dirs.len() > 0 {
        law_patterns_match_directory_by_directory(pattern, dirs.drop_last(), i);
    }
}

/// A configuration is used unless it asks for a version that the program is not up to; what
/// is no version asks for nothing.
pub proof fn law_old_programs_refuse_new_configs(
    c: ConfigView,
    order: Result<crate::version::VersionOrder, Seq<char>>,
)
    ensures
        c.min_hk_version is None ==> config_refusal(c, order) is None,
        order is Err ==> config_refusal(c, order) is None,
        c.min_hk_version is Some && order == Ok::<crate::version::VersionOrder, Seq<char>>(
            crate::version::VersionOrder::Greater,
        ) ==> config_refusal(c, order) is Some,
        c.min_hk_version is Some && (order == Ok::<crate::version::VersionOrder, Seq<char>>(
            crate::version::VersionOrder::Equal,
        ) || order == Ok::<crate::version::VersionOrder, Seq<char>>(
            crate::version::VersionOrder::Less,
        )) ==> config_refusal(c, order) is None,
{
}

/// A configuration under its path keeps its hooks, each under its name.
pub proof fn law_configs_are_initialized(c: ConfigView, path: Seq<char>, i: int)
    requires
        0 <= i < c.hooks.len(),
    ensures
        initialized_config(c, path).path == path,
        initialized_config(c, path).hooks.len() == c.hooks.len(),
        initialized_config(c, path).hooks[i] == (
            c.hooks[i].0,
            initialized_hook(c.hooks[i].1, c.hooks[i].0),
        ),
        initialized_config(c, path).steps == c.steps,
        initialized_config(c, path).env == c.env,
{
}

/// Where one subproject cannot be merged, there is no configuration to work with, and the
/// error names its configuration.
pub proof fn law_faulty_subprojects_are_told(
    c: ConfigView,
    root_offset: Option<Seq<char>>,
    subs: Seq<LoadedSubprojectView>,
    sub: LoadedSubprojectView,
    user: Option<UserSettingsView>,
)
    requires
        with_subprojects(c, root_offset, subs).1 is None,
    ensures
        ({
            let before = with_subprojects(c, root_offset, subs).0;
            let (merged, e) = merged_subproject(before, sub.dir, root_offset, sub.config);
            let all = with_subprojects(c, root_offset, subs.push(sub));
            &&& e is None ==> all == (merged, None::<Seq<char>>)
            &&& e is Some ==> all.1 == Some(
                "failed to merge subproject config: "@ + sub.config_path + ": "@ + e->0,
            )
            &&& e is Some ==> resolved(c, root_offset, subs.push(sub), user) is Err
        }),
{
    assert(subs.push(sub).drop_last() =~= subs);
}

/// What a run works with is the project with its subprojects, its default hooks and the
/// settings of the user, where no step is faulty.
pub proof fn law_users_add_to_the_project(
    project: ConfigView,
    root_offset: Option<Seq<char>>,
    subs: Seq<LoadedSubprojectView>,
    user: ConfigView,
)
    requires
        with_subprojects(project, root_offset, subs).1 is None,
    ensures
        ({
            let full = materialized(with_subprojects(project, root_offset, subs).0);
            let c = crate::config::merged_hkrc(full, materialized(user));
            let r = resolved(project, root_offset, subs, Some(UserSettingsView::Config(user)));
            &&& hooks_error(c.hooks) is None ==> r == Ok::<ConfigView, Seq<char>>(c)
            &&& hooks_error(c.hooks) is Some ==> r == Err::<ConfigView, Seq<char>>(
                hooks_error(c.hooks)->0,
            )
            &&& user_exports(full, Some(UserSettingsView::Config(user)))
                == crate::config::new_pairs(full.env, user.env)
        }),
{
}

/// A text is a pattern exactly where it holds a character that stands for others.
pub proof fn law_patterns_hold_wildcards(a: Seq<char>, b: Seq<char>, c: char)
    ensures
        c == '*' || c == '?' || c == '[' || c == '{' ==> is_pattern(a + seq![c] + b),
        is_pattern(a) ==> a.contains('*') || a.contains('?') || a.contains('[') || a.contains('{'),
{
    let all = a + seq![c] + b;
    assert(all[a.len() as int] == c);
}

/// A pattern that reaches any depth is searched to the deepest that is allowed, any other as
/// deep as it has parts.
pub proof fn law_patterns_are_searched_to_their_depth(p: Seq<char>)
    ensures
        has_text(p, "**"@) ==> pattern_depth(p) == MAX_WALK_DEPTH,
        !has_text(p, "**"@) ==> pattern_depth(p) == split_on(p, '/').len(),
{
}

} // verus!
