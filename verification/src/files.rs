//! Which files a hook runs on.

use vstd::prelude::*;
use vstd::string::*;
use crate::hook::{Hook, HookView};
use crate::hook_options::{HookOptions, HookOptionsView};
use crate::paths::{sort_paths, sorted_paths};
use crate::seqs::{lemma_last_is_new, lemma_last_or_before, opt_text, texts};
use crate::settings::{Settings, SettingsView};
use crate::table::{lemma_push_all_new, push_all_new, Dup, NameSet};
use crate::text::{after, contains_char, has_char, starts, strip_prefix};

verus! {

broadcast use crate::seqs::group_text;

/// Where the files of a run come from.
pub enum FileSource {
    /// The files that the invocation names.
    Given,
    /// The files of the repository that match the globs.
    Glob,
    Unstaged,
    /// A branch was deleted: there is nothing to compare.
    Nothing,
    /// The files changed between two references, or since one.
    Between(String, Option<String>),
    All,
    Staged,
    /// Everything that differs from the last commit.
    Modified,
}

/// What [`FileSource`] stands for.
pub enum FileSourceView {
    Given,
    Glob,
    Unstaged,
    Nothing,
    Between(Seq<char>, Option<Seq<char>>),
    All,
    Staged,
    Modified,
}

impl View for FileSource {
    type V = FileSourceView;

    open spec fn view(&self) -> FileSourceView {
        match self {
            FileSource::Given => FileSourceView::Given,
            FileSource::Glob => FileSourceView::Glob,
            FileSource::Unstaged => FileSourceView::Unstaged,
            FileSource::Nothing => FileSourceView::Nothing,
            FileSource::Between(a, b) => FileSourceView::Between(a@, opt_text(*b)),
            FileSource::All => FileSourceView::All,
            FileSource::Staged => FileSourceView::Staged,
            FileSource::Modified => FileSourceView::Modified,
        }
    }
}

/// An object name of zeros only, by which git says that there is no object.
pub open spec fn is_zero_name(s: Seq<char>) -> bool {
    s.len() > 0 && forall|i: int| 0 <= i < s.len() ==> s[i] == '0'
}

/// Where the files of a run come from: the first of the options that is given
/// decides, in this order: files, globs, unstaged, a reference, all files. Else
/// a hook that puts work aside, runs on staged files or is `pre-commit` takes
/// the staged files, and any other the modified ones.
pub open spec fn source_of(
    hook: HookView,
    opts: HookOptionsView,
    stash: bool,
) -> FileSourceView {
    if opts.files is Some {
        FileSourceView::Given
    } else if opts.glob is Some {
        FileSourceView::Glob
    } else if opts.unstaged {
        FileSourceView::Unstaged
    } else if opts.from_ref is Some {
        if opts.to_ref is Some && is_zero_name(opts.to_ref->0) {
            FileSourceView::Nothing
        } else {
            FileSourceView::Between(opts.from_ref->0, opts.to_ref)
        }
    } else if opts.all {
        FileSourceView::All
    } else if opts.staged || stash || hook.name == "pre-commit"@ {
        FileSourceView::Staged
    } else {
        FileSourceView::Modified
    }
}

/// Whether an object name says that there is no object.
pub fn is_zero_sha(s: &str) -> (r: bool)
    ensures
        r == is_zero_name(s@),
{
    let chars = crate::text::to_chars(s);
    for i in 0..chars.len()
        invariant
            chars@ == s@,
            forall|k: int| 0 <= k < i ==> s@[k] == '0',
    {
        if chars[i] != '0' {
            return false;
        }
    }
    chars.len() > 0
}

/// The paths that the repository and the invocation hold: those named by the invocation with directories walked, indexed files, files changed between references, the parts of the status, and which of all these match the globs of the invocation.
pub struct RepoFiles {
    pub given: Vec<String>,
    pub indexed: Vec<String>,
    pub between: Vec<String>,
    pub staged: Vec<String>,
    pub unstaged: Vec<String>,
    pub untracked: Vec<String>,
    pub matched: Vec<String>,
}

/// What [`RepoFiles`] stands for.
pub struct RepoFilesView {
    pub given: Seq<Seq<char>>,
    pub indexed: Seq<Seq<char>>,
    pub between: Seq<Seq<char>>,
    pub staged: Seq<Seq<char>>,
    pub unstaged: Seq<Seq<char>>,
    pub untracked: Seq<Seq<char>>,
    pub matched: Seq<Seq<char>>,
}

impl View for RepoFiles {
    type V = RepoFilesView;

    open spec fn view(&self) -> RepoFilesView {
        RepoFilesView {
            given: texts(self.given@),
            indexed: texts(self.indexed@),
            between: texts(self.between@),
            staged: texts(self.staged@),
            unstaged: texts(self.unstaged@),
            untracked: texts(self.untracked@),
            matched: texts(self.matched@),
        }
    }
}

/// The paths of a source, before anything is left out.
pub open spec fn gathered(source: FileSourceView, f: RepoFilesView, stash: bool) -> Seq<Seq<char>> {
    match source {
        FileSourceView::Given => push_all_new(seq![], f.given),
        FileSourceView::Glob => only(
            if stash {
                push_all_new(seq![], f.indexed)
            } else {
                push_all_new(push_all_new(seq![], f.indexed), f.untracked)
            },
            f.matched,
        ),
        FileSourceView::Unstaged => push_all_new(push_all_new(seq![], f.unstaged), f.untracked),
        FileSourceView::Nothing => seq![],
        FileSourceView::Between(_, _) => push_all_new(seq![], f.between),
        FileSourceView::All => if stash {
            push_all_new(seq![], f.indexed)
        } else {
            push_all_new(push_all_new(seq![], f.indexed), f.untracked)
        },
        FileSourceView::Staged => push_all_new(seq![], f.staged),
        FileSourceView::Modified => push_all_new(
            push_all_new(push_all_new(seq![], f.staged), f.unstaged),
            f.untracked,
        ),
    }
}

/// The paths that are among `wanted`.
pub open spec fn only(paths: Seq<Seq<char>>, wanted: Seq<Seq<char>>) -> Seq<Seq<char>>
    decreases paths.len(),
{
    if paths.len() == 0 {
        seq![]
    } else {
        let before = only(paths.drop_last(), wanted);
        if wanted.contains(paths.last()) {
            before.push(paths.last())
        } else {
            before
        }
    }
}

fn keep_only(paths: &NameSet, wanted: &Vec<String>) -> (r: Vec<String>)
    ensures
        texts(r@) == only(paths@, texts(wanted@)),
{
    let set = NameSet::of(wanted);
    proof {
        lemma_push_all_new(seq![], texts(wanted@));
    }
    let mut out: Vec<String> = Vec::new();
    let n: usize = paths.len();
    assert(texts(out@) =~= only(paths@.take(0), texts(wanted@)));
    for i in 0..n
        invariant
            n == paths@.len(),
            forall|x: Seq<char>| set@.contains(x) <==> texts(wanted@).contains(x),
            texts(out@) == only(paths@.take(i as int), texts(wanted@)),
    {
        if set.contains(paths.at(i).as_str()) {
            out.push(paths.at(i).clone());
        }
    }
    assert(paths@.take(n as int) =~= paths@);
    out
}

impl Hook {
    /// Where the files of an invocation come from; `stash` says that it puts work aside.
    pub fn file_source(&self, opts: &HookOptions, stash: bool) -> (r: FileSource)
        ensures
            r@ == source_of(self@, opts@, stash),
    {
        if opts.files.is_some() {
            FileSource::Given
        } else if opts.glob.is_some() {
            FileSource::Glob
        } else if opts.unstaged {
            FileSource::Unstaged
        } else if let Some(from) = &opts.from_ref {
            let deleted = match &opts.to_ref {
                Some(to) => is_zero_sha(to.as_str()),
                None => false,
            };
            if deleted {
                FileSource::Nothing
            } else {
                FileSource::Between(from.clone(), crate::text::dup_opt(&opts.to_ref))
            }
        } else if opts.all {
            FileSource::All
        } else if opts.staged || stash || self.defaults_to_staged_files() {
            FileSource::Staged
        } else {
            FileSource::Modified
        }
    }
}

/// The paths of a source, before anything is left out.
pub fn gather(source: &FileSource, f: &RepoFiles, stash: bool) -> (r: Vec<String>)
    ensures
        texts(r@) == gathered(source@, f@, stash),
{
    let mut out = NameSet::new();
    match source {
        FileSource::Given => out.insert_all(&f.given),
        FileSource::Glob => {
            out.insert_all(&f.indexed);
            if !stash {
                out.insert_all(&f.untracked);
            }
            return keep_only(&out, &f.matched);
        },
        FileSource::All => {
            out.insert_all(&f.indexed);
            if !stash {
                out.insert_all(&f.untracked);
            }
        },
        FileSource::Unstaged => {
            out.insert_all(&f.unstaged);
            out.insert_all(&f.untracked);
        },
        FileSource::Nothing => {},
        FileSource::Between(_, _) => out.insert_all(&f.between),
        FileSource::Staged => out.insert_all(&f.staged),
        FileSource::Modified => {
            out.insert_all(&f.staged);
            out.insert_all(&f.unstaged);
            out.insert_all(&f.untracked);
        },
    }
    out.to_list()
}

/// A path without a leading `./`.
pub open spec fn undotted(path: Seq<char>) -> Seq<char> {
    if starts(path, "./"@) {
        after(path, 2)
    } else {
        path
    }
}

/// A path without a leading `./`.
pub fn strip_dot_slash(path: &str) -> (r: String)
    ensures
        r@ == undotted(path@),
{
    proof {
        reveal_strlit("./");
    }
    match strip_prefix(path, "./") {
        Some(rest) => rest,
        None => path.to_owned(),
    }
}

/// What a path is.
#[derive(Clone, Copy, Debug, PartialEq, Eq, Structural)]
pub enum PathKind {
    /// It cannot be looked at, because it was deleted or renamed.
    Unknown,
    File,
    Directory,
    LinkToFile,
    LinkToDirectory,
    BrokenLink,
}

/// A path that a run takes: everything but directories and links to them.
pub open spec fn is_kept(kind: PathKind) -> bool {
    kind != PathKind::Directory && kind != PathKind::LinkToDirectory
}

/// Whether a run takes a path.
pub fn keep_path(kind: PathKind) -> (r: bool)
    ensures
        r == is_kept(kind),
{
    match kind {
        PathKind::Directory => false,
        PathKind::LinkToDirectory => false,
        _ => true,
    }
}

/// The paths without a leading `./` that are not directories.
pub open spec fn kept_paths(paths: Seq<Seq<char>>, kinds: Seq<PathKind>) -> Seq<Seq<char>>
    decreases paths.len(),
{
    if paths.len() == 0 {
        seq![]
    } else {
        let before = kept_paths(paths.drop_last(), kinds);
        if is_kept(kinds[paths.len() - 1]) {
            before.push(paths.last())
        } else {
            before
        }
    }
}

/// The paths of a source without a leading `./`, in order and each once.
pub open spec fn normalized(paths: Seq<Seq<char>>) -> Seq<Seq<char>> {
    sorted_paths(paths.map_values(|p: Seq<char>| undotted(p)))
}

/// The paths of a source without a leading `./`, in order and each once.
pub fn normalize(paths: &Vec<String>) -> (r: Vec<String>)
    ensures
        texts(r@) == normalized(texts(paths@)),
{
    let ghost all = texts(paths@).map_values(|p: Seq<char>| undotted(p));
    let mut out: Vec<String> = Vec::new();
    for i in 0..paths.len()
        invariant
            all == texts(paths@).map_values(|p: Seq<char>| undotted(p)),
            texts(out@) =~= all.take(i as int),
    {
        let path = strip_dot_slash(paths[i].as_str());
        assert(path@ == all[i as int]);
        out.push(path);
    }
    assert(texts(out@) =~= all);
    sort_paths(&out)
}

/// The paths that are not directories, where `kinds[i]` says what that at position `i` is.
pub fn drop_directories(paths: &Vec<String>, kinds: &Vec<PathKind>) -> (r: Vec<String>)
    requires
        kinds@.len() == paths@.len(),
    ensures
        texts(r@) == kept_paths(texts(paths@), kinds@),
{
    let mut out: Vec<String> = Vec::new();
    assert(texts(out@) =~= kept_paths(texts(paths@).take(0), kinds@));
    for i in 0..paths.len()
        invariant
            kinds@.len() == paths@.len(),
            texts(out@) == kept_paths(texts(paths@).take(i as int), kinds@),
    {
        if keep_path(kinds[i]) {
            out.push(paths[i].clone());
        }
    }
    assert(texts(paths@).take(paths@.len() as int) =~= texts(paths@));
    out
}

/// The patterns that leave files out: those of the settings, then those of the invocation.
pub open spec fn exclude_patterns(settings: SettingsView, opts: HookOptionsView) -> Seq<Seq<char>> {
    match opts.exclude {
        Some(more) => push_all_new(settings.exclude, more),
        None => settings.exclude,
    }
}

/// A pattern that is a glob.
pub open spec fn is_globlike(s: Seq<char>) -> bool {
    has_char(s, '*') || has_char(s, '?') || has_char(s, '[')
}

/// Whether a pattern is a glob.
pub fn looks_like_glob(s: &str) -> (r: bool)
    ensures
        r == is_globlike(s@),
{
    contains_char(s, '*') || contains_char(s, '?') || contains_char(s, '[')
}

/// The patterns, where one that is no glob also stands for what is in the
/// directory of that name.
pub open spec fn expanded(patterns: Seq<Seq<char>>) -> Seq<Seq<char>>
    decreases patterns.len(),
{
    if patterns.len() == 0 {
        seq![]
    } else {
        let before = expanded(patterns.drop_last()).push(patterns.last());
        if is_globlike(patterns.last()) {
            before
        } else {
            before.push(patterns.last() + "/*"@).push(patterns.last() + "/**"@)
        }
    }
}

/// The patterns that leave files out, expanded.
pub fn expanded_excludes(settings: &Settings, opts: &HookOptions) -> (r: Vec<String>)
    ensures
        texts(r@) == expanded(exclude_patterns(settings@, opts@)),
{
    let mut all = settings.exclude.dup();
    if let Some(more) = &opts.exclude {
        all.insert_all(more);
    }
    let mut out: Vec<String> = Vec::new();
    let n: usize = all.len();
    assert(texts(out@) =~= expanded(all@.take(0)));
    for i in 0..n
        invariant
            n == all@.len(),
            texts(out@) == expanded(all@.take(i as int)),
    {
        let pattern = all.at(i);
        out.push(pattern.clone());
        if !looks_like_glob(pattern.as_str()) {
            let mut children = pattern.clone();
            children.append("/*");
            out.push(children);
            let mut below = pattern.clone();
            below.append("/**");
            out.push(below);
        }
    }
    assert(all@.take(n as int) =~= all@);
    out
}

/// The files that are not among `excluded`.
pub open spec fn without(files: Seq<Seq<char>>, excluded: Seq<Seq<char>>) -> Seq<Seq<char>>
    decreases files.len(),
{
    if files.len() == 0 {
        seq![]
    } else {
        let before = without(files.drop_last(), excluded);
        if excluded.contains(files.last()) {
            before
        } else {
            before.push(files.last())
        }
    }
}

/// The files that are not among those that the exclude patterns match.
pub fn leave_out(files: &Vec<String>, excluded: &Vec<String>) -> (r: Vec<String>)
    ensures
        texts(r@) == without(texts(files@), texts(excluded@)),
{
    let set = NameSet::of(excluded);
    proof {
        lemma_push_all_new(seq![], texts(excluded@));
    }
    let mut out: Vec<String> = Vec::new();
    assert(texts(out@) =~= without(texts(files@).take(0), texts(excluded@)));
    for i in 0..files.len()
        invariant
            forall|x: Seq<char>| set@.contains(x) <==> texts(excluded@).contains(x),
            texts(out@) == without(texts(files@).take(i as int), texts(excluded@)),
    {
        if !set.contains(files[i].as_str()) {
            out.push(files[i].clone());
        }
    }
    assert(texts(files@).take(files@.len() as int) =~= texts(files@));
    out
}

/// A run on unstaged files takes no file that is staged only, and a run that
/// puts work aside takes no untracked file of the repository.
pub proof fn law_selection_respects_the_index(
    hook: HookView,
    opts: HookOptionsView,
    f: RepoFilesView,
    path: Seq<char>,
)
    requires
        opts.files is None,
        opts.glob is None,
    ensures
        opts.unstaged && gathered(source_of(hook, opts, false), f, false).contains(path)
            ==> f.unstaged.contains(path) || f.untracked.contains(path),
        !opts.unstaged && opts.from_ref is None && gathered(
            source_of(hook, opts, true),
            f,
            true,
        ).contains(path) ==> f.indexed.contains(path) || f.staged.contains(path),
{
    let none = Seq::<Seq<char>>::empty();
    lemma_push_all_new(none, f.unstaged);
    lemma_push_all_new(push_all_new(none, f.unstaged), f.untracked);
    lemma_push_all_new(none, f.indexed);
    lemma_push_all_new(none, f.staged);
}

/// What an exclude pattern matches is left out, and nothing else.
pub proof fn law_excluded_files_are_left_out(
    files: Seq<Seq<char>>,
    excluded: Seq<Seq<char>>,
    path: Seq<char>,
)
    ensures
        without(files, excluded).contains(path) <==> (files.contains(path) && !excluded.contains(
            path,
        )),
    decreases files.len(),
{
    if files.len() > 0 {
        let init = files.drop_last();
        law_excluded_files_are_left_out(init, excluded, path);
        let before = without(init, excluded);
        if before.contains(path) {
            let i = choose|i: int| 0 <= i < before.len() && before[i] == path;
            assert(before.push(files.last())[i] == path);
        }
        assert(before.push(files.last())[before.len() as int] == files.last());
        if init.contains(path) {
            let i = choose|i: int| 0 <= i < init.len() && init[i] == path;
            assert(files[i] == path);
        }
        if files.contains(path) && path != files.last() {
            let i = choose|i: int| 0 <= i < files.len() && files[i] == path;
            assert(init[i] == path);
        }
        assert(files[files.len() - 1] == files.last());
        if without(files, excluded).contains(path) && path != files.last() {
            let w = without(files, excluded);
            let i = choose|i: int| 0 <= i < w.len() && w[i] == path;
            assert(before[i] == path);
        }
    }
}

proof fn lemma_only(paths: Seq<Seq<char>>, wanted: Seq<Seq<char>>)
    ensures
        forall|x: Seq<char>|
            #[trigger] only(paths, wanted).contains(x) <==> (paths.contains(x) && wanted.contains(x)),
        paths.no_duplicates() ==> only(paths, wanted).no_duplicates(),
    decreases paths.len(),
{
    if paths.len() > 0 {
        let init = paths.drop_last();
        lemma_only(init, wanted);
        let before = only(init, wanted);
        let now = only(paths, wanted);
        assert forall|x: Seq<char>| #[trigger] now.contains(x) <==> (paths.contains(x)
            && wanted.contains(x)) by {
            lemma_last_or_before(paths, x);
            if now.len() > before.len() {
                lemma_last_or_before(now, x);
                assert(now.drop_last() =~= before);
            }
        }
        if paths.no_duplicates() {
            lemma_last_is_new(paths);
            assert(!before.contains(paths.last()));
        }
    }
}

/// Each source holds the files of the repository that it is named after, all of them and
/// no other: all files are those that are indexed, and the untracked ones where no work is
/// put aside.
pub proof fn law_sources_hold_their_files(
    f: RepoFilesView,
    from: Seq<char>,
    to: Option<Seq<char>>,
    stash: bool,
    path: Seq<char>,
)
    ensures
        gathered(FileSourceView::All, f, stash).contains(path) <==> (f.indexed.contains(path) || (
        !stash && f.untracked.contains(path))),
        gathered(FileSourceView::Glob, f, stash).contains(path) <==> f.matched.contains(path) && (
        f.indexed.contains(path) || (!stash && f.untracked.contains(path))),
        gathered(FileSourceView::Given, f, stash).contains(path) <==> f.given.contains(path),
        gathered(FileSourceView::Between(from, to), f, stash).contains(path)
            <==> f.between.contains(path),
        gathered(FileSourceView::Staged, f, stash).contains(path) <==> f.staged.contains(path),
        gathered(FileSourceView::Unstaged, f, stash).contains(path) <==> (f.unstaged.contains(path)
            || f.untracked.contains(path)),
        gathered(FileSourceView::Modified, f, stash).contains(path) <==> (f.staged.contains(path)
            || f.unstaged.contains(path) || f.untracked.contains(path)),
        !gathered(FileSourceView::Nothing, f, stash).contains(path),
{
    let none = Seq::<Seq<char>>::empty();
    lemma_push_all_new(none, f.given);
    lemma_push_all_new(none, f.between);
    lemma_push_all_new(none, f.indexed);
    lemma_push_all_new(push_all_new(none, f.indexed), f.untracked);
    lemma_push_all_new(none, f.unstaged);
    lemma_push_all_new(push_all_new(none, f.unstaged), f.untracked);
    lemma_push_all_new(none, f.staged);
    lemma_push_all_new(push_all_new(none, f.staged), f.unstaged);
    lemma_push_all_new(push_all_new(push_all_new(none, f.staged), f.unstaged), f.untracked);
    lemma_only(push_all_new(none, f.indexed), f.matched);
    lemma_only(push_all_new(push_all_new(none, f.indexed), f.untracked), f.matched);
}

/// No source holds a file twice.
pub proof fn law_sources_repeat_nothing(source: FileSourceView, f: RepoFilesView, stash: bool)
    ensures
        gathered(source, f, stash).no_duplicates(),
{
    let none = Seq::<Seq<char>>::empty();
    lemma_push_all_new(none, f.given);
    lemma_push_all_new(none, f.between);
    lemma_push_all_new(none, f.indexed);
    lemma_push_all_new(push_all_new(none, f.indexed), f.untracked);
    lemma_push_all_new(none, f.unstaged);
    lemma_push_all_new(push_all_new(none, f.unstaged), f.untracked);
    lemma_push_all_new(none, f.staged);
    lemma_push_all_new(push_all_new(none, f.staged), f.unstaged);
    lemma_push_all_new(push_all_new(push_all_new(none, f.staged), f.unstaged), f.untracked);
    lemma_only(push_all_new(none, f.indexed), f.matched);
    lemma_only(push_all_new(push_all_new(none, f.indexed), f.untracked), f.matched);
}

/// What an invocation asks for decides which files it runs on: files that it names win
/// over all else, then its globs, unstaged work, references and all files. A branch that
/// is deleted leaves nothing.
pub proof fn law_options_select_the_files(
    hook: HookView,
    opts: HookOptionsView,
    f: RepoFilesView,
    stash: bool,
    path: Seq<char>,
)
    ensures
        ({
            let selected = gathered(source_of(hook, opts, stash), f, stash).contains(path);
            let in_repo = f.indexed.contains(path) || (!stash && f.untracked.contains(path));
            let deleted = opts.to_ref is Some && opts.to_ref->0.len() > 0 && forall|i: int|
                0 <= i < opts.to_ref->0.len() ==> opts.to_ref->0[i] == '0';
            &&& opts.files is Some ==> (selected <==> f.given.contains(path))
            &&& opts.files is None && opts.glob is Some ==> (selected <==> in_repo
                && f.matched.contains(path))
            &&& opts.files is None && opts.glob is None ==> {
                &&& opts.unstaged ==> (selected <==> f.unstaged.contains(path)
                    || f.untracked.contains(path))
                &&& !opts.unstaged && opts.from_ref is Some ==> (selected <==> !deleted
                    && f.between.contains(path))
                &&& !opts.unstaged && opts.from_ref is None && opts.all ==> (selected <==> in_repo)
            }
        }),
{
    let from = if opts.from_ref is Some {
        opts.from_ref->0
    } else {
        seq![]
    };
    law_sources_hold_their_files(f, from, opts.to_ref, stash, path);
    if opts.to_ref is Some {
        assert(is_zero_name(opts.to_ref->0) <==> (opts.to_ref->0.len() > 0 && forall|i: int|
            0 <= i < opts.to_ref->0.len() ==> opts.to_ref->0[i] == '0'));
    }
}

/// An invocation that asks for no files in particular runs on the staged files where it
/// says so, where work is put aside and in `pre-commit`; else on all that differs from the
/// last commit.
pub proof fn law_commits_run_on_staged_files(
    hook: HookView,
    opts: HookOptionsView,
    f: RepoFilesView,
    stash: bool,
    path: Seq<char>,
)
    requires
        opts.files is None,
        opts.glob is None,
        !opts.unstaged,
        opts.from_ref is None,
        !opts.all,
    ensures
        opts.staged || stash || hook.name == "pre-commit"@ ==> (gathered(
            source_of(hook, opts, stash),
            f,
            stash,
        ).contains(path) <==> f.staged.contains(path)),
        !opts.staged && !stash && hook.name != "pre-commit"@ ==> (gathered(
            source_of(hook, opts, stash),
            f,
            stash,
        ).contains(path) <==> f.staged.contains(path) || f.unstaged.contains(path)
            || f.untracked.contains(path)),
{
    law_sources_hold_their_files(f, seq![], None, stash, path);
}

/// A run on changes between references compares exactly those that it was given.
pub proof fn law_references_are_compared(hook: HookView, opts: HookOptionsView, stash: bool)
    requires
        opts.files is None,
        opts.glob is None,
        !opts.unstaged,
        opts.from_ref is Some,
        opts.to_ref is Some ==> exists|i: int|
            0 <= i < opts.to_ref->0.len() && opts.to_ref->0[i] != '0',
    ensures
        source_of(hook, opts, stash) == FileSourceView::Between(opts.from_ref->0, opts.to_ref),
{
}

proof fn lemma_undotted(path: Seq<char>)
    ensures
        path.len() >= 2 && path[0] == '.' && path[1] == '/' ==> path == seq!['.', '/'] + undotted(path),
        !(path.len() >= 2 && path[0] == '.' && path[1] == '/') ==> undotted(path) == path,
{
    reveal_strlit("./");
    if path.len() >= 2 && path[0] == '.' && path[1] == '/' {
        assert(path.subrange(0, 2) =~= "./"@);
        assert(path =~= seq!['.', '/'] + path.subrange(2, path.len() as int));
    } else if starts(path, "./"@) {
        assert(path[0] == "./"@[0]);
        assert(path[1] == "./"@[1]);
    }
}

/// The path that `path` is without a `./` in front of it, where it has one.
pub open spec fn is_undotted(path: Seq<char>, plain: Seq<char>) -> bool {
    if path.len() >= 2 && path[0] == '.' && path[1] == '/' {
        path == seq!['.', '/'] + plain
    } else {
        path == plain
    }
}

/// Every path of a source stays, without a `./` in front of it, and none is added.
pub proof fn law_normalizing_keeps_paths(paths: Seq<Seq<char>>, i: int, path: Seq<char>)
    requires
        0 <= i < paths.len(),
    ensures
        exists|plain: Seq<char>, k: int|
            0 <= k < normalized(paths).len() && crate::paths::same_path(
                #[trigger] normalized(paths)[k],
                plain,
            ) && #[trigger] is_undotted(paths[i], plain),
        normalized(paths).contains(path) ==> exists|j: int|
            0 <= j < paths.len() && is_undotted(#[trigger] paths[j], path),
{
    let plain = paths.map_values(|p: Seq<char>| undotted(p));
    lemma_undotted(paths[i]);
    assert(plain[i] == undotted(paths[i]));
    crate::paths::law_sorted_paths_keep_paths(plain, plain[i]);
    let k = choose|k: int|
        0 <= k < sorted_paths(plain).len() && crate::paths::same_path(
            #[trigger] sorted_paths(plain)[k],
            plain[i],
        );
    assert(is_undotted(paths[i], plain[i]));
    assert(crate::paths::same_path(normalized(paths)[k], plain[i]));
    crate::paths::law_sorted_paths_keep_paths(plain, path);
    if normalized(paths).contains(path) {
        let j = choose|j: int| 0 <= j < plain.len() && plain[j] == path;
        lemma_undotted(paths[j]);
        assert(is_undotted(paths[j], path));
    }
}

/// Directories and links to them are dropped, and nothing else.
pub proof fn law_only_directories_are_dropped(
    paths: Seq<Seq<char>>,
    kinds: Seq<PathKind>,
    path: Seq<char>,
)
    requires
        kinds.len() == paths.len(),
    ensures
        kept_paths(paths, kinds).contains(path) <==> exists|i: int|
            0 <= i < paths.len() && #[trigger] paths[i] == path && kinds[i] != PathKind::Directory
                && kinds[i] != PathKind::LinkToDirectory,
{
    lemma_kept_paths(paths, kinds, path);
}

proof fn lemma_kept_paths(paths: Seq<Seq<char>>, kinds: Seq<PathKind>, path: Seq<char>)
    requires
        kinds.len() >= paths.len(),
    ensures
        kept_paths(paths, kinds).contains(path) <==> exists|i: int|
            0 <= i < paths.len() && #[trigger] paths[i] == path && kinds[i] != PathKind::Directory
                && kinds[i] != PathKind::LinkToDirectory,
    decreases paths.len(),
{
    if paths.len() > 0 {
        let init = paths.drop_last();
        lemma_kept_paths(init, kinds, path);
        let before = kept_paths(init, kinds);
        let now = kept_paths(paths, kinds);
        let n = paths.len() - 1;
        if now.len() > before.len() {
            lemma_last_or_before(now, path);
            assert(now.drop_last() =~= before);
        }
        if before.contains(path) {
            let i = choose|i: int|
                0 <= i < init.len() && #[trigger] init[i] == path && kinds[i] != PathKind::Directory
                    && kinds[i] != PathKind::LinkToDirectory;
            assert(paths[i] == path);
        }
        if exists|i: int|
            0 <= i < paths.len() && #[trigger] paths[i] == path && kinds[i] != PathKind::Directory
                && kinds[i] != PathKind::LinkToDirectory {
            let i = choose|i: int|
                0 <= i < paths.len() && #[trigger] paths[i] == path && kinds[i]
                    != PathKind::Directory && kinds[i] != PathKind::LinkToDirectory;
            if i < n {
                assert(init[i] == path);
            }
        }
        assert(paths[n] == paths.last());
    }
}

/// A run leaves out by the patterns of the settings and by those of the invocation.
pub proof fn law_excludes_add_up(
    settings: SettingsView,
    opts: HookOptionsView,
    pattern: Seq<char>,
)
    ensures
        exclude_patterns(settings, opts).contains(pattern) <==> (settings.exclude.contains(pattern)
            || (opts.exclude is Some && opts.exclude->0.contains(pattern))),
{
    if opts.exclude is Some {
        lemma_push_all_new(settings.exclude, opts.exclude->0);
    }
}

/// The pattern is, or stands below, the directory that `name` is taken for, which it is
/// where it holds no wildcard.
pub open spec fn covers(name: Seq<char>, pattern: Seq<char>) -> bool {
    let plain = !name.contains('*') && !name.contains('?') && !name.contains('[');
    pattern == name || (plain && (pattern == name + seq!['/', '*'] || pattern == name + seq![
        '/',
        '*',
        '*',
    ]))
}

/// A pattern that leaves out a name leaves out what lies below it too, and expanding
/// adds nothing else.
pub proof fn law_excluded_directories_are_left_out(patterns: Seq<Seq<char>>, x: Seq<char>)
    ensures
        expanded(patterns).contains(x) <==> exists|i: int|
            0 <= i < patterns.len() && covers(#[trigger] patterns[i], x),
    decreases patterns.len(),
{
    reveal_strlit("/*");
    reveal_strlit("/**");
    assert("/*"@ =~= seq!['/', '*']);
    assert("/**"@ =~= seq!['/', '*', '*']);
    if patterns.len() > 0 {
        let init = patterns.drop_last();
        let p = patterns.last();
        law_excluded_directories_are_left_out(init, x);
        let e0 = expanded(init);
        let e1 = e0.push(p);
        let e2 = e1.push(p + "/*"@);
        let e3 = e2.push(p + "/**"@);
        lemma_last_or_before(e1, x);
        lemma_last_or_before(e2, x);
        lemma_last_or_before(e3, x);
        assert(e1.drop_last() =~= e0);
        assert(e2.drop_last() =~= e1);
        assert(e3.drop_last() =~= e2);
        assert(is_globlike(p) <==> (p.contains('*') || p.contains('?') || p.contains('[')));
        assert(patterns[patterns.len() - 1] == p);
        if e0.contains(x) {
            let i = choose|i: int| 0 <= i < init.len() && covers(#[trigger] init[i], x);
            assert(covers(patterns[i], x));
        }
        if exists|i: int| 0 <= i < patterns.len() && covers(#[trigger] patterns[i], x) {
            let i = choose|i: int| 0 <= i < patterns.len() && covers(#[trigger] patterns[i], x);
            if i < init.len() {
                assert(covers(init[i], x));
            }
        }
    }
}

} // verus!
