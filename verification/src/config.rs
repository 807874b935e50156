//! Project configuration: reading order, default hooks, subprojects, user
//! settings and validation.

use vstd::prelude::*;
use vstd::string::*;
use crate::hook::{
    blank_hook, initialized_hook, Hook, HookView, StashMethod, StashSetting, StepOrGroup,
    StepOrGroupView,
};
use crate::seqs::{opt_text, opt_texts, opt_view, texts, views};
use crate::step::{Pattern, PatternView, Selector, SelectorView, Step, StepView};
use crate::step_group::{first_of, StepGroup, StepGroupView};
use crate::table::{
    distinct, dup_option, has_key, keys_of, lemma_lookup_push, lemma_lookup_put,
    lemma_lookup_put_all, lemma_lookup_put_all_new, lemma_position, lemma_position_keys,
    lemma_put_over, lookup, position, push_new, put, put_all, put_all_new, Dup, NameSet, Table,
};
use crate::text::{decimal, dup_list, dup_opt, dup_opt_list, list_has, same, show_usize};

verus! {

broadcast use crate::seqs::group_text;

/// One text, or several.
pub enum StringOrList {
    String(String),
    List(Vec<String>),
}

/// What [`StringOrList`] stands for.
pub enum StringOrListView {
    String(Seq<char>),
    List(Seq<Seq<char>>),
}

impl View for StringOrList {
    type V = StringOrListView;

    open spec fn view(&self) -> StringOrListView {
        match self {
            StringOrList::String(x) => StringOrListView::String(x@),
            StringOrList::List(x) => StringOrListView::List(texts(x@)),
        }
    }
}

impl Dup for StringOrList {
    fn dup(&self) -> (r: Self) {
        match self {
            StringOrList::String(x) => StringOrList::String(x.clone()),
            StringOrList::List(x) => StringOrList::List(dup_list(x)),
        }
    }
}

impl StringOrListView {
    pub open spec fn items(self) -> Seq<Seq<char>> {
        match self {
            StringOrListView::String(s) => seq![s],
            StringOrListView::List(l) => l,
        }
    }
}

impl StringOrList {
    /// The texts, as a list.
    pub fn into_list(self) -> (r: Vec<String>)
        ensures
            texts(r@) == self@.items(),
    {
        match self {
            StringOrList::String(s) => {
                let mut out: Vec<String> = Vec::new();
                out.push(s);
                assert(texts(out@) =~= seq![s@]);
                out
            },
            StringOrList::List(list) => list,
        }
    }
}

/// The configuration of a project.
pub struct Config {
    pub min_hk_version: Option<String>,
    /// Entries that every default hook runs.
    pub steps: Table<StepOrGroup>,
    pub default_hooks_materialized: bool,
    /// Hooks that exist only because there are top-level entries.
    pub implicit_default_hooks: NameSet,
    pub hooks: Table<Hook>,
    pub default_branch: Option<String>,
    pub path: String,
    pub env: Table<String>,
    pub fail_fast: Option<bool>,
    pub display_skip_reasons: Option<Vec<String>>,
    pub hide_warnings: Option<Vec<String>>,
    pub warnings: Option<Vec<String>>,
    pub exclude: Option<StringOrList>,
    pub stage: Option<bool>,
    pub profiles: Option<Vec<String>>,
    pub skip_hooks: Option<Vec<String>>,
    pub skip_steps: Option<Vec<String>>,
    pub stash_backup_count: Option<usize>,
    pub subprojects: Option<Vec<String>>,
    pub terminal_progress: Option<bool>,
    pub walk_ignore: Option<bool>,
}

/// What [`Config`] stands for.
pub struct ConfigView {
    pub min_hk_version: Option<Seq<char>>,
    pub steps: Seq<(Seq<char>, StepOrGroupView)>,
    pub default_hooks_materialized: bool,
    pub implicit_default_hooks: Seq<Seq<char>>,
    pub hooks: Seq<(Seq<char>, HookView)>,
    pub default_branch: Option<Seq<char>>,
    pub path: Seq<char>,
    pub env: Seq<(Seq<char>, Seq<char>)>,
    pub fail_fast: Option<bool>,
    pub display_skip_reasons: Option<Seq<Seq<char>>>,
    pub hide_warnings: Option<Seq<Seq<char>>>,
    pub warnings: Option<Seq<Seq<char>>>,
    pub exclude: Option<StringOrListView>,
    pub stage: Option<bool>,
    pub profiles: Option<Seq<Seq<char>>>,
    pub skip_hooks: Option<Seq<Seq<char>>>,
    pub skip_steps: Option<Seq<Seq<char>>>,
    pub stash_backup_count: Option<usize>,
    pub subprojects: Option<Seq<Seq<char>>>,
    pub terminal_progress: Option<bool>,
    pub walk_ignore: Option<bool>,
}

impl View for Config {
    type V = ConfigView;

    open spec fn view(&self) -> ConfigView {
        ConfigView {
            min_hk_version: opt_text(self.min_hk_version),
            steps: self.steps@,
            default_hooks_materialized: self.default_hooks_materialized,
            implicit_default_hooks: self.implicit_default_hooks@,
            hooks: self.hooks@,
            default_branch: opt_text(self.default_branch),
            path: self.path@,
            env: self.env@,
            fail_fast: self.fail_fast,
            display_skip_reasons: opt_texts(self.display_skip_reasons),
            hide_warnings: opt_texts(self.hide_warnings),
            warnings: opt_texts(self.warnings),
            exclude: opt_view(self.exclude),
            stage: self.stage,
            profiles: opt_texts(self.profiles),
            skip_hooks: opt_texts(self.skip_hooks),
            skip_steps: opt_texts(self.skip_steps),
            stash_backup_count: self.stash_backup_count,
            subprojects: opt_texts(self.subprojects),
            terminal_progress: self.terminal_progress,
            walk_ignore: self.walk_ignore,
        }
    }
}

impl Dup for Config {
    fn dup(&self) -> (r: Self) {
        Config {
            min_hk_version: dup_opt(&self.min_hk_version),
            steps: self.steps.dup(),
            default_hooks_materialized: self.default_hooks_materialized,
            implicit_default_hooks: self.implicit_default_hooks.dup(),
            hooks: self.hooks.dup(),
            default_branch: dup_opt(&self.default_branch),
            path: self.path.clone(),
            env: self.env.dup(),
            fail_fast: self.fail_fast,
            display_skip_reasons: dup_opt_list(&self.display_skip_reasons),
            hide_warnings: dup_opt_list(&self.hide_warnings),
            warnings: dup_opt_list(&self.warnings),
            exclude: dup_option(&self.exclude),
            stage: self.stage,
            profiles: dup_opt_list(&self.profiles),
            skip_hooks: dup_opt_list(&self.skip_hooks),
            skip_steps: dup_opt_list(&self.skip_steps),
            stash_backup_count: self.stash_backup_count,
            subprojects: dup_opt_list(&self.subprojects),
            terminal_progress: self.terminal_progress,
            walk_ignore: self.walk_ignore,
        }
    }
}

/// Defaults of a user.
pub struct UserDefaults {
    pub jobs: Option<u16>,
    pub fail_fast: Option<bool>,
    pub profiles: Option<Vec<String>>,
    pub all: Option<bool>,
    pub fix: Option<bool>,
    pub check: Option<bool>,
    pub exclude: Option<StringOrList>,
    pub skip_steps: Option<StringOrList>,
    pub skip_hooks: Option<StringOrList>,
}

/// What [`UserDefaults`] stands for.
pub struct UserDefaultsView {
    pub jobs: Option<u16>,
    pub fail_fast: Option<bool>,
    pub profiles: Option<Seq<Seq<char>>>,
    pub all: Option<bool>,
    pub fix: Option<bool>,
    pub check: Option<bool>,
    pub exclude: Option<StringOrListView>,
    pub skip_steps: Option<StringOrListView>,
    pub skip_hooks: Option<StringOrListView>,
}

impl View for UserDefaults {
    type V = UserDefaultsView;

    open spec fn view(&self) -> UserDefaultsView {
        UserDefaultsView {
            jobs: self.jobs,
            fail_fast: self.fail_fast,
            profiles: opt_texts(self.profiles),
            all: self.all,
            fix: self.fix,
            check: self.check,
            exclude: opt_view(self.exclude),
            skip_steps: opt_view(self.skip_steps),
            skip_hooks: opt_view(self.skip_hooks),
        }
    }
}

impl Dup for UserDefaults {
    fn dup(&self) -> (r: Self) {
        UserDefaults {
            jobs: self.jobs,
            fail_fast: self.fail_fast,
            profiles: dup_opt_list(&self.profiles),
            all: self.all,
            fix: self.fix,
            check: self.check,
            exclude: dup_option(&self.exclude),
            skip_steps: dup_option(&self.skip_steps),
            skip_hooks: dup_option(&self.skip_hooks),
        }
    }
}

/// What a user sets for one step.
pub struct UserStepConfig {
    pub environment: Table<String>,
    pub fail_fast: Option<bool>,
    pub profiles: Option<Vec<String>>,
    pub all: Option<bool>,
    pub fix: Option<bool>,
    pub check: Option<bool>,
    pub glob: Option<Pattern>,
    pub exclude: Option<Pattern>,
}

/// What [`UserStepConfig`] stands for.
pub struct UserStepConfigView {
    pub environment: Seq<(Seq<char>, Seq<char>)>,
    pub fail_fast: Option<bool>,
    pub profiles: Option<Seq<Seq<char>>>,
    pub all: Option<bool>,
    pub fix: Option<bool>,
    pub check: Option<bool>,
    pub glob: Option<PatternView>,
    pub exclude: Option<PatternView>,
}

impl View for UserStepConfig {
    type V = UserStepConfigView;

    open spec fn view(&self) -> UserStepConfigView {
        UserStepConfigView {
            environment: self.environment@,
            fail_fast: self.fail_fast,
            profiles: opt_texts(self.profiles),
            all: self.all,
            fix: self.fix,
            check: self.check,
            glob: opt_view(self.glob),
            exclude: opt_view(self.exclude),
        }
    }
}

impl Dup for UserStepConfig {
    fn dup(&self) -> (r: Self) {
        UserStepConfig {
            environment: self.environment.dup(),
            fail_fast: self.fail_fast,
            profiles: dup_opt_list(&self.profiles),
            all: self.all,
            fix: self.fix,
            check: self.check,
            glob: dup_option(&self.glob),
            exclude: dup_option(&self.exclude),
        }
    }
}

/// What a user sets for one hook.
pub struct UserHookConfig {
    pub environment: Table<String>,
    pub jobs: Option<u16>,
    pub fail_fast: Option<bool>,
    pub profiles: Option<Vec<String>>,
    pub all: Option<bool>,
    pub fix: Option<bool>,
    pub check: Option<bool>,
    pub steps: Table<UserStepConfig>,
}

/// What [`UserHookConfig`] stands for.
pub struct UserHookConfigView {
    pub environment: Seq<(Seq<char>, Seq<char>)>,
    pub jobs: Option<u16>,
    pub fail_fast: Option<bool>,
    pub profiles: Option<Seq<Seq<char>>>,
    pub all: Option<bool>,
    pub fix: Option<bool>,
    pub check: Option<bool>,
    pub steps: Seq<(Seq<char>, UserStepConfigView)>,
}

impl View for UserHookConfig {
    type V = UserHookConfigView;

    open spec fn view(&self) -> UserHookConfigView {
        UserHookConfigView {
            environment: self.environment@,
            jobs: self.jobs,
            fail_fast: self.fail_fast,
            profiles: opt_texts(self.profiles),
            all: self.all,
            fix: self.fix,
            check: self.check,
            steps: self.steps@,
        }
    }
}

impl Dup for UserHookConfig {
    fn dup(&self) -> (r: Self) {
        UserHookConfig {
            environment: self.environment.dup(),
            jobs: self.jobs,
            fail_fast: self.fail_fast,
            profiles: dup_opt_list(&self.profiles),
            all: self.all,
            fix: self.fix,
            check: self.check,
            steps: self.steps.dup(),
        }
    }
}

/// The settings of a user.
pub struct UserConfig {
    pub environment: Table<String>,
    pub defaults: UserDefaults,
    pub hooks: Table<UserHookConfig>,
    pub display_skip_reasons: Option<Vec<String>>,
    pub hide_warnings: Option<Vec<String>>,
    pub warnings: Option<Vec<String>>,
    pub stage: Option<bool>,
}

/// What [`UserConfig`] stands for.
pub struct UserConfigView {
    pub environment: Seq<(Seq<char>, Seq<char>)>,
    pub defaults: UserDefaultsView,
    pub hooks: Seq<(Seq<char>, UserHookConfigView)>,
    pub display_skip_reasons: Option<Seq<Seq<char>>>,
    pub hide_warnings: Option<Seq<Seq<char>>>,
    pub warnings: Option<Seq<Seq<char>>>,
    pub stage: Option<bool>,
}

impl View for UserConfig {
    type V = UserConfigView;

    open spec fn view(&self) -> UserConfigView {
        UserConfigView {
            environment: self.environment@,
            defaults: self.defaults@,
            hooks: self.hooks@,
            display_skip_reasons: opt_texts(self.display_skip_reasons),
            hide_warnings: opt_texts(self.hide_warnings),
            warnings: opt_texts(self.warnings),
            stage: self.stage,
        }
    }
}

impl Dup for UserConfig {
    fn dup(&self) -> (r: Self) {
        UserConfig {
            environment: self.environment.dup(),
            defaults: self.defaults.dup(),
            hooks: self.hooks.dup(),
            display_skip_reasons: dup_opt_list(&self.display_skip_reasons),
            hide_warnings: dup_opt_list(&self.hide_warnings),
            warnings: dup_opt_list(&self.warnings),
            stage: self.stage,
        }
    }
}

/// A configuration that says nothing.
pub open spec fn blank_config() -> ConfigView {
    ConfigView {
        min_hk_version: None,
        steps: seq![],
        default_hooks_materialized: false,
        implicit_default_hooks: seq![],
        hooks: seq![],
        default_branch: None,
        path: seq![],
        env: seq![],
        fail_fast: None,
        display_skip_reasons: None,
        hide_warnings: None,
        warnings: None,
        exclude: None,
        stage: None,
        profiles: None,
        skip_hooks: None,
        skip_steps: None,
        stash_backup_count: None,
        subprojects: None,
        terminal_progress: None,
        walk_ignore: None,
    }
}

impl Default for Config {
    fn default() -> (r: Self)
        ensures
            r@ == blank_config(),
    {
        Config {
            min_hk_version: None,
            steps: Table::new(),
            default_hooks_materialized: false,
            implicit_default_hooks: NameSet::new(),
            hooks: Table::new(),
            default_branch: None,
            path: String::new(),
            env: Table::new(),
            fail_fast: None,
            display_skip_reasons: None,
            hide_warnings: None,
            warnings: None,
            exclude: None,
            stage: None,
            profiles: None,
            skip_hooks: None,
            skip_steps: None,
            stash_backup_count: None,
            subprojects: None,
            terminal_progress: None,
            walk_ignore: None,
        }
    }
}

/// The hook `name` of a configuration, a blank one where there is none.
pub open spec fn hook_or_blank(hooks: Seq<(Seq<char>, HookView)>, name: Seq<char>) -> HookView {
    match lookup(hooks, name) {
        Some(hook) => hook,
        None => blank_hook(seq![]),
    }
}

/// A configuration whose hook `name` also runs the top-level entries. What the
/// hook says itself wins over the entries of the same name and over `fix` and `stash`.
pub open spec fn materialized_hook(
    c: ConfigView,
    name: Seq<char>,
    fix: Option<bool>,
    stash: Option<StashSetting>,
) -> ConfigView {
    let hook = hook_or_blank(c.hooks, name);
    let full = HookView {
        steps: put_all(c.steps, hook.steps),
        fix: first_of(hook.fix, fix),
        stash: first_of(hook.stash, stash),
        ..hook
    };
    ConfigView {
        hooks: put(c.hooks, name, initialized_hook(full, name)),
        implicit_default_hooks: if has_key(c.hooks, name) {
            c.implicit_default_hooks
        } else {
            push_new(c.implicit_default_hooks, name)
        },
        ..c
    }
}

/// A configuration whose default hooks run the top-level entries.
pub open spec fn materialized(c: ConfigView) -> ConfigView {
    if c.default_hooks_materialized || c.steps.len() == 0 {
        c
    } else {
        let check = materialized_hook(c, "check"@, Some(false), None);
        let fix = materialized_hook(check, "fix"@, Some(true), None);
        let pre_commit = materialized_hook(
            fix,
            "pre-commit"@,
            Some(true),
            Some(StashSetting::Method(StashMethod::Git)),
        );
        ConfigView { default_hooks_materialized: true, ..pre_commit }
    }
}

/// `dir` below `subdir`; an empty directory and `.` are `subdir` itself.
pub open spec fn joined_dir(subdir: Seq<char>, dir: Option<Seq<char>>) -> Seq<char> {
    match dir {
        Some(d) => if d.len() > 0 && d != "."@ {
            subdir + "/"@ + d
        } else {
            subdir
        },
        None => subdir,
    }
}

impl Config {
    fn materialize_hook(&mut self, name: &str, fix: Option<bool>, stash: Option<StashSetting>)
        ensures
            final(self)@ == materialized_hook(old(self)@, name@, fix, stash),
    {
        let ghost c = self@;
        let found = self.hooks.find(name);
        let mut hook = match found {
            Some(i) => self.hooks.replace_at(i, Hook::default()),
            None => Hook::default(),
        };
        assert(hook@ == hook_or_blank(c.hooks, name@));
        if found.is_none() {
            self.implicit_default_hooks.insert(name.to_owned());
        }
        let mut steps = self.steps.dup();
        steps.extend(&hook.steps);
        hook.steps = steps;
        if hook.fix.is_none() {
            hook.fix = fix;
        }
        if hook.stash.is_none() {
            hook.stash = stash;
        }
        hook.init(name);
        let ghost h = hook@;
        self.hooks.insert(name.to_owned(), hook);
        proof {
            if has_key(c.hooks, name@) {
                lemma_put_over(c.hooks, name@, blank_hook(seq![]), h);
            }
        }
    }

    /// Lets the default hooks run the top-level entries, once.
    pub fn materialize_default_hooks(&mut self)
        ensures
            final(self)@ == materialized(old(self)@),
    {
        if self.default_hooks_materialized || self.steps.is_empty() {
            return;
        }
        self.materialize_hook("check", Some(false), None);
        self.materialize_hook("fix", Some(true), None);
        self.materialize_hook(
            "pre-commit",
            Some(true),
            Some(StashSetting::Method(StashMethod::Git)),
        );
        self.default_hooks_materialized = true;
    }

    /// The directory `dir` of a step below `subdir`.
    pub fn join_subdir(subdir: &str, dir: Option<&str>) -> (r: String)
        ensures
            r@ == joined_dir(
                subdir@,
                match dir {
                    Some(d) => Some(d@),
                    None => None,
                },
            ),
    {
        let mut out = subdir.to_owned();
        if let Some(d) = dir {
            if !d.is_empty() && !same(d, ".") {
                out.append("/");
                out.append(d);
            }
        }
        out
    }

    /// The directory of a step below `subdir`, for a directory that is held as a string.
    fn join_own_dir(subdir: &str, dir: &Option<String>) -> (r: String)
        ensures
            r@ == joined_dir(subdir@, opt_text(*dir)),
    {
        match dir {
            Some(d) => Config::join_subdir(subdir, Some(d.as_str())),
            None => Config::join_subdir(subdir, None),
        }
    }
}

/// Where the entries of a subproject hook go: the prefix of their names, the
/// directory they run in, the variables they have from the subproject, and
/// the names that they may depend on.
pub struct Scope {
    pub subdir: Seq<char>,
    pub dir: Seq<char>,
    pub hook_env: Seq<(Seq<char>, Seq<char>)>,
    pub config_env: Seq<(Seq<char>, Seq<char>)>,
    pub siblings: Seq<Seq<char>>,
}

pub open spec fn scoped_name(subdir: Seq<char>, name: Seq<char>) -> Seq<char> {
    subdir + ":"@ + name
}

/// A step of a subproject: it runs below the directory of the subproject, and
/// its own variables win over those of its hook, which win over those of the subproject.
pub open spec fn scoped_step(step: StepView, scope: Scope) -> StepView {
    StepView {
        dir: Some(joined_dir(scope.dir, step.dir)),
        env: put_all_new(put_all_new(step.env, scope.hook_env), scope.config_env),
        ..step
    }
}

/// What a subproject step depends on: entries of its own hook under their new names.
pub open spec fn scoped_depends(depends: Seq<Seq<char>>, scope: Scope) -> Seq<Seq<char>> {
    depends.map_values(
        |d: Seq<char>|
            if scope.siblings.contains(d) {
                scoped_name(scope.subdir, d)
            } else {
                d
            },
    )
}

/// An entry of a subproject under its new name.
pub open spec fn scoped_entry(
    entry: StepOrGroupView,
    name: Seq<char>,
    scope: Scope,
) -> StepOrGroupView {
    match entry {
        StepOrGroupView::Step(step) => StepOrGroupView::Step(
            StepView {
                name,
                depends: scoped_depends(step.depends, scope),
                ..scoped_step(step, scope)
            },
        ),
        StepOrGroupView::Group(group) => StepOrGroupView::Group(
            StepGroupView {
                name: Some(name),
                dir: Some(joined_dir(scope.dir, group.dir)),
                steps: group.steps.map_values(
                    |e: (Seq<char>, StepView)| (e.0, scoped_step(e.1, scope)),
                ),
                ..group
            },
        ),
    }
}

pub open spec fn duplicate_step_message(name: Seq<char>, hook_name: Seq<char>) -> Seq<char> {
    "duplicate step name '"@ + name + "' in hook '"@ + hook_name + "'"@
}

/// The entries of a hook with those of a subproject added under their new
/// names, up to the first whose new name is taken; then the error.
pub open spec fn merged_entries(
    into: Seq<(Seq<char>, StepOrGroupView)>,
    entries: Seq<(Seq<char>, StepOrGroupView)>,
    scope: Scope,
    hook_name: Seq<char>,
) -> (Seq<(Seq<char>, StepOrGroupView)>, Option<Seq<char>>)
    decreases entries.len(),
{
    if entries.len() == 0 {
        (into, None)
    } else {
        let (so_far, failure) = merged_entries(into, entries.drop_last(), scope, hook_name);
        let name = scoped_name(scope.subdir, entries.last().0);
        if failure is Some {
            (so_far, failure)
        } else if has_key(so_far, name) {
            (so_far, Some(duplicate_step_message(name, hook_name)))
        } else {
            (so_far.push((name, scoped_entry(entries.last().1, name, scope))), None)
        }
    }
}

/// What a subproject brings to a merge besides its hooks.
pub struct Subproject {
    pub subdir: Seq<char>,
    pub dir: Seq<char>,
    pub env: Seq<(Seq<char>, Seq<char>)>,
    pub implicit: Seq<Seq<char>>,
}

/// A configuration with one hook of a subproject merged in. A disabled hook
/// changes nothing. A hook that the configuration lacks is created blank; only
/// where the subproject has it implicitly are its fix, stage and stash settings kept.
pub open spec fn merged_hook(
    c: ConfigView,
    sub: Subproject,
    name: Seq<char>,
    hook: HookView,
) -> (ConfigView, Option<Seq<char>>) {
    if !hook.enabled {
        (c, None)
    } else {
        let implicit = sub.implicit.contains(name);
        let base = match lookup(c.hooks, name) {
            Some(h) => h,
            None => if implicit {
                HookView {
                    fix: hook.fix,
                    stage: hook.stage,
                    stash: hook.stash,
                    ..blank_hook(name)
                }
            } else {
                blank_hook(name)
            },
        };
        let scope = Scope {
            subdir: sub.subdir,
            dir: sub.dir,
            hook_env: hook.env,
            config_env: sub.env,
            siblings: keys_of(hook.steps),
        };
        let (steps, failure) = merged_entries(base.steps, hook.steps, scope, name);
        (
            ConfigView {
                hooks: put(c.hooks, name, HookView { steps, ..base }),
                implicit_default_hooks: if implicit && !has_key(c.hooks, name) {
                    push_new(c.implicit_default_hooks, name)
                } else {
                    c.implicit_default_hooks
                },
                ..c
            },
            failure,
        )
    }
}

/// A configuration with the hooks of a subproject merged in, one after the
/// other, up to the first that fails.
pub open spec fn merged_hooks(
    c: ConfigView,
    sub: Subproject,
    hooks: Seq<(Seq<char>, HookView)>,
) -> (ConfigView, Option<Seq<char>>)
    decreases hooks.len(),
{
    if hooks.len() == 0 {
        (c, None)
    } else {
        let (so_far, failure) = merged_hooks(c, sub, hooks.drop_last());
        if failure is Some {
            (so_far, failure)
        } else {
            merged_hook(so_far, sub, hooks.last().0, hooks.last().1)
        }
    }
}

/// The directory of a subproject, seen from the work tree root.
pub open spec fn subproject_dir(subdir: Seq<char>, root_offset: Option<Seq<char>>) -> Seq<char> {
    match root_offset {
        Some(offset) => joined_dir(offset, Some(subdir)),
        None => subdir,
    }
}

/// A configuration with the subproject at `subdir` merged in.
pub open spec fn merged_subproject(
    c: ConfigView,
    subdir: Seq<char>,
    root_offset: Option<Seq<char>>,
    sub: ConfigView,
) -> (ConfigView, Option<Seq<char>>) {
    let full = materialized(sub);
    merged_hooks(
        c,
        Subproject {
            subdir,
            dir: subproject_dir(subdir, root_offset),
            env: full.env,
            implicit: full.implicit_default_hooks,
        },
        full.hooks,
    )
}

struct MergeScope<'a> {
    subdir: &'a str,
    dir: &'a str,
    hook_env: &'a Table<String>,
    config_env: &'a Table<String>,
    siblings: &'a Vec<String>,
}

impl<'a> MergeScope<'a> {
    spec fn scope(&self) -> Scope {
        Scope {
            subdir: self.subdir@,
            dir: self.dir@,
            hook_env: self.hook_env@,
            config_env: self.config_env@,
            siblings: texts(self.siblings@),
        }
    }

    fn name(&self, name: &str) -> (r: String)
        ensures
            r@ == scoped_name(self.subdir@, name@),
    {
        let mut out = self.subdir.to_owned();
        out.append(":");
        out.append(name);
        out
    }

    fn scope_step(&self, step: &mut Step)
        ensures
            final(step)@ == scoped_step(old(step)@, self.scope()),
    {
        step.dir = Some(Config::join_own_dir(self.dir, &step.dir));
        step.env.extend_new(self.hook_env);
        step.env.extend_new(self.config_env);
    }

    fn scope_depends(&self, depends: &Vec<String>) -> (r: Vec<String>)
        ensures
            texts(r@) == scoped_depends(texts(depends@), self.scope()),
    {
        let mut out: Vec<String> = Vec::new();
        for i in 0..depends.len()
            invariant
                texts(out@) =~= scoped_depends(texts(depends@), self.scope()).take(i as int),
        {
            let d = &depends[i];
            assert(texts(depends@)[i as int] == d@);
            if list_has(self.siblings, d.as_str()) {
                out.push(self.name(d.as_str()));
            } else {
                out.push(d.clone());
            }
        }
        assert(texts(out@) =~= scoped_depends(texts(depends@), self.scope()));
        out
    }

    fn scope_group(&self, group: StepGroup, name: &str) -> (r: StepGroup)
        ensures
            StepOrGroupView::Group(r@) == scoped_entry(
                StepOrGroupView::Group(group@),
                name@,
                self.scope(),
            ),
    {
        let mut group = group;
        let ghost g = group@;
        group.name = Some(name.to_owned());
        group.dir = Some(Config::join_own_dir(self.dir, &group.dir));
        let mut steps: Table<Step> = Table::new();
        core::mem::swap(&mut group.steps, &mut steps);
        let ghost from = steps@;
        let entries = steps.into_entries();
        let ghost es = entries@;
        let mut out: Table<Step> = Table::new();
        let ghost f = |e: (Seq<char>, StepView)| (e.0, scoped_step(e.1, self.scope()));
        for entry in it: entries
            invariant
                it.seq() == es,
                es.len() == from.len(),
                distinct(from),
                f == (|e: (Seq<char>, StepView)| (e.0, scoped_step(e.1, self.scope()))),
                forall|i: int|
                    0 <= i < es.len() ==> (#[trigger] es[i]).0@ == from[i].0 && es[i].1@ == from[i].1,
                out@ =~= from.take(it.index()).map_values(f),
        {
            let ghost i = it.index();
            assert(entry == es[i]);
            let (key, mut step) = entry;
            self.scope_step(&mut step);
            proof {
                lemma_position(out@, key@);
                assert(step@ == f(from[i]).1);
            }
            out.insert(key, step);
        }
        group.steps = out;
        assert(group@.steps =~= g.steps.map_values(f));
        group
    }

    fn scope_entry(&self, entry: StepOrGroup, name: &str) -> (r: StepOrGroup)
        ensures
            r@ == scoped_entry(entry@, name@, self.scope()),
    {
        match entry {
            StepOrGroup::Step(step) => {
                let mut step = *step;
                self.scope_step(&mut step);
                step.name = name.to_owned();
                step.depends = self.scope_depends(&step.depends);
                StepOrGroup::Step(Box::new(step))
            },
            StepOrGroup::Group(group) => {
                StepOrGroup::Group(Box::new(self.scope_group(*group, name)))
            },
        }
    }

    fn merge_entries(
        &self,
        into: &mut Table<StepOrGroup>,
        steps: Table<StepOrGroup>,
        hook_name: &str,
    ) -> (r: Result<(), String>)
        ensures
            ({
                let (merged, failure) = merged_entries(
                    old(into)@,
                    steps@,
                    self.scope(),
                    hook_name@,
                );
                &&& final(into)@ == merged
                &&& r is Err == failure is Some
                &&& (r matches Err(e) ==> failure == Some(e@))
            }),
    {
        let ghost from = steps@;
        let ghost start = into@;
        let entries = steps.into_entries();
        let ghost es = entries@;
        let mut failure: Option<String> = None;
        for entry in it: entries
            invariant
                it.seq() == es,
                es.len() == from.len(),
                forall|i: int|
                    0 <= i < es.len() ==> (#[trigger] es[i]).0@ == from[i].0 && es[i].1@ == from[i].1,
                (into@, opt_text(failure)) == merged_entries(
                    start,
                    from.take(it.index()),
                    self.scope(),
                    hook_name@,
                ),
        {
            let ghost i = it.index();
            assert(entry == es[i]);
            let (key, value) = entry;
            if failure.is_none() {
                let name = self.name(key.as_str());
                if into.contains_key(name.as_str()) {
                    let mut message = "duplicate step name '".to_owned();
                    message.append(name.as_str());
                    message.append("' in hook '");
                    message.append(hook_name);
                    message.append("'");
                    failure = Some(message);
                } else {
                    let scoped = self.scope_entry(value, name.as_str());
                    into.insert(name, scoped);
                }
            }
        }
        assert(from.take(from.len() as int) =~= from);
        match failure {
            Some(message) => Err(message),
            None => Ok(()),
        }
    }
}

fn table_keys<V: View>(t: &Table<V>) -> (r: Vec<String>)
    ensures
        texts(r@) == keys_of(t@),
{
    let mut out: Vec<String> = Vec::new();
    let n: usize = t.len();
    for i in 0..n
        invariant
            n == t@.len(),
            texts(out@) =~= keys_of(t@).take(i as int),
    {
        out.push(t.key_at(i).clone());
    }
    assert(texts(out@) =~= keys_of(t@));
    out
}

impl Config {
    fn merge_hook(
        &mut self,
        subdir: &str,
        dir: &str,
        env: &Table<String>,
        implicit: &NameSet,
        name: &str,
        hook: Hook,
    ) -> (r: Result<(), String>)
        ensures
            ({
                let sub = Subproject { subdir: subdir@, dir: dir@, env: env@, implicit: implicit@ };
                let (merged, failure) = merged_hook(old(self)@, sub, name@, hook@);
                &&& final(self)@ == merged
                &&& r is Err == failure is Some
                &&& (r matches Err(e) ==> failure == Some(e@))
            }),
    {
        let ghost c = self@;
        if !hook.enabled {
            return Ok(());
        }
        let is_implicit = implicit.contains(name);
        let found = self.hooks.find(name);
        let mut root_hook = match found {
            Some(i) => self.hooks.replace_at(i, Hook::default()),
            None => {
                let mut h = Hook::default();
                h.name = name.to_owned();
                if is_implicit {
                    h.fix = hook.fix;
                    h.stage = hook.stage;
                    h.stash = hook.stash;
                }
                h
            },
        };
        if is_implicit && found.is_none() {
            self.implicit_default_hooks.insert(name.to_owned());
        }
        let siblings = table_keys(&hook.steps);
        let scope = MergeScope {
            subdir,
            dir,
            hook_env: &hook.env,
            config_env: env,
            siblings: &siblings,
        };
        let result = scope.merge_entries(&mut root_hook.steps, hook.steps, name);
        let ghost h = root_hook@;
        self.hooks.insert(name.to_owned(), root_hook);
        proof {
            if has_key(c.hooks, name@) {
                lemma_put_over(c.hooks, name@, blank_hook(seq![]), h);
            }
        }
        result
    }

    /// Merges the configuration of the subproject at `subdir` into this one.
    ///
    /// Entries get the name `subdir:name` and run in `root_offset`/`subdir`
    /// and below; the variables of the subproject reach its own steps only.
    pub fn merge_subproject(
        &mut self,
        subdir: &str,
        root_offset: Option<&str>,
        sub: Config,
    ) -> (r: Result<(), String>)
        ensures
            ({
                let offset = match root_offset {
                    Some(o) => Some(o@),
                    None => None,
                };
                let (merged, failure) = merged_subproject(old(self)@, subdir@, offset, sub@);
                &&& final(self)@ == merged
                &&& r is Err == failure is Some
                &&& (r matches Err(e) ==> failure == Some(e@))
            }),
    {
        let mut sub = sub;
        sub.materialize_default_hooks();
        let dir = match root_offset {
            Some(offset) => Config::join_subdir(offset, Some(subdir)),
            None => subdir.to_owned(),
        };
        let ghost start = self@;
        let ghost from = sub.hooks@;
        let ghost env = sub.env@;
        let ghost implicit = sub.implicit_default_hooks@;
        let entries = sub.hooks.into_entries();
        let ghost es = entries@;
        let mut failure: Option<String> = None;
        for entry in it: entries
            invariant
                it.seq() == es,
                es.len() == from.len(),
                env == sub.env@,
                implicit == sub.implicit_default_hooks@,
                forall|i: int|
                    0 <= i < es.len() ==> (#[trigger] es[i]).0@ == from[i].0 && es[i].1@ == from[i].1,
                (self@, opt_text(failure)) == merged_hooks(
                    start,
                    Subproject { subdir: subdir@, dir: dir@, env, implicit },
                    from.take(it.index()),
                ),
        {
            let ghost i = it.index();
            assert(entry == es[i]);
            let (key, hook) = entry;
            if failure.is_none() {
                let result = self.merge_hook(
                    subdir,
                    dir.as_str(),
                    &sub.env,
                    &sub.implicit_default_hooks,
                    key.as_str(),
                    hook,
                );
                if let Err(message) = result {
                    failure = Some(message);
                }
            }
        }
        assert(from.take(from.len() as int) =~= from);
        match failure {
            Some(message) => Err(message),
            None => Ok(()),
        }
    }
}

/// The hooks of a project with those of a user added: a hook that the project
/// lacks is taken over whole; to one that it has, an enabled user hook adds
/// the entries whose names are free.
pub open spec fn merged_user_hooks(
    hooks: Seq<(Seq<char>, HookView)>,
    user: Seq<(Seq<char>, HookView)>,
) -> Seq<(Seq<char>, HookView)>
    decreases user.len(),
{
    if user.len() == 0 {
        hooks
    } else {
        let before = merged_user_hooks(hooks, user.drop_last());
        let (name, hook) = user.last();
        match lookup(before, name) {
            Some(own) => if hook.enabled {
                put(before, name, HookView { steps: put_all_new(own.steps, hook.steps), ..own })
            } else {
                before
            },
            None => before.push((name, hook)),
        }
    }
}

/// A project configuration with that of a user as its fallback.
pub open spec fn merged_hkrc(c: ConfigView, user: ConfigView) -> ConfigView {
    ConfigView {
        env: put_all_new(c.env, user.env),
        fail_fast: first_of(c.fail_fast, user.fail_fast),
        stage: first_of(c.stage, user.stage),
        display_skip_reasons: first_of(c.display_skip_reasons, user.display_skip_reasons),
        hide_warnings: first_of(c.hide_warnings, user.hide_warnings),
        warnings: first_of(c.warnings, user.warnings),
        exclude: first_of(c.exclude, user.exclude),
        profiles: first_of(c.profiles, user.profiles),
        skip_hooks: first_of(c.skip_hooks, user.skip_hooks),
        skip_steps: first_of(c.skip_steps, user.skip_steps),
        default_branch: first_of(c.default_branch, user.default_branch),
        min_hk_version: first_of(c.min_hk_version, user.min_hk_version),
        stash_backup_count: first_of(c.stash_backup_count, user.stash_backup_count),
        terminal_progress: first_of(c.terminal_progress, user.terminal_progress),
        walk_ignore: first_of(c.walk_ignore, user.walk_ignore),
        steps: put_all_new(c.steps, user.steps),
        hooks: merged_user_hooks(c.hooks, user.hooks),
        ..c
    }
}

/// The first of two optional texts that is there.
fn or_text(a: Option<String>, b: Option<String>) -> (r: Option<String>)
    ensures
        opt_text(r) == first_of(opt_text(a), opt_text(b)),
{
    if a.is_some() {
        a
    } else {
        b
    }
}

/// The first of two optional lists that is there.
fn or_list(a: Option<Vec<String>>, b: Option<Vec<String>>) -> (r: Option<Vec<String>>)
    ensures
        opt_texts(r) == first_of(opt_texts(a), opt_texts(b)),
{
    if a.is_some() {
        a
    } else {
        b
    }
}

/// The first of two optional values that is there.
fn or_value<T>(a: Option<T>, b: Option<T>) -> (r: Option<T>)
    ensures
        r == first_of(a, b),
{
    if a.is_some() {
        a
    } else {
        b
    }
}

/// Adds to a table the entries of another whose keys are free.
fn add_entries<V: View>(into: &mut Table<V>, more: Table<V>)
    ensures
        final(into)@ == put_all_new(old(into)@, more@),
{
    let ghost from = more@;
    let ghost start = into@;
    let entries = more.into_entries();
    let ghost es = entries@;
    for entry in it: entries
        invariant
            it.seq() == es,
            es.len() == from.len(),
            forall|i: int|
                0 <= i < es.len() ==> (#[trigger] es[i]).0@ == from[i].0 && es[i].1@ == from[i].1,
            into@ == put_all_new(start, from.take(it.index())),
    {
        let ghost i = it.index();
        assert(entry == es[i]);
        let (key, value) = entry;
        into.insert_new(key, value);
    }
    assert(from.take(from.len() as int) =~= from);
}

impl Config {
    fn merge_user_hooks(&mut self, user: Table<Hook>)
        ensures
            final(self)@ == (ConfigView {
                hooks: merged_user_hooks(old(self)@.hooks, user@),
                ..old(self)@
            }),
    {
        let ghost c = self@;
        let ghost from = user@;
        let entries = user.into_entries();
        let ghost es = entries@;
        for entry in it: entries
            invariant
                it.seq() == es,
                es.len() == from.len(),
                forall|i: int|
                    0 <= i < es.len() ==> (#[trigger] es[i]).0@ == from[i].0 && es[i].1@ == from[i].1,
                self@ == (ConfigView {
                    hooks: merged_user_hooks(c.hooks, from.take(it.index())),
                    ..c
                }),
        {
            let ghost i = it.index();
            let ghost before = self@.hooks;
            assert(entry == es[i]);
            let (key, hook) = entry;
            let ghost k = key@;
            match self.hooks.find(key.as_str()) {
                Some(at) => {
                    if hook.enabled {
                        let mut own = self.hooks.replace_at(at, Hook::default());
                        add_entries(&mut own.steps, hook.steps);
                        let ghost o = own@;
                        self.hooks.insert(key, own);
                        proof {
                            lemma_put_over(before, k, blank_hook(seq![]), o);
                        }
                    }
                },
                None => {
                    self.hooks.insert(key, hook);
                },
            }
        }
        assert(from.take(from.len() as int) =~= from);
    }

    /// Takes over, as fallbacks, the settings of a user that come in the form
    /// of a configuration. Returns the variables that are new to the project.
    pub fn merge_from_hkrc(&mut self, hkrc: Config) -> (r: Vec<(String, String)>)
        ensures
            final(self)@ == merged_hkrc(old(self)@, hkrc@),
            pair_texts(r@) == new_pairs(old(self)@.env, hkrc@.env),
    {
        let exported = self.new_variables(&hkrc.env);
        self.env.extend_new(&hkrc.env);
        self.fail_fast = or_value(self.fail_fast, hkrc.fail_fast);
        self.stage = or_value(self.stage, hkrc.stage);
        self.display_skip_reasons = or_list(self.display_skip_reasons.take(), hkrc.display_skip_reasons);
        self.hide_warnings = or_list(self.hide_warnings.take(), hkrc.hide_warnings);
        self.warnings = or_list(self.warnings.take(), hkrc.warnings);
        self.exclude = or_value(self.exclude.take(), hkrc.exclude);
        self.profiles = or_list(self.profiles.take(), hkrc.profiles);
        self.skip_hooks = or_list(self.skip_hooks.take(), hkrc.skip_hooks);
        self.skip_steps = or_list(self.skip_steps.take(), hkrc.skip_steps);
        self.default_branch = or_text(self.default_branch.take(), hkrc.default_branch);
        self.min_hk_version = or_text(self.min_hk_version.take(), hkrc.min_hk_version);
        self.stash_backup_count = or_value(self.stash_backup_count, hkrc.stash_backup_count);
        self.terminal_progress = or_value(self.terminal_progress, hkrc.terminal_progress);
        self.walk_ignore = or_value(self.walk_ignore, hkrc.walk_ignore);
        add_entries(&mut self.steps, hkrc.steps);
        self.merge_user_hooks(hkrc.hooks);
        exported
    }

    fn new_variables(&self, env: &Table<String>) -> (r: Vec<(String, String)>)
        ensures
            pair_texts(r@) == new_pairs(self@.env, env@),
    {
        let mut out: Vec<(String, String)> = Vec::new();
        let n: usize = env.len();
        assert(pair_texts(out@) =~= new_pairs(self@.env, env@.take(0)));
        for i in 0..n
            invariant
                n == env@.len(),
                pair_texts(out@) == new_pairs(self@.env, env@.take(i as int)),
        {
            if !self.env.contains_key(env.key_at(i).as_str()) {
                let ghost o = out@;
                let pair = (env.key_at(i).clone(), env.value_at(i).clone());
                out.push(pair);
                assert(pair_texts(out@) =~= pair_texts(o).push((pair.0@, pair.1@)));
            }
        }
        out
    }
}

/// The texts of pairs of strings.
pub open spec fn pair_texts(v: Seq<(String, String)>) -> Seq<(Seq<char>, Seq<char>)> {
    v.map_values(|p: (String, String)| (p.0@, p.1@))
}

/// The pairs of `more` whose keys are not in `env`.
pub open spec fn new_pairs(
    env: Seq<(Seq<char>, Seq<char>)>,
    more: Seq<(Seq<char>, Seq<char>)>,
) -> Seq<(Seq<char>, Seq<char>)>
    decreases more.len(),
{
    if more.len() == 0 {
        seq![]
    } else {
        let before = new_pairs(env, more.drop_last());
        if has_key(env, more.last().0) {
            before
        } else {
            before.push(more.last())
        }
    }
}

/// A step with the settings of a user for its hook and for itself. Variables
/// that the step sets stay; a glob of the user replaces the step's selection.
pub open spec fn user_step(
    step: StepView,
    hook: UserHookConfigView,
    own: Option<UserStepConfigView>,
) -> StepView {
    let hooked = StepView { env: put_all_new(step.env, hook.environment), ..step };
    match own {
        Some(u) => StepView {
            env: put_all_new(hooked.env, u.environment),
            match_any: if u.glob is Some {
                None
            } else {
                hooked.match_any
            },
            glob: first_of(u.glob, hooked.glob),
            exclude: first_of(u.exclude, hooked.exclude),
            profiles: first_of(u.profiles, hooked.profiles),
            ..hooked
        },
        None => hooked,
    }
}

/// An entry of a hook with the settings of a user.
pub open spec fn user_entry(
    name: Seq<char>,
    entry: StepOrGroupView,
    hook: UserHookConfigView,
) -> StepOrGroupView {
    match entry {
        StepOrGroupView::Step(step) => StepOrGroupView::Step(
            user_step(step, hook, lookup(hook.steps, name)),
        ),
        StepOrGroupView::Group(group) => StepOrGroupView::Group(
            StepGroupView {
                steps: group.steps.map_values(
                    |e: (Seq<char>, StepView)|
                        (e.0, user_step(e.1, hook, lookup(hook.steps, e.0))),
                ),
                ..group
            },
        ),
    }
}

/// The hooks of a project with the settings of a user for them.
pub open spec fn user_hooks(
    hooks: Seq<(Seq<char>, HookView)>,
    user: Seq<(Seq<char>, UserHookConfigView)>,
) -> Seq<(Seq<char>, HookView)>
    decreases user.len(),
{
    if user.len() == 0 {
        hooks
    } else {
        let before = user_hooks(hooks, user.drop_last());
        let (name, settings) = user.last();
        match lookup(before, name) {
            Some(hook) => put(
                before,
                name,
                HookView {
                    steps: hook.steps.map_values(
                        |e: (Seq<char>, StepOrGroupView)| (e.0, user_entry(e.0, e.1, settings)),
                    ),
                    ..hook
                },
            ),
            None => before,
        }
    }
}

/// A project configuration under the settings of a user, which win.
pub open spec fn user_applied(c: ConfigView, user: UserConfigView) -> ConfigView {
    ConfigView {
        display_skip_reasons: first_of(user.display_skip_reasons, c.display_skip_reasons),
        hide_warnings: first_of(user.hide_warnings, c.hide_warnings),
        warnings: first_of(user.warnings, c.warnings),
        stage: first_of(user.stage, c.stage),
        env: put_all(c.env, user.environment),
        hooks: user_hooks(c.hooks, user.hooks),
        ..c
    }
}

impl Config {
    fn apply_user_config_to_step(
        step: &mut Step,
        hook_config: &UserHookConfig,
        step_config: Option<&UserStepConfig>,
    )
        ensures
            final(step)@ == user_step(
                old(step)@,
                hook_config@,
                match step_config {
                    Some(u) => Some(u@),
                    None => None,
                },
            ),
    {
        step.env.extend_new(&hook_config.environment);
        if let Some(u) = step_config {
            step.env.extend_new(&u.environment);
            if u.glob.is_some() {
                step.match_any = None;
                step.glob = dup_option(&u.glob);
            }
            if u.exclude.is_some() {
                step.exclude = dup_option(&u.exclude);
            }
            if u.profiles.is_some() {
                step.profiles = dup_opt_list(&u.profiles);
            }
        }
    }

    fn apply_user_config_to_group(group: &mut StepGroup, settings: &UserHookConfig)
        ensures
            forall|name: Seq<char>|
                StepOrGroupView::Group(final(group)@) == #[trigger] user_entry(
                    name,
                    StepOrGroupView::Group(old(group)@),
                    settings@,
                ),
    {
        let ghost g = group@;
        let mut steps: Table<Step> = Table::new();
        core::mem::swap(&mut group.steps, &mut steps);
        let ghost from = steps@;
        let entries = steps.into_entries();
        let ghost es = entries@;
        let mut out: Table<Step> = Table::new();
        let ghost f = |e: (Seq<char>, StepView)|
            (e.0, user_step(e.1, settings@, lookup(settings@.steps, e.0)));
        for entry in it: entries
            invariant
                it.seq() == es,
                es.len() == from.len(),
                distinct(from),
                f == (|e: (Seq<char>, StepView)|
                    (e.0, user_step(e.1, settings@, lookup(settings@.steps, e.0)))),
                forall|i: int|
                    0 <= i < es.len() ==> (#[trigger] es[i]).0@ == from[i].0 && es[i].1@ == from[i].1,
                out@ =~= from.take(it.index()).map_values(f),
        {
            let ghost i = it.index();
            assert(entry == es[i]);
            let (key, mut step) = entry;
            Config::apply_user_config_to_step(&mut step, settings, settings.steps.get(key.as_str()));
            proof {
                lemma_position(out@, key@);
                assert(step@ == f(from[i]).1);
            }
            out.insert(key, step);
        }
        group.steps = out;
        assert(group@.steps =~= g.steps.map_values(f));
    }

    fn apply_user_config_to_hook(hook: &mut Hook, settings: &UserHookConfig)
        ensures
            final(hook)@ == (HookView {
                steps: old(hook)@.steps.map_values(
                    |e: (Seq<char>, StepOrGroupView)| (e.0, user_entry(e.0, e.1, settings@)),
                ),
                ..old(hook)@
            }),
    {
        let ghost h = hook@;
        let mut steps: Table<StepOrGroup> = Table::new();
        core::mem::swap(&mut hook.steps, &mut steps);
        let ghost from = steps@;
        let entries = steps.into_entries();
        let ghost es = entries@;
        let mut out: Table<StepOrGroup> = Table::new();
        let ghost f = |e: (Seq<char>, StepOrGroupView)| (e.0, user_entry(e.0, e.1, settings@));
        for entry in it: entries
            invariant
                it.seq() == es,
                es.len() == from.len(),
                distinct(from),
                f == (|e: (Seq<char>, StepOrGroupView)| (e.0, user_entry(e.0, e.1, settings@))),
                forall|i: int|
                    0 <= i < es.len() ==> (#[trigger] es[i]).0@ == from[i].0 && es[i].1@ == from[i].1,
                out@ =~= from.take(it.index()).map_values(f),
        {
            let ghost i = it.index();
            assert(entry == es[i]);
            let (key, value) = entry;
            let changed = match value {
                StepOrGroup::Step(step) => {
                    let mut step = *step;
                    Config::apply_user_config_to_step(
                        &mut step,
                        settings,
                        settings.steps.get(key.as_str()),
                    );
                    StepOrGroup::Step(Box::new(step))
                },
                StepOrGroup::Group(group) => {
                    let mut group = *group;
                    let ghost g0 = group@;
                    Config::apply_user_config_to_group(&mut group, settings);
                    assert(StepOrGroupView::Group(group@) == user_entry(
                        key@,
                        StepOrGroupView::Group(g0),
                        settings@,
                    ));
                    StepOrGroup::Group(Box::new(group))
                },
            };
            proof {
                lemma_position(out@, key@);
                assert(changed@ == f(from[i]).1);
            }
            out.insert(key, changed);
        }
        hook.steps = out;
        assert(hook@.steps =~= h.steps.map_values(f));
    }

    /// Applies the settings of a user, where there are any. Every variable of
    /// the user is also one that the process exports.
    pub fn apply_user_config(&mut self, user_config: &Option<UserConfig>)
        ensures
            final(self)@ == match user_config {
                Some(u) => user_applied(old(self)@, u@),
                None => old(self)@,
            },
    {
        if let Some(u) = user_config {
            if u.display_skip_reasons.is_some() {
                self.display_skip_reasons = dup_opt_list(&u.display_skip_reasons);
            }
            if u.hide_warnings.is_some() {
                self.hide_warnings = dup_opt_list(&u.hide_warnings);
            }
            if u.warnings.is_some() {
                self.warnings = dup_opt_list(&u.warnings);
            }
            if u.stage.is_some() {
                self.stage = u.stage;
            }
            self.env.extend(&u.environment);
            let ghost c = self@;
            let n: usize = u.hooks.len();
            for i in 0..n
                invariant
                    n == u.hooks@.len(),
                    self@ == (ConfigView {
                        hooks: user_hooks(c.hooks, u.hooks@.take(i as int)),
                        ..c
                    }),
            {
                let ghost before = self@.hooks;
                let name = u.hooks.key_at(i);
                let settings = u.hooks.value_at(i);
                match self.hooks.find(name.as_str()) {
                    Some(at) => {
                        let mut hook = self.hooks.replace_at(at, Hook::default());
                        Config::apply_user_config_to_hook(&mut hook, settings);
                        let ghost h = hook@;
                        self.hooks.insert(name.clone(), hook);
                        proof {
                            lemma_put_over(before, name@, blank_hook(seq![]), h);
                        }
                    },
                    None => {},
                }
            }
            assert(u.hooks@.take(n as int) =~= u.hooks@);
        }
    }
}

/// The sentence `Step 'name' location rest`.
pub open spec fn step_message(name: Seq<char>, location: Seq<char>, rest: Seq<char>) -> Seq<char> {
    "Step '"@ + name + "' "@ + location + rest
}

/// What is wrong with the selector at position `index`, if anything.
pub open spec fn selector_fault(selector: SelectorView, index: nat) -> Option<Seq<char>> {
    if selector.glob is Some && selector.glob->0.is_empty() {
        Some(" has an empty 'glob' in 'match_any' selector "@ + decimal(index + 1) + "."@)
    } else if selector.types is Some && selector.types->0.len() == 0 {
        Some(" has an empty 'types' in 'match_any' selector "@ + decimal(index + 1) + "."@)
    } else if selector.is_empty() {
        Some(
            " has an empty 'match_any' selector "@ + decimal(index + 1)
                + ". Each selector must define a non-empty 'glob' or 'types'."@,
        )
    } else {
        None
    }
}

/// What is wrong with the first faulty selector, if any is.
pub open spec fn selectors_fault(selectors: Seq<SelectorView>) -> Option<Seq<char>>
    decreases selectors.len(),
{
    if selectors.len() == 0 {
        None
    } else {
        first_of(
            selectors_fault(selectors.drop_last()),
            selector_fault(selectors.last(), (selectors.len() - 1) as nat),
        )
    }
}

/// What is wrong with a step, if anything: it stages without fixing, or its
/// `match_any` stands beside a glob or types, is empty, or has a faulty selector.
pub open spec fn step_fault(step: StepView) -> Option<Seq<char>> {
    if step.stage is Some && step.fix is None {
        Some(
            " has 'stage' attribute but no 'fix' command. Steps that stage files must have a fix command."@,
        )
    } else {
        match step.match_any {
            None => None,
            Some(selectors) => if step.glob is Some || step.types is Some {
                Some(" cannot combine 'match_any' with top-level 'glob' or 'types'."@)
            } else if selectors.len() == 0 {
                Some(" has an empty 'match_any'; add at least one selector."@)
            } else {
                selectors_fault(selectors)
            },
        }
    }
}

/// The error that a step at a place gives, if it is faulty.
pub open spec fn step_error(
    step: StepView,
    name: Seq<char>,
    location: Seq<char>,
) -> Option<Seq<char>> {
    match step_fault(step) {
        Some(fault) => Some(step_message(name, location, fault)),
        None => None,
    }
}

/// The error of the first faulty step of a group, if any is faulty.
pub open spec fn group_error(
    steps: Seq<(Seq<char>, StepView)>,
    location: Seq<char>,
) -> Option<Seq<char>>
    decreases steps.len(),
{
    if steps.len() == 0 {
        None
    } else {
        first_of(
            group_error(steps.drop_last(), location),
            step_error(steps.last().1, steps.last().0, location),
        )
    }
}

/// The error of the first faulty step of an entry of the hook `hook_name`.
pub open spec fn entry_error(
    entry: (Seq<char>, StepOrGroupView),
    hook_name: Seq<char>,
) -> Option<Seq<char>> {
    match entry.1 {
        StepOrGroupView::Step(step) => step_error(
            step,
            entry.0,
            "in hook '"@ + hook_name + "'"@,
        ),
        StepOrGroupView::Group(group) => group_error(
            group.steps,
            "in group '"@ + entry.0 + "' of hook '"@ + hook_name + "'"@,
        ),
    }
}

pub open spec fn entries_error(
    entries: Seq<(Seq<char>, StepOrGroupView)>,
    hook_name: Seq<char>,
) -> Option<Seq<char>>
    decreases entries.len(),
{
    if entries.len() == 0 {
        None
    } else {
        first_of(
            entries_error(entries.drop_last(), hook_name),
            entry_error(entries.last(), hook_name),
        )
    }
}

/// The error of the first faulty step of the hooks, in order.
pub open spec fn hooks_error(hooks: Seq<(Seq<char>, HookView)>) -> Option<Seq<char>>
    decreases hooks.len(),
{
    if hooks.len() == 0 {
        None
    } else {
        first_of(
            hooks_error(hooks.drop_last()),
            entries_error(hooks.last().1.steps, hooks.last().0),
        )
    }
}

/// A selection result as an error or its absence.
pub open spec fn error_of(r: Result<(), String>) -> Option<Seq<char>> {
    match r {
        Ok(_) => None,
        Err(e) => Some(e@),
    }
}

fn check_selector(selector: &Selector, index: usize) -> (r: Option<String>)
    requires
        index < usize::MAX,
    ensures
        opt_text(r) == selector_fault(selector@, index as nat),
{
    let empty_glob = match &selector.glob {
        Some(g) => g.is_empty(),
        None => false,
    };
    if empty_glob {
        let mut m = " has an empty 'glob' in 'match_any' selector ".to_owned();
        m.append(show_usize(index + 1).as_str());
        m.append(".");
        return Some(m);
    }
    let empty_types = match &selector.types {
        Some(t) => t.len() == 0,
        None => false,
    };
    if empty_types {
        let mut m = " has an empty 'types' in 'match_any' selector ".to_owned();
        m.append(show_usize(index + 1).as_str());
        m.append(".");
        return Some(m);
    }
    if selector.is_empty() {
        let mut m = " has an empty 'match_any' selector ".to_owned();
        m.append(show_usize(index + 1).as_str());
        m.append(". Each selector must define a non-empty 'glob' or 'types'.");
        return Some(m);
    }
    None
}

fn find_step_fault(step: &Step) -> (r: Option<String>)
    ensures
        opt_text(r) == step_fault(step@),
{
    if step.stage.is_some() && step.fix.is_none() {
        return Some(
            " has 'stage' attribute but no 'fix' command. Steps that stage files must have a fix command.".to_owned(),
        );
    }
    match &step.match_any {
        None => None,
        Some(selectors) => {
            if step.glob.is_some() || step.types.is_some() {
                return Some(
                    " cannot combine 'match_any' with top-level 'glob' or 'types'.".to_owned(),
                );
            }
            if selectors.len() == 0 {
                return Some(" has an empty 'match_any'; add at least one selector.".to_owned());
            }
            let mut fault: Option<String> = None;
            for i in 0..selectors.len()
                invariant
                    opt_text(fault) == selectors_fault(views(selectors@).take(i as int)),
            {
                assert(views(selectors@)[i as int] == selectors@[i as int]@);
                if fault.is_none() {
                    fault = check_selector(&selectors[i], i);
                }
            }
            assert(views(selectors@).take(selectors@.len() as int) =~= views(selectors@));
            fault
        },
    }
}

/// Whether a step is well formed; `location` says where it stands.
pub fn validate_step(step: &Step, step_name: &str, location: &str) -> (r: Result<(), String>)
    ensures
        error_of(r) == step_error(step@, step_name@, location@),
{
    match find_step_fault(step) {
        Some(fault) => {
            let mut m = "Step '".to_owned();
            m.append(step_name);
            m.append("' ");
            m.append(location);
            m.append(fault.as_str());
            Err(m)
        },
        None => Ok(()),
    }
}

fn validate_entry(name: &str, entry: &StepOrGroup, hook_name: &str) -> (r: Result<(), String>)
    ensures
        error_of(r) == entry_error((name@, entry@), hook_name@),
{
    match entry {
        StepOrGroup::Step(step) => {
            let mut location = "in hook '".to_owned();
            location.append(hook_name);
            location.append("'");
            validate_step(step, name, location.as_str())
        },
        StepOrGroup::Group(group) => {
            let mut location = "in group '".to_owned();
            location.append(name);
            location.append("' of hook '");
            location.append(hook_name);
            location.append("'");
            let mut result: Result<(), String> = Ok(());
            let n: usize = group.steps.len();
            for i in 0..n
                invariant
                    n == group.steps@.len(),
                    error_of(result) == group_error(group.steps@.take(i as int), location@),
            {
                if result.is_ok() {
                    result = validate_step(
                        group.steps.value_at(i),
                        group.steps.key_at(i).as_str(),
                        location.as_str(),
                    );
                }
            }
            assert(group.steps@.take(n as int) =~= group.steps@);
            result
        },
    }
}

fn validate_hook(hook: &Hook, hook_name: &str) -> (r: Result<(), String>)
    ensures
        error_of(r) == entries_error(hook@.steps, hook_name@),
{
    let mut result: Result<(), String> = Ok(());
    let n: usize = hook.steps.len();
    for i in 0..n
        invariant
            n == hook.steps@.len(),
            error_of(result) == entries_error(hook.steps@.take(i as int), hook_name@),
    {
        if result.is_ok() {
            result = validate_entry(
                hook.steps.key_at(i).as_str(),
                hook.steps.value_at(i),
                hook_name,
            );
        }
    }
    assert(hook.steps@.take(n as int) =~= hook.steps@);
    result
}

impl Config {
    /// Whether every step of every hook is well formed; the error is that of
    /// the first that is not.
    pub fn validate(&self) -> (r: Result<(), String>)
        ensures
            error_of(r) == hooks_error(self@.hooks),
    {
        let mut result: Result<(), String> = Ok(());
        let n: usize = self.hooks.len();
        for i in 0..n
            invariant
                n == self.hooks@.len(),
                error_of(result) == hooks_error(self.hooks@.take(i as int)),
        {
            if result.is_ok() {
                result = validate_hook(self.hooks.value_at(i), self.hooks.key_at(i).as_str());
            }
        }
        assert(self.hooks@.take(n as int) =~= self.hooks@);
        result
    }
}

/// An entry that runs below `subdir`.
pub open spec fn entry_below(entry: StepOrGroupView, subdir: Seq<char>) -> StepOrGroupView {
    match entry {
        StepOrGroupView::Step(step) => StepOrGroupView::Step(
            StepView { dir: Some(joined_dir(subdir, step.dir)), ..step },
        ),
        StepOrGroupView::Group(group) => StepOrGroupView::Group(
            StepGroupView {
                dir: Some(joined_dir(subdir, group.dir)),
                steps: group.steps.map_values(
                    |e: (Seq<char>, StepView)|
                        (e.0, StepView { dir: Some(joined_dir(subdir, e.1.dir)), ..e.1 }),
                ),
                ..group
            },
        ),
    }
}

/// A hook whose entries run below `subdir`.
pub open spec fn hook_below(hook: HookView, subdir: Seq<char>) -> HookView {
    HookView {
        steps: hook.steps.map_values(
            |e: (Seq<char>, StepOrGroupView)| (e.0, entry_below(e.1, subdir)),
        ),
        ..hook
    }
}

/// A configuration that lies in the directory `subdir` of the work tree: the
/// entries of all its hooks run there and below.
pub open spec fn config_below(c: ConfigView, subdir: Option<Seq<char>>) -> ConfigView {
    let full = materialized(c);
    match subdir {
        Some(dir) => ConfigView {
            hooks: full.hooks.map_values(
                |e: (Seq<char>, HookView)| (e.0, hook_below(e.1, dir)),
            ),
            ..full
        },
        None => full,
    }
}

fn group_into(group: StepGroup, subdir: &str) -> (r: StepGroup)
    ensures
        StepOrGroupView::Group(r@) == entry_below(StepOrGroupView::Group(group@), subdir@),
{
    let mut group = group;
    let ghost g = group@;
    group.dir = Some(Config::join_own_dir(subdir, &group.dir));
    let mut steps: Table<Step> = Table::new();
    core::mem::swap(&mut group.steps, &mut steps);
    let ghost from = steps@;
    let entries = steps.into_entries();
    let ghost es = entries@;
    let mut out: Table<Step> = Table::new();
    let ghost f = |e: (Seq<char>, StepView)|
        (e.0, StepView { dir: Some(joined_dir(subdir@, e.1.dir)), ..e.1 });
    for entry in it: entries
        invariant
            it.seq() == es,
            es.len() == from.len(),
            distinct(from),
            f == (|e: (Seq<char>, StepView)|
                (e.0, StepView { dir: Some(joined_dir(subdir@, e.1.dir)), ..e.1 })),
            forall|i: int|
                0 <= i < es.len() ==> (#[trigger] es[i]).0@ == from[i].0 && es[i].1@ == from[i].1,
            out@ =~= from.take(it.index()).map_values(f),
    {
        let ghost i = it.index();
        assert(entry == es[i]);
        let (key, mut step) = entry;
        step.dir = Some(Config::join_own_dir(subdir, &step.dir));
        proof {
            lemma_position(out@, key@);
            assert(step@ == f(from[i]).1);
        }
        out.insert(key, step);
    }
    group.steps = out;
    assert(group@.steps =~= g.steps.map_values(f));
    group
}

fn hook_into(hook: Hook, subdir: &str) -> (r: Hook)
    ensures
        r@ == hook_below(hook@, subdir@),
{
    let mut hook = hook;
    let ghost h = hook@;
    let mut steps: Table<StepOrGroup> = Table::new();
    core::mem::swap(&mut hook.steps, &mut steps);
    let ghost from = steps@;
    let entries = steps.into_entries();
    let ghost es = entries@;
    let mut out: Table<StepOrGroup> = Table::new();
    let ghost f = |e: (Seq<char>, StepOrGroupView)| (e.0, entry_below(e.1, subdir@));
    for entry in it: entries
        invariant
            it.seq() == es,
            es.len() == from.len(),
            distinct(from),
            f == (|e: (Seq<char>, StepOrGroupView)| (e.0, entry_below(e.1, subdir@))),
            forall|i: int|
                0 <= i < es.len() ==> (#[trigger] es[i]).0@ == from[i].0 && es[i].1@ == from[i].1,
            out@ =~= from.take(it.index()).map_values(f),
    {
        let ghost i = it.index();
        assert(entry == es[i]);
        let (key, value) = entry;
        let moved = match value {
            StepOrGroup::Step(step) => {
                let mut step = *step;
                step.dir = Some(Config::join_own_dir(subdir, &step.dir));
                StepOrGroup::Step(Box::new(step))
            },
            StepOrGroup::Group(group) => StepOrGroup::Group(Box::new(group_into(*group, subdir))),
        };
        proof {
            lemma_position(out@, key@);
            assert(moved@ == f(from[i]).1);
        }
        out.insert(key, moved);
    }
    hook.steps = out;
    assert(hook@.steps =~= h.steps.map_values(f));
    hook
}

impl Config {
    /// Lets every entry run in the directory in which the configuration lies,
    /// where that is not the root of the work tree.
    pub fn apply_implicit_root_dir(&mut self, subdir: Option<&str>)
        ensures
            final(self)@ == config_below(
                old(self)@,
                match subdir {
                    Some(d) => Some(d@),
                    None => None,
                },
            ),
    {
        self.materialize_default_hooks();
        if let Some(dir) = subdir {
            let ghost c = self@;
            let mut hooks: Table<Hook> = Table::new();
            core::mem::swap(&mut self.hooks, &mut hooks);
            let ghost from = hooks@;
            let entries = hooks.into_entries();
            let ghost es = entries@;
            let mut out: Table<Hook> = Table::new();
            let ghost f = |e: (Seq<char>, HookView)| (e.0, hook_below(e.1, dir@));
            for entry in it: entries
                invariant
                    it.seq() == es,
                    es.len() == from.len(),
                    distinct(from),
                    f == (|e: (Seq<char>, HookView)| (e.0, hook_below(e.1, dir@))),
                    forall|i: int|
                        0 <= i < es.len() ==> (#[trigger] es[i]).0@ == from[i].0 && es[i].1@
                            == from[i].1,
                    out@ =~= from.take(it.index()).map_values(f),
            {
                let ghost i = it.index();
                assert(entry == es[i]);
                let (key, hook) = entry;
                let moved = hook_into(hook, dir);
                proof {
                    lemma_position(out@, key@);
                    assert(moved@ == f(from[i]).1);
                }
                out.insert(key, moved);
            }
            self.hooks = out;
            assert(self@.hooks =~= c.hooks.map_values(f));
        }
    }
}

/// Variables of a user reach a project only where the project does not set them.
pub proof fn law_project_variables_win(c: ConfigView, user: ConfigView, key: Seq<char>)
    requires
        distinct(user.env),
    ensures
        lookup(merged_hkrc(c, user).env, key) == first_of(lookup(c.env, key), lookup(user.env, key)),
{
    lemma_lookup_put_all_new(c.env, user.env, key);
}

/// The settings of a user in configuration form change no entry that a hook of
/// the project has already.
pub proof fn law_project_entries_win(
    c: ConfigView,
    user: ConfigView,
    hook_name: Seq<char>,
    entry_name: Seq<char>,
)
    requires
        has_key(c.hooks, hook_name),
        has_key(lookup(c.hooks, hook_name)->0.steps, entry_name),
        forall|i: int| 0 <= i < user.hooks.len() ==> distinct((#[trigger] user.hooks[i]).1.steps),
    ensures
        has_key(merged_hkrc(c, user).hooks, hook_name),
        lookup(lookup(merged_hkrc(c, user).hooks, hook_name)->0.steps, entry_name) == lookup(
            lookup(c.hooks, hook_name)->0.steps,
            entry_name,
        ),
{
    lemma_user_hooks_keep(c.hooks, user.hooks, hook_name, entry_name);
}

proof fn lemma_user_hooks_keep(
    hooks: Seq<(Seq<char>, HookView)>,
    user: Seq<(Seq<char>, HookView)>,
    hook_name: Seq<char>,
    entry_name: Seq<char>,
)
    requires
        has_key(hooks, hook_name),
        has_key(lookup(hooks, hook_name)->0.steps, entry_name),
        forall|i: int| 0 <= i < user.len() ==> distinct((#[trigger] user[i]).1.steps),
    ensures
        has_key(merged_user_hooks(hooks, user), hook_name),
        lookup(lookup(merged_user_hooks(hooks, user), hook_name)->0.steps, entry_name) == lookup(
            lookup(hooks, hook_name)->0.steps,
            entry_name,
        ),
    decreases user.len(),
{
    if user.len() > 0 {
        let init = user.drop_last();
        assert forall|i: int| 0 <= i < init.len() implies distinct((#[trigger] init[i]).1.steps) by {
            assert(init[i] == user[i]);
        }
        lemma_user_hooks_keep(hooks, init, hook_name, entry_name);
        let before = merged_user_hooks(hooks, init);
        let (name, hook) = user.last();
        assert(distinct(user[user.len() - 1].1.steps));
        match lookup(before, name) {
            Some(own) => {
                let merged = HookView { steps: put_all_new(own.steps, hook.steps), ..own };
                lemma_lookup_put(before, name, merged, hook_name);
                lemma_lookup_put_all_new(own.steps, hook.steps, entry_name);
            },
            None => {
                lemma_lookup_put(before, name, hook, hook_name);
            },
        }
    }
}

/// A hook that a user disables adds nothing to the project's hook of that name.
pub proof fn law_disabled_user_hook_adds_nothing(c: ConfigView, user: ConfigView, name: Seq<char>)
    requires
        distinct(user.hooks),
        has_key(c.hooks, name),
        has_key(user.hooks, name),
        !lookup(user.hooks, name)->0.enabled,
    ensures
        lookup(merged_hkrc(c, user).hooks, name) == lookup(c.hooks, name),
{
    lemma_position(user.hooks, name);
    lemma_disabled_user_hook(c.hooks, user.hooks, name);
}

proof fn lemma_disabled_user_hook(
    hooks: Seq<(Seq<char>, HookView)>,
    user: Seq<(Seq<char>, HookView)>,
    name: Seq<char>,
)
    requires
        distinct(user),
        has_key(hooks, name),
        forall|i: int| 0 <= i < user.len() && (#[trigger] user[i]).0 == name ==> !user[i].1.enabled,
    ensures
        lookup(merged_user_hooks(hooks, user), name) == lookup(hooks, name),
    decreases user.len(),
{
    if user.len() > 0 {
        let init = user.drop_last();
        assert(distinct(init)) by {
            assert forall|i: int, j: int| 0 <= i < j < init.len() implies init[i].0 != init[j].0 by {
                assert(user[i].0 != user[j].0);
            }
        }
        assert forall|i: int|
            0 <= i < init.len() && (#[trigger] init[i]).0 == name implies !init[i].1.enabled by {
            assert(init[i] == user[i]);
        }
        lemma_disabled_user_hook(hooks, init, name);
        let before = merged_user_hooks(hooks, init);
        let (key, hook) = user.last();
        assert(user[user.len() - 1].0 == key);
        match lookup(before, key) {
            Some(own) => {
                let merged = HookView { steps: put_all_new(own.steps, hook.steps), ..own };
                lemma_lookup_put(before, key, merged, name);
            },
            None => {
                lemma_lookup_put(before, key, hook, name);
            },
        }
    }
}

/// Materializing the default hooks a second time changes nothing.
pub proof fn law_materializing_is_idempotent(c: ConfigView)
    ensures
        materialized(materialized(c)) == materialized(c),
{
}

/// After materializing, each default hook has every top-level entry and every
/// entry of its own, and its own entries win.
pub proof fn law_explicit_entries_win(c: ConfigView, hook_name: Seq<char>, entry_name: Seq<char>)
    requires
        !c.default_hooks_materialized,
        c.steps.len() > 0,
        hook_name == "check"@ || hook_name == "fix"@ || hook_name == "pre-commit"@,
    ensures
        ({
            let own = hook_or_blank(c.hooks, hook_name);
            let result = lookup(materialized(c).hooks, hook_name);
            &&& result is Some
            &&& has_key(result->0.steps, entry_name) <==> (has_key(own.steps, entry_name)
                || has_key(c.steps, entry_name))
            &&& (has_key(own.steps, entry_name) ==> lookup(result->0.steps, entry_name) == Some(
                crate::hook::entry_with_env(
                    crate::hook::initialized(lookup(own.steps, entry_name)->0, entry_name),
                    own.env,
                ),
            ))
        }),
{
    reveal_strlit("check");
    reveal_strlit("fix");
    reveal_strlit("pre-commit");
    assert("check"@.len() == 5 && "fix"@.len() == 3 && "pre-commit"@.len() == 10);
    let stash = Some(StashSetting::Method(StashMethod::Git));
    let c1 = materialized_hook(c, "check"@, Some(false), None);
    let c2 = materialized_hook(c1, "fix"@, Some(true), None);
    lemma_materialized_hook(c, "check"@, Some(false), None, hook_name, entry_name);
    lemma_materialized_hook(c1, "fix"@, Some(true), None, hook_name, entry_name);
    lemma_materialized_hook(c2, "pre-commit"@, Some(true), stash, hook_name, entry_name);
}

proof fn lemma_materialized_hook(
    c: ConfigView,
    name: Seq<char>,
    fix: Option<bool>,
    stash: Option<StashSetting>,
    hook_name: Seq<char>,
    entry_name: Seq<char>,
)
    ensures
        ({
            let own = hook_or_blank(c.hooks, hook_name);
            let after = materialized_hook(c, name, fix, stash);
            let result = lookup(after.hooks, hook_name);
            &&& after.steps == c.steps
            &&& (hook_name != name ==> result == lookup(c.hooks, hook_name))
            &&& (hook_name == name ==> result is Some && (has_key(result->0.steps, entry_name) <==> (
            has_key(own.steps, entry_name) || has_key(c.steps, entry_name))) && (has_key(
                own.steps,
                entry_name,
            ) ==> lookup(result->0.steps, entry_name) == Some(
                crate::hook::entry_with_env(
                    crate::hook::initialized(lookup(own.steps, entry_name)->0, entry_name),
                    own.env,
                ),
            )))
        }),
{
    let hook = hook_or_blank(c.hooks, name);
    let steps = put_all(c.steps, hook.steps);
    let full = HookView {
        steps,
        fix: first_of(hook.fix, fix),
        stash: first_of(hook.stash, stash),
        ..hook
    };
    lemma_lookup_put(c.hooks, name, initialized_hook(full, name), hook_name);
    lemma_lookup_put_all(c.steps, hook.steps, entry_name);
    let ready = crate::hook::initialized_steps(steps, hook.env);
    lemma_position_keys(steps, ready, entry_name);
    lemma_position(steps, entry_name);
}

/// A step of a subproject has a variable from itself, else from its hook, else
/// from the subproject's configuration.
pub proof fn law_subproject_variable_order(step: StepView, scope: Scope, key: Seq<char>)
    requires
        distinct(scope.hook_env),
        distinct(scope.config_env),
    ensures
        lookup(scoped_step(step, scope).env, key) == first_of(
            lookup(step.env, key),
            first_of(lookup(scope.hook_env, key), lookup(scope.config_env, key)),
        ),
{
    lemma_lookup_put_all_new(step.env, scope.hook_env, key);
    lemma_lookup_put_all_new(put_all_new(step.env, scope.hook_env), scope.config_env, key);
}

proof fn lemma_merged_entries(
    into: Seq<(Seq<char>, StepOrGroupView)>,
    entries: Seq<(Seq<char>, StepOrGroupView)>,
    scope: Scope,
    hook_name: Seq<char>,
    name: Seq<char>,
)
    ensures
        has_key(into, name) ==> lookup(merged_entries(into, entries, scope, hook_name).0, name)
            == lookup(into, name),
        has_key(merged_entries(into, entries, scope, hook_name).0, name) ==> has_key(into, name) || (
        exists|i: int|
            0 <= i < entries.len() && name == scoped_name(
                scope.subdir,
                (#[trigger] entries[i]).0,
            )),
    decreases entries.len(),
{
    if entries.len() > 0 {
        let init = entries.drop_last();
        lemma_merged_entries(into, init, scope, hook_name, name);
        let (so_far, failure) = merged_entries(into, init, scope, hook_name);
        let key = scoped_name(scope.subdir, entries.last().0);
        if has_key(so_far, name) && !has_key(into, name) {
            let i = choose|i: int|
                0 <= i < init.len() && name == scoped_name(scope.subdir, (#[trigger] init[i]).0);
            assert(entries[i] == init[i]);
        }
        assert(entries[entries.len() - 1] == entries.last());
        if failure is None && !has_key(so_far, key) {
            lemma_lookup_push(
                so_far,
                key,
                scoped_entry(entries.last().1, key, scope),
                name,
            );
            lemma_lookup_put(so_far, key, scoped_entry(entries.last().1, key, scope), name);
        }
    }
}

/// Merging a subproject changes no entry that a hook has already, whether the
/// merge succeeds or not.
pub proof fn law_subproject_keeps_entries(
    c: ConfigView,
    subdir: Seq<char>,
    root_offset: Option<Seq<char>>,
    sub: ConfigView,
    hook_name: Seq<char>,
    entry_name: Seq<char>,
)
    requires
        has_key(c.hooks, hook_name),
        has_key(lookup(c.hooks, hook_name)->0.steps, entry_name),
    ensures
        ({
            let after = merged_subproject(c, subdir, root_offset, sub).0;
            &&& has_key(after.hooks, hook_name)
            &&& lookup(lookup(after.hooks, hook_name)->0.steps, entry_name) == lookup(
                lookup(c.hooks, hook_name)->0.steps,
                entry_name,
            )
        }),
{
    let full = materialized(sub);
    let s = Subproject {
        subdir,
        dir: subproject_dir(subdir, root_offset),
        env: full.env,
        implicit: full.implicit_default_hooks,
    };
    lemma_merged_hooks_keep(c, s, full.hooks, hook_name, entry_name);
}

proof fn lemma_merged_hooks_keep(
    c: ConfigView,
    sub: Subproject,
    hooks: Seq<(Seq<char>, HookView)>,
    hook_name: Seq<char>,
    entry_name: Seq<char>,
)
    requires
        has_key(c.hooks, hook_name),
        has_key(lookup(c.hooks, hook_name)->0.steps, entry_name),
    ensures
        ({
            let after = merged_hooks(c, sub, hooks).0;
            &&& has_key(after.hooks, hook_name)
            &&& has_key(lookup(after.hooks, hook_name)->0.steps, entry_name)
            &&& lookup(lookup(after.hooks, hook_name)->0.steps, entry_name) == lookup(
                lookup(c.hooks, hook_name)->0.steps,
                entry_name,
            )
        }),
    decreases hooks.len(),
{
    if hooks.len() > 0 {
        lemma_merged_hooks_keep(c, sub, hooks.drop_last(), hook_name, entry_name);
        let (so_far, failure) = merged_hooks(c, sub, hooks.drop_last());
        let (name, hook) = hooks.last();
        if failure is None && hook.enabled {
            let after = merged_hook(so_far, sub, name, hook).0;
            match lookup(so_far.hooks, name) {
                Some(base) => {
                    let scope = Scope {
                        subdir: sub.subdir,
                        dir: sub.dir,
                        hook_env: hook.env,
                        config_env: sub.env,
                        siblings: keys_of(hook.steps),
                    };
                    let steps = merged_entries(base.steps, hook.steps, scope, name).0;
                    lemma_merged_entries(base.steps, hook.steps, scope, name, entry_name);
                    lemma_lookup_put(so_far.hooks, name, HookView { steps, ..base }, hook_name);
                },
                None => {
                    assert(has_key(so_far.hooks, hook_name));
                    let h = choose|h: HookView| after.hooks == put(so_far.hooks, name, h);
                    lemma_lookup_put(so_far.hooks, name, h, hook_name);
                },
            }
        }
    }
}

/// A configuration is valid exactly when none of its steps is faulty.
pub proof fn law_valid_means_no_faulty_step(c: ConfigView)
    ensures
        hooks_error(c.hooks) is None <==> (forall|h: int, e: int|
            0 <= h < c.hooks.len() && 0 <= e < c.hooks[h].1.steps.len() ==> entry_sound(
                #[trigger] c.hooks[h].1.steps[e],
            )),
{
    lemma_hooks_error(c.hooks);
}

/// No step of an entry is faulty.
pub open spec fn entry_sound(entry: (Seq<char>, StepOrGroupView)) -> bool {
    match entry.1 {
        StepOrGroupView::Step(step) => step_fault(step) is None,
        StepOrGroupView::Group(group) => forall|i: int|
            0 <= i < group.steps.len() ==> step_fault((#[trigger] group.steps[i]).1) is None,
    }
}

proof fn lemma_group_error(steps: Seq<(Seq<char>, StepView)>, location: Seq<char>)
    ensures
        group_error(steps, location) is None <==> (forall|i: int|
            0 <= i < steps.len() ==> step_fault((#[trigger] steps[i]).1) is None),
    decreases steps.len(),
{
    if steps.len() > 0 {
        let init = steps.drop_last();
        lemma_group_error(init, location);
        assert(steps[steps.len() - 1] == steps.last());
        assert(forall|i: int| 0 <= i < init.len() ==> init[i] == steps[i]);
        if group_error(steps, location) is None {
            assert forall|i: int| 0 <= i < steps.len() implies step_fault(
                (#[trigger] steps[i]).1,
            ) is None by {
                if i < init.len() {
                    assert(init[i] == steps[i]);
                }
            }
        }
    }
}

proof fn lemma_entries_error(entries: Seq<(Seq<char>, StepOrGroupView)>, hook_name: Seq<char>)
    ensures
        entries_error(entries, hook_name) is None <==> (forall|e: int|
            0 <= e < entries.len() ==> entry_sound(#[trigger] entries[e])),
    decreases entries.len(),
{
    if entries.len() > 0 {
        let init = entries.drop_last();
        lemma_entries_error(init, hook_name);
        assert(entries[entries.len() - 1] == entries.last());
        assert(forall|i: int| 0 <= i < init.len() ==> init[i] == entries[i]);
        if let StepOrGroupView::Group(group) = entries.last().1 {
            lemma_group_error(
                group.steps,
                "in group '"@ + entries.last().0 + "' of hook '"@ + hook_name + "'"@,
            );
        }
        if entries_error(entries, hook_name) is None {
            assert forall|e: int| 0 <= e < entries.len() implies entry_sound(
                #[trigger] entries[e],
            ) by {
                if e < init.len() {
                    assert(init[e] == entries[e]);
                }
            }
        }
    }
}

proof fn lemma_hooks_error(hooks: Seq<(Seq<char>, HookView)>)
    ensures
        hooks_error(hooks) is None <==> (forall|h: int, e: int|
            0 <= h < hooks.len() && 0 <= e < hooks[h].1.steps.len() ==> entry_sound(
                #[trigger] hooks[h].1.steps[e],
            )),
    decreases hooks.len(),
{
    if hooks.len() > 0 {
        let init = hooks.drop_last();
        lemma_hooks_error(init);
        lemma_entries_error(hooks.last().1.steps, hooks.last().0);
        assert(forall|i: int| 0 <= i < init.len() ==> init[i] == hooks[i]);
        if hooks_error(hooks) is None {
            assert forall|h: int, e: int|
                0 <= h < hooks.len() && 0 <= e < hooks[h].1.steps.len() implies entry_sound(
                #[trigger] hooks[h].1.steps[e],
            ) by {
                if h < init.len() {
                    assert(entry_sound(init[h].1.steps[e]));
                }
            }
        } else {
            if hooks_error(init) is Some {
                let (h, e) = choose|h: int, e: int|
                    0 <= h < init.len() && 0 <= e < init[h].1.steps.len() && !entry_sound(
                        #[trigger] init[h].1.steps[e],
                    );
                assert(!entry_sound(hooks[h].1.steps[e]));
            } else {
                let e = choose|e: int|
                    0 <= e < hooks.last().1.steps.len() && !entry_sound(
                        #[trigger] hooks.last().1.steps[e],
                    );
                assert(!entry_sound(hooks[hooks.len() - 1].1.steps[e]));
            }
        }
    }
}

/// The default hooks run the top-level entries: `check` checks, `fix` and `pre-commit` fix,
/// and `pre-commit` puts work aside, each unless the hook itself says otherwise. Hooks
/// beside them stay as they are.
pub proof fn law_default_hooks_are_made(c: ConfigView, other: Seq<char>)
    requires
        !c.default_hooks_materialized,
        c.steps.len() > 0,
        other != "check"@ && other != "fix"@ && other != "pre-commit"@,
    ensures
        ({
            let after = materialized(c);
            let check = lookup(after.hooks, "check"@);
            let fix = lookup(after.hooks, "fix"@);
            let commit = lookup(after.hooks, "pre-commit"@);
            &&& check is Some && fix is Some && commit is Some
            &&& hook_or_blank(c.hooks, "check"@).fix is None ==> check->0.fix == Some(false)
            &&& hook_or_blank(c.hooks, "fix"@).fix is None ==> fix->0.fix == Some(true)
            &&& hook_or_blank(c.hooks, "pre-commit"@).fix is None ==> commit->0.fix == Some(true)
            &&& hook_or_blank(c.hooks, "pre-commit"@).stash is None ==> commit->0.stash == Some(
                StashSetting::Method(StashMethod::Git),
            )
            &&& hook_or_blank(c.hooks, "check"@).stash is None ==> check->0.stash is None
            &&& hook_or_blank(c.hooks, "fix"@).stash is None ==> fix->0.stash is None
            &&& lookup(c.hooks, "check"@) matches Some(own) ==> {
                &&& own.fix is Some ==> check->0.fix == own.fix
                &&& check->0.enabled == own.enabled && check->0.stage == own.stage
                    && check->0.fail_on_fix == own.fail_on_fix && check->0.env == own.env
            }
            &&& lookup(c.hooks, "fix"@) matches Some(own) ==> {
                &&& own.fix is Some ==> fix->0.fix == own.fix
                &&& fix->0.enabled == own.enabled && fix->0.env == own.env
            }
            &&& lookup(c.hooks, "pre-commit"@) matches Some(own) ==> {
                &&& own.fix is Some ==> commit->0.fix == own.fix
                &&& own.stash is Some ==> commit->0.stash == own.stash
                &&& commit->0.enabled == own.enabled && commit->0.env == own.env
            }
            &&& lookup(after.hooks, other) == lookup(c.hooks, other)
            &&& after.steps == c.steps && after.env == c.env && after.default_hooks_materialized
        }),
{
    lemma_default_names();
    let stash = Some(StashSetting::Method(StashMethod::Git));
    let c1 = materialized_hook(c, "check"@, Some(false), None);
    let c2 = materialized_hook(c1, "fix"@, Some(true), None);
    lemma_default_hook(c, "check"@, Some(false), None, "check"@);
    lemma_default_hook(c, "check"@, Some(false), None, "fix"@);
    lemma_default_hook(c, "check"@, Some(false), None, "pre-commit"@);
    lemma_default_hook(c, "check"@, Some(false), None, other);
    lemma_default_hook(c1, "fix"@, Some(true), None, "check"@);
    lemma_default_hook(c1, "fix"@, Some(true), None, "fix"@);
    lemma_default_hook(c1, "fix"@, Some(true), None, "pre-commit"@);
    lemma_default_hook(c1, "fix"@, Some(true), None, other);
    lemma_default_hook(c2, "pre-commit"@, Some(true), stash, "check"@);
    lemma_default_hook(c2, "pre-commit"@, Some(true), stash, "fix"@);
    lemma_default_hook(c2, "pre-commit"@, Some(true), stash, "pre-commit"@);
    lemma_default_hook(c2, "pre-commit"@, Some(true), stash, other);
}

proof fn lemma_default_names()
    ensures
        "check"@ != "fix"@,
        "check"@ != "pre-commit"@,
        "fix"@ != "pre-commit"@,
{
    reveal_strlit("check");
    reveal_strlit("fix");
    reveal_strlit("pre-commit");
    assert("check"@.len() == 5 && "fix"@.len() == 3 && "pre-commit"@.len() == 10);
}

proof fn lemma_default_hook(
    c: ConfigView,
    name: Seq<char>,
    fix: Option<bool>,
    stash: Option<StashSetting>,
    x: Seq<char>,
)
    ensures
        ({
            let after = materialized_hook(c, name, fix, stash);
            let own = hook_or_blank(c.hooks, name);
            &&& x != name ==> lookup(after.hooks, x) == lookup(c.hooks, x)
            &&& x == name ==> lookup(after.hooks, x) is Some && ({
                let made = lookup(after.hooks, x)->0;
                &&& made.fix == first_of(own.fix, fix)
                &&& made.stash == first_of(own.stash, stash)
                &&& made.enabled == own.enabled && made.stage == own.stage && made.fail_on_fix
                    == own.fail_on_fix && made.env == own.env
            })
            &&& after.steps == c.steps && after.env == c.env
        }),
{
    let hook = hook_or_blank(c.hooks, name);
    let full = HookView {
        steps: put_all(c.steps, hook.steps),
        fix: first_of(hook.fix, fix),
        stash: first_of(hook.stash, stash),
        ..hook
    };
    lemma_lookup_put(c.hooks, name, initialized_hook(full, name), x);
}

/// A top-level entry that a default hook has no entry of its own for runs in it under its
/// name, with the variables of the hook.
pub proof fn law_top_level_entries_run_in_default_hooks(
    c: ConfigView,
    hook_name: Seq<char>,
    entry: Seq<char>,
)
    requires
        !c.default_hooks_materialized,
        has_key(c.steps, entry),
        hook_name == "check"@ || hook_name == "fix"@ || hook_name == "pre-commit"@,
        !has_key(hook_or_blank(c.hooks, hook_name).steps, entry),
    ensures
        ({
            let result = lookup(materialized(c).hooks, hook_name);
            &&& result is Some
            &&& lookup(result->0.steps, entry) == Some(
                crate::hook::entry_with_env(
                    crate::hook::initialized(lookup(c.steps, entry)->0, entry),
                    hook_or_blank(c.hooks, hook_name).env,
                ),
            )
        }),
{
    lemma_default_names();
    let stash = Some(StashSetting::Method(StashMethod::Git));
    let c1 = materialized_hook(c, "check"@, Some(false), None);
    let c2 = materialized_hook(c1, "fix"@, Some(true), None);
    lemma_position(c.steps, entry);
    lemma_top_level(c, "check"@, Some(false), None, hook_name, entry);
    lemma_top_level(c1, "fix"@, Some(true), None, hook_name, entry);
    lemma_top_level(c2, "pre-commit"@, Some(true), stash, hook_name, entry);
}

proof fn lemma_top_level(
    c: ConfigView,
    name: Seq<char>,
    fix: Option<bool>,
    stash: Option<StashSetting>,
    hook_name: Seq<char>,
    entry: Seq<char>,
)
    requires
        has_key(c.steps, entry),
    ensures
        ({
            let after = materialized_hook(c, name, fix, stash);
            let own = hook_or_blank(c.hooks, name);
            let made = lookup(after.hooks, hook_name);
            &&& after.steps == c.steps
            &&& hook_name != name ==> made == lookup(c.hooks, hook_name)
            &&& hook_name == name && !has_key(own.steps, entry) ==> made is Some && lookup(
                made->0.steps,
                entry,
            ) == Some(
                crate::hook::entry_with_env(
                    crate::hook::initialized(lookup(c.steps, entry)->0, entry),
                    own.env,
                ),
            )
        }),
{
    let hook = hook_or_blank(c.hooks, name);
    let steps = put_all(c.steps, hook.steps);
    let full = HookView {
        steps,
        fix: first_of(hook.fix, fix),
        stash: first_of(hook.stash, stash),
        ..hook
    };
    lemma_lookup_put(c.hooks, name, initialized_hook(full, name), hook_name);
    lemma_lookup_put_all(c.steps, hook.steps, entry);
    let ready = crate::hook::initialized_steps(steps, hook.env);
    lemma_position_keys(steps, ready, entry);
    lemma_position(steps, entry);
}

/// A directory below another is that with a slash between; none, the empty one and `.` are
/// the other itself.
pub proof fn law_directories_are_joined(subdir: Seq<char>, dir: Option<Seq<char>>)
    ensures
        dir is None || dir->0.len() == 0 || dir->0 == seq!['.'] ==> joined_dir(subdir, dir) == subdir,
        dir is Some && dir->0.len() > 0 && dir->0 != seq!['.'] ==> joined_dir(subdir, dir) == subdir
            + seq!['/'] + dir->0,
{
    reveal_strlit("/");
    reveal_strlit(".");
    assert("/"@ =~= seq!['/']);
    assert("."@ =~= seq!['.']);
}

/// An entry of a subproject has a new name and runs below the directory of the subproject;
/// its steps wait for the same entries, under their new names, and keep all else.
pub proof fn law_subproject_entries_are_scoped(
    entry: StepOrGroupView,
    name: Seq<char>,
    scope: Scope,
    i: int,
)
    ensures
        entry is Step ==> ({
            let before = entry->Step_0;
            let r = scoped_entry(entry, name, scope);
            &&& r is Step
            &&& r->Step_0.name == name
            &&& r->Step_0.dir == Some(joined_dir(scope.dir, before.dir))
            &&& r->Step_0.depends.len() == before.depends.len()
            &&& 0 <= i < before.depends.len() ==> r->Step_0.depends[i] == (
            if scope.siblings.contains(before.depends[i]) {
                scope.subdir + seq![':'] + before.depends[i]
            } else {
                before.depends[i]
            })
            &&& r->Step_0 == (StepView {
                name,
                dir: r->Step_0.dir,
                depends: r->Step_0.depends,
                env: r->Step_0.env,
                ..before
            })
        }),
        entry is Group ==> ({
            let before = entry->Group_0;
            let r = scoped_entry(entry, name, scope);
            &&& r is Group
            &&& r->Group_0.name == Some(name)
            &&& r->Group_0.dir == Some(joined_dir(scope.dir, before.dir))
            &&& r->Group_0.steps.len() == before.steps.len()
            &&& 0 <= i < before.steps.len() ==> r->Group_0.steps[i].0 == before.steps[i].0
                && r->Group_0.steps[i].1.dir == Some(joined_dir(scope.dir, before.steps[i].1.dir))
        }),
{
    reveal_strlit(":");
    assert(":"@ =~= seq![':']);
}

/// Every entry of a hook of a subproject joins the hook of the project under its new name,
/// unless that name is taken, which is an error.
pub proof fn law_subproject_entries_are_added(
    into: Seq<(Seq<char>, StepOrGroupView)>,
    entries: Seq<(Seq<char>, StepOrGroupView)>,
    scope: Scope,
    hook_name: Seq<char>,
    i: int,
)
    requires
        0 <= i < entries.len(),
    ensures
        ({
            let (all, failure) = merged_entries(into, entries, scope, hook_name);
            let name = scope.subdir + seq![':'] + entries[i].0;
            &&& failure is None ==> lookup(all, name) == Some(
                scoped_entry(entries[i].1, name, scope),
            )
            &&& failure is None ==> !has_key(into, name)
        }),
    decreases entries.len(),
{
    reveal_strlit(":");
    assert(":"@ =~= seq![':']);
    let init = entries.drop_last();
    let name = scoped_name(scope.subdir, entries[i].0);
    let (so_far, failure) = merged_entries(into, init, scope, hook_name);
    let key = scoped_name(scope.subdir, entries.last().0);
    lemma_merged_entries(into, init, scope, hook_name, name);
    if merged_entries(into, entries, scope, hook_name).1 is None {
        lemma_lookup_put(so_far, key, scoped_entry(entries.last().1, key, scope), name);
        if i < init.len() {
            assert(init[i] == entries[i]);
            law_subproject_entries_are_added(into, init, scope, hook_name, i);
        } else if has_key(into, name) {
            lemma_position(so_far, name);
        }
    }
}

/// Merging fails only where a name is taken: by an entry of the project, or by an earlier
/// one of the subproject.
pub proof fn law_subproject_merges_fail_on_taken_names(
    into: Seq<(Seq<char>, StepOrGroupView)>,
    entries: Seq<(Seq<char>, StepOrGroupView)>,
    scope: Scope,
    hook_name: Seq<char>,
)
    requires
        distinct(entries),
    ensures
        merged_entries(into, entries, scope, hook_name).1 is Some <==> exists|i: int|
            0 <= i < entries.len() && has_key(
                into,
                #[trigger] scoped_name(scope.subdir, entries[i].0),
            ),
    decreases entries.len(),
{
    if entries.len() > 0 {
        let init = entries.drop_last();
        assert(distinct(init)) by {
            assert forall|a: int, b: int| 0 <= a < b < init.len() implies init[a].0 != init[b].0 by {
                assert(entries[a].0 != entries[b].0);
            }
        }
        law_subproject_merges_fail_on_taken_names(into, init, scope, hook_name);
        let n = entries.len() - 1;
        let (so_far, failure) = merged_entries(into, init, scope, hook_name);
        let key = scoped_name(scope.subdir, entries.last().0);
        lemma_merged_entries(into, init, scope, hook_name, key);
        assert(entries[n] == entries.last());
        if failure is Some {
            let i = choose|i: int|
                0 <= i < init.len() && has_key(into, #[trigger] scoped_name(scope.subdir, init[i].0));
            assert(has_key(into, scoped_name(scope.subdir, entries[i].0)));
        } else {
            if has_key(so_far, key) && !has_key(into, key) {
                let i = choose|i: int|
                    0 <= i < init.len() && key == scoped_name(scope.subdir, (#[trigger] init[i]).0);
                lemma_scoped_name_injective(scope.subdir, init[i].0, entries[n].0);
                assert(entries[i].0 != entries[n].0);
            }
            if has_key(into, key) {
                lemma_position(so_far, key);
            }
            if exists|i: int|
                0 <= i < entries.len() && has_key(
                    into,
                    #[trigger] scoped_name(scope.subdir, entries[i].0),
                ) {
                let i = choose|i: int|
                    0 <= i < entries.len() && has_key(
                        into,
                        #[trigger] scoped_name(scope.subdir, entries[i].0),
                    );
                if i < n {
                    assert(has_key(into, scoped_name(scope.subdir, init[i].0)));
                }
            }
        }
    }
}

proof fn lemma_scoped_name_injective(subdir: Seq<char>, a: Seq<char>, b: Seq<char>)
    requires
        scoped_name(subdir, a) == scoped_name(subdir, b),
    ensures
        a == b,
{
    let head = subdir + ":"@;
    let x = scoped_name(subdir, a);
    assert(a =~= x.subrange(head.len() as int, x.len() as int));
    assert(b =~= x.subrange(head.len() as int, x.len() as int));
}

/// The entries of every enabled hook of a subproject run in the hook of that name of the
/// project, whether the project has it or not; a disabled hook adds nothing.
pub proof fn law_subproject_hooks_are_merged(
    c: ConfigView,
    sub: Subproject,
    hooks: Seq<(Seq<char>, HookView)>,
    h: int,
    i: int,
)
    requires
        0 <= h < hooks.len(),
        hooks[h].1.enabled,
        0 <= i < hooks[h].1.steps.len(),
        merged_hooks(c, sub, hooks).1 is None,
    ensures
        ({
            let (name, hook) = hooks[h];
            let scope = Scope {
                subdir: sub.subdir,
                dir: sub.dir,
                hook_env: hook.env,
                config_env: sub.env,
                siblings: keys_of(hook.steps),
            };
            let entry = sub.subdir + seq![':'] + hook.steps[i].0;
            let after = lookup(merged_hooks(c, sub, hooks).0.hooks, name);
            &&& after is Some
            &&& lookup(after->0.steps, entry) == Some(scoped_entry(hook.steps[i].1, entry, scope))
        }),
    decreases hooks.len(),
{
    let init = hooks.drop_last();
    let (so_far, failure) = merged_hooks(c, sub, init);
    let (name, hook) = hooks[h];
    let entry = sub.subdir + seq![':'] + hook.steps[i].0;
    if h < init.len() {
        law_subproject_hooks_are_merged(c, sub, init, h, i);
        assert(init[h] == hooks[h]);
        let (other, last) = hooks.last();
        let one = seq![hooks.last()];
        assert(one.drop_last() =~= Seq::<(Seq<char>, HookView)>::empty());
        assert(one.last() == hooks.last());
        reveal_with_fuel(merged_hooks, 2);
        assert(merged_hooks(so_far, sub, one) == merged_hook(so_far, sub, other, last));
        lemma_position(lookup(so_far.hooks, name)->0.steps, entry);
        assert(has_key(lookup(so_far.hooks, name)->0.steps, entry));
        lemma_merged_hooks_keep(so_far, sub, one, name, entry);
    } else {
        let scope = Scope {
            subdir: sub.subdir,
            dir: sub.dir,
            hook_env: hook.env,
            config_env: sub.env,
            siblings: keys_of(hook.steps),
        };
        let implicit = sub.implicit.contains(name);
        let base = match lookup(so_far.hooks, name) {
            Some(b) => b,
            None => if implicit {
                HookView {
                    fix: hook.fix,
                    stage: hook.stage,
                    stash: hook.stash,
                    ..blank_hook(name)
                }
            } else {
                blank_hook(name)
            },
        };
        law_subproject_entries_are_added(base.steps, hook.steps, scope, name, i);
        let steps = merged_entries(base.steps, hook.steps, scope, name).0;
        lemma_lookup_put(so_far.hooks, name, HookView { steps, ..base }, name);
    }
}

/// A disabled hook of a subproject changes nothing.
pub proof fn law_disabled_subproject_hooks_add_nothing(
    c: ConfigView,
    sub: Subproject,
    name: Seq<char>,
    hook: HookView,
)
    requires
        !hook.enabled,
    ensures
        merged_hook(c, sub, name, hook) == (c, None::<Seq<char>>),
{
}

/// A setting of a user in configuration form counts where the project says nothing, and
/// only there.
pub proof fn law_user_settings_are_fallbacks(c: ConfigView, user: ConfigView)
    ensures
        ({
            let r = merged_hkrc(c, user);
            &&& c.fail_fast is Some ==> r.fail_fast == c.fail_fast
            &&& c.fail_fast is None ==> r.fail_fast == user.fail_fast
            &&& c.stage is Some ==> r.stage == c.stage
            &&& c.stage is None ==> r.stage == user.stage
            &&& c.exclude is Some ==> r.exclude == c.exclude
            &&& c.exclude is None ==> r.exclude == user.exclude
            &&& c.profiles is Some ==> r.profiles == c.profiles
            &&& c.profiles is None ==> r.profiles == user.profiles
            &&& c.skip_hooks is Some ==> r.skip_hooks == c.skip_hooks
            &&& c.skip_hooks is None ==> r.skip_hooks == user.skip_hooks
            &&& c.skip_steps is Some ==> r.skip_steps == c.skip_steps
            &&& c.skip_steps is None ==> r.skip_steps == user.skip_steps
            &&& c.warnings is Some ==> r.warnings == c.warnings
            &&& c.warnings is None ==> r.warnings == user.warnings
            &&& c.hide_warnings is Some ==> r.hide_warnings == c.hide_warnings
            &&& c.hide_warnings is None ==> r.hide_warnings == user.hide_warnings
            &&& c.display_skip_reasons is Some ==> r.display_skip_reasons
                == c.display_skip_reasons
            &&& c.display_skip_reasons is None ==> r.display_skip_reasons
                == user.display_skip_reasons
            &&& c.default_branch is Some ==> r.default_branch == c.default_branch
            &&& c.default_branch is None ==> r.default_branch == user.default_branch
            &&& c.min_hk_version is Some ==> r.min_hk_version == c.min_hk_version
            &&& c.min_hk_version is None ==> r.min_hk_version == user.min_hk_version
            &&& c.walk_ignore is Some ==> r.walk_ignore == c.walk_ignore
            &&& c.walk_ignore is None ==> r.walk_ignore == user.walk_ignore
            &&& c.terminal_progress is Some ==> r.terminal_progress == c.terminal_progress
            &&& c.terminal_progress is None ==> r.terminal_progress == user.terminal_progress
            &&& c.stash_backup_count is Some ==> r.stash_backup_count == c.stash_backup_count
            &&& c.stash_backup_count is None ==> r.stash_backup_count == user.stash_backup_count
            &&& r.path == c.path && r.subprojects == c.subprojects
        }),
{
}

/// A hook that only the user has is taken over as it is; to an enabled one that both have
/// the user adds every entry whose name is free.
pub proof fn law_user_hooks_are_added(
    hooks: Seq<(Seq<char>, HookView)>,
    user: Seq<(Seq<char>, HookView)>,
    h: int,
    entry: Seq<char>,
)
    requires
        distinct(user),
        0 <= h < user.len(),
        distinct(user[h].1.steps),
    ensures
        ({
            let (name, hook) = user[h];
            let after = lookup(merged_user_hooks(hooks, user), name);
            let own = lookup(hooks, name);
            &&& own is None ==> after == Some(hook)
            &&& own is Some && hook.enabled ==> after is Some && lookup(after->0.steps, entry) == (
            if has_key(own->0.steps, entry) {
                lookup(own->0.steps, entry)
            } else {
                lookup(hook.steps, entry)
            })
            &&& own is Some ==> after == Some(HookView { steps: after->0.steps, ..own->0 })
        }),
    decreases user.len(),
{
    let init = user.drop_last();
    let (name, hook) = user[h];
    let before = merged_user_hooks(hooks, init);
    let (other, last) = user.last();
    assert(distinct(init)) by {
        assert forall|a: int, b: int| 0 <= a < b < init.len() implies init[a].0 != init[b].0 by {
            assert(user[a].0 != user[b].0);
        }
    }
    if h < init.len() {
        assert(init[h] == user[h]);
        law_user_hooks_are_added(hooks, init, h, entry);
        assert(user[h].0 != user[user.len() - 1].0);
        match lookup(before, other) {
            Some(own) => {
                lemma_lookup_put(
                    before,
                    other,
                    HookView { steps: put_all_new(own.steps, last.steps), ..own },
                    name,
                );
            },
            None => {
                lemma_lookup_push(before, other, last, name);
                lemma_lookup_put(before, other, last, name);
            },
        }
    } else {
        lemma_user_hooks_absent(hooks, init, name);
        match lookup(before, name) {
            Some(own) => {
                lemma_lookup_put(
                    before,
                    name,
                    HookView { steps: put_all_new(own.steps, hook.steps), ..own },
                    name,
                );
                lemma_lookup_put_all_new(own.steps, hook.steps, entry);
            },
            None => {
                lemma_lookup_push(before, name, hook, name);
                lemma_lookup_put(before, name, hook, name);
            },
        }
    }
}

proof fn lemma_user_hooks_absent(
    hooks: Seq<(Seq<char>, HookView)>,
    user: Seq<(Seq<char>, HookView)>,
    name: Seq<char>,
)
    requires
        forall|i: int| 0 <= i < user.len() ==> (#[trigger] user[i]).0 != name,
    ensures
        lookup(merged_user_hooks(hooks, user), name) == lookup(hooks, name),
    decreases user.len(),
{
    if user.len() > 0 {
        let init = user.drop_last();
        assert forall|i: int| 0 <= i < init.len() implies (#[trigger] init[i]).0 != name by {
            assert(user[i].0 != name);
        }
        lemma_user_hooks_absent(hooks, init, name);
        let before = merged_user_hooks(hooks, init);
        let (other, last) = user.last();
        assert(user[user.len() - 1].0 != name);
        match lookup(before, other) {
            Some(own) => {
                lemma_lookup_put(
                    before,
                    other,
                    HookView { steps: put_all_new(own.steps, last.steps), ..own },
                    name,
                );
            },
            None => {
                lemma_lookup_push(before, other, last, name);
                lemma_lookup_put(before, other, last, name);
            },
        }
    }
}

/// What a user sets in the form of their own wins over the project, and what they leave
/// open stays; their variables win too.
pub proof fn law_own_user_settings_win(c: ConfigView, user: UserConfigView, variable: Seq<char>)
    requires
        distinct(user.environment),
    ensures
        ({
            let r = user_applied(c, user);
            &&& user.stage is Some ==> r.stage == user.stage
            &&& user.stage is None ==> r.stage == c.stage
            &&& user.warnings is Some ==> r.warnings == user.warnings
            &&& user.warnings is None ==> r.warnings == c.warnings
            &&& user.hide_warnings is Some ==> r.hide_warnings == user.hide_warnings
            &&& user.hide_warnings is None ==> r.hide_warnings == c.hide_warnings
            &&& user.display_skip_reasons is Some ==> r.display_skip_reasons
                == user.display_skip_reasons
            &&& user.display_skip_reasons is None ==> r.display_skip_reasons
                == c.display_skip_reasons
            &&& lookup(r.env, variable) == if has_key(user.environment, variable) {
                lookup(user.environment, variable)
            } else {
                lookup(c.env, variable)
            }
            &&& r.fail_fast == c.fail_fast && r.exclude == c.exclude && r.steps == c.steps
        }),
{
    lemma_lookup_put_all(c.env, user.environment, variable);
}

/// The settings of a user for a step: a glob, excludes and profiles of theirs replace those
/// of the step, variables of theirs add to those of the step, and all else stays.
pub proof fn law_user_steps_are_changed_as_asked(
    step: StepView,
    hook: UserHookConfigView,
    own: Option<UserStepConfigView>,
    variable: Seq<char>,
)
    requires
        distinct(hook.environment),
        own is Some ==> distinct(own->0.environment),
    ensures
        ({
            let r = user_step(step, hook, own);
            &&& own is Some && own->0.glob is Some ==> r.glob == own->0.glob && r.match_any is None
            &&& own is None || own->0.glob is None ==> r.glob == step.glob && r.match_any
                == step.match_any
            &&& own is Some && own->0.exclude is Some ==> r.exclude == own->0.exclude
            &&& own is None || own->0.exclude is None ==> r.exclude == step.exclude
            &&& own is Some && own->0.profiles is Some ==> r.profiles == own->0.profiles
            &&& own is None || own->0.profiles is None ==> r.profiles == step.profiles
            &&& lookup(r.env, variable) == if has_key(step.env, variable) {
                lookup(step.env, variable)
            } else if has_key(hook.environment, variable) {
                lookup(hook.environment, variable)
            } else if own is Some {
                lookup(own->0.environment, variable)
            } else {
                None
            }
            &&& r.check == step.check && r.fix == step.fix && r.name == step.name && r.dir
                == step.dir && r.stage == step.stage
        }),
{
    lemma_lookup_put_all_new(step.env, hook.environment, variable);
    if own is Some {
        lemma_lookup_put_all_new(
            put_all_new(step.env, hook.environment),
            own->0.environment,
            variable,
        );
    }
}

/// The settings of a user for a hook reach every step of it, also those in groups; hooks
/// that the user says nothing of stay.
pub proof fn law_user_settings_reach_every_step(
    name: Seq<char>,
    entry: StepOrGroupView,
    hook: UserHookConfigView,
    i: int,
)
    ensures
        entry is Step ==> user_entry(name, entry, hook) == StepOrGroupView::Step(
            user_step(entry->Step_0, hook, lookup(hook.steps, name)),
        ),
        entry is Group && 0 <= i < entry->Group_0.steps.len() ==> ({
            let r = user_entry(name, entry, hook);
            let (key, step) = entry->Group_0.steps[i];
            &&& r is Group
            &&& r->Group_0.steps.len() == entry->Group_0.steps.len()
            &&& r->Group_0.steps[i] == (key, user_step(step, hook, lookup(hook.steps, key)))
        }),
{
}

/// The settings of a user change the hooks that they name, entry by entry, and no other.
pub proof fn law_user_settings_reach_their_hooks(
    hooks: Seq<(Seq<char>, HookView)>,
    user: Seq<(Seq<char>, UserHookConfigView)>,
    name: Seq<char>,
    i: int,
)
    requires
        distinct(user),
        has_key(hooks, name),
    ensures
        ({
            let own = lookup(hooks, name)->0;
            let after = lookup(user_hooks(hooks, user), name);
            &&& after is Some
            &&& lookup(user, name) is None ==> after == Some(own)
            &&& lookup(user, name) matches Some(settings) ==> after->0.steps.len()
                == own.steps.len() && (0 <= i < own.steps.len() ==> after->0.steps[i] == (
                own.steps[i].0,
                user_entry(own.steps[i].0, own.steps[i].1, settings),
            ))
        }),
    decreases user.len(),
{
    if user.len() > 0 {
        let init = user.drop_last();
        assert(distinct(init)) by {
            assert forall|a: int, b: int| 0 <= a < b < init.len() implies init[a].0 != init[b].0 by {
                assert(user[a].0 != user[b].0);
            }
        }
        law_user_settings_reach_their_hooks(hooks, init, name, i);
        let before = user_hooks(hooks, init);
        let (other, settings) = user.last();
        if let Some(hook) = lookup(before, other) {
            let changed = HookView {
                steps: hook.steps.map_values(
                    |e: (Seq<char>, StepOrGroupView)| (e.0, user_entry(e.0, e.1, settings)),
                ),
                ..hook
            };
            lemma_lookup_put(before, other, changed, name);
        }
        lemma_position(init, name);
        if other == name {
            assert(lookup(init, name) is None) by {
                if has_key(init, name) {
                    assert(user[position(init, name)].0 == user[user.len() - 1].0);
                }
            }
        } else {
            assert(lookup(user, name) == lookup(init, name));
        }
    }
}

/// A step is sound exactly where it stages only if it fixes, and where it selects files by
/// `match_any` without a glob or types beside it, with at least one selector, each of which
/// names a glob or types and leaves neither empty.
pub proof fn law_sound_steps(step: StepView)
    ensures
        step_fault(step) is None <==> {
            &&& step.stage is Some ==> step.fix is Some
            &&& step.match_any matches Some(selectors) ==> {
                &&& step.glob is None && step.types is None
                &&& selectors.len() > 0
                &&& forall|i: int| 0 <= i < selectors.len() ==> sound_selector(#[trigger] selectors[i])
            }
        },
{
    if let Some(selectors) = step.match_any {
        lemma_selectors(selectors);
    }
}

/// A selector names a glob or types, and leaves neither empty.
pub open spec fn sound_selector(s: SelectorView) -> bool {
    &&& s.glob is Some || s.types is Some
    &&& s.glob is Some ==> !s.glob->0.is_empty()
    &&& s.types is Some ==> s.types->0.len() > 0
}

proof fn lemma_selectors(selectors: Seq<SelectorView>)
    ensures
        selectors_fault(selectors) is None <==> forall|i: int|
            0 <= i < selectors.len() ==> sound_selector(#[trigger] selectors[i]),
    decreases selectors.len(),
{
    if selectors.len() > 0 {
        let init = selectors.drop_last();
        lemma_selectors(init);
        let n = selectors.len() - 1;
        if selectors_fault(selectors) is None {
            assert forall|i: int| 0 <= i < selectors.len() implies sound_selector(
                #[trigger] selectors[i],
            ) by {
                if i < n {
                    assert(sound_selector(init[i]));
                }
            }
        }
        if forall|i: int| 0 <= i < selectors.len() ==> sound_selector(#[trigger] selectors[i]) {
            assert forall|i: int| 0 <= i < init.len() implies sound_selector(#[trigger] init[i]) by {
                assert(sound_selector(selectors[i]));
            }
            assert(sound_selector(selectors[n]));
        }
    }
}

/// A configuration that lies below the root of the work tree runs every step of every hook
/// in its own directory or below; one that lies at the root runs them as they say.
pub proof fn law_configs_run_in_their_directory(
    c: ConfigView,
    subdir: Option<Seq<char>>,
    h: int,
    e: int,
    i: int,
)
    requires
        0 <= h < materialized(c).hooks.len(),
        0 <= e < materialized(c).hooks[h].1.steps.len(),
    ensures
        subdir is None ==> config_below(c, subdir) == materialized(c),
        subdir matches Some(dir) ==> ({
            let before = materialized(c).hooks[h].1.steps[e];
            let hook = config_below(c, subdir).hooks[h];
            let after = hook.1.steps[e];
            &&& hook.0 == materialized(c).hooks[h].0
            &&& after.0 == before.0
            &&& before.1 is Step ==> after.1 == StepOrGroupView::Step(
                StepView { dir: Some(joined_dir(dir, before.1->Step_0.dir)), ..before.1->Step_0 },
            )
            &&& before.1 is Group && 0 <= i < before.1->Group_0.steps.len() ==> after.1 is Group
                && after.1->Group_0.dir == Some(joined_dir(dir, before.1->Group_0.dir))
                && after.1->Group_0.steps[i] == (
                before.1->Group_0.steps[i].0,
                StepView {
                    dir: Some(joined_dir(dir, before.1->Group_0.steps[i].1.dir)),
                    ..before.1->Group_0.steps[i].1
                },
            )
        }),
{
}

/// The variables that the settings of a user let the process export are theirs, without
/// those that the project sets.
pub proof fn law_only_new_variables_are_exported(
    env: Seq<(Seq<char>, Seq<char>)>,
    more: Seq<(Seq<char>, Seq<char>)>,
    pair: (Seq<char>, Seq<char>),
)
    ensures
        new_pairs(env, more).contains(pair) <==> more.contains(pair) && !has_key(env, pair.0),
    decreases more.len(),
{
    if more.len() > 0 {
        let init = more.drop_last();
        law_only_new_variables_are_exported(env, init, pair);
        crate::seqs::lemma_last_or_before(more, pair);
        crate::seqs::lemma_pushed(new_pairs(env, init), more.last(), pair);
    }
}

/// A hook that only a subproject has keeps how it fixes, stages and puts work aside where it
/// is one of those that come by themselves; one that is written out starts blank. A hook that
/// is there keeps all but its entries, and every other hook stays.
pub proof fn law_new_subproject_hooks_start_blank(
    c: ConfigView,
    sub: Subproject,
    name: Seq<char>,
    hook: HookView,
    other: Seq<char>,
)
    requires
        hook.enabled,
        other != name,
    ensures
        ({
            let after = lookup(merged_hook(c, sub, name, hook).0.hooks, name);
            &&& after is Some
            &&& lookup(c.hooks, name) matches Some(h) ==> after->0 == (HookView {
                steps: after->0.steps,
                ..h
            })
            &&& lookup(c.hooks, name) is None && sub.implicit.contains(name) ==> after->0.fix == hook.fix
                && after->0.stage == hook.stage && after->0.stash == hook.stash
            &&& lookup(c.hooks, name) is None && !sub.implicit.contains(name) ==> after->0.fix is None
                && after->0.stage is None && after->0.stash is None
            &&& lookup(merged_hook(c, sub, name, hook).0.hooks, other) == lookup(c.hooks, other)
        }),
{
    let after = merged_hook(c, sub, name, hook).0.hooks;
    let base = match lookup(c.hooks, name) {
        Some(h) => h,
        None => if sub.implicit.contains(name) {
            HookView { fix: hook.fix, stage: hook.stage, stash: hook.stash, ..blank_hook(name) }
        } else {
            blank_hook(name)
        },
    };
    let scope = Scope {
        subdir: sub.subdir,
        dir: sub.dir,
        hook_env: hook.env,
        config_env: sub.env,
        siblings: keys_of(hook.steps),
    };
    let steps = merged_entries(base.steps, hook.steps, scope, name).0;
    lemma_lookup_put(c.hooks, name, HookView { steps, ..base }, name);
    lemma_lookup_put(c.hooks, name, HookView { steps, ..base }, other);
}

/// Of the faulty entries of a hook the first is told, and of the hooks with faults the first.
pub proof fn law_the_first_fault_is_told(
    entries: Seq<(Seq<char>, StepOrGroupView)>,
    hook_name: Seq<char>,
    i: int,
)
    requires
        0 <= i < entries.len(),
        !entry_sound(entries[i]),
        forall|k: int| 0 <= k < i ==> entry_sound(#[trigger] entries[k]),
    ensures
        entries_error(entries, hook_name) is Some,
        entries_error(entries, hook_name) == entry_error(entries[i], hook_name),
    decreases entries.len(),
{
    let init = entries.drop_last();
    lemma_entries_error(entries, hook_name);
    if i < init.len() {
        assert(init[i] == entries[i]);
        assert forall|k: int| 0 <= k < i implies entry_sound(#[trigger] init[k]) by {
            assert(entry_sound(entries[k]));
        }
        law_the_first_fault_is_told(init, hook_name, i);
    } else {
        lemma_entries_error(init, hook_name);
        assert forall|k: int| 0 <= k < init.len() implies entry_sound(#[trigger] init[k]) by {
            assert(entry_sound(entries[k]));
        }
    }
}

/// Of the hooks with a fault the first is told.
pub proof fn law_the_first_faulty_hook_is_told(hooks: Seq<(Seq<char>, HookView)>, h: int)
    requires
        0 <= h < hooks.len(),
        entries_error(hooks[h].1.steps, hooks[h].0) is Some,
        forall|k: int|
            0 <= k < h ==> entries_error((#[trigger] hooks[k]).1.steps, hooks[k].0) is None,
    ensures
        hooks_error(hooks) == entries_error(hooks[h].1.steps, hooks[h].0),
    decreases hooks.len(),
{
    let init = hooks.drop_last();
    if h < init.len() {
        assert(init[h] == hooks[h]);
        assert forall|k: int| 0 <= k < h implies entries_error(
            (#[trigger] init[k]).1.steps,
            init[k].0,
        ) is None by {
            assert(entries_error(hooks[k].1.steps, hooks[k].0) is None);
        }
        law_the_first_faulty_hook_is_told(init, h);
    } else {
        assert forall|k: int| 0 <= k < init.len() implies entries_error(
            (#[trigger] init[k]).1.steps,
            init[k].0,
        ) is None by {
            assert(entries_error(hooks[k].1.steps, hooks[k].0) is None);
        }
        lemma_faultless_hooks(init);
    }
}

proof fn lemma_faultless_hooks(hooks: Seq<(Seq<char>, HookView)>)
    requires
        forall|k: int|
            0 <= k < hooks.len() ==> entries_error((#[trigger] hooks[k]).1.steps, hooks[k].0) is None,
    ensures
        hooks_error(hooks) is None,
    decreases hooks.len(),
{
    if hooks.len() > 0 {
        let init = hooks.drop_last();
        assert forall|k: int| 0 <= k < init.len() implies entries_error(
            (#[trigger] init[k]).1.steps,
            init[k].0,
        ) is None by {
            assert(entries_error(hooks[k].1.steps, hooks[k].0) is None);
        }
        lemma_faultless_hooks(init);
        let n = hooks.len() - 1;
        assert(entries_error(hooks[n].1.steps, hooks[n].0) is None);
    }
}

/// What is said of a faulty step names it, where it stands, and the fault.
pub proof fn law_faults_name_the_step(step: StepView, name: Seq<char>, location: Seq<char>)
    requires
        step_fault(step) is Some,
    ensures
        step_error(step, name, location) is Some,
        crate::text::has_text(step_error(step, name, location)->0, name),
        crate::text::has_text(step_error(step, name, location)->0, location),
        crate::text::has_text(step_error(step, name, location)->0, step_fault(step)->0),
{
    crate::text::lemma_five_stand("Step '"@, name, "' "@, location, step_fault(step)->0);
}

} // verus!
