//! Groups of steps: what a group hands down to its steps, and how the steps
//! of a hook are split into groups that run one after the other.

use vstd::prelude::*;
use crate::hook::{StepOrGroup, StepOrGroupView};
use crate::seqs::{opt_text, opt_texts, opt_view, texts, views};
use crate::step::{
    CommandPrefix, CommandPrefixView, Pattern, PatternView, RunType, Script, ScriptView, Step,
    StepView,
};
use crate::table::{
    distinct, dup_option, has_key, lemma_lookup_put_all_new, lemma_position, lookup, put,
    put_all_new, Dup, NameSet, Table,
};
use crate::text::{dup_opt, dup_opt_list};

verus! {

broadcast use crate::seqs::group_text;

/// Steps that run together, with settings that they share.
pub struct StepGroup {
    pub name: Option<String>,
    pub workspace_indicator: Option<String>,
    pub prefix: Option<CommandPrefix>,
    pub dir: Option<String>,
    pub shell: Option<Script>,
    pub stage: Option<Vec<String>>,
    pub exclude: Option<Pattern>,
    pub steps: Table<Step>,
}

/// What [`StepGroup`] stands for.
pub struct StepGroupView {
    pub name: Option<Seq<char>>,
    pub workspace_indicator: Option<Seq<char>>,
    pub prefix: Option<CommandPrefixView>,
    pub dir: Option<Seq<char>>,
    pub shell: Option<ScriptView>,
    pub stage: Option<Seq<Seq<char>>>,
    pub exclude: Option<PatternView>,
    pub steps: Seq<(Seq<char>, StepView)>,
}

impl View for StepGroup {
    type V = StepGroupView;

    open spec fn view(&self) -> StepGroupView {
        StepGroupView {
            name: opt_text(self.name),
            workspace_indicator: opt_text(self.workspace_indicator),
            prefix: opt_view(self.prefix),
            dir: opt_text(self.dir),
            shell: opt_view(self.shell),
            stage: opt_texts(self.stage),
            exclude: opt_view(self.exclude),
            steps: self.steps@,
        }
    }
}

impl Dup for StepGroup {
    fn dup(&self) -> (r: Self) {
        StepGroup {
            name: dup_opt(&self.name),
            workspace_indicator: dup_opt(&self.workspace_indicator),
            prefix: dup_option(&self.prefix),
            dir: dup_opt(&self.dir),
            shell: dup_option(&self.shell),
            stage: dup_opt_list(&self.stage),
            exclude: dup_option(&self.exclude),
            steps: self.steps.dup(),
        }
    }
}

/// A group that holds `steps` and shares nothing.
pub open spec fn plain_group(steps: Seq<(Seq<char>, StepView)>) -> StepGroupView {
    StepGroupView {
        name: None,
        workspace_indicator: None,
        prefix: None,
        dir: None,
        shell: None,
        stage: None,
        exclude: None,
        steps,
    }
}

/// The first of two optional values that is there.
pub open spec fn first_of<T>(a: Option<T>, b: Option<T>) -> Option<T> {
    if a is Some {
        a
    } else {
        b
    }
}

/// A step of a group under the name `name`: what the step leaves open it has
/// from the group, and an empty `exclude` counts as left open.
pub open spec fn inherited(step: StepView, group: StepGroupView, name: Seq<char>) -> StepView {
    StepView {
        name,
        workspace_indicator: first_of(step.workspace_indicator, group.workspace_indicator),
        prefix: first_of(step.prefix, group.prefix),
        dir: first_of(step.dir, group.dir),
        shell: first_of(step.shell, group.shell),
        stage: first_of(step.stage, group.stage),
        exclude: if step.exclude is Some && !step.exclude->0.is_empty() {
            step.exclude
        } else {
            group.exclude
        },
        ..step
    }
}

/// A group under the name `name`, with its settings handed down to its steps.
pub open spec fn initialized_group(group: StepGroupView, name: Seq<char>) -> StepGroupView {
    StepGroupView {
        name: Some(name),
        steps: group.steps.map_values(
            |e: (Seq<char>, StepView)| (e.0, inherited(e.1, group, e.0)),
        ),
        ..group
    }
}

/// A step with every variable of `env` that it does not set itself.
pub open spec fn step_with_env(step: StepView, env: Seq<(Seq<char>, Seq<char>)>) -> StepView {
    StepView { env: put_all_new(step.env, env), ..step }
}

/// A group whose steps have every variable of `env` that they do not set themselves.
pub open spec fn group_with_env(
    group: StepGroupView,
    env: Seq<(Seq<char>, Seq<char>)>,
) -> StepGroupView {
    StepGroupView {
        steps: group.steps.map_values(
            |e: (Seq<char>, StepView)| (e.0, step_with_env(e.1, env)),
        ),
        ..group
    }
}

impl Default for StepGroup {
    fn default() -> (r: Self)
        ensures
            r@ == plain_group(seq![]),
    {
        let r = StepGroup {
            name: None,
            workspace_indicator: None,
            prefix: None,
            dir: None,
            shell: None,
            stage: None,
            exclude: None,
            steps: Table::new(),
        };
        assert(r@.steps =~= seq![]);
        r
    }
}

impl Step {
    /// Takes over what the step leaves open from its group.
    pub fn inherit(&mut self, group: &StepGroup, name: &str)
        ensures
            final(self)@ == inherited(old(self)@, group@, name@),
    {
        self.name = name.to_owned();
        if self.workspace_indicator.is_none() {
            self.workspace_indicator = dup_opt(&group.workspace_indicator);
        }
        if self.prefix.is_none() {
            self.prefix = dup_option(&group.prefix);
        }
        if self.dir.is_none() {
            self.dir = dup_opt(&group.dir);
        }
        if self.shell.is_none() {
            self.shell = dup_option(&group.shell);
        }
        if self.stage.is_none() {
            self.stage = dup_opt_list(&group.stage);
        }
        let open = match &self.exclude {
            Some(p) => p.is_empty(),
            None => true,
        };
        if open {
            self.exclude = dup_option(&group.exclude);
        }
    }

    /// Sets every variable of `env` that the step does not set itself.
    pub fn default_env(&mut self, env: &Table<String>)
        ensures
            final(self)@ == step_with_env(old(self)@, env@),
    {
        self.env.extend_new(env);
    }
}

impl StepGroup {
    /// Names the group and hands its settings down to its steps.
    pub fn init(&mut self, name: &str)
        ensures
            final(self)@ == initialized_group(old(self)@, name@),
    {
        let ghost g = self@;
        self.name = Some(name.to_owned());
        let mut steps: Table<Step> = Table::new();
        core::mem::swap(&mut self.steps, &mut steps);
        let ghost from = steps@;
        let entries = steps.into_entries();
        let ghost es = entries@;
        let mut out: Table<Step> = Table::new();
        let ghost f = |e: (Seq<char>, StepView)| (e.0, inherited(e.1, g, e.0));
        for entry in it: entries
            invariant
                it.seq() == es,
                es.len() == from.len(),
                distinct(from),
                from == g.steps,
                self@ == (StepGroupView { name: Some(name@), steps: seq![], ..g }),
                f == (|e: (Seq<char>, StepView)| (e.0, inherited(e.1, g, e.0))),
                forall|i: int|
                    0 <= i < es.len() ==> (#[trigger] es[i]).0@ == from[i].0 && es[i].1@ == from[i].1,
                out@ =~= from.take(it.index()).map_values(f),
        {
            let ghost i = it.index();
            assert(entry == es[i]);
            let (key, mut step) = entry;
            step.inherit(self, key.as_str());
            proof {
                lemma_position(out@, key@);
                assert(step@ == f(from[i]).1);
            }
            out.insert(key, step);
        }
        self.steps = out;
        assert(self@.steps =~= g.steps.map_values(f));
    }

    /// Sets in each step every variable of `env` that the step does not set itself.
    pub fn default_env(&mut self, env: &Table<String>)
        ensures
            final(self)@ == group_with_env(old(self)@, env@),
    {
        let ghost g = self@;
        let mut steps: Table<Step> = Table::new();
        core::mem::swap(&mut self.steps, &mut steps);
        let ghost from = steps@;
        let entries = steps.into_entries();
        let ghost es = entries@;
        let mut out: Table<Step> = Table::new();
        let ghost f = |e: (Seq<char>, StepView)| (e.0, step_with_env(e.1, env@));
        for entry in it: entries
            invariant
                it.seq() == es,
                es.len() == from.len(),
                distinct(from),
                f == (|e: (Seq<char>, StepView)| (e.0, step_with_env(e.1, env@))),
                forall|i: int|
                    0 <= i < es.len() ==> (#[trigger] es[i]).0@ == from[i].0 && es[i].1@ == from[i].1,
                out@ =~= from.take(it.index()).map_values(f),
        {
            let ghost i = it.index();
            assert(entry == es[i]);
            let (key, mut step) = entry;
            step.default_env(env);
            proof {
                lemma_position(out@, key@);
                assert(step@ == f(from[i]).1);
            }
            out.insert(key, step);
        }
        self.steps = out;
        assert(self@.steps =~= g.steps.map_values(f));
    }
}

/// The groups so far with one more step: the step joins the last group, and
/// an exclusive step gets a group of its own.
pub open spec fn with_step(
    groups: Seq<Seq<(Seq<char>, StepView)>>,
    step: StepView,
) -> Seq<Seq<(Seq<char>, StepView)>> {
    let opened = if step.exclusive || groups.len() == 0 {
        groups.push(seq![])
    } else {
        groups
    };
    let filled = opened.update(opened.len() - 1, put(opened.last(), step.name, step));
    if step.exclusive {
        filled.push(seq![])
    } else {
        filled
    }
}

/// The entries of a hook split into groups, some of which may be empty.
pub open spec fn grouped(entries: Seq<StepOrGroupView>) -> Seq<Seq<(Seq<char>, StepView)>>
    decreases entries.len(),
{
    if entries.len() == 0 {
        seq![]
    } else {
        let before = grouped(entries.drop_last());
        match entries.last() {
            StepOrGroupView::Group(group) => before.push(group.steps),
            StepOrGroupView::Step(step) => with_step(before, step),
        }
    }
}

/// The groups that are not empty, in order, as groups that share nothing.
pub open spec fn filled_groups(
    groups: Seq<Seq<(Seq<char>, StepView)>>,
) -> Seq<StepGroupView>
    decreases groups.len(),
{
    if groups.len() == 0 {
        seq![]
    } else {
        let before = filled_groups(groups.drop_last());
        if groups.last().len() == 0 {
            before
        } else {
            before.push(plain_group(groups.last()))
        }
    }
}

impl StepGroup {
    /// Splits the entries of a hook into the groups that run one after the other.
    pub fn build_all(steps: Vec<StepOrGroup>) -> (r: Vec<StepGroup>)
        ensures
            views(r@) == filled_groups(grouped(views(steps@))),
    {
        let ghost all = views(steps@);
        let ghost ss = steps@;
        let mut groups: Vec<Table<Step>> = Vec::new();
        assert(views(groups@) =~= grouped(all.take(0)));
        for entry in it: steps
            invariant
                it.seq() == ss,
                all == views(ss),
                views(groups@) == grouped(all.take(it.index())),
        {
            let ghost i = it.index();
            let ghost before = views(groups@);
            assert(entry == ss[i]);
            assert(entry@ == all[i]);
            match entry {
                StepOrGroup::Group(group) => {
                    let g = *group;
                    groups.push(g.steps);
                },
                StepOrGroup::Step(step) => {
                    let step = *step;
                    let ghost s = step@;
                    let exclusive = step.exclusive;
                    if exclusive || groups.len() == 0 {
                        groups.push(Table::new());
                    }
                    let ghost opened = views(groups@);
                    let mut last = match groups.pop() {
                        Some(t) => t,
                        None => Table::new(),
                    };
                    let key = step.name.clone();
                    last.insert(key, step);
                    let ghost l = last@;
                    groups.push(last);
                    proof {
                        assert(views(groups@) =~= opened.update(opened.len() - 1, l));
                    }
                    if exclusive {
                        groups.push(Table::new());
                    }
                    assert(views(groups@) =~= with_step(before, s));
                },
            }
        }
        let ghost gs = groups@;
        let ghost gv = views(groups@);
        let mut out: Vec<StepGroup> = Vec::new();
        assert(views(out@) =~= filled_groups(gv.take(0)));
        for steps in it: groups
            invariant
                it.seq() == gs,
                gv == views(gs),
                views(out@) == filled_groups(gv.take(it.index())),
        {
            let ghost i = it.index();
            assert(steps == gs[i]);
            assert(steps@ == gv[i]);
            if !steps.is_empty() {
                let mut group = StepGroup::default();
                group.steps = steps;
                out.push(group);
            }
        }
        out
    }
}

/// How often `file` stands in the lists.
pub open spec fn occurrences(lists: Seq<Seq<Seq<char>>>, file: Seq<char>) -> nat
    decreases lists.len(),
{
    if lists.len() == 0 {
        0
    } else {
        occurrences(lists.drop_last(), file) + times(lists.last(), file)
    }
}

/// How often `x` stands in `s`.
pub open spec fn times(s: Seq<Seq<char>>, x: Seq<char>) -> nat
    decreases s.len(),
{
    if s.len() == 0 {
        0
    } else {
        times(s.drop_last(), x) + (if s.last() == x {
            1nat
        } else {
            0nat
        })
    }
}

/// What each list of paths holds.
pub open spec fn lists(v: Seq<Vec<String>>) -> Seq<Seq<Seq<char>>> {
    v.map_values(|l: Vec<String>| texts(l@))
}

/// Some step that takes `file` can fix it.
pub open spec fn fixable(
    steps: Seq<(Seq<char>, StepView)>,
    matched: Seq<Seq<Seq<char>>>,
    file: Seq<char>,
) -> bool {
    exists|i: int|
        0 <= i < steps.len() && i < matched.len() && (#[trigger] steps[i]).1.fix is Some
            && matched[i].contains(file)
}

/// Some step of the group checks before it fixes.
pub open spec fn any_check_first(steps: Seq<(Seq<char>, StepView)>) -> bool {
    exists|i: int| 0 <= i < steps.len() && (#[trigger] steps[i]).1.check_first
}

/// Steps compete for `file`: the group fixes, some step checks first, more
/// than one step takes the file and one of those can fix it.
pub open spec fn in_contention(
    steps: Seq<(Seq<char>, StepView)>,
    matched: Seq<Seq<Seq<char>>>,
    run_type: RunType,
    file: Seq<char>,
) -> bool {
    &&& run_type == RunType::Fix
    &&& any_check_first(steps)
    &&& occurrences(matched, file) > 1
    &&& fixable(steps, matched, file)
}

proof fn lemma_times(s: Seq<Seq<char>>, x: Seq<char>)
    ensures
        times(s, x) > 0 <==> s.contains(x),
        times(s, x) <= s.len(),
    decreases s.len(),
{
    if s.len() > 0 {
        lemma_times(s.drop_last(), x);
        if s.contains(x) && s.last() != x {
            let i = choose|i: int| 0 <= i < s.len() && s[i] == x;
            assert(s.drop_last()[i] == x);
        }
        if s.drop_last().contains(x) {
            let i = choose|i: int| 0 <= i < s.drop_last().len() && s.drop_last()[i] == x;
            assert(s[i] == x);
        }
        if s.last() == x {
            assert(s[s.len() - 1] == x);
        }
    }
}

proof fn lemma_occurrences(ls: Seq<Seq<Seq<char>>>, x: Seq<char>)
    ensures
        occurrences(ls, x) > 0 <==> (exists|i: int| 0 <= i < ls.len() && (#[trigger] ls[i]).contains(x)),
    decreases ls.len(),
{
    if ls.len() > 0 {
        lemma_occurrences(ls.drop_last(), x);
        lemma_times(ls.last(), x);
        if exists|i: int| 0 <= i < ls.len() && (#[trigger] ls[i]).contains(x) {
            let i = choose|i: int| 0 <= i < ls.len() && (#[trigger] ls[i]).contains(x);
            if i < ls.len() - 1 {
                assert(ls.drop_last()[i].contains(x));
            }
        }
        if exists|i: int|
            0 <= i < ls.drop_last().len() && (#[trigger] ls.drop_last()[i]).contains(x) {
            let i = choose|i: int|
                0 <= i < ls.drop_last().len() && (#[trigger] ls.drop_last()[i]).contains(x);
            assert(ls[i].contains(x));
        }
        if ls.last().contains(x) {
            assert(ls[ls.len() - 1].contains(x));
        }
    }
}

/// How often `file` stands in the lists, counted up to two.
fn count_to_two(matched: &Vec<Vec<String>>, file: &str) -> (r: u8)
    ensures
        r <= 2,
        r < 2 ==> r == occurrences(lists(matched@), file@),
        r == 2 ==> occurrences(lists(matched@), file@) >= 2,
{
    let mut n: u8 = 0;
    for i in 0..matched.len()
        invariant
            n <= 1,
            n == occurrences(lists(matched@).take(i as int), file@),
    {
        let list = &matched[i];
        assert(lists(matched@)[i as int] == texts(list@));
        let ghost n0 = n;
        for j in 0..list.len()
            invariant
                n0 <= n <= 1,
                n == n0 + times(texts(list@).take(j as int), file@),
                n0 == occurrences(lists(matched@).take(i as int), file@),
                i < matched@.len(),
                lists(matched@)[i as int] == texts(list@),
        {
            if crate::text::same(list[j].as_str(), file) {
                if n == 1 {
                    proof {
                        lemma_times_take(texts(list@), file@, j + 1);
                        lemma_occurrences_take(lists(matched@), file@, i + 1);
                    }
                    return 2;
                }
                n = n + 1;
            }
        }
    }
    n
}

proof fn lemma_times_take(s: Seq<Seq<char>>, x: Seq<char>, n: int)
    requires
        0 <= n <= s.len(),
    ensures
        times(s.take(n), x) <= times(s, x),
    decreases s.len() - n,
{
    if n < s.len() {
        lemma_times_take(s, x, n + 1);
    }
}

proof fn lemma_occurrences_take(ls: Seq<Seq<Seq<char>>>, x: Seq<char>, n: int)
    requires
        0 <= n <= ls.len(),
    ensures
        occurrences(ls.take(n), x) <= occurrences(ls, x),
    decreases ls.len() - n,
{
    if n < ls.len() {
        lemma_occurrences_take(ls, x, n + 1);
    }
}

impl StepGroup {
    /// Whether some step of the group checks before it fixes.
    pub fn has_check_first(&self) -> (r: bool)
        ensures
            r == any_check_first(self@.steps),
    {
        let n: usize = self.steps.len();
        for i in 0..n
            invariant
                n == self.steps@.len(),
                forall|k: int| 0 <= k < i ==> !(#[trigger] self@.steps[k]).1.check_first,
        {
            let step = self.steps.value_at(i);
            assert(step@ == self@.steps[i as int].1);
            if step.check_first {
                return true;
            }
        }
        false
    }

    /// Whether some step that takes `file` can fix it.
    fn can_fix(&self, matched: &Vec<Vec<String>>, file: &str) -> (r: bool)
        ensures
            r == fixable(self@.steps, lists(matched@), file@),
    {
        let n: usize = self.steps.len();
        let mut i: usize = 0;
        while i < n && i < matched.len()
            invariant
                n == self.steps@.len(),
                i <= n,
                i <= matched@.len(),
                forall|k: int|
                    0 <= k < i ==> !((#[trigger] self@.steps[k]).1.fix is Some && lists(
                        matched@,
                    )[k].contains(file@)),
            decreases n - i,
        {
            let step = self.steps.value_at(i);
            assert(step@ == self@.steps[i as int].1);
            assert(lists(matched@)[i as int] == texts(matched@[i as int]@));
            if step.fix.is_some() && crate::text::list_has(&matched[i], file) {
                return true;
            }
            i += 1;
        }
        false
    }

    /// The files that steps of the group compete for, where `matched[i]` holds
    /// the files that the step at position `i` takes.
    pub fn files_in_contention_for(&self, matched: &Vec<Vec<String>>, run_type: RunType) -> (r:
        NameSet)
        ensures
            r@.no_duplicates(),
            forall|f: Seq<char>|
                #[trigger] r@.contains(f) <==> in_contention(
                    self@.steps,
                    lists(matched@),
                    run_type,
                    f,
                ),
    {
        let mut out = NameSet::new();
        let ghost ls = lists(matched@);
        if run_type != RunType::Fix || !self.has_check_first() {
            return out;
        }
        for i in 0..matched.len()
            invariant
                ls == lists(matched@),
                out@.no_duplicates(),
                forall|f: Seq<char>|
                    #[trigger] out@.contains(f) ==> in_contention(self@.steps, ls, run_type, f),
                forall|k: int, f: Seq<char>|
                    0 <= k < i && ls[k].contains(f) && in_contention(self@.steps, ls, run_type, f)
                        ==> out@.contains(f),
                run_type == RunType::Fix,
                any_check_first(self@.steps),
        {
            let list = &matched[i];
            assert(ls[i as int] == texts(list@));
            for j in 0..list.len()
                invariant
                    i < matched@.len(),
                    ls == lists(matched@),
                    ls[i as int] == texts(list@),
                    out@.no_duplicates(),
                    forall|f: Seq<char>|
                        #[trigger] out@.contains(f) ==> in_contention(self@.steps, ls, run_type, f),
                    forall|k: int, f: Seq<char>|
                        0 <= k < i && ls[k].contains(f) && in_contention(
                            self@.steps,
                            ls,
                            run_type,
                            f,
                        ) ==> out@.contains(f),
                    forall|m: int|
                        0 <= m < j && in_contention(self@.steps, ls, run_type, texts(list@)[m])
                            ==> out@.contains(#[trigger] texts(list@)[m]),
                    run_type == RunType::Fix,
                    any_check_first(self@.steps),
            {
                let file = &list[j];
                assert(texts(list@)[j as int] == file@);
                if count_to_two(matched, file.as_str()) == 2 && self.can_fix(matched, file.as_str()) {
                    let ghost before = out@;
                    out.insert(file.clone());
                    proof {
                        assert(before.push(file@).contains(file@)) by {
                            assert(before.push(file@)[before.len() as int] == file@);
                        }
                        assert forall|f: Seq<char>| before.contains(f) implies out@.contains(f) by {
                            if !before.contains(file@) {
                                let m = choose|m: int| 0 <= m < before.len() && before[m] == f;
                                assert(out@[m] == f);
                            }
                        }
                        assert forall|f: Seq<char>| #[trigger] out@.contains(f) implies f == file@
                            || before.contains(f) by {
                            let m = choose|m: int| 0 <= m < out@.len() && out@[m] == f;
                            if m < before.len() {
                                assert(before[m] == f);
                            }
                        }
                    }
                }
            }
            proof {
                assert forall|f: Seq<char>|
                    ls[i as int].contains(f) && in_contention(
                        self@.steps,
                        ls,
                        run_type,
                        f,
                    ) implies out@.contains(f) by {
                    let m = choose|m: int| 0 <= m < texts(list@).len() && texts(list@)[m] == f;
                    assert(out@.contains(texts(list@)[m]));
                }
            }
        }
        proof {
            assert forall|f: Seq<char>|
                in_contention(self@.steps, ls, run_type, f) implies out@.contains(f) by {
                lemma_occurrences(ls, f);
                let k = choose|k: int| 0 <= k < ls.len() && (#[trigger] ls[k]).contains(f);
                assert(ls[k].contains(f));
            }
        }
        out
    }
}

/// The error of a step; whether a command of it failed.
pub struct StepError {
    pub message: String,
    pub command_failure: bool,
}

/// What [`StepError`] stands for.
pub struct StepErrorView {
    pub message: Seq<char>,
    pub command_failure: bool,
}

impl View for StepError {
    type V = StepErrorView;

    open spec fn view(&self) -> StepErrorView {
        StepErrorView {
            message: self.message@,
            command_failure: self.command_failure,
        }
    }
}

/// What the end of a step leads to: whether its failure was allowed, the error that it is shown with, whether steps that wait for it may go on, and the error that it hands to its group.
pub struct StepEnd {
    pub failure_allowed: bool,
    pub shown_error: Option<String>,
    pub done: bool,
    pub error: Option<String>,
}

/// What [`StepEnd`] stands for.
pub struct StepEndView {
    pub failure_allowed: bool,
    pub shown_error: Option<Seq<char>>,
    pub done: bool,
    pub error: Option<Seq<char>>,
}

impl View for StepEnd {
    type V = StepEndView;

    open spec fn view(&self) -> StepEndView {
        StepEndView {
            failure_allowed: self.failure_allowed,
            shown_error: opt_text(self.shown_error),
            done: self.done,
            error: opt_text(self.error),
        }
    }
}

/// What the end of a step leads to. Only the failure of a command can be
/// allowed; `allowed` says whether it is, or why that cannot be said.
pub open spec fn step_ended(
    error: Option<StepErrorView>,
    allowed: Result<bool, Seq<char>>,
    fail_fast: bool,
) -> StepEndView {
    match error {
        None => StepEndView { failure_allowed: false, shown_error: None, done: false, error: None },
        Some(e) => if !e.command_failure {
            StepEndView {
                failure_allowed: false,
                shown_error: Some(e.message),
                done: !fail_fast,
                error: Some(e.message),
            }
        } else {
            match allowed {
                Err(why) => StepEndView {
                    failure_allowed: false,
                    shown_error: Some(why),
                    done: !fail_fast,
                    error: Some(why),
                },
                Ok(allow) => StepEndView {
                    failure_allowed: allow,
                    shown_error: Some(e.message),
                    done: !fail_fast || allow,
                    error: if allow {
                        None
                    } else {
                        Some(e.message)
                    },
                },
            }
        },
    }
}

/// What the end of a step leads to.
pub fn end_step(error: Option<StepError>, allowed: Result<bool, String>, fail_fast: bool) -> (r:
    StepEnd)
    ensures
        r@ == step_ended(
            opt_view(error),
            crate::execution::flag_result(allowed),
            fail_fast,
        ),
{
    match error {
        None => StepEnd { failure_allowed: false, shown_error: None, done: false, error: None },
        Some(e) => {
            if !e.command_failure {
                return StepEnd {
                    failure_allowed: false,
                    shown_error: Some(e.message.clone()),
                    done: !fail_fast,
                    error: Some(e.message),
                };
            }
            match allowed {
                Err(why) => StepEnd {
                    failure_allowed: false,
                    shown_error: Some(why.clone()),
                    done: !fail_fast,
                    error: Some(why),
                },
                Ok(allow) => StepEnd {
                    failure_allowed: allow,
                    shown_error: Some(e.message.clone()),
                    done: !fail_fast || allow,
                    error: if allow {
                        None
                    } else {
                        Some(e.message)
                    },
                },
            }
        },
    }
}

/// How a group goes on after one of its steps ended.
pub enum GroupProgress {
    /// Wait for the other steps; the errors so far, the latest first.
    Wait(Vec<String>),
    /// Abort the steps that are still running and end with the error.
    Abort(String),
}

/// What [`GroupProgress`] stands for.
pub enum GroupProgressView {
    Wait(Seq<Seq<char>>),
    Abort(Seq<char>),
}

impl View for GroupProgress {
    type V = GroupProgressView;

    open spec fn view(&self) -> GroupProgressView {
        match self {
            GroupProgress::Wait(e) => GroupProgressView::Wait(texts(e@)),
            GroupProgress::Abort(e) => GroupProgressView::Abort(e@),
        }
    }
}

/// How a group goes on after a step ended with `error` or without one.
pub open spec fn group_progress(
    errors: Seq<Seq<char>>,
    error: Option<Seq<char>>,
    fail_fast: bool,
) -> GroupProgressView {
    match error {
        None => GroupProgressView::Wait(errors),
        Some(e) => if fail_fast {
            GroupProgressView::Abort(e)
        } else {
            GroupProgressView::Wait(seq![e] + errors)
        },
    }
}

impl StepGroup {
    /// How a group goes on after a step ended with `error` or without one.
    pub fn join_step(errors: Vec<String>, error: Option<String>, fail_fast: bool) -> (r:
        GroupProgress)
        ensures
            r@ == group_progress(texts(errors@), opt_text(error), fail_fast),
    {
        match error {
            None => GroupProgress::Wait(errors),
            Some(e) => {
                if fail_fast {
                    return GroupProgress::Abort(e);
                }
                let ghost before = errors@;
                let ghost ev = e@;
                let mut errors = errors;
                errors.insert(0, e);
                assert(texts(errors@) =~= seq![ev] + texts(before));
                GroupProgress::Wait(errors)
            },
        }
    }
}

/// How a group is after its steps ended, in the order in which they did, each with an
/// error or without one.
pub open spec fn group_after(ends: Seq<Option<Seq<char>>>, fail_fast: bool) -> GroupProgressView
    decreases ends.len(),
{
    if ends.len() == 0 {
        GroupProgressView::Wait(seq![])
    } else {
        match group_after(ends.drop_last(), fail_fast) {
            GroupProgressView::Abort(e) => GroupProgressView::Abort(e),
            GroupProgressView::Wait(errors) => group_progress(errors, ends.last(), fail_fast),
        }
    }
}

/// How a group ends: well where no error is left, else with the errors, each around those
/// behind it.
pub open spec fn group_end(progress: GroupProgressView) -> Result<(), Seq<Seq<char>>> {
    match progress {
        GroupProgressView::Abort(e) => Err(seq![e]),
        GroupProgressView::Wait(errors) => if errors.len() == 0 {
            Ok(())
        } else {
            Err(errors)
        },
    }
}

/// What the end of a group stands for.
pub open spec fn end_result(r: Result<(), Vec<String>>) -> Result<(), Seq<Seq<char>>> {
    match r {
        Ok(_) => Ok(()),
        Err(errors) => Err(texts(errors@)),
    }
}

impl GroupProgress {
    /// How the group ends once no step is left: with its errors, the outermost first, if
    /// there are any.
    pub fn end(self) -> (r: Result<(), Vec<String>>)
        ensures
            end_result(r) == group_end(self@),
    {
        match self {
            GroupProgress::Abort(e) => {
                let ghost text = e@;
                let mut errors: Vec<String> = Vec::new();
                errors.push(e);
                assert(texts(errors@) =~= seq![text]);
                Err(errors)
            },
            GroupProgress::Wait(errors) => {
                assert(texts(errors@).len() == errors@.len());
                if errors.len() == 0 {
                    Ok(())
                } else {
                    Err(errors)
                }
            },
        }
    }
}

/// A group succeeds exactly where none of its steps ended with an error.
pub proof fn law_groups_fail_with_their_steps(ends: Seq<Option<Seq<char>>>, fail_fast: bool)
    ensures
        group_end(group_after(ends, fail_fast)) is Ok <==> forall|i: int|
            0 <= i < ends.len() ==> (#[trigger] ends[i]) is None,
    decreases ends.len(),
{
    if ends.len() > 0 {
        let init = ends.drop_last();
        law_groups_fail_with_their_steps(init, fail_fast);
        if forall|i: int| 0 <= i < ends.len() ==> (#[trigger] ends[i]) is None {
            assert forall|i: int| 0 <= i < init.len() implies (#[trigger] init[i]) is None by {
                assert(ends[i] is None);
            }
            assert(ends[ends.len() - 1] is None);
        }
        if group_end(group_after(ends, fail_fast)) is Ok {
            assert forall|i: int| 0 <= i < ends.len() implies (#[trigger] ends[i]) is None by {
                if i < init.len() {
                    assert(init[i] is None);
                }
            }
        }
    }
}

/// A group that does not fail fast tells of every error, the latest first.
pub proof fn law_patient_groups_tell_every_error(ends: Seq<Option<Seq<char>>>)
    ensures
        group_after(ends, false) is Wait,
        ends.len() > 0 && ends.last() is Some ==> group_after(ends, false)->Wait_0 == seq![
            ends.last()->0,
        ] + group_after(ends.drop_last(), false)->Wait_0,
        ends.len() > 0 && ends.last() is None ==> group_after(ends, false)->Wait_0 == group_after(
            ends.drop_last(),
            false,
        )->Wait_0,
    decreases ends.len(),
{
    if ends.len() > 0 {
        law_patient_groups_tell_every_error(ends.drop_last());
    }
}

/// A group that fails fast ends with the first error alone.
pub proof fn law_fast_groups_tell_the_first_error(ends: Seq<Option<Seq<char>>>, i: int)
    requires
        0 <= i < ends.len(),
        ends[i] is Some,
        forall|k: int| 0 <= k < i ==> (#[trigger] ends[k]) is None,
    ensures
        group_end(group_after(ends, true)) == Err::<(), Seq<Seq<char>>>(seq![ends[i]->0]),
        group_after(ends, true) is Abort,
    decreases ends.len(),
{
    let init = ends.drop_last();
    if i < init.len() {
        assert(init[i] == ends[i]);
        assert forall|k: int| 0 <= k < i implies (#[trigger] init[k]) is None by {
            assert(ends[k] is None);
        }
        law_fast_groups_tell_the_first_error(init, i);
    } else {
        law_groups_fail_with_their_steps(init, true);
        assert forall|k: int| 0 <= k < init.len() implies (#[trigger] init[k]) is None by {
            assert(ends[k] is None);
        }
    }
}

/// A step whose failure is allowed hands no error to its group, and steps that
/// wait for it go on.
pub proof fn law_allowed_failure_does_not_fail_the_group(
    error: Option<StepErrorView>,
    allowed: Result<bool, Seq<char>>,
    fail_fast: bool,
)
    requires
        step_ended(error, allowed, fail_fast).failure_allowed,
    ensures
        step_ended(error, allowed, fail_fast).error is None,
        step_ended(error, allowed, fail_fast).done,
{
}

/// A failure that is not allowed reaches the group, with the message it is shown with.
pub proof fn law_failures_reach_the_group(
    error: StepErrorView,
    allowed: Result<bool, Seq<char>>,
    fail_fast: bool,
)
    requires
        !step_ended(Some(error), allowed, fail_fast).failure_allowed,
    ensures
        step_ended(Some(error), allowed, fail_fast).error is Some,
        step_ended(Some(error), allowed, fail_fast).error == step_ended(
            Some(error),
            allowed,
            fail_fast,
        ).shown_error,
{
}

proof fn lemma_filled_groups(groups: Seq<Seq<(Seq<char>, StepView)>>)
    ensures
        forall|i: int|
            0 <= i < filled_groups(groups).len() ==> (#[trigger] filled_groups(groups)[i]).steps.len()
                > 0,
    decreases groups.len(),
{
    if groups.len() > 0 {
        lemma_filled_groups(groups.drop_last());
        let before = filled_groups(groups.drop_last());
        assert forall|i: int| 0 <= i < filled_groups(groups).len() implies (
        #[trigger] filled_groups(groups)[i]).steps.len() > 0 by {
            if i < before.len() {
                assert(before[i].steps.len() > 0);
            }
        }
    }
}

/// No group that a hook runs is empty.
pub proof fn law_groups_are_not_empty(entries: Seq<StepOrGroupView>, i: int)
    requires
        0 <= i < filled_groups(grouped(entries)).len(),
    ensures
        filled_groups(grouped(entries))[i].steps.len() > 0,
{
    lemma_filled_groups(grouped(entries));
}

/// Every exclusive step of the groups is the only one of its group.
spec fn exclusive_alone(groups: Seq<Seq<(Seq<char>, StepView)>>) -> bool {
    forall|g: int, s: int|
        0 <= g < groups.len() && 0 <= s < groups[g].len() && (#[trigger] groups[g][s]).1.exclusive
            ==> groups[g].len() == 1 && g < groups.len() - 1
}

/// No step inside a group of a hook is exclusive.
spec fn only_plain_exclusive(entries: Seq<StepOrGroupView>) -> bool {
    forall|k: int, s: int|
        0 <= k < entries.len() && entries[k] is Group && 0 <= s < entries[k]->Group_0.steps.len()
            ==> !(#[trigger] entries[k]->Group_0.steps[s]).1.exclusive
}

proof fn lemma_exclusive_alone(entries: Seq<StepOrGroupView>)
    requires
        only_plain_exclusive(entries),
    ensures
        exclusive_alone(grouped(entries)),
    decreases entries.len(),
{
    if entries.len() > 0 {
        let init = entries.drop_last();
        assert forall|k: int, s: int|
            0 <= k < init.len() && init[k] is Group && 0 <= s < init[k]->Group_0.steps.len() implies !(
        #[trigger] init[k]->Group_0.steps[s]).1.exclusive by {
            assert(!entries[k]->Group_0.steps[s].1.exclusive);
        }
        lemma_exclusive_alone(init);
        let before = grouped(init);
        let after = grouped(entries);
        let n = entries.len() - 1;
        match entries.last() {
            StepOrGroupView::Group(group) => {
                assert forall|g: int, s: int|
                    0 <= g < after.len() && 0 <= s < after[g].len() && (
                    #[trigger] after[g][s]).1.exclusive implies after[g].len() == 1 && g
                    < after.len() - 1 by {
                    if g < before.len() {
                        assert(before[g][s].1.exclusive);
                    } else {
                        assert(!entries[n]->Group_0.steps[s].1.exclusive);
                    }
                }
            },
            StepOrGroupView::Step(step) => {
                let opened = if step.exclusive || before.len() == 0 {
                    before.push(seq![])
                } else {
                    before
                };
                lemma_position(opened.last(), step.name);
                assert forall|g: int, s: int|
                    0 <= g < after.len() && 0 <= s < after[g].len() && (
                    #[trigger] after[g][s]).1.exclusive implies after[g].len() == 1 && g
                    < after.len() - 1 by {
                    if g < opened.len() - 1 {
                        assert(after[g] == before[g]);
                        assert(before[g][s].1.exclusive);
                    } else if g == opened.len() - 1 {
                        assert(after[g] == put(opened.last(), step.name, step));
                        if !step.exclusive {
                            let p = put(opened.last(), step.name, step);
                            if s < opened.last().len() && p[s] == opened.last()[s] {
                                assert(before.len() > 0);
                                assert(before[g][s].1.exclusive);
                            }
                        }
                    }
                }
            },
        }
    }
}

/// An exclusive step fills a group that nothing joins.
proof fn lemma_exclusive_entry(entries: Seq<StepOrGroupView>, k: int)
    requires
        0 <= k < entries.len(),
        entries[k] is Step,
        entries[k]->Step_0.exclusive,
    ensures
        exists|g: int|
            0 <= g < grouped(entries).len() - 1 && #[trigger] grouped(entries)[g] == seq![
                (entries[k]->Step_0.name, entries[k]->Step_0),
            ],
    decreases entries.len(),
{
    let init = entries.drop_last();
    let before = grouped(init);
    let after = grouped(entries);
    let step = entries[k]->Step_0;
    if k < init.len() {
        assert(init[k] == entries[k]);
        lemma_exclusive_entry(init, k);
        let g = choose|g: int|
            0 <= g < before.len() - 1 && #[trigger] before[g] == seq![(step.name, step)];
        assert(after[g] == before[g]);
    } else {
        let opened = before.push(seq![]);
        lemma_position(opened.last(), step.name);
        assert(put(opened.last(), step.name, step) =~= seq![(step.name, step)]);
        assert(after[before.len() as int] == seq![(step.name, step)]);
    }
}

proof fn lemma_groups_are_filled(groups: Seq<Seq<(Seq<char>, StepView)>>, g: int)
    requires
        0 <= g < groups.len(),
        groups[g].len() > 0,
    ensures
        exists|i: int|
            0 <= i < filled_groups(groups).len() && #[trigger] filled_groups(groups)[i]
                == plain_group(groups[g]),
    decreases groups.len(),
{
    let init = groups.drop_last();
    let before = filled_groups(init);
    let after = filled_groups(groups);
    if g < init.len() {
        lemma_groups_are_filled(init, g);
        let i = choose|i: int|
            0 <= i < before.len() && #[trigger] before[i] == plain_group(init[g]);
        assert(after[i] == before[i]);
    } else {
        assert(after[before.len() as int] == plain_group(groups[g]));
    }
}

proof fn lemma_filled_are_groups(groups: Seq<Seq<(Seq<char>, StepView)>>, i: int)
    requires
        0 <= i < filled_groups(groups).len(),
    ensures
        exists|g: int| 0 <= g < groups.len() && filled_groups(groups)[i].steps == #[trigger] groups[g],
    decreases groups.len(),
{
    if groups.len() > 0 {
        let before = filled_groups(groups.drop_last());
        if i < before.len() {
            lemma_filled_are_groups(groups.drop_last(), i);
            let g = choose|g: int|
                0 <= g < groups.drop_last().len() && before[i].steps
                    == #[trigger] groups.drop_last()[g];
            assert(filled_groups(groups)[i].steps == groups[g]);
        } else {
            assert(filled_groups(groups)[i].steps == groups[groups.len() - 1]);
        }
    }
}

/// An exclusive step of a hook runs in a group of its own, whatever stands around it.
pub proof fn law_exclusive_steps_run_alone(entries: Seq<StepOrGroupView>, k: int)
    requires
        0 <= k < entries.len(),
        entries[k] is Step,
        entries[k]->Step_0.exclusive,
    ensures
        exists|i: int|
            0 <= i < filled_groups(grouped(entries)).len() && #[trigger] filled_groups(
                grouped(entries),
            )[i] == plain_group(seq![(entries[k]->Step_0.name, entries[k]->Step_0)]),
{
    lemma_exclusive_entry(entries, k);
    let g = choose|g: int|
        0 <= g < grouped(entries).len() - 1 && #[trigger] grouped(entries)[g] == seq![
            (entries[k]->Step_0.name, entries[k]->Step_0),
        ];
    lemma_groups_are_filled(grouped(entries), g);
}

/// No step shares a group with an exclusive one, unless a group of the hook itself holds
/// exclusive steps.
pub proof fn law_no_step_joins_an_exclusive_one(entries: Seq<StepOrGroupView>, i: int, s: int)
    requires
        forall|k: int, t: int|
            0 <= k < entries.len() && entries[k] is Group && 0 <= t
                < entries[k]->Group_0.steps.len()
                ==> !(#[trigger] entries[k]->Group_0.steps[t]).1.exclusive,
        0 <= i < filled_groups(grouped(entries)).len(),
        0 <= s < filled_groups(grouped(entries))[i].steps.len(),
        filled_groups(grouped(entries))[i].steps[s].1.exclusive,
    ensures
        filled_groups(grouped(entries))[i].steps.len() == 1,
{
    lemma_exclusive_alone(entries);
    lemma_filled_are_groups(grouped(entries), i);
    let g = choose|g: int|
        0 <= g < grouped(entries).len() && filled_groups(grouped(entries))[i].steps
            == #[trigger] grouped(entries)[g];
    assert(grouped(entries)[g][s].1.exclusive);
}

/// The steps of a hook in order, those of a group in its place.
pub open spec fn listed_steps(entries: Seq<StepOrGroupView>) -> Seq<(Seq<char>, StepView)>
    decreases entries.len(),
{
    if entries.len() == 0 {
        seq![]
    } else {
        listed_steps(entries.drop_last()) + match entries.last() {
            StepOrGroupView::Group(group) => group.steps,
            StepOrGroupView::Step(step) => seq![(step.name, step)],
        }
    }
}

/// The steps of groups, one group after the other.
pub open spec fn steps_of(groups: Seq<StepGroupView>) -> Seq<(Seq<char>, StepView)>
    decreases groups.len(),
{
    if groups.len() == 0 {
        seq![]
    } else {
        steps_of(groups.drop_last()) + groups.last().steps
    }
}

/// The entry takes the place of a step of the same name in the group that it joins.
pub open spec fn takes_a_place(entries: Seq<StepOrGroupView>, k: int) -> bool {
    let before = grouped(entries.take(k));
    entries[k] is Step && !entries[k]->Step_0.exclusive && before.len() > 0 && has_key(
        before.last(),
        entries[k]->Step_0.name,
    )
}

spec fn chained(groups: Seq<Seq<(Seq<char>, StepView)>>) -> Seq<(Seq<char>, StepView)>
    decreases groups.len(),
{
    if groups.len() == 0 {
        seq![]
    } else {
        chained(groups.drop_last()) + groups.last()
    }
}

proof fn lemma_chained_fill(groups: Seq<Seq<(Seq<char>, StepView)>>)
    ensures
        steps_of(filled_groups(groups)) == chained(groups),
    decreases groups.len(),
{
    if groups.len() > 0 {
        let init = groups.drop_last();
        lemma_chained_fill(init);
        let before = filled_groups(init);
        if groups.last().len() == 0 {
            assert(chained(groups) =~= chained(init));
        } else {
            assert(filled_groups(groups).drop_last() =~= before);
            assert(filled_groups(groups).last().steps == groups.last());
        }
    }
}

proof fn lemma_chained_steps(entries: Seq<StepOrGroupView>)
    requires
        forall|k: int| 0 <= k < entries.len() ==> !#[trigger] takes_a_place(entries, k),
    ensures
        chained(grouped(entries)) == listed_steps(entries),
    decreases entries.len(),
{
    if entries.len() > 0 {
        let init = entries.drop_last();
        let n = entries.len() - 1;
        assert forall|k: int| 0 <= k < init.len() implies !#[trigger] takes_a_place(init, k) by {
            assert(init.take(k) =~= entries.take(k));
            assert(!takes_a_place(entries, k));
        }
        lemma_chained_steps(init);
        let before = grouped(init);
        let after = grouped(entries);
        match entries.last() {
            StepOrGroupView::Group(group) => {
                assert(after.drop_last() =~= before);
            },
            StepOrGroupView::Step(step) => {
                assert(entries.take(n) =~= init);
                assert(!takes_a_place(entries, n));
                let opened = if step.exclusive || before.len() == 0 {
                    before.push(seq![])
                } else {
                    before
                };
                if step.exclusive || before.len() == 0 {
                    assert(opened.drop_last() =~= before);
                    assert(chained(opened) =~= chained(before));
                }
                let one = opened.last().push((step.name, step));
                let filled = opened.update(opened.len() - 1, one);
                assert(!has_key(opened.last(), step.name)) by {
                    lemma_position(opened.last(), step.name);
                }
                assert(filled.drop_last() =~= opened.drop_last());
                assert(chained(filled) =~= chained(opened) + seq![(step.name, step)]);
                if step.exclusive {
                    assert(after.drop_last() =~= filled);
                    assert(chained(after) =~= chained(filled));
                }
            },
        }
    }
}

/// The groups of a hook hold every step of it once and in its order, where no step takes
/// the place of another of the same name.
pub proof fn law_grouping_keeps_every_step(entries: Seq<StepOrGroupView>)
    requires
        forall|k: int| 0 <= k < entries.len() ==> !#[trigger] takes_a_place(entries, k),
    ensures
        steps_of(filled_groups(grouped(entries))) == listed_steps(entries),
{
    lemma_chained_steps(entries);
    lemma_chained_fill(grouped(entries));
}

/// What a step of a group leaves open it has from the group; what it says itself stays.
pub proof fn law_steps_inherit_from_their_group(step: StepView, group: StepGroupView, name: Seq<char>)
    ensures
        ({
            let r = inherited(step, group, name);
            &&& r.name == name
            &&& step.prefix is Some ==> r.prefix == step.prefix
            &&& step.prefix is None ==> r.prefix == group.prefix
            &&& step.dir is Some ==> r.dir == step.dir
            &&& step.dir is None ==> r.dir == group.dir
            &&& step.shell is Some ==> r.shell == step.shell
            &&& step.shell is None ==> r.shell == group.shell
            &&& step.stage is Some ==> r.stage == step.stage
            &&& step.stage is None ==> r.stage == group.stage
            &&& step.workspace_indicator is Some ==> r.workspace_indicator
                == step.workspace_indicator
            &&& step.workspace_indicator is None ==> r.workspace_indicator
                == group.workspace_indicator
            &&& step.exclude is None ==> r.exclude == group.exclude
            &&& step.exclude is Some && !step.exclude->0.is_empty() ==> r.exclude == step.exclude
            &&& r.check == step.check && r.fix == step.fix && r.check_diff == step.check_diff
            &&& r.glob == step.glob && r.depends == step.depends && r.env == step.env
            &&& r.exclusive == step.exclusive
        }),
{
}

/// A group hands down to every step, and keeps its steps in order under their names.
pub proof fn law_groups_hand_down_to_every_step(group: StepGroupView, name: Seq<char>, i: int)
    requires
        0 <= i < group.steps.len(),
    ensures
        initialized_group(group, name).steps.len() == group.steps.len(),
        initialized_group(group, name).steps[i] == (
            group.steps[i].0,
            inherited(group.steps[i].1, group, group.steps[i].0),
        ),
        initialized_group(group, name).name == Some(name),
{
}

/// Steps compete for a file in a fixing run, where some step of the group checks first,
/// several take the file and one of them can fix it; nothing else is contended for.
pub proof fn law_contended_files(
    steps: Seq<(Seq<char>, StepView)>,
    matched: Seq<Seq<Seq<char>>>,
    run_type: RunType,
    file: Seq<char>,
)
    ensures
        in_contention(steps, matched, run_type, file) ==> run_type == RunType::Fix && exists|i: int|
            0 <= i < steps.len() && (#[trigger] steps[i]).1.check_first,
        in_contention(steps, matched, run_type, file) ==> exists|i: int|
            0 <= i < steps.len() && i < matched.len() && (#[trigger] steps[i]).1.fix is Some
                && matched[i].contains(file),
        in_contention(steps, matched, run_type, file) ==> occurrences(matched, file) >= 2,
        run_type == RunType::Fix && occurrences(matched, file) >= 2 && (exists|i: int|
            0 <= i < steps.len() && (#[trigger] steps[i]).1.check_first) && (exists|i: int|
            0 <= i < steps.len() && i < matched.len() && (#[trigger] steps[i]).1.fix is Some
                && matched[i].contains(file)) ==> in_contention(steps, matched, run_type, file),
{
}

/// A step has every variable that is handed down to it, with its own value where it sets the
/// variable itself; nothing else of it changes.
pub proof fn law_steps_set_their_own_variables(
    step: StepView,
    env: Seq<(Seq<char>, Seq<char>)>,
    var: Seq<char>,
)
    requires
        distinct(env),
    ensures
        lookup(step_with_env(step, env).env, var) == (if has_key(step.env, var) {
            lookup(step.env, var)
        } else {
            lookup(env, var)
        }),
        step_with_env(step, env) == (StepView { env: step_with_env(step, env).env, ..step }),
{
    lemma_lookup_put_all_new(step.env, env, var);
}

/// Every step of a group has the variables that are handed down to the group.
pub proof fn law_variables_reach_every_step_of_a_group(
    group: StepGroupView,
    env: Seq<(Seq<char>, Seq<char>)>,
    i: int,
)
    requires
        0 <= i < group.steps.len(),
    ensures
        group_with_env(group, env).steps.len() == group.steps.len(),
        group_with_env(group, env).steps[i] == (
            group.steps[i].0,
            step_with_env(group.steps[i].1, env),
        ),
        group_with_env(group, env) == (StepGroupView {
            steps: group_with_env(group, env).steps,
            ..group
        }),
{
}

} // verus!
