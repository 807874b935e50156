//! Writing a first configuration for a project.

use vstd::prelude::*;
use vstd::string::*;
use crate::seqs::{texts, views};
use crate::table::Dup;
use crate::text::{ends, has_text, join, joined, list_has, same};

verus! {

broadcast use crate::seqs::group_text;

/// The options of writing a first configuration.
#[derive(Clone, Copy, Debug, PartialEq, Eq, Structural)]
pub struct Init {
    /// Overwrite files that are there.
    pub force: bool,
    /// Let the user pick linters and hooks.
    pub interactive: bool,
    /// Also write a `mise.toml`.
    pub mise: bool,
}

/// A linter that comes with the program.
pub struct BuiltinMeta {
    pub name: String,
    pub category: String,
    pub description: String,
}

/// What [`BuiltinMeta`] stands for.
pub struct BuiltinMetaView {
    pub name: Seq<char>,
    pub category: Seq<char>,
    pub description: Seq<char>,
}

impl View for BuiltinMeta {
    type V = BuiltinMetaView;

    open spec fn view(&self) -> BuiltinMetaView {
        BuiltinMetaView {
            name: self.name@,
            category: self.category@,
            description: self.description@,
        }
    }
}

impl Dup for BuiltinMeta {
    fn dup(&self) -> (r: Self) {
        BuiltinMeta {
            name: self.name.clone(),
            category: self.category.clone(),
            description: self.description.clone(),
        }
    }
}

/// A linter that fits the project, and why.
pub struct Detection {
    pub builtin: BuiltinMeta,
    pub reason: String,
}

/// What [`Detection`] stands for.
pub struct DetectionView {
    pub builtin: BuiltinMetaView,
    pub reason: Seq<char>,
}

impl View for Detection {
    type V = DetectionView;

    open spec fn view(&self) -> DetectionView {
        DetectionView {
            builtin: self.builtin@,
            reason: self.reason@,
        }
    }
}

impl Dup for Detection {
    fn dup(&self) -> (r: Self) {
        Detection {
            builtin: self.builtin.dup(),
            reason: self.reason.clone(),
        }
    }
}

/// The first lines of a configuration for a version of the program.
pub open spec fn header(version: Seq<char>) -> Seq<char> {
    "amends \"package://github.com/jdx/hk/releases/download/v"@ + version + "/hk@"@ + version
        + "#/Config.pkl\"\nimport \"package://github.com/jdx/hk/releases/download/v"@ + version
        + "/hk@"@ + version
        + "#/Builtins.pkl\"\n// Using a coding agent? See https://hk.jdx.dev/agents\n\n"@
}

fn write_header(version: &str) -> (r: String)
    ensures
        r@ == header(version@),
{
    let mut s = "amends \"package://github.com/jdx/hk/releases/download/v".to_owned();
    s.append(version);
    s.append("/hk@");
    s.append(version);
    s.append("#/Config.pkl\"\nimport \"package://github.com/jdx/hk/releases/download/v");
    s.append(version);
    s.append("/hk@");
    s.append(version);
    s.append("#/Builtins.pkl\"\n// Using a coding agent? See https://hk.jdx.dev/agents\n\n");
    s
}

/// A line for each linter.
pub open spec fn linter_lines(builtins: Seq<BuiltinMetaView>) -> Seq<char>
    decreases builtins.len(),
{
    if builtins.len() == 0 {
        seq![]
    } else {
        let name = builtins.last().name;
        linter_lines(builtins.drop_last()) + ("    [\""@ + name + "\"] = Builtins."@ + name
            + "\n"@)
    }
}

/// A block for each hook that is asked for and is not there anyway.
pub open spec fn hook_blocks(hooks: Seq<Seq<char>>) -> Seq<char>
    decreases hooks.len(),
{
    if hooks.len() == 0 {
        seq![]
    } else {
        let before = hook_blocks(hooks.drop_last());
        if hooks.last() == "pre-push"@ {
            before + "    [\"pre-push\"] {\n        steps = linters\n    }\n"@
        } else {
            before
        }
    }
}

/// Some hook is asked for that is not there anyway.
pub open spec fn asks_for_more(hooks: Seq<Seq<char>>) -> bool {
    exists|i: int| 0 <= i < hooks.len() && #[trigger] hooks[i] != "pre-commit"@
}

/// A configuration with the linters and hooks that are asked for. `pre-commit`
/// runs the linters by itself, and is turned off where it is not asked for.
pub open spec fn generated(
    builtins: Seq<BuiltinMetaView>,
    hooks: Seq<Seq<char>>,
    version: Seq<char>,
) -> Seq<char> {
    let linters = header(version) + "local linters = new Mapping {\n"@ + linter_lines(builtins)
        + "}\n\n"@ + "steps = linters\n"@;
    let disabled = !hooks.contains("pre-commit"@);
    if !disabled && !asks_for_more(hooks) {
        linters
    } else {
        linters + "\nhooks {\n"@ + (if disabled {
            "    [\"pre-commit\"] {\n        enabled = false\n    }\n"@
        } else {
            ""@
        }) + hook_blocks(hooks) + "}\n"@
    }
}

fn any_other(hooks: &[String]) -> (r: bool)
    ensures
        r == asks_for_more(texts(hooks@)),
{
    for i in 0..hooks.len()
        invariant
            forall|k: int| 0 <= k < i ==> #[trigger] texts(hooks@)[k] == "pre-commit"@,
    {
        assert(texts(hooks@)[i as int] == hooks@[i as int]@);
        if !same(hooks[i].as_str(), "pre-commit") {
            return true;
        }
    }
    false
}

/// A configuration with the linters and hooks that are asked for.
pub fn generate_pkl(builtins: &[BuiltinMeta], hooks: &[String], version: &str) -> (r: String)
    ensures
        r@ == generated(views(builtins@), texts(hooks@), version@),
{
    let mut output = write_header(version);
    output.append("local linters = new Mapping {\n");
    let mut lines = String::new();
    for i in 0..builtins.len()
        invariant
            lines@ == linter_lines(views(builtins@).take(i as int)),
    {
        let name = builtins[i].name.as_str();
        assert(views(builtins@)[i as int] == builtins@[i as int]@);
        let mut line = "    [\"".to_owned();
        line.append(name);
        line.append("\"] = Builtins.");
        line.append(name);
        line.append("\n");
        lines.append(line.as_str());
    }
    assert(views(builtins@).take(builtins@.len() as int) =~= views(builtins@));
    output.append(lines.as_str());
    output.append("}\n\n");
    output.append("steps = linters\n");
    let disabled = !list_has(hooks, "pre-commit");
    if !disabled && !any_other(hooks) {
        return output;
    }
    output.append("\nhooks {\n");
    output.append(
        if disabled {
            "    [\"pre-commit\"] {\n        enabled = false\n    }\n"
        } else {
            ""
        },
    );
    let mut blocks = String::new();
    for i in 0..hooks.len()
        invariant
            blocks@ == hook_blocks(texts(hooks@).take(i as int)),
    {
        if same(hooks[i].as_str(), "pre-push") {
            blocks.append("    [\"pre-push\"] {\n        steps = linters\n    }\n");
        }
    }
    assert(texts(hooks@).take(hooks@.len() as int) =~= texts(hooks@));
    output.append(blocks.as_str());
    output.append("}\n");
    output
}

/// A configuration without steps, with examples of some.
pub open spec fn default_template(version: Seq<char>) -> Seq<char> {
    header(version)
        + "steps {\n    // Add linters here. Examples:\n    // [\"prettier\"] = Builtins.prettier\n    // [\"eslint\"] = Builtins.eslint\n    // [\"ruff\"] = Builtins.ruff\n\n    // Or define custom steps:\n    // [\"custom\"] {\n    //     glob = \"**/*.py\"\n    //     check = \"mypy {{ files }}\"\n    // }\n}\n"@
}

/// A configuration without steps, with examples of some.
pub fn generate_default_template(version: &str) -> (r: String)
    ensures
        r@ == default_template(version@),
{
    let mut s = write_header(version);
    s.append(
        "steps {\n    // Add linters here. Examples:\n    // [\"prettier\"] = Builtins.prettier\n    // [\"eslint\"] = Builtins.eslint\n    // [\"ruff\"] = Builtins.ruff\n\n    // Or define custom steps:\n    // [\"custom\"] {\n    //     glob = \"**/*.py\"\n    //     check = \"mypy {{ files }}\"\n    // }\n}\n",
    );
    s
}

/// The hooks of a first configuration where none are picked.
pub fn default_hooks() -> (r: Vec<String>)
    ensures
        texts(r@) == seq!["pre-commit"@],
{
    let mut v: Vec<String> = Vec::new();
    v.push("pre-commit".to_owned());
    assert(texts(v@) =~= seq!["pre-commit"@]);
    v
}

/// The linters of detections.
pub open spec fn detected_builtins(detections: Seq<DetectionView>) -> Seq<BuiltinMetaView> {
    detections.map_values(|d: DetectionView| d.builtin)
}

/// A linter to pick, and whether it is picked to begin with.
pub struct BuiltinOption {
    pub builtin: BuiltinMeta,
    pub selected: bool,
}

/// What [`BuiltinOption`] stands for.
pub struct BuiltinOptionView {
    pub builtin: BuiltinMetaView,
    pub selected: bool,
}

impl View for BuiltinOption {
    type V = BuiltinOptionView;

    open spec fn view(&self) -> BuiltinOptionView {
        BuiltinOptionView {
            builtin: self.builtin@,
            selected: self.selected,
        }
    }
}

/// The linters among `all` whose names are not among `names`, none picked.
pub open spec fn other_options(
    all: Seq<BuiltinMetaView>,
    names: Seq<Seq<char>>,
) -> Seq<BuiltinOptionView>
    decreases all.len(),
{
    if all.len() == 0 {
        seq![]
    } else {
        let before = other_options(all.drop_last(), names);
        if names.contains(all.last().name) {
            before
        } else {
            before.push(BuiltinOptionView { builtin: all.last(), selected: false })
        }
    }
}

pub open spec fn builtin_names(detections: Seq<DetectionView>) -> Seq<Seq<char>> {
    detections.map_values(|d: DetectionView| d.builtin.name)
}

/// The linters to pick: those that fit the project first, picked to begin with; then all others.
pub open spec fn all_options(
    detections: Seq<DetectionView>,
    all: Seq<BuiltinMetaView>,
) -> Seq<BuiltinOptionView> {
    detections.map_values(
        |d: DetectionView| BuiltinOptionView { builtin: d.builtin, selected: true },
    ) + other_options(all, builtin_names(detections))
}

/// The linters to pick from, in the order in which they are offered.
pub fn builtin_options(detections: &[Detection], all: &[BuiltinMeta]) -> (r: Vec<BuiltinOption>)
    ensures
        views(r@) == all_options(views(detections@), views(all@)),
{
    let mut out: Vec<BuiltinOption> = Vec::new();
    let mut names: Vec<String> = Vec::new();
    let ghost dv = views(detections@);
    let ghost first = dv.map_values(
        |d: DetectionView| BuiltinOptionView { builtin: d.builtin, selected: true },
    );
    for i in 0..detections.len()
        invariant
            dv == views(detections@),
            first == dv.map_values(
                |d: DetectionView| BuiltinOptionView { builtin: d.builtin, selected: true },
            ),
            views(out@) =~= first.take(i as int),
            texts(names@) =~= builtin_names(dv).take(i as int),
    {
        assert(dv[i as int] == detections@[i as int]@);
        names.push(detections[i].builtin.name.clone());
        let option = BuiltinOption { builtin: detections[i].builtin.dup(), selected: true };
        assert(option@ == first[i as int]);
        out.push(option);
    }
    assert(texts(names@) =~= builtin_names(dv));
    assert(views(out@) =~= first + other_options(views(all@).take(0), builtin_names(dv)));
    for i in 0..all.len()
        invariant
            texts(names@) == builtin_names(dv),
            views(out@) == first + other_options(views(all@).take(i as int), builtin_names(dv)),
    {
        assert(views(all@)[i as int] == all@[i as int]@);
        let ghost before = other_options(views(all@).take(i as int), builtin_names(dv));
        if !list_has(&names, all[i].name.as_str()) {
            let option = BuiltinOption { builtin: all[i].dup(), selected: false };
            let ghost ov = option@;
            out.push(option);
            assert(views(out@) =~= first + before.push(ov));
        }
    }
    assert(views(all@).take(all@.len() as int) =~= views(all@));
    out
}

/// The linters among the options whose names were picked, in the order of the options.
pub open spec fn picked_builtins(
    options: Seq<BuiltinOptionView>,
    names: Seq<Seq<char>>,
) -> Seq<BuiltinMetaView>
    decreases options.len(),
{
    if options.len() == 0 {
        seq![]
    } else {
        let before = picked_builtins(options.drop_last(), names);
        if names.contains(options.last().builtin.name) {
            before.push(options.last().builtin)
        } else {
            before
        }
    }
}

/// The linters that were picked by their names, in the order in which they were offered.
pub fn pick_builtins(options: &[BuiltinOption], names: &[String]) -> (r: Vec<BuiltinMeta>)
    ensures
        views(r@) == picked_builtins(views(options@), texts(names@)),
{
    let mut out: Vec<BuiltinMeta> = Vec::new();
    assert(views(out@) =~= picked_builtins(views(options@).take(0), texts(names@)));
    for i in 0..options.len()
        invariant
            views(out@) == picked_builtins(views(options@).take(i as int), texts(names@)),
    {
        assert(views(options@)[i as int] == options@[i as int]@);
        if list_has(names, options[i].builtin.name.as_str()) {
            out.push(options[i].builtin.dup());
        }
    }
    assert(views(options@).take(options@.len() as int) =~= views(options@));
    out
}

/// The hooks that a user picked, or the default where none is.
pub fn pick_hooks(picked: Vec<String>) -> (r: Vec<String>)
    ensures
        texts(r@) == if picked@.len() == 0 {
            seq!["pre-commit"@]
        } else {
            texts(picked@)
        },
{
    if picked.len() == 0 {
        default_hooks()
    } else {
        picked
    }
}

/// The label of a linter in a list to pick from.
pub fn option_label(meta: &BuiltinMeta) -> (r: String)
    ensures
        r@ == meta@.category + "/"@ + meta@.name,
{
    let mut s = meta.category.clone();
    s.append("/");
    s.append(meta.name.as_str());
    s
}

/// The linters that fit the project, each with the reason.
pub open spec fn detection_summary(detections: Seq<DetectionView>) -> Seq<char> {
    joined(
        detections.map_values(|d: DetectionView| d.builtin.name + " ("@ + d.reason + ")"@),
        ", "@,
    )
}

impl Init {
    /// Whether `mise.toml` is written: it is asked for, and not there or to be overwritten.
    pub fn writes_mise(&self, env_mise: bool, present: bool) -> (r: bool)
        ensures
            r == ((env_mise || self.mise) && (!present || self.force)),
    {
        (env_mise || self.mise) && (!present || self.force)
    }

    /// Whether the configuration is written: it is not there, or to be overwritten.
    pub fn writes_config(&self, present: bool) -> (r: bool)
        ensures
            r == (!present || self.force),
    {
        !present || self.force
    }

    /// The configuration of a project for which linters were picked.
    pub fn run_interactive(&self, picked: &[BuiltinMeta], hooks: Vec<String>, version: &str) -> (r:
        String)
        ensures
            r@ == if picked@.len() == 0 {
                default_template(version@)
            } else {
                generated(
                    views(picked@),
                    if hooks@.len() == 0 {
                        seq!["pre-commit"@]
                    } else {
                        texts(hooks@)
                    },
                    version@,
                )
            },
    {
        if picked.len() == 0 {
            return generate_default_template(version);
        }
        let hooks = pick_hooks(hooks);
        generate_pkl(picked, &hooks, version)
    }

    /// The configuration of a project for which linters were detected.
    pub fn run_auto(&self, detections: &[Detection], version: &str) -> (r: String)
        ensures
            r@ == if detections@.len() == 0 {
                default_template(version@)
            } else {
                generated(
                    detected_builtins(views(detections@)),
                    seq!["pre-commit"@],
                    version@,
                )
            },
    {
        if detections.len() == 0 {
            return generate_default_template(version);
        }
        let mut builtins: Vec<BuiltinMeta> = Vec::new();
        let ghost all = detected_builtins(views(detections@));
        for i in 0..detections.len()
            invariant
                all == detected_builtins(views(detections@)),
                views(builtins@) =~= all.take(i as int),
        {
            assert(views(detections@)[i as int] == detections@[i as int]@);
            builtins.push(detections[i].builtin.dup());
        }
        assert(views(builtins@) =~= all);
        let hooks = default_hooks();
        generate_pkl(&builtins, &hooks, version)
    }

    /// The linters that fit the project, each with the reason.
    pub fn summary(detections: &[Detection]) -> (r: String)
        ensures
            r@ == detection_summary(views(detections@)),
    {
        let mut parts: Vec<String> = Vec::new();
        let ghost all = views(detections@).map_values(
            |d: DetectionView| d.builtin.name + " ("@ + d.reason + ")"@,
        );
        for i in 0..detections.len()
            invariant
                all == views(detections@).map_values(
                    |d: DetectionView| d.builtin.name + " ("@ + d.reason + ")"@,
                ),
                texts(parts@) =~= all.take(i as int),
        {
            assert(views(detections@)[i as int] == detections@[i as int]@);
            let mut s = detections[i].builtin.name.clone();
            s.append(" (");
            s.append(detections[i].reason.as_str());
            s.append(")");
            parts.push(s);
        }
        assert(texts(parts@) =~= all);
        join(&parts, ", ")
    }

    /// What a `mise.toml` for the program holds.
    pub fn mise_toml() -> (r: &'static str)
        ensures
            r@
                == "[tools]\nhk = \"latest\"\npkl = \"latest\"\n\n[tasks.pre-commit]\nrun = \"hk run pre-commit\"\n"@,
    {
        "[tools]\nhk = \"latest\"\npkl = \"latest\"\n\n[tasks.pre-commit]\nrun = \"hk run pre-commit\"\n"
    }
}

/// The line of a linter in a configuration.
pub open spec fn linter_line(name: Seq<char>) -> Seq<char> {
    "    [\""@ + name + "\"] = Builtins."@ + name + "\n"@
}

proof fn lemma_linter_lines(builtins: Seq<BuiltinMetaView>, i: int)
    requires
        0 <= i < builtins.len(),
    ensures
        has_text(linter_lines(builtins), linter_line(builtins[i].name)),
    decreases builtins.len(),
{
    let init = builtins.drop_last();
    let line = linter_line(builtins.last().name);
    let before = linter_lines(init);
    if i < init.len() {
        lemma_linter_lines(init, i);
        crate::text::lemma_stands_in_part(seq![], before, line, linter_line(builtins[i].name));
        assert(seq![] + before + line =~= linter_lines(builtins));
    } else {
        crate::text::lemma_stands_between(before, line, seq![]);
        assert(before + line + seq![] =~= linter_lines(builtins));
    }
}

/// A configuration names every linter that was asked for, and the version it was written
/// for.
pub proof fn law_configurations_name_every_linter(
    builtins: Seq<BuiltinMetaView>,
    hooks: Seq<Seq<char>>,
    version: Seq<char>,
    i: int,
)
    ensures
        0 <= i < builtins.len() ==> has_text(
            generated(builtins, hooks, version),
            linter_line(builtins[i].name),
        ),
        has_text(generated(builtins, hooks, version), header(version)),
        has_text(header(version), version),
{
    let start = header(version) + "local linters = new Mapping {\n"@;
    let lines = linter_lines(builtins);
    let whole = generated(builtins, hooks, version);
    let tail = whole.skip((start + lines).len() as int);
    assert(start + lines + tail =~= whole);
    if 0 <= i < builtins.len() {
        lemma_linter_lines(builtins, i);
        crate::text::lemma_stands_in_part(start, lines, tail, linter_line(builtins[i].name));
    }
    let rest = whole.skip(header(version).len() as int);
    crate::text::lemma_stands_between(seq![], header(version), rest);
    assert(seq![] + header(version) + rest =~= whole);
    let a = "amends \"package://github.com/jdx/hk/releases/download/v"@;
    let b = header(version).skip((a + version).len() as int);
    crate::text::lemma_stands_between(a, version, b);
    assert(a + version + b =~= header(version));
}

/// A hook before pushes is there exactly where it was asked for, and that before commits is
/// turned off exactly where it was not.
pub proof fn law_configurations_have_the_asked_hooks(hooks: Seq<Seq<char>>)
    ensures
        hooks.contains("pre-push"@) <==> hook_blocks(hooks).len() > 0,
        hooks.contains("pre-push"@) ==> has_text(
            hook_blocks(hooks),
            "    [\"pre-push\"] {\n        steps = linters\n    }\n"@,
        ),
    decreases hooks.len(),
{
    if hooks.len() > 0 {
        let init = hooks.drop_last();
        let before = hook_blocks(init);
        let block = "    [\"pre-push\"] {\n        steps = linters\n    }\n"@;
        reveal_strlit("    [\"pre-push\"] {\n        steps = linters\n    }\n");
        assert(block.len() > 0);
        law_configurations_have_the_asked_hooks(init);
        crate::seqs::lemma_last_or_before(hooks, "pre-push"@);
        if hooks.last() == "pre-push"@ {
            crate::text::lemma_stands_between(before, block, seq![]);
            assert(before + block + seq![] =~= hook_blocks(hooks));
        }
    }
}

/// What is written of hooks: the blocks of those that were asked for, and that before
/// commits turned off where it was not.
pub proof fn law_commits_run_linters_unless_unasked(
    builtins: Seq<BuiltinMetaView>,
    hooks: Seq<Seq<char>>,
    version: Seq<char>,
)
    ensures
        hooks.contains("pre-push"@) ==> has_text(
            generated(builtins, hooks, version),
            "    [\"pre-push\"] {\n        steps = linters\n    }\n"@,
        ),
        !hooks.contains("pre-commit"@) ==> has_text(
            generated(builtins, hooks, version),
            "    [\"pre-commit\"] {\n        enabled = false\n    }\n"@,
        ),
        has_text(generated(builtins, hooks, version), "steps = linters\n"@),
        hooks == seq!["pre-commit"@] ==> ends(generated(builtins, hooks, version), "steps = linters\n"@),
{
    let whole = generated(builtins, hooks, version);
    let start = header(version) + "local linters = new Mapping {\n"@ + linter_lines(builtins) + "}\n\n"@;
    let steps = "steps = linters\n"@;
    let rest = whole.skip((start + steps).len() as int);
    crate::text::lemma_stands_between(start, steps, rest);
    assert(start + steps + rest =~= whole);
    let off = "    [\"pre-commit\"] {\n        enabled = false\n    }\n"@;
    let linters = start + steps;
    let open = linters + "\nhooks {\n"@;
    let disabled = !hooks.contains("pre-commit"@);
    let turned = if disabled {
        off
    } else {
        ""@
    };
    let blocks = hook_blocks(hooks);
    if disabled {
        crate::text::lemma_stands_between(open, off, blocks + "}\n"@);
        assert(open + off + (blocks + "}\n"@) =~= whole);
    }
    if hooks.contains("pre-push"@) {
        law_configurations_have_the_asked_hooks(hooks);
        reveal_strlit("pre-push");
        reveal_strlit("pre-commit");
        assert("pre-push"@.len() == 8 && "pre-commit"@.len() == 10);
        let k = choose|k: int| 0 <= k < hooks.len() && hooks[k] == "pre-push"@;
        assert(hooks[k] != "pre-commit"@);
        assert(asks_for_more(hooks));
        crate::text::lemma_stands_in_part(
            open + turned,
            blocks,
            "}\n"@,
            "    [\"pre-push\"] {\n        steps = linters\n    }\n"@,
        );
        assert(open + turned + blocks + "}\n"@ =~= whole);
    }
    if hooks == seq!["pre-commit"@] {
        assert(hooks[0] == "pre-commit"@);
        assert(hooks.contains("pre-commit"@));
        assert(!asks_for_more(hooks));
        assert(whole.subrange(whole.len() - steps.len(), whole.len() as int) =~= steps);
    }
}

/// Every linter is offered exactly once by its name, those that fit the project first and
/// picked.
pub proof fn law_every_linter_is_offered(
    detections: Seq<DetectionView>,
    all: Seq<BuiltinMetaView>,
    i: int,
    builtin: BuiltinMetaView,
)
    ensures
        ({
            let options = all_options(detections, all);
            &&& 0 <= i < detections.len() ==> options[i] == (BuiltinOptionView {
                builtin: detections[i].builtin,
                selected: true,
            })
            &&& detections.len() <= i < options.len() ==> !options[i].selected
            &&& options.contains(BuiltinOptionView { builtin, selected: false }) <==> all.contains(
                builtin,
            ) && forall|k: int|
                0 <= k < detections.len() ==> (#[trigger] detections[k]).builtin.name != builtin.name
        }),
{
    let first = detections.map_values(
        |d: DetectionView| BuiltinOptionView { builtin: d.builtin, selected: true },
    );
    let names = builtin_names(detections);
    let others = other_options(all, names);
    let x = BuiltinOptionView { builtin, selected: false };
    lemma_other_options(all, names, builtin);
    crate::seqs::lemma_either(first, others, x);
    if first.contains(x) {
        let k = choose|k: int| 0 <= k < first.len() && first[k] == x;
        assert(first[k].selected);
    }
    if names.contains(builtin.name) {
        let k = choose|k: int| 0 <= k < names.len() && names[k] == builtin.name;
        assert(detections[k].builtin.name == builtin.name);
    } else {
        assert forall|k: int| 0 <= k < detections.len() implies (#[trigger] detections[
            k
        ]).builtin.name != builtin.name by {
            assert(names[k] == detections[k].builtin.name);
        }
    }
    if detections.len() <= i < first.len() + others.len() {
        let o = others[i - first.len()];
        assert(others.contains(o));
    }
}

proof fn lemma_other_options(
    all: Seq<BuiltinMetaView>,
    names: Seq<Seq<char>>,
    builtin: BuiltinMetaView,
)
    ensures
        other_options(all, names).contains(BuiltinOptionView { builtin, selected: false })
            <==> all.contains(builtin) && !names.contains(builtin.name),
        forall|o: BuiltinOptionView| #[trigger] other_options(all, names).contains(o) ==> !o.selected,
    decreases all.len(),
{
    if all.len() > 0 {
        let init = all.drop_last();
        let before = other_options(init, names);
        lemma_other_options(init, names, builtin);
        crate::seqs::lemma_last_or_before(all, builtin);
        let new = BuiltinOptionView { builtin: all.last(), selected: false };
        crate::seqs::lemma_pushed(before, new, BuiltinOptionView { builtin, selected: false });
        assert forall|o: BuiltinOptionView| #[trigger] other_options(all, names).contains(o) implies
            !o.selected by {
            crate::seqs::lemma_pushed(before, new, o);
        }
    }
}

/// A linter is used exactly where it was offered and picked.
pub proof fn law_picked_linters_are_used(
    options: Seq<BuiltinOptionView>,
    names: Seq<Seq<char>>,
    builtin: BuiltinMetaView,
)
    ensures
        picked_builtins(options, names).contains(builtin) <==> names.contains(builtin.name) && exists|
            i: int,
        |
            0 <= i < options.len() && (#[trigger] options[i]).builtin == builtin,
    decreases options.len(),
{
    if options.len() > 0 {
        let init = options.drop_last();
        let n = options.len() - 1;
        law_picked_linters_are_used(init, names, builtin);
        crate::seqs::lemma_pushed(picked_builtins(init, names), options.last().builtin, builtin);
        assert(options[n] == options.last());
        if exists|i: int| 0 <= i < init.len() && (#[trigger] init[i]).builtin == builtin {
            let i = choose|i: int| 0 <= i < init.len() && (#[trigger] init[i]).builtin == builtin;
            assert(options[i].builtin == builtin);
        }
        if exists|i: int| 0 <= i < options.len() && (#[trigger] options[i]).builtin == builtin {
            let i = choose|i: int| 0 <= i < options.len() && (#[trigger] options[i]).builtin == builtin;
            if i < n {
                assert(init[i].builtin == builtin);
            }
        }
    }
}

/// The summary tells each linter that fits, with the reason.
pub proof fn law_summaries_tell_the_reasons(detections: Seq<DetectionView>, i: int)
    requires
        0 <= i < detections.len(),
    ensures
        has_text(
            detection_summary(detections),
            detections[i].builtin.name + " ("@ + detections[i].reason + ")"@,
        ),
{
    let parts = detections.map_values(
        |d: DetectionView| d.builtin.name + " ("@ + d.reason + ")"@,
    );
    crate::text::lemma_part_stands_in_joined(parts, ", "@, i);
}

} // verus!
