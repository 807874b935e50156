//! Steps: one linter or fixer each, with the commands it runs and the files it takes.

use vstd::prelude::*;
use crate::json::{field_views, group_json, member, Json, JsonView};
use crate::seqs::{opt_text, opt_texts, opt_view, opt_views, texts};
use crate::table::{dup_opt_vec, dup_option, Dup, Table};
use crate::text::{dup_list, dup_opt, dup_opt_list};

verus! {

broadcast use crate::seqs::group_text;

/// Whether a hook runs the check commands or the fix commands of its steps.
#[derive(Clone, Copy, Debug, PartialEq, Eq, Structural)]
pub enum RunType {
    Check,
    Fix,
}

impl RunType {
    pub open spec fn text(self) -> Seq<char> {
        match self {
            RunType::Check => "check"@,
            RunType::Fix => "fix"@,
        }
    }

    pub fn as_str(self) -> (r: &'static str)
        ensures
            r@ == self.text(),
    {
        match self {
            RunType::Check => "check",
            RunType::Fix => "fix",
        }
    }
}

/// What a command does to the files it is given, from least to most intrusive.
#[derive(Clone, Copy, Debug, PartialEq, Eq, Structural)]
pub enum CommandEffect {
    Read,
    Write,
    Destructive,
}

impl CommandEffect {
    pub open spec fn rank(self) -> int {
        match self {
            CommandEffect::Read => 0,
            CommandEffect::Write => 1,
            CommandEffect::Destructive => 2,
        }
    }

    pub fn level(self) -> (r: u8)
        ensures
            r == self.rank(),
    {
        match self {
            CommandEffect::Read => 0,
            CommandEffect::Write => 1,
            CommandEffect::Destructive => 2,
        }
    }
}

/// Which part of a step's output the end-of-run summary shows.
#[derive(Clone, Copy, Debug, PartialEq, Eq, Structural)]
pub enum OutputSummary {
    Stdout,
    Stderr,
    Combined,
    Hide,
}

/// Which paths a step takes or leaves: a regular expression, or globs.
pub enum Pattern {
    Regex(String),
    Globs(Vec<String>),
}

/// What [`Pattern`] stands for.
pub enum PatternView {
    Regex(Seq<char>),
    Globs(Seq<Seq<char>>),
}

impl View for Pattern {
    type V = PatternView;

    open spec fn view(&self) -> PatternView {
        match self {
            Pattern::Regex(x) => PatternView::Regex(x@),
            Pattern::Globs(x) => PatternView::Globs(texts(x@)),
        }
    }
}

impl Dup for Pattern {
    fn dup(&self) -> (r: Self) {
        match self {
            Pattern::Regex(x) => Pattern::Regex(x.clone()),
            Pattern::Globs(x) => Pattern::Globs(dup_list(x)),
        }
    }
}

impl PatternView {
    /// A pattern that names no path at all.
    pub open spec fn is_empty(self) -> bool {
        match self {
            PatternView::Regex(r) => r.len() == 0,
            PatternView::Globs(g) => g.len() == 0,
        }
    }
}

impl Pattern {
    pub fn is_empty(&self) -> (r: bool)
        ensures
            r == self@.is_empty(),
    {
        match self {
            Pattern::Regex(s) => s.as_str().is_empty(),
            Pattern::Globs(g) => g.len() == 0,
        }
    }
}

/// One alternative of `match_any`: files by glob, by type, or both.
pub struct Selector {
    pub glob: Option<Pattern>,
    pub types: Option<Vec<String>>,
}

/// What [`Selector`] stands for.
pub struct SelectorView {
    pub glob: Option<PatternView>,
    pub types: Option<Seq<Seq<char>>>,
}

impl View for Selector {
    type V = SelectorView;

    open spec fn view(&self) -> SelectorView {
        SelectorView {
            glob: opt_view(self.glob),
            types: opt_texts(self.types),
        }
    }
}

impl Dup for Selector {
    fn dup(&self) -> (r: Self) {
        Selector {
            glob: dup_option(&self.glob),
            types: dup_opt_list(&self.types),
        }
    }
}

impl SelectorView {
    /// Neither a non-empty glob nor a non-empty list of types.
    pub open spec fn is_empty(self) -> bool {
        &&& (self.glob matches Some(g) ==> g.is_empty())
        &&& (self.types matches Some(t) ==> t.len() == 0)
    }
}

impl Selector {
    pub fn is_empty(&self) -> (r: bool)
        ensures
            r == self@.is_empty(),
    {
        let no_glob = match &self.glob {
            Some(g) => g.is_empty(),
            None => true,
        };
        let no_types = match &self.types {
            Some(t) => t.len() == 0,
            None => true,
        };
        no_glob && no_types
    }
}

/// A shell script.
pub struct Script {
    pub text: String,
}

/// What [`Script`] stands for.
pub struct ScriptView {
    pub text: Seq<char>,
}

impl View for Script {
    type V = ScriptView;

    open spec fn view(&self) -> ScriptView {
        ScriptView {
            text: self.text@,
        }
    }
}

impl Dup for Script {
    fn dup(&self) -> (r: Self) {
        Script {
            text: self.text.clone(),
        }
    }
}

/// A script as it is stored: for all systems that have none of their own.
pub open spec fn stored_script(s: ScriptView) -> JsonView {
    JsonView::Object(seq![("other"@, JsonView::String(s.text))])
}

/// The script that JSON stands for: a text, or what is stored of one.
pub open spec fn script_of(json: JsonView) -> Option<ScriptView> {
    match json {
        JsonView::String(text) => Some(ScriptView { text }),
        _ => match json.field_text("other"@) {
            Some(text) => Some(ScriptView { text }),
            None => None,
        },
    }
}

impl Script {
    /// The script as it is stored.
    pub fn to_json(&self) -> (r: Json)
        ensures
            r@ == stored_script(self@),
    {
        broadcast use group_json;

        let mut fields: Vec<(String, Json)> = Vec::new();
        let text = Json::String(self.text.clone());
        fields.push(("other".to_owned(), text));
        assert(field_views(fields@) =~= stored_script(self@)->Object_0);
        Json::Object(fields)
    }

    /// The script that JSON stands for.
    pub fn from_json(json: &Json) -> (r: Option<Script>)
        ensures
            opt_view(r) == script_of(json@),
    {
        match json {
            Json::String(text) => Some(Script { text: text.clone() }),
            _ => match json.get_str("other") {
                Some(text) => Some(Script { text: text.to_owned() }),
                None => None,
            },
        }
    }
}

/// A script that is stored reads back as it was.
pub proof fn law_stored_scripts_read_back(s: ScriptView)
    ensures
        script_of(stored_script(s)) == Some(s),
{
    let fields = stored_script(s)->Object_0;
    reveal_with_fuel(member, 2);
    assert(fields.last() == ("other"@, JsonView::String(s.text)));
    assert(member(fields, "other"@) == Some(JsonView::String(s.text)));
}

/// What is put in front of a command.
pub enum CommandPrefix {
    Shell(String),
    Argv(Vec<String>),
}

/// What [`CommandPrefix`] stands for.
pub enum CommandPrefixView {
    Shell(Seq<char>),
    Argv(Seq<Seq<char>>),
}

impl View for CommandPrefix {
    type V = CommandPrefixView;

    open spec fn view(&self) -> CommandPrefixView {
        match self {
            CommandPrefix::Shell(x) => CommandPrefixView::Shell(x@),
            CommandPrefix::Argv(x) => CommandPrefixView::Argv(texts(x@)),
        }
    }
}

impl Dup for CommandPrefix {
    fn dup(&self) -> (r: Self) {
        match self {
            CommandPrefix::Shell(x) => CommandPrefix::Shell(x.clone()),
            CommandPrefix::Argv(x) => CommandPrefix::Argv(dup_list(x)),
        }
    }
}

/// A command given as its arguments, run without a shell.
pub struct ArgvCommand {
    pub argv: Vec<String>,
}

/// What [`ArgvCommand`] stands for.
pub struct ArgvCommandView {
    pub argv: Seq<Seq<char>>,
}

impl View for ArgvCommand {
    type V = ArgvCommandView;

    open spec fn view(&self) -> ArgvCommandView {
        ArgvCommandView {
            argv: texts(self.argv@),
        }
    }
}

impl Dup for ArgvCommand {
    fn dup(&self) -> (r: Self) {
        ArgvCommand {
            argv: dup_list(&self.argv),
        }
    }
}

/// A command of a step.
pub enum Command {
    Script(Script),
    Argv(ArgvCommand),
}

/// What [`Command`] stands for.
pub enum CommandView {
    Script(ScriptView),
    Argv(ArgvCommandView),
}

impl View for Command {
    type V = CommandView;

    open spec fn view(&self) -> CommandView {
        match self {
            Command::Script(x) => CommandView::Script(x@),
            Command::Argv(x) => CommandView::Argv(x@),
        }
    }
}

impl Dup for Command {
    fn dup(&self) -> (r: Self) {
        match self {
            Command::Script(x) => Command::Script(x.dup()),
            Command::Argv(x) => Command::Argv(x.dup()),
        }
    }
}

/// Whether a failing step lets the hook pass: always, never, or as an expression says.
pub enum AllowFailure {
    Bool(bool),
    Expression(String),
}

/// What [`AllowFailure`] stands for.
pub enum AllowFailureView {
    Bool(bool),
    Expression(Seq<char>),
}

impl View for AllowFailure {
    type V = AllowFailureView;

    open spec fn view(&self) -> AllowFailureView {
        match self {
            AllowFailure::Bool(x) => AllowFailureView::Bool(*x),
            AllowFailure::Expression(x) => AllowFailureView::Expression(x@),
        }
    }
}

impl Dup for AllowFailure {
    fn dup(&self) -> (r: Self) {
        match self {
            AllowFailure::Bool(x) => AllowFailure::Bool(*x),
            AllowFailure::Expression(x) => AllowFailure::Expression(x.clone()),
        }
    }
}

/// One linter or fixer of a hook.
pub struct Step {
    pub name: String,
    pub workspace_indicator: Option<String>,
    pub prefix: Option<CommandPrefix>,
    pub dir: Option<String>,
    pub shell: Option<Script>,
    pub env: Table<String>,
    pub depends: Vec<String>,
    pub glob: Option<Pattern>,
    pub types: Option<Vec<String>>,
    pub match_any: Option<Vec<Selector>>,
    pub exclude: Option<Pattern>,
    pub profiles: Option<Vec<String>>,
    pub stage: Option<Vec<String>>,
    pub check: Option<Command>,
    pub check_list_files: Option<Command>,
    pub check_diff: Option<Command>,
    pub fix: Option<Command>,
    pub step_condition: Option<String>,
    pub job_condition: Option<String>,
    pub allow_failure: AllowFailure,
    pub exclusive: bool,
    pub interactive: bool,
    pub check_first: bool,
    pub check_failed_files: bool,
    pub check_after_diff: bool,
    pub output_summary: OutputSummary,
}

/// What [`Step`] stands for.
pub struct StepView {
    pub name: Seq<char>,
    pub workspace_indicator: Option<Seq<char>>,
    pub prefix: Option<CommandPrefixView>,
    pub dir: Option<Seq<char>>,
    pub shell: Option<ScriptView>,
    pub env: Seq<(Seq<char>, Seq<char>)>,
    pub depends: Seq<Seq<char>>,
    pub glob: Option<PatternView>,
    pub types: Option<Seq<Seq<char>>>,
    pub match_any: Option<Seq<SelectorView>>,
    pub exclude: Option<PatternView>,
    pub profiles: Option<Seq<Seq<char>>>,
    pub stage: Option<Seq<Seq<char>>>,
    pub check: Option<CommandView>,
    pub check_list_files: Option<CommandView>,
    pub check_diff: Option<CommandView>,
    pub fix: Option<CommandView>,
    pub step_condition: Option<Seq<char>>,
    pub job_condition: Option<Seq<char>>,
    pub allow_failure: AllowFailureView,
    pub exclusive: bool,
    pub interactive: bool,
    pub check_first: bool,
    pub check_failed_files: bool,
    pub check_after_diff: bool,
    pub output_summary: OutputSummary,
}

impl View for Step {
    type V = StepView;

    open spec fn view(&self) -> StepView {
        StepView {
            name: self.name@,
            workspace_indicator: opt_text(self.workspace_indicator),
            prefix: opt_view(self.prefix),
            dir: opt_text(self.dir),
            shell: opt_view(self.shell),
            env: self.env@,
            depends: texts(self.depends@),
            glob: opt_view(self.glob),
            types: opt_texts(self.types),
            match_any: opt_views(self.match_any),
            exclude: opt_view(self.exclude),
            profiles: opt_texts(self.profiles),
            stage: opt_texts(self.stage),
            check: opt_view(self.check),
            check_list_files: opt_view(self.check_list_files),
            check_diff: opt_view(self.check_diff),
            fix: opt_view(self.fix),
            step_condition: opt_text(self.step_condition),
            job_condition: opt_text(self.job_condition),
            allow_failure: self.allow_failure@,
            exclusive: self.exclusive,
            interactive: self.interactive,
            check_first: self.check_first,
            check_failed_files: self.check_failed_files,
            check_after_diff: self.check_after_diff,
            output_summary: self.output_summary,
        }
    }
}

impl Dup for Step {
    fn dup(&self) -> (r: Self) {
        Step {
            name: self.name.clone(),
            workspace_indicator: dup_opt(&self.workspace_indicator),
            prefix: dup_option(&self.prefix),
            dir: dup_opt(&self.dir),
            shell: dup_option(&self.shell),
            env: self.env.dup(),
            depends: dup_list(&self.depends),
            glob: dup_option(&self.glob),
            types: dup_opt_list(&self.types),
            match_any: dup_opt_vec(&self.match_any),
            exclude: dup_option(&self.exclude),
            profiles: dup_opt_list(&self.profiles),
            stage: dup_opt_list(&self.stage),
            check: dup_option(&self.check),
            check_list_files: dup_option(&self.check_list_files),
            check_diff: dup_option(&self.check_diff),
            fix: dup_option(&self.fix),
            step_condition: dup_opt(&self.step_condition),
            job_condition: dup_opt(&self.job_condition),
            allow_failure: self.allow_failure.dup(),
            exclusive: self.exclusive,
            interactive: self.interactive,
            check_first: self.check_first,
            check_failed_files: self.check_failed_files,
            check_after_diff: self.check_after_diff,
            output_summary: self.output_summary,
        }
    }
}

/// A step with nothing configured.
pub open spec fn blank_step() -> StepView {
    StepView {
        name: seq![],
        workspace_indicator: None,
        prefix: None,
        dir: None,
        shell: None,
        env: seq![],
        depends: seq![],
        glob: None,
        types: None,
        match_any: None,
        exclude: None,
        profiles: None,
        stage: None,
        check: None,
        check_list_files: None,
        check_diff: None,
        fix: None,
        step_condition: None,
        job_condition: None,
        allow_failure: AllowFailureView::Bool(false),
        exclusive: false,
        interactive: false,
        check_first: false,
        check_failed_files: false,
        check_after_diff: false,
        output_summary: OutputSummary::Stderr,
    }
}

impl Default for Step {
    fn default() -> (r: Self)
        ensures
            r@ == blank_step(),
    {
        let r = Step {
            name: String::new(),
            workspace_indicator: None,
            prefix: None,
            dir: None,
            shell: None,
            env: Table::new(),
            depends: Vec::new(),
            glob: None,
            types: None,
            match_any: None,
            exclude: None,
            profiles: None,
            stage: None,
            check: None,
            check_list_files: None,
            check_diff: None,
            fix: None,
            step_condition: None,
            job_condition: None,
            allow_failure: AllowFailure::Bool(false),
            exclusive: false,
            interactive: false,
            check_first: false,
            check_failed_files: false,
            check_after_diff: false,
            output_summary: OutputSummary::Stderr,
        };
        assert(r@.depends =~= blank_step().depends);
        r
    }
}

} // verus!
