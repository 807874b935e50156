//! Configurations in Pkl: how patterns, steps and hooks are written.

use vstd::prelude::*;
use vstd::string::*;
use crate::seqs::{opt_text, texts, views};
use crate::table::{Dup, Table};
use crate::text::{
    after, contains, contains_char, dup_list, dup_opt, has_char, has_text, join, joined, push_char,
    split, split_on, starts, starts_with, strip_prefix, to_chars, trim, trim_end, trimmed,
    trimmed_end,
};
use crate::version::{current_version, version};

verus! {

broadcast use crate::seqs::group_text;

/// A step as it is written.
pub struct HkStep {
    /// The builtin that it amends.
    pub builtin: Option<String>,
    /// Comment lines before it.
    pub comments: Vec<String>,
    pub glob: Option<String>,
    pub exclude: Option<String>,
    pub prefix: Option<String>,
    pub check: Option<String>,
    pub fix: Option<String>,
    pub shell: Option<String>,
    pub exclusive: bool,
    /// Comment lines in it, for what cannot be said otherwise.
    pub properties_as_comments: Vec<String>,
}

/// What [`HkStep`] stands for.
pub struct HkStepView {
    pub builtin: Option<Seq<char>>,
    pub comments: Seq<Seq<char>>,
    pub glob: Option<Seq<char>>,
    pub exclude: Option<Seq<char>>,
    pub prefix: Option<Seq<char>>,
    pub check: Option<Seq<char>>,
    pub fix: Option<Seq<char>>,
    pub shell: Option<Seq<char>>,
    pub exclusive: bool,
    pub properties_as_comments: Seq<Seq<char>>,
}

impl View for HkStep {
    type V = HkStepView;

    open spec fn view(&self) -> HkStepView {
        HkStepView {
            builtin: opt_text(self.builtin),
            comments: texts(self.comments@),
            glob: opt_text(self.glob),
            exclude: opt_text(self.exclude),
            prefix: opt_text(self.prefix),
            check: opt_text(self.check),
            fix: opt_text(self.fix),
            shell: opt_text(self.shell),
            exclusive: self.exclusive,
            properties_as_comments: texts(self.properties_as_comments@),
        }
    }
}

impl Dup for HkStep {
    fn dup(&self) -> (r: Self) {
        HkStep {
            builtin: dup_opt(&self.builtin),
            comments: dup_list(&self.comments),
            glob: dup_opt(&self.glob),
            exclude: dup_opt(&self.exclude),
            prefix: dup_opt(&self.prefix),
            check: dup_opt(&self.check),
            fix: dup_opt(&self.fix),
            shell: dup_opt(&self.shell),
            exclusive: self.exclusive,
            properties_as_comments: dup_list(&self.properties_as_comments),
        }
    }
}

/// A step that says nothing.
pub open spec fn blank_hk_step() -> HkStepView {
    HkStepView {
        builtin: None,
        comments: seq![],
        glob: None,
        exclude: None,
        prefix: None,
        check: None,
        fix: None,
        shell: None,
        exclusive: false,
        properties_as_comments: seq![],
    }
}

impl Default for HkStep {
    fn default() -> (r: Self)
        ensures
            r@ == blank_hk_step(),
    {
        let r = HkStep {
            builtin: None,
            comments: Vec::new(),
            glob: None,
            exclude: None,
            prefix: None,
            check: None,
            fix: None,
            shell: None,
            exclusive: false,
            properties_as_comments: Vec::new(),
        };
        assert(r@.comments =~= seq![]);
        assert(r@.properties_as_comments =~= seq![]);
        r
    }
}

/// A hook as it is written.
pub struct HkHook {
    pub fix: Option<bool>,
    pub stash: Option<String>,
    /// Collections whose steps it runs.
    pub step_spreads: Vec<String>,
    pub direct_steps: Table<HkStep>,
}

/// What [`HkHook`] stands for.
pub struct HkHookView {
    pub fix: Option<bool>,
    pub stash: Option<Seq<char>>,
    pub step_spreads: Seq<Seq<char>>,
    pub direct_steps: Seq<(Seq<char>, HkStepView)>,
}

impl View for HkHook {
    type V = HkHookView;

    open spec fn view(&self) -> HkHookView {
        HkHookView {
            fix: self.fix,
            stash: opt_text(self.stash),
            step_spreads: texts(self.step_spreads@),
            direct_steps: self.direct_steps@,
        }
    }
}

/// An import under a name.
pub struct VendorImport {
    pub name: String,
    pub path: String,
}

/// What [`VendorImport`] stands for.
pub struct VendorImportView {
    pub name: Seq<char>,
    pub path: Seq<char>,
}

impl View for VendorImport {
    type V = VendorImportView;

    open spec fn view(&self) -> VendorImportView {
        VendorImportView {
            name: self.name@,
            path: self.path@,
        }
    }
}

impl Dup for VendorImport {
    fn dup(&self) -> (r: Self) {
        VendorImport {
            name: self.name.clone(),
            path: self.path.clone(),
        }
    }
}

/// A configuration as it is written.
pub struct HkConfig {
    pub amends: String,
    pub imports: Vec<String>,
    pub vendor_imports: Vec<VendorImport>,
    pub header_comments: Vec<String>,
    pub step_collections: Table<Table<HkStep>>,
    /// Steps that stand in a collection, by the name of the collection.
    pub step_references: Table<String>,
    pub steps: Table<HkStep>,
    pub hooks: Table<HkHook>,
}

/// What [`HkConfig`] stands for.
pub struct HkConfigView {
    pub amends: Seq<char>,
    pub imports: Seq<Seq<char>>,
    pub vendor_imports: Seq<VendorImportView>,
    pub header_comments: Seq<Seq<char>>,
    pub step_collections: Seq<(Seq<char>, Seq<(Seq<char>, HkStepView)>)>,
    pub step_references: Seq<(Seq<char>, Seq<char>)>,
    pub steps: Seq<(Seq<char>, HkStepView)>,
    pub hooks: Seq<(Seq<char>, HkHookView)>,
}

impl View for HkConfig {
    type V = HkConfigView;

    open spec fn view(&self) -> HkConfigView {
        HkConfigView {
            amends: self.amends@,
            imports: texts(self.imports@),
            vendor_imports: views(self.vendor_imports@),
            header_comments: texts(self.header_comments@),
            step_collections: self.step_collections@,
            step_references: self.step_references@,
            steps: self.steps@,
            hooks: self.hooks@,
        }
    }
}

/// An address in the package of a version of the program.
pub open spec fn package_address(file: Seq<char>) -> Seq<char> {
    "package://github.com/jdx/hk/releases/download/v"@ + current_version() + "/hk@"@
        + current_version() + "#/"@ + file
}

fn write_address(file: &str) -> (r: String)
    ensures
        r@ == package_address(file@),
{
    let mut s = "package://github.com/jdx/hk/releases/download/v".to_owned();
    s.append(version());
    s.append("/hk@");
    s.append(version());
    s.append("#/");
    s.append(file);
    s
}

/// A configuration without steps that amends and imports what is given, or the
/// package of the program.
pub open spec fn blank_hk_config(
    amends: Option<Seq<char>>,
    builtins: Option<Seq<char>>,
) -> HkConfigView {
    HkConfigView {
        amends: match amends {
            Some(a) => a,
            None => package_address("Config.pkl"@),
        },
        imports: seq![
            match builtins {
                Some(b) => b,
                None => package_address("Builtins.pkl"@),
            },
        ],
        vendor_imports: seq![],
        header_comments: seq![],
        step_collections: seq![],
        step_references: seq![],
        steps: seq![],
        hooks: seq![],
    }
}

/// `s` as it stands in a string without escapes.
pub open spec fn pkl_string(value: Seq<char>) -> Seq<char> {
    let t = trimmed(value);
    if has_char(t, '\\') || has_char(t, '"') {
        if has_char(t, '\n') {
            "#\"\"\"\n"@ + t + "\n\"\"\"#"@
        } else {
            "#\""@ + t + "\"#"@
        }
    } else if has_char(t, '\n') {
        "\"\"\"\n"@ + t + "\n\"\"\""@
    } else {
        "\""@ + t + "\""@
    }
}

fn between(a: &str, s: &str, b: &str) -> (r: String)
    ensures
        r@ == a@ + s@ + b@,
{
    let mut out = a.to_owned();
    out.append(s);
    out.append(b);
    out
}

/// A text as a Pkl string, between delimiters of its own where it holds quotes
/// or backslashes.
pub fn format_pkl_string(value: &str) -> (r: String)
    ensures
        r@ == pkl_string(value@),
{
    let t = trim(value);
    if contains_char(t.as_str(), '\\') || contains_char(t.as_str(), '"') {
        if contains_char(t.as_str(), '\n') {
            between("#\"\"\"\n", t.as_str(), "\n\"\"\"#")
        } else {
            between("#\"", t.as_str(), "\"#")
        }
    } else if contains_char(t.as_str(), '\n') {
        between("\"\"\"\n", t.as_str(), "\n\"\"\"")
    } else {
        between("\"", t.as_str(), "\"")
    }
}

/// What has been read of a Pkl string behind its opening quote, and whether the next
/// character is escaped.
pub open spec fn pkl_read(s: Seq<char>) -> (Seq<char>, bool)
    decreases s.len(),
{
    if s.len() == 0 {
        (seq![], false)
    } else {
        let (read, escape) = pkl_read(s.drop_last());
        let c = s.last();
        if escape {
            (
                read.push(
                    if c == 'n' {
                        '\n'
                    } else if c == 'r' {
                        '\r'
                    } else if c == 't' {
                        '\t'
                    } else {
                        c
                    },
                ),
                false,
            )
        } else if c == '\\' {
            (read, true)
        } else {
            (read.push(c), false)
        }
    }
}

proof fn lemma_plain_reads_as_itself(t: Seq<char>)
    requires
        !has_char(t, '\\'),
    ensures
        pkl_read(t) == (t, false),
    decreases t.len(),
{
    if t.len() > 0 {
        let init = t.drop_last();
        assert forall|i: int| 0 <= i < init.len() implies init[i] != '\\' by {
            assert(t[i] != '\\');
        }
        assert(t[t.len() - 1] != '\\');
        lemma_plain_reads_as_itself(init);
        assert(init.push(t.last()) =~= t);
    } else {
        assert(pkl_read(t).0 =~= t);
    }
}

/// A text on one line without quotes and backslashes reads back as it is.
pub proof fn law_plain_strings_read_back(value: Seq<char>)
    requires
        !has_char(trimmed(value), '\\'),
        !has_char(trimmed(value), '"'),
        !has_char(trimmed(value), '\n'),
    ensures
        pkl_string(value) == "\""@ + trimmed(value) + "\""@,
        pkl_read(trimmed(value)) == (trimmed(value), false),
{
    lemma_plain_reads_as_itself(trimmed(value));
}

/// A text on one line with quotes or backslashes stands as it is between delimiters, the
/// second of which is nowhere before its end, unless the text itself holds a quote and a
/// hash mark side by side.
pub proof fn law_delimiters_close_behind_the_text(value: Seq<char>, k: int)
    requires
        has_char(trimmed(value), '\\') || has_char(trimmed(value), '"'),
        !has_char(trimmed(value), '\n'),
        forall|i: int|
            0 <= i < trimmed(value).len() - 1 && #[trigger] trimmed(value)[i] == '"' ==> trimmed(
                value,
            )[i + 1] != '#',
        2 <= k < trimmed(value).len() + 2,
    ensures
        pkl_string(value) == "#\""@ + trimmed(value) + "\"#"@,
        pkl_string(value).subrange(2, trimmed(value).len() as int + 2) == trimmed(value),
        !(pkl_string(value)[k] == '"' && pkl_string(value)[k + 1] == '#'),
{
    reveal_strlit("#\"");
    reveal_strlit("\"#");
    let t = trimmed(value);
    let s = pkl_string(value);
    assert(s.subrange(2, t.len() as int + 2) =~= t);
    assert(s[k] == t[k - 2]);
    if k < t.len() + 1 {
        assert(s[k + 1] == t[k - 1]);
    } else {
        assert(s[k + 1] == '"');
    }
}

/// A pattern that looks like a regular expression.
pub open spec fn looks_like_regex(pattern: Seq<char>) -> bool {
    let t = trimmed(pattern);
    ||| starts(t, "(?x)"@)
    ||| starts(t, "(?i"@)
    ||| starts(t, "(?"@)
    ||| starts(t, "^"@)
    ||| has_text(t, "\\b"@)
    ||| has_text(t, "\\s"@)
    ||| has_text(t, "\\d"@)
    ||| has_text(t, "\\w"@)
    ||| has_text(t, ".*"@)
    ||| has_text(t, ".+"@)
    ||| (has_char(t, '|') && has_char(t, '^'))
}

/// Whether a pattern looks like a regular expression.
pub fn is_regex_pattern(pattern: &str) -> (r: bool)
    ensures
        r == looks_like_regex(pattern@),
{
    let t = trim(pattern);
    let t = t.as_str();
    starts_with(t, "(?x)") || starts_with(t, "(?i") || starts_with(t, "(?") || starts_with(t, "^")
        || contains(t, "\\b") || contains(t, "\\s") || contains(t, "\\d") || contains(t, "\\w")
        || contains(t, ".*") || contains(t, ".+") || (contains_char(t, '|') && contains_char(t, '^'))
}

/// A character that stands for itself in a regular expression and in a glob.
pub open spec fn is_literal(c: char) -> bool {
    ||| 'a' <= c <= 'z'
    ||| 'A' <= c <= 'Z'
    ||| '0' <= c <= '9'
    ||| c == '/'
    ||| c == '-'
    ||| c == '_'
}

/// The glob that the rest of a regular expression from `i` on stands for,
/// behind `done`, if it stands for one: an end anchor, escaped dots, `.*` and
/// literal characters can be said in a glob.
pub open spec fn glob_rest(regex: Seq<char>, i: int, done: Seq<char>) -> Option<Seq<char>>
    decreases regex.len() - i,
{
    if i < 0 || i >= regex.len() {
        Some(done)
    } else {
        let c = regex[i];
        if c == '$' && i + 1 == regex.len() {
            Some(done)
        } else if c == '\\' {
            if i + 1 < regex.len() && regex[i + 1] == '.' {
                glob_rest(regex, i + 2, done.push('.'))
            } else {
                None
            }
        } else if c == '.' && i + 1 < regex.len() && regex[i + 1] == '*' {
            if i + 2 < regex.len() && regex[i + 2] == '/' {
                glob_rest(regex, i + 3, done + "**/"@)
            } else {
                glob_rest(regex, i + 2, done + "**"@)
            }
        } else if is_literal(c) {
            glob_rest(regex, i + 1, done.push(c))
        } else {
            None
        }
    }
}

/// The glob that a simple regular expression stands for, if it stands for one.
/// Without an anchor at its start it matches at any depth.
pub open spec fn glob_of(regex: Seq<char>) -> Option<Seq<char>> {
    let anchored = starts(regex, "^"@);
    match glob_rest(
        regex,
        if anchored {
            1
        } else {
            0
        },
        seq![],
    ) {
        Some(glob) => if !anchored && !starts(glob, "**/"@) {
            Some("**/"@ + glob)
        } else {
            Some(glob)
        },
        None => None,
    }
}

fn is_plain_char(c: char) -> (r: bool)
    ensures
        r == is_literal(c),
{
    ('a' <= c && c <= 'z') || ('A' <= c && c <= 'Z') || ('0' <= c && c <= '9') || c == '/' || c == '-'
        || c == '_'
}

/// The glob that a simple regular expression stands for, if it stands for one.
pub fn convert_regex_to_glob(regex: &str) -> (r: Option<String>)
    ensures
        opt_text(r) == glob_of(regex@),
{
    let chars = to_chars(regex);
    let n: usize = chars.len();
    let anchored = starts_with(regex, "^");
    proof {
        reveal_strlit("^");
    }
    let start: usize = if anchored { 1 } else { 0 };
    let mut result = String::new();
    let mut i: usize = start;
    let ghost whole = glob_rest(regex@, start as int, seq![]);
    while i < n
        invariant
            chars@ == regex@,
            n == chars@.len(),
            start <= i,
            i <= n || i == start,
            glob_rest(regex@, i as int, result@) == whole,
            whole == glob_rest(regex@, start as int, seq![]),
            anchored == starts(regex@, "^"@),
            start == if anchored { 1int } else { 0 },
        decreases n - i,
    {
        let c = chars[i];
        if c == '$' && i + 1 == n {
            i = n;
        } else if c == '\\' {
            if i + 1 < n && chars[i + 1] == '.' {
                push_char(&mut result, '.');
                i = i + 2;
            } else {
                return None;
            }
        } else if c == '.' && i + 1 < n && chars[i + 1] == '*' {
            if i + 2 < n && chars[i + 2] == '/' {
                result.append("**/");
                i = i + 3;
            } else {
                result.append("**");
                i = i + 2;
            }
        } else if is_plain_char(c) {
            push_char(&mut result, c);
            i = i + 1;
        } else {
            return None;
        }
    }
    if !anchored && !starts_with(result.as_str(), "**/") {
        let mut deep = "**/".to_owned();
        deep.append(result.as_str());
        return Some(deep);
    }
    Some(result)
}

/// The globs of all alternatives, where each stands for one.
pub open spec fn globs_of(parts: Seq<Seq<char>>) -> Option<Seq<Seq<char>>>
    decreases parts.len(),
{
    if parts.len() == 0 {
        Some(seq![])
    } else {
        match (globs_of(parts.drop_last()), glob_of(trimmed(parts.last()))) {
            (Some(before), Some(glob)) => Some(before.push(glob)),
            _ => None,
        }
    }
}

/// The globs that a pattern of alternatives stands for, if it stands for such.
pub open spec fn path_list(pattern: Seq<char>) -> Option<Seq<Seq<char>>> {
    let t = trimmed(pattern);
    let body = if starts(t, "(?x)"@) {
        trimmed(after(t, 4))
    } else {
        t
    };
    globs_of(split_on(body, '|'))
}

/// The globs that a pattern of alternatives stands for, if it stands for such.
pub fn parse_as_path_list(pattern: &str) -> (r: Option<Vec<String>>)
    ensures
        crate::seqs::opt_texts(r) == path_list(pattern@),
{
    let t = trim(pattern);
    proof {
        reveal_strlit("(?x)");
    }
    let body = match strip_prefix(t.as_str(), "(?x)") {
        Some(rest) => trim(rest.as_str()),
        None => t,
    };
    let parts = split(body.as_str(), '|');
    let mut globs: Option<Vec<String>> = Some(Vec::new());
    assert(texts(globs->0@) =~= seq![]);
    for i in 0..parts.len()
        invariant
            crate::seqs::opt_texts(globs) == globs_of(texts(parts@).take(i as int)),
    {
        let part = trim(parts[i].as_str());
        globs = match (globs, convert_regex_to_glob(part.as_str())) {
            (Some(mut list), Some(glob)) => {
                list.push(glob);
                Some(list)
            },
            _ => None,
        };
    }
    assert(texts(parts@).take(parts@.len() as int) =~= texts(parts@));
    globs
}

pub open spec fn in_quotes(s: Seq<char>) -> Seq<char> {
    "\""@ + s + "\""@
}

/// A pattern as a Pkl value: a regular expression, a list of globs, or a string.
pub open spec fn pkl_value(value: Seq<char>) -> Seq<char> {
    if looks_like_regex(value) {
        "Regex("@ + pkl_string(value) + ")"@
    } else if !has_char(value, '\n') && path_list(value) is Some {
        "List("@ + joined(path_list(value)->0.map_values(|p: Seq<char>| in_quotes(p)), ", "@) + ")"@
    } else {
        pkl_string(value)
    }
}

/// A pattern as a Pkl value.
pub fn format_pkl_value(value: &str) -> (r: String)
    ensures
        r@ == pkl_value(value@),
{
    if is_regex_pattern(value) {
        return between("Regex(", format_pkl_string(value).as_str(), ")");
    }
    if !contains_char(value, '\n') {
        if let Some(paths) = parse_as_path_list(value) {
            let ghost all = texts(paths@).map_values(|p: Seq<char>| in_quotes(p));
            let mut quoted: Vec<String> = Vec::new();
            for i in 0..paths.len()
                invariant
                    all == texts(paths@).map_values(|p: Seq<char>| in_quotes(p)),
                    texts(quoted@) =~= all.take(i as int),
            {
                quoted.push(between("\"", paths[i].as_str(), "\""));
            }
            assert(texts(quoted@) =~= all);
            return between("List(", join(&quoted, ", ").as_str(), ")");
        }
    }
    format_pkl_string(value)
}

/// `level` steps of indentation.
pub open spec fn indentation(level: nat) -> Seq<char>
    decreases level,
{
    if level == 0 {
        seq![]
    } else {
        indentation((level - 1) as nat) + "    "@
    }
}

fn indent(level: usize) -> (r: String)
    ensures
        r@ == indentation(level as nat),
{
    let mut s = String::new();
    for i in 0..level
        invariant
            s@ == indentation(i as nat),
    {
        s.append("    ");
    }
    s
}

/// A comment line.
pub open spec fn comment_line(margin: Seq<char>, comment: Seq<char>) -> Seq<char> {
    let t = trimmed_end(comment);
    if t.len() == 0 {
        margin + "//\n"@
    } else {
        margin + "// "@ + t + "\n"@
    }
}

pub open spec fn comment_lines(margin: Seq<char>, comments: Seq<Seq<char>>) -> Seq<char>
    decreases comments.len(),
{
    if comments.len() == 0 {
        seq![]
    } else {
        comment_lines(margin, comments.drop_last()) + comment_line(margin, comments.last())
    }
}

fn write_comments(margin: &str, comments: &Vec<String>) -> (r: String)
    ensures
        r@ == comment_lines(margin@, texts(comments@)),
{
    let mut out = String::new();
    for i in 0..comments.len()
        invariant
            out@ == comment_lines(margin@, texts(comments@).take(i as int)),
    {
        let t = trim_end(comments[i].as_str());
        let mut line = margin.to_owned();
        if t.as_str().is_empty() {
            line.append("//\n");
        } else {
            line.append("// ");
            line.append(t.as_str());
            line.append("\n");
        }
        out.append(line.as_str());
    }
    assert(texts(comments@).take(comments@.len() as int) =~= texts(comments@));
    out
}

/// A builtin that nothing is changed of.
pub open spec fn is_unchanged(step: HkStepView) -> bool {
    &&& step.glob is None
    &&& step.exclude is None
    &&& step.prefix is None
    &&& step.check is None
    &&& step.fix is None
    &&& step.shell is None
    &&& !step.exclusive
    &&& step.properties_as_comments.len() == 0
}

/// The line of a property that has a value.
pub open spec fn property_line(
    margin: Seq<char>,
    name: Seq<char>,
    value: Option<Seq<char>>,
) -> Seq<char> {
    match value {
        Some(v) => margin + name + " = "@ + v + "\n"@,
        None => seq![],
    }
}

fn write_property(margin: &str, name: &str, value: Option<String>) -> (r: String)
    ensures
        r@ == property_line(margin@, name@, opt_text(value)),
{
    match value {
        Some(v) => {
            let mut s = margin.to_owned();
            s.append(name);
            s.append(" = ");
            s.append(v.as_str());
            s.append("\n");
            s
        },
        None => String::new(),
    }
}

pub open spec fn opt_value(v: Option<Seq<char>>) -> Option<Seq<char>> {
    match v {
        Some(s) => Some(pkl_value(s)),
        None => None,
    }
}

pub open spec fn opt_string(v: Option<Seq<char>>) -> Option<Seq<char>> {
    match v {
        Some(s) => Some(pkl_string(s)),
        None => None,
    }
}

fn show_value(v: &Option<String>) -> (r: Option<String>)
    ensures
        opt_text(r) == opt_value(opt_text(*v)),
{
    match v {
        Some(s) => Some(format_pkl_value(s.as_str())),
        None => None,
    }
}

fn show_string(v: &Option<String>) -> (r: Option<String>)
    ensures
        opt_text(r) == opt_string(opt_text(*v)),
{
    match v {
        Some(s) => Some(format_pkl_string(s.as_str())),
        None => None,
    }
}

/// The properties of a step.
pub open spec fn step_properties(step: HkStepView, margin: Seq<char>) -> Seq<char> {
    property_line(margin, "glob"@, opt_value(step.glob)) + property_line(
        margin,
        "exclude"@,
        opt_value(step.exclude),
    ) + property_line(margin, "prefix"@, opt_string(step.prefix)) + property_line(
        margin,
        "check"@,
        opt_string(step.check),
    ) + property_line(margin, "fix"@, opt_string(step.fix)) + property_line(
        margin,
        "shell"@,
        opt_string(step.shell),
    ) + (if step.exclusive {
        margin + "exclusive = true\n"@
    } else {
        seq![]
    })
}

/// A step as it is written: its comments, its name, and either the builtin alone
/// or a block with its properties.
pub open spec fn step_text(id: Seq<char>, step: HkStepView, level: nat) -> Seq<char> {
    let margin = indentation(level);
    let inner = indentation(level + 1);
    let head = comment_lines(margin, step.comments) + margin + "[\""@ + id + "\"]"@;
    if step.builtin is Some && is_unchanged(step) {
        head + " = "@ + step.builtin->0 + "\n"@
    } else {
        let open = match step.builtin {
            Some(b) => head + " = ("@ + b + ") {\n"@,
            None => head + " {\n"@,
        };
        open + step_properties(step, inner) + comment_lines(inner, step.properties_as_comments)
            + margin + "}\n"@
    }
}

fn write_properties(step: &HkStep, margin: &str) -> (r: String)
    ensures
        r@ == step_properties(step@, margin@),
{
    let mut s = write_property(margin, "glob", show_value(&step.glob));
    s.append(write_property(margin, "exclude", show_value(&step.exclude)).as_str());
    s.append(write_property(margin, "prefix", show_string(&step.prefix)).as_str());
    s.append(write_property(margin, "check", show_string(&step.check)).as_str());
    s.append(write_property(margin, "fix", show_string(&step.fix)).as_str());
    s.append(write_property(margin, "shell", show_string(&step.shell)).as_str());
    let mut last = String::new();
    if step.exclusive {
        last = margin.to_owned();
        last.append("exclusive = true\n");
    }
    s.append(last.as_str());
    s
}

fn write_step(id: &str, step: &HkStep, level: usize) -> (r: String)
    requires
        level < usize::MAX,
    ensures
        r@ == step_text(id@, step@, level as nat),
{
    let margin = indent(level);
    let mut out = write_comments(margin.as_str(), &step.comments);
    out.append(margin.as_str());
    out.append("[\"");
    out.append(id);
    out.append("\"]");
    match &step.builtin {
        Some(b) => {
            if step.glob.is_none() && step.exclude.is_none() && step.prefix.is_none()
                && step.check.is_none() && step.fix.is_none() && step.shell.is_none()
                && !step.exclusive && step.properties_as_comments.len() == 0 {
                out.append(" = ");
                out.append(b.as_str());
                out.append("\n");
                return out;
            }
            out.append(" = (");
            out.append(b.as_str());
            out.append(") {\n");
        },
        None => out.append(" {\n"),
    }
    let inner = indent(level + 1);
    out.append(write_properties(step, inner.as_str()).as_str());
    out.append(write_comments(inner.as_str(), &step.properties_as_comments).as_str());
    out.append(margin.as_str());
    out.append("}\n");
    out
}

pub open spec fn steps_text(steps: Seq<(Seq<char>, HkStepView)>, level: nat) -> Seq<char>
    decreases steps.len(),
{
    if steps.len() == 0 {
        seq![]
    } else {
        steps_text(steps.drop_last(), level) + step_text(steps.last().0, steps.last().1, level)
    }
}

fn write_steps(steps: &Table<HkStep>, level: usize) -> (r: String)
    requires
        level < usize::MAX,
    ensures
        r@ == steps_text(steps@, level as nat),
{
    let mut out = String::new();
    let n: usize = steps.len();
    for i in 0..n
        invariant
            n == steps@.len(),
            level < usize::MAX,
            out@ == steps_text(steps@.take(i as int), level as nat),
    {
        out.append(write_step(steps.key_at(i).as_str(), steps.value_at(i), level).as_str());
    }
    assert(steps@.take(n as int) =~= steps@);
    out
}

/// A line for each collection that a hook takes its steps from.
pub open spec fn spread_lines(spreads: Seq<Seq<char>>) -> Seq<char>
    decreases spreads.len(),
{
    if spreads.len() == 0 {
        seq![]
    } else {
        spread_lines(spreads.drop_last()) + ("            ..."@ + spreads.last() + "\n"@)
    }
}

/// A hook as it is written.
pub open spec fn hook_text(name: Seq<char>, hook: HkHookView) -> Seq<char> {
    let head = "    [\""@ + name + "\"] {\n"@ + (match hook.fix {
        Some(fix) => if fix {
            "        fix = true\n"@
        } else {
            "        fix = false\n"@
        },
        None => ""@,
    }) + (match hook.stash {
        Some(stash) => "        stash = \""@ + stash + "\"\n"@,
        None => seq![],
    });
    if hook.step_spreads.len() > 0 || hook.direct_steps.len() > 0 {
        head + "        steps {\n"@ + spread_lines(hook.step_spreads) + steps_text(
            hook.direct_steps,
            3,
        ) + "        }\n"@ + "    }\n"@
    } else {
        head + "    }\n"@
    }
}

fn write_hook(name: &str, hook: &HkHook) -> (r: String)
    ensures
        r@ == hook_text(name@, hook@),
{
    let mut out = "    [\"".to_owned();
    out.append(name);
    out.append("\"] {\n");
    out.append(
        match hook.fix {
            Some(fix) => if fix {
                "        fix = true\n"
            } else {
                "        fix = false\n"
            },
            None => "",
        },
    );
    let mut stash_line = String::new();
    if let Some(stash) = &hook.stash {
        stash_line = "        stash = \"".to_owned();
        stash_line.append(stash.as_str());
        stash_line.append("\"\n");
    }
    out.append(stash_line.as_str());
    if hook.step_spreads.len() > 0 || !hook.direct_steps.is_empty() {
        out.append("        steps {\n");
        let mut spreads = String::new();
        for i in 0..hook.step_spreads.len()
            invariant
                spreads@ == spread_lines(texts(hook.step_spreads@).take(i as int)),
        {
            let mut line = "            ...".to_owned();
            line.append(hook.step_spreads[i].as_str());
            line.append("\n");
            spreads.append(line.as_str());
        }
        assert(texts(hook.step_spreads@).take(hook.step_spreads@.len() as int) =~= texts(
            hook.step_spreads@,
        ));
        out.append(spreads.as_str());
        out.append(write_steps(&hook.direct_steps, 3).as_str());
        out.append("        }\n");
    }
    out.append("    }\n");
    out
}

pub open spec fn import_lines(imports: Seq<Seq<char>>) -> Seq<char>
    decreases imports.len(),
{
    if imports.len() == 0 {
        seq![]
    } else {
        import_lines(imports.drop_last()) + ("import \""@ + imports.last() + "\"\n"@)
    }
}

pub open spec fn vendor_lines(imports: Seq<VendorImportView>) -> Seq<char>
    decreases imports.len(),
{
    if imports.len() == 0 {
        seq![]
    } else {
        vendor_lines(imports.drop_last()) + ("import \""@ + imports.last().path + "\" as "@
            + imports.last().name + "\n"@)
    }
}

/// The collections that are not empty.
pub open spec fn collections_text(
    collections: Seq<(Seq<char>, Seq<(Seq<char>, HkStepView)>)>,
) -> Seq<char>
    decreases collections.len(),
{
    if collections.len() == 0 {
        seq![]
    } else {
        let before = collections_text(collections.drop_last());
        let (name, steps) = collections.last();
        if steps.len() == 0 {
            before
        } else {
            before + ("local "@ + name + " = new Mapping {\n"@ + steps_text(steps, 1) + "}\n\n"@)
        }
    }
}

pub open spec fn reference_lines(references: Seq<(Seq<char>, Seq<char>)>) -> Seq<char>
    decreases references.len(),
{
    if references.len() == 0 {
        seq![]
    } else {
        let (id, collection) = references.last();
        reference_lines(references.drop_last()) + ("    [\""@ + id + "\"] = "@ + collection + "[\""@
            + id + "\"]\n"@)
    }
}

pub open spec fn hooks_text(hooks: Seq<(Seq<char>, HkHookView)>) -> Seq<char>
    decreases hooks.len(),
{
    if hooks.len() == 0 {
        seq![]
    } else {
        hooks_text(hooks.drop_last()) + hook_text(hooks.last().0, hooks.last().1)
    }
}

/// The comments at the top of a configuration.
pub open spec fn header_text(comments: Seq<Seq<char>>) -> Seq<char> {
    if comments.len() == 0 {
        seq![]
    } else {
        comment_lines(""@, comments) + "\n"@
    }
}

/// The steps that the default hooks share.
pub open spec fn shared_steps_text(
    references: Seq<(Seq<char>, Seq<char>)>,
    steps: Seq<(Seq<char>, HkStepView)>,
) -> Seq<char> {
    if references.len() == 0 && steps.len() == 0 {
        seq![]
    } else {
        "steps {\n"@ + reference_lines(references) + steps_text(steps, 1) + "}\n\n"@
    }
}

/// The hooks of a configuration.
pub open spec fn all_hooks_text(hooks: Seq<(Seq<char>, HkHookView)>) -> Seq<char> {
    if hooks.len() == 0 {
        seq![]
    } else {
        "hooks {\n"@ + hooks_text(hooks) + "}\n"@
    }
}

/// A configuration as it is written.
pub open spec fn config_text(c: HkConfigView) -> Seq<char> {
    "amends \""@ + c.amends + "\"\n"@ + import_lines(c.imports) + vendor_lines(c.vendor_imports)
        + "\n"@ + header_text(c.header_comments) + collections_text(c.step_collections)
        + shared_steps_text(c.step_references, c.steps) + all_hooks_text(c.hooks)
}

impl HkConfig {
    /// A configuration without steps that amends and imports what is given, or
    /// the package of the program.
    pub fn new(amends_config_pkl: Option<String>, builtins_pkl: Option<String>) -> (r: Self)
        ensures
            r@ == blank_hk_config(opt_text(amends_config_pkl), opt_text(builtins_pkl)),
    {
        let amends = match amends_config_pkl {
            Some(a) => a,
            None => write_address("Config.pkl"),
        };
        let import = match builtins_pkl {
            Some(b) => b,
            None => write_address("Builtins.pkl"),
        };
        let ghost iv = import@;
        let mut imports: Vec<String> = Vec::new();
        imports.push(import);
        let r = HkConfig {
            amends,
            imports,
            vendor_imports: Vec::new(),
            header_comments: Vec::new(),
            step_collections: Table::new(),
            step_references: Table::new(),
            steps: Table::new(),
            hooks: Table::new(),
        };
        assert(r@.imports =~= seq![iv]);
        assert(r@.vendor_imports =~= seq![]);
        assert(r@.header_comments =~= seq![]);
        r
    }

    fn write_imports(&self) -> (r: String)
        ensures
            r@ == import_lines(self@.imports),
    {
        let mut out = String::new();
        for i in 0..self.imports.len()
            invariant
                out@ == import_lines(texts(self.imports@).take(i as int)),
        {
            out.append(between("import \"", self.imports[i].as_str(), "\"\n").as_str());
        }
        assert(texts(self.imports@).take(self.imports@.len() as int) =~= texts(self.imports@));
        out
    }

    fn write_vendor_imports(&self) -> (r: String)
        ensures
            r@ == vendor_lines(self@.vendor_imports),
    {
        let mut out = String::new();
        for i in 0..self.vendor_imports.len()
            invariant
                out@ == vendor_lines(views(self.vendor_imports@).take(i as int)),
        {
            assert(views(self.vendor_imports@)[i as int] == self.vendor_imports@[i as int]@);
            let mut line = "import \"".to_owned();
            line.append(self.vendor_imports[i].path.as_str());
            line.append("\" as ");
            line.append(self.vendor_imports[i].name.as_str());
            line.append("\n");
            out.append(line.as_str());
        }
        assert(views(self.vendor_imports@).take(self.vendor_imports@.len() as int) =~= views(
            self.vendor_imports@,
        ));
        out
    }

    fn write_collections(&self) -> (r: String)
        ensures
            r@ == collections_text(self@.step_collections),
    {
        let mut out = String::new();
        let n: usize = self.step_collections.len();
        for i in 0..n
            invariant
                n == self.step_collections@.len(),
                out@ == collections_text(self.step_collections@.take(i as int)),
        {
            let steps = self.step_collections.value_at(i);
            if !steps.is_empty() {
                let mut block = "local ".to_owned();
                block.append(self.step_collections.key_at(i).as_str());
                block.append(" = new Mapping {\n");
                block.append(write_steps(steps, 1).as_str());
                block.append("}\n\n");
                out.append(block.as_str());
            }
        }
        assert(self.step_collections@.take(n as int) =~= self.step_collections@);
        out
    }

    fn write_shared_steps(&self) -> (r: String)
        ensures
            r@ == shared_steps_text(self@.step_references, self@.steps),
    {
        if self.step_references.is_empty() && self.steps.is_empty() {
            return String::new();
        }
        let mut lines = String::new();
        let n: usize = self.step_references.len();
        for i in 0..n
            invariant
                n == self.step_references@.len(),
                lines@ == reference_lines(self.step_references@.take(i as int)),
        {
            let id = self.step_references.key_at(i).as_str();
            let mut line = "    [\"".to_owned();
            line.append(id);
            line.append("\"] = ");
            line.append(self.step_references.value_at(i).as_str());
            line.append("[\"");
            line.append(id);
            line.append("\"]\n");
            lines.append(line.as_str());
        }
        assert(self.step_references@.take(n as int) =~= self.step_references@);
        let mut out = "steps {\n".to_owned();
        out.append(lines.as_str());
        out.append(write_steps(&self.steps, 1).as_str());
        out.append("}\n\n");
        out
    }

    fn write_hooks(&self) -> (r: String)
        ensures
            r@ == all_hooks_text(self@.hooks),
    {
        if self.hooks.is_empty() {
            return String::new();
        }
        let mut blocks = String::new();
        let n: usize = self.hooks.len();
        for i in 0..n
            invariant
                n == self.hooks@.len(),
                blocks@ == hooks_text(self.hooks@.take(i as int)),
        {
            blocks.append(write_hook(self.hooks.key_at(i).as_str(), self.hooks.value_at(i)).as_str());
        }
        assert(self.hooks@.take(n as int) =~= self.hooks@);
        between("hooks {\n", blocks.as_str(), "}\n")
    }

    /// A step as it is written.
    pub fn format_step(&self, id: &str, step: &HkStep, indent_level: usize) -> (r: String)
        requires
            indent_level < usize::MAX,
        ensures
            r@ == step_text(id@, step@, indent_level as nat),
    {
        write_step(id, step, indent_level)
    }

    /// A hook as it is written.
    pub fn format_hook(&self, name: &str, hook: &HkHook) -> (r: String)
        ensures
            r@ == hook_text(name@, hook@),
    {
        write_hook(name, hook)
    }

    /// The configuration as it is written.
    pub fn to_pkl(&self) -> (r: String)
        ensures
            r@ == config_text(self@),
    {
        let mut out = "amends \"".to_owned();
        out.append(self.amends.as_str());
        out.append("\"\n");
        out.append(self.write_imports().as_str());
        out.append(self.write_vendor_imports().as_str());
        out.append("\n");
        let mut comments = String::new();
        if self.header_comments.len() > 0 {
            comments = write_comments("", &self.header_comments);
            comments.append("\n");
        }
        out.append(comments.as_str());
        out.append(self.write_collections().as_str());
        out.append(self.write_shared_steps().as_str());
        out.append(self.write_hooks().as_str());
        out
    }
}

proof fn lemma_glob_done(regex: Seq<char>, i: int, done: Seq<char>)
    ensures
        glob_rest(regex, i, done) == match glob_rest(regex, i, seq![]) {
            Some(glob) => Some(done + glob),
            None => None,
        },
    decreases
            if i < regex.len() {
                regex.len() - i
            } else {
                0
            },
            0nat,
{
    let none = Seq::<char>::empty();
    if i < 0 || i >= regex.len() {
        assert(done + none =~= done);
    } else {
        let c = regex[i];
        if c == '$' && i + 1 == regex.len() {
            assert(done + none =~= done);
        } else if c == '\\' {
            if i + 1 < regex.len() && regex[i + 1] == '.' {
                lemma_glob_step(regex, i + 2, done, seq!['.']);
                assert(done + seq!['.'] =~= done.push('.'));
                assert(none.push('.') =~= seq!['.']);
            }
        } else if c == '.' && i + 1 < regex.len() && regex[i + 1] == '*' {
            if i + 2 < regex.len() && regex[i + 2] == '/' {
                lemma_glob_step(regex, i + 3, done, "**/"@);
                assert(none + "**/"@ =~= "**/"@);
            } else {
                lemma_glob_step(regex, i + 2, done, "**"@);
                assert(none + "**"@ =~= "**"@);
            }
        } else if is_literal(c) {
            lemma_glob_step(regex, i + 1, done, seq![c]);
            assert(done + seq![c] =~= done.push(c));
            assert(none.push(c) =~= seq![c]);
        }
    }
}

proof fn lemma_glob_step(regex: Seq<char>, i: int, done: Seq<char>, more: Seq<char>)
    requires
        0 <= i,
    ensures
        glob_rest(regex, i, done + more) == match glob_rest(regex, i, more) {
            Some(glob) => Some(done + glob),
            None => None,
        },
    decreases
            if i < regex.len() {
                regex.len() - i
            } else {
                0
            },
            1nat,
{
    lemma_glob_done(regex, i, done + more);
    lemma_glob_done(regex, i, more);
    if let Some(glob) = glob_rest(regex, i, seq![]) {
        assert(done + more + glob =~= done + (more + glob));
    }
}

proof fn lemma_glob_shift(a: Seq<char>, rest: Seq<char>, i: int, done: Seq<char>)
    requires
        0 <= i,
    ensures
        glob_rest(a + rest, a.len() + i, done) == glob_rest(rest, i, done),
    decreases
            if i < rest.len() {
                rest.len() - i
            } else {
                0
            },
{
    let all = a + rest;
    let k = a.len() + i;
    if i < rest.len() {
        assert(all[k] == rest[i]);
        if i + 1 < rest.len() {
            assert(all[k + 1] == rest[i + 1]);
        }
        if i + 2 < rest.len() {
            assert(all[k + 2] == rest[i + 2]);
        }
        lemma_glob_shift(a, rest, i + 1, done.push(rest[i]));
        lemma_glob_shift(a, rest, i + 2, done.push('.'));
        lemma_glob_shift(a, rest, i + 2, done + "**"@);
        lemma_glob_shift(a, rest, i + 3, done + "**/"@);
    }
}

/// The glob that a regular expression without its anchor at the start stands for, from
/// there on.
pub open spec fn glob_from(regex: Seq<char>) -> Option<Seq<char>> {
    glob_rest(regex, 0, seq![])
}

/// `glob` with `head` before it.
pub open spec fn headed(head: Seq<char>, glob: Option<Seq<char>>) -> Option<Seq<char>> {
    match glob {
        Some(g) => Some(head + g),
        None => None,
    }
}

/// A regular expression is turned into a glob piece by piece: a character that stands for
/// itself stays, an escaped dot is a dot, and anything up to the next directory or the end
/// becomes two stars; an anchor at the end goes.
pub proof fn law_expressions_become_globs(rest: Seq<char>, c: char)
    ensures
        glob_from(seq![]) == Some(Seq::<char>::empty()),
        glob_from(seq!['$']) == Some(Seq::<char>::empty()),
        is_literal(c) ==> glob_from(seq![c] + rest) == headed(seq![c], glob_from(rest)),
        glob_from(seq!['\\', '.'] + rest) == headed(seq!['.'], glob_from(rest)),
        glob_from(seq!['.', '*', '/'] + rest) == headed(seq!['*', '*', '/'], glob_from(rest)),
        rest.len() > 0 && rest[0] != '/' ==> glob_from(seq!['.', '*'] + rest) == headed(
            seq!['*', '*'],
            glob_from(rest),
        ),
        glob_from(seq!['.', '*']) == Some(seq!['*', '*']),
{
    let none = Seq::<char>::empty();
    reveal_strlit("**");
    reveal_strlit("**/");
    assert("**"@ =~= seq!['*', '*']);
    assert("**/"@ =~= seq!['*', '*', '/']);
    if is_literal(c) {
        let a = seq![c];
        assert((a + rest)[0] == c);
        lemma_glob_shift(a, rest, 0, none.push(c));
        lemma_glob_done(rest, 0, none.push(c));
        assert(none.push(c) =~= a);
    }
    let dot = seq!['\\', '.'];
    assert((dot + rest)[0] == '\\' && (dot + rest)[1] == '.');
    lemma_glob_shift(dot, rest, 0, none.push('.'));
    lemma_glob_done(rest, 0, none.push('.'));
    assert(none.push('.') =~= seq!['.']);
    let deep = seq!['.', '*', '/'];
    assert((deep + rest)[0] == '.' && (deep + rest)[1] == '*' && (deep + rest)[2] == '/');
    lemma_glob_shift(deep, rest, 0, none + "**/"@);
    lemma_glob_done(rest, 0, none + "**/"@);
    assert(none + "**/"@ =~= "**/"@);
    let any = seq!['.', '*'];
    assert(none + "**"@ =~= "**"@);
    if rest.len() > 0 && rest[0] != '/' {
        assert((any + rest)[0] == '.' && (any + rest)[1] == '*' && (any + rest)[2] == rest[0]);
        lemma_glob_shift(any, rest, 0, none + "**"@);
        lemma_glob_done(rest, 0, none + "**"@);
    }
    assert(any[0] == '.' && any[1] == '*');
    assert(glob_rest(any, 2, none + "**"@) == Some(none + "**"@));
}

/// An expression with anything that a glob cannot say becomes none.
pub proof fn law_other_expressions_become_no_glob(rest: Seq<char>, c: char)
    requires
        !is_literal(c),
        c != '.' && c != '\\' && c != '$',
    ensures
        glob_from(seq![c] + rest) is None,
        rest.len() == 0 || rest[0] != '.' ==> glob_from(seq!['\\'] + rest) is None,
        rest.len() == 0 || rest[0] != '*' ==> glob_from(seq!['.'] + rest) is None,
        rest.len() > 0 ==> glob_from(seq!['$'] + rest) is None,
{
    assert((seq![c] + rest)[0] == c);
    assert((seq!['\\'] + rest)[0] == '\\');
    assert((seq!['.'] + rest)[0] == '.');
    assert((seq!['$'] + rest)[0] == '$');
    if rest.len() > 0 {
        assert((seq!['\\'] + rest)[1] == rest[0]);
        assert((seq!['.'] + rest)[1] == rest[0]);
    }
}

/// An expression that is anchored at its start matches from the root of the project, any
/// other at any depth.
pub proof fn law_anchors_keep_globs_at_the_root(rest: Seq<char>, regex: Seq<char>)
    ensures
        glob_of(seq!['^'] + rest) == glob_from(rest),
        regex.len() == 0 || regex[0] != '^' ==> (match glob_from(regex) {
            Some(glob) => glob_of(regex) == Some(
                if glob.len() >= 3 && glob[0] == '*' && glob[1] == '*' && glob[2] == '/' {
                    glob
                } else {
                    seq!['*', '*', '/'] + glob
                },
            ),
            None => glob_of(regex) is None,
        }),
{
    reveal_strlit("^");
    reveal_strlit("**/");
    assert("^"@ =~= seq!['^']);
    assert("**/"@ =~= seq!['*', '*', '/']);
    let anchored = seq!['^'] + rest;
    assert(anchored.subrange(0, 1) =~= seq!['^']);
    lemma_glob_shift(seq!['^'], rest, 0, seq![]);
    if regex.len() == 0 || regex[0] != '^' {
        if starts(regex, "^"@) {
            assert(regex.subrange(0, 1)[0] == '^');
        }
        if let Some(glob) = glob_from(regex) {
            if glob.len() >= 3 && glob[0] == '*' && glob[1] == '*' && glob[2] == '/' {
                assert(glob.subrange(0, 3) =~= "**/"@);
            } else if starts(glob, "**/"@) {
                assert(glob.subrange(0, 3)[0] == '*' && glob.subrange(0, 3)[1] == '*'
                    && glob.subrange(0, 3)[2] == '/');
            }
        }
    }
}

/// Alternatives become globs exactly where each does, in their order.
pub proof fn law_every_alternative_becomes_a_glob(parts: Seq<Seq<char>>)
    ensures
        globs_of(parts) is Some <==> forall|i: int|
            0 <= i < parts.len() ==> glob_of(trimmed(#[trigger] parts[i])) is Some,
        globs_of(parts) matches Some(globs) ==> globs.len() == parts.len() && forall|i: int|
            0 <= i < parts.len() ==> Some(#[trigger] globs[i]) == glob_of(trimmed(parts[i])),
    decreases parts.len(),
{
    if parts.len() > 0 {
        let init = parts.drop_last();
        law_every_alternative_becomes_a_glob(init);
        if globs_of(parts) is Some {
            let before = globs_of(init)->0;
            let globs = globs_of(parts)->0;
            assert forall|i: int| 0 <= i < parts.len() implies Some(#[trigger] globs[i]) == glob_of(
                trimmed(parts[i]),
            ) by {
                if i < init.len() {
                    assert(init[i] == parts[i]);
                    assert(globs[i] == before[i]);
                }
            }
            assert forall|i: int| 0 <= i < parts.len() implies glob_of(
                trimmed(#[trigger] parts[i]),
            ) is Some by {
                assert(Some(globs[i]) == glob_of(trimmed(parts[i])));
            }
        }
        if forall|i: int| 0 <= i < parts.len() ==> glob_of(trimmed(#[trigger] parts[i])) is Some {
            assert forall|i: int| 0 <= i < init.len() implies glob_of(
                trimmed(#[trigger] init[i]),
            ) is Some by {
                assert(glob_of(trimmed(parts[i])) is Some);
            }
            assert(glob_of(trimmed(parts[parts.len() - 1])) is Some);
        }
    }
}

/// A pattern stands in the value that it is written as: a regular expression and a text as
/// they are, a list of paths glob by glob.
pub proof fn law_patterns_are_not_lost(value: Seq<char>, i: int)
    ensures
        has_text(pkl_string(value), trimmed(value)),
        looks_like_regex(value) ==> pkl_value(value) == "Regex("@ + pkl_string(value) + ")"@,
        !looks_like_regex(value) && (has_char(value, '\n') || path_list(value) is None) ==> pkl_value(
            value,
        ) == pkl_string(value),
        !looks_like_regex(value) && !has_char(value, '\n') && path_list(value) is Some && 0 <= i
            < path_list(value)->0.len() ==> has_text(
            pkl_value(value),
            "\""@ + path_list(value)->0[i] + "\""@,
        ),
{
    let t = trimmed(value);
    crate::text::lemma_stands_between("#\"\"\"\n"@, t, "\n\"\"\"#"@);
    crate::text::lemma_stands_between("#\""@, t, "\"#"@);
    crate::text::lemma_stands_between("\"\"\"\n"@, t, "\n\"\"\""@);
    crate::text::lemma_stands_between("\""@, t, "\""@);
    if path_list(value) is Some && 0 <= i < path_list(value)->0.len() {
        let quoted = path_list(value)->0.map_values(|p: Seq<char>| in_quotes(p));
        crate::text::lemma_part_stands_in_joined(quoted, ", "@, i);
        crate::text::lemma_stands_in_part("List("@, joined(quoted, ", "@), ")"@, quoted[i]);
    }
}

/// Each comment stands on a line of its own behind two slashes.
pub proof fn law_comments_are_written(margin: Seq<char>, comments: Seq<Seq<char>>, i: int)
    requires
        0 <= i < comments.len(),
    ensures
        has_text(
            comment_lines(margin, comments),
            if trimmed_end(comments[i]).len() == 0 {
                margin + "//\n"@
            } else {
                margin + "// "@ + trimmed_end(comments[i]) + "\n"@
            },
        ),
    decreases comments.len(),
{
    let init = comments.drop_last();
    let before = comment_lines(margin, init);
    let line = comment_line(margin, comments.last());
    let all = comment_lines(margin, comments);
    if i < init.len() {
        law_comments_are_written(margin, init, i);
        crate::text::lemma_stands_in_part(seq![], before, line, comment_line(margin, comments[i]));
        assert(seq![] + before + line =~= all);
    } else {
        crate::text::lemma_stands_between(before, line, seq![]);
        assert(before + line + seq![] =~= all);
    }
}

/// What a property is written as.
pub open spec fn written(margin: Seq<char>, name: Seq<char>, value: Seq<char>) -> Seq<char> {
    margin + name + " = "@ + value + "\n"@
}

/// Every property that a step has is written, and one that it does not have is not: a step
/// without any has no lines.
pub proof fn law_every_property_is_written(step: HkStepView, margin: Seq<char>)
    ensures
        ({
            let text = step_properties(step, margin);
            &&& step.glob matches Some(v) ==> has_text(text, written(margin, "glob"@, pkl_value(v)))
            &&& step.exclude matches Some(v) ==> has_text(
                text,
                written(margin, "exclude"@, pkl_value(v)),
            )
            &&& step.prefix matches Some(v) ==> has_text(
                text,
                written(margin, "prefix"@, pkl_string(v)),
            )
            &&& step.check matches Some(v) ==> has_text(
                text,
                written(margin, "check"@, pkl_string(v)),
            )
            &&& step.fix matches Some(v) ==> has_text(text, written(margin, "fix"@, pkl_string(v)))
            &&& step.shell matches Some(v) ==> has_text(
                text,
                written(margin, "shell"@, pkl_string(v)),
            )
            &&& step.exclusive ==> has_text(text, margin + "exclusive = true\n"@)
            &&& step.glob is None && step.exclude is None && step.prefix is None && step.check is None
                && step.fix is None && step.shell is None && !step.exclusive ==> text.len() == 0
        }),
{
    let a = property_line(margin, "glob"@, opt_value(step.glob));
    let b = property_line(margin, "exclude"@, opt_value(step.exclude));
    let c = property_line(margin, "prefix"@, opt_string(step.prefix));
    let d = property_line(margin, "check"@, opt_string(step.check));
    let e = property_line(margin, "fix"@, opt_string(step.fix));
    let f = property_line(margin, "shell"@, opt_string(step.shell));
    let g = if step.exclusive {
        margin + "exclusive = true\n"@
    } else {
        seq![]
    };
    crate::text::lemma_seven_stand(a, b, c, d, e, f, g);
}

/// A step is written under its name with its comments; a builtin that nothing is changed of
/// as that alone, any other with all its properties.
pub proof fn law_steps_are_written(id: Seq<char>, step: HkStepView, level: nat)
    ensures
        ({
            let text = step_text(id, step, level);
            let inner = indentation(level + 1);
            &&& has_text(text, "[\""@ + id + "\"]"@)
            &&& has_text(text, comment_lines(indentation(level), step.comments))
            &&& step.builtin matches Some(b) ==> has_text(text, b)
            &&& !(step.builtin is Some && is_unchanged(step)) ==> has_text(
                text,
                step_properties(step, inner),
            ) && has_text(text, comment_lines(inner, step.properties_as_comments))
            &&& step.glob is Some || step.exclude is Some || step.prefix is Some || step.check is Some
                || step.fix is Some || step.shell is Some || step.exclusive
                || step.properties_as_comments.len() > 0 ==> !is_unchanged(step)
        }),
{
    let margin = indentation(level);
    let inner = indentation(level + 1);
    let text = step_text(id, step, level);
    let comments = comment_lines(margin, step.comments);
    let name = "[\""@ + id + "\"]"@;
    let head = comments + margin + "[\""@ + id + "\"]"@;
    crate::text::lemma_three_at_once(comments + margin, "[\""@, id, "\"]"@);
    crate::text::lemma_three_stand(comments, margin, name);
    let properties = step_properties(step, inner);
    let notes = comment_lines(inner, step.properties_as_comments);
    if step.builtin is Some && is_unchanged(step) {
        crate::text::lemma_two_stand(head, " = "@);
        crate::text::lemma_three_stand(head + " = "@, step.builtin->0, "\n"@);
        crate::text::lemma_stands_within(text, head + " = "@, head);
    } else {
        let open = match step.builtin {
            Some(b) => head + " = ("@ + b + ") {\n"@,
            None => head + " {\n"@,
        };
        crate::text::lemma_five_stand(open, properties, notes, margin, "}\n"@);
        if step.builtin is Some {
            let b = step.builtin->0;
            crate::text::lemma_two_stand(head, " = ("@);
            crate::text::lemma_three_stand(head + " = ("@, b, ") {\n"@);
            crate::text::lemma_stands_within(open, head + " = ("@, head);
            crate::text::lemma_stands_within(text, open, b);
        } else {
            crate::text::lemma_two_stand(head, " {\n"@);
        }
        crate::text::lemma_stands_within(text, open, head);
    }
    crate::text::lemma_stands_within(text, head, name);
    crate::text::lemma_stands_within(text, head, comments);
}

/// Every step of a list is written.
pub proof fn law_every_step_is_written(steps: Seq<(Seq<char>, HkStepView)>, level: nat, i: int)
    requires
        0 <= i < steps.len(),
    ensures
        has_text(steps_text(steps, level), step_text(steps[i].0, steps[i].1, level)),
    decreases steps.len(),
{
    let init = steps.drop_last();
    let before = steps_text(init, level);
    let last = step_text(steps.last().0, steps.last().1, level);
    if i < init.len() {
        law_every_step_is_written(init, level, i);
        crate::text::lemma_stands_in_part(
            seq![],
            before,
            last,
            step_text(steps[i].0, steps[i].1, level),
        );
        assert(seq![] + before + last =~= steps_text(steps, level));
    } else {
        crate::text::lemma_stands_between(before, last, seq![]);
        assert(before + last + seq![] =~= steps_text(steps, level));
    }
}

proof fn lemma_split_literal()
    ensures
        "            ..."@ == "            "@ + "..."@,
        "    [\""@ == "    "@ + "[\""@,
        "        fix = true\n"@ == "        "@ + "fix = true\n"@,
        "        fix = false\n"@ == "        "@ + "fix = false\n"@,
        "        stash = \""@ == "        "@ + "stash = \""@,
{
    reveal_strlit("            ...");
    reveal_strlit("...");
    reveal_strlit("            ");
    reveal_strlit("    [\"");
    reveal_strlit("    ");
    reveal_strlit("[\"");
    reveal_strlit("        ");
    reveal_strlit("        fix = true\n");
    reveal_strlit("        fix = false\n");
    reveal_strlit("fix = true\n");
    reveal_strlit("fix = false\n");
    reveal_strlit("        stash = \"");
    reveal_strlit("stash = \"");
    assert("            ..."@ =~= "            "@ + "..."@);
    assert("    [\""@ =~= "    "@ + "[\""@);
    assert("        fix = true\n"@ =~= "        "@ + "fix = true\n"@);
    assert("        fix = false\n"@ =~= "        "@ + "fix = false\n"@);
    assert("        stash = \""@ =~= "        "@ + "stash = \""@);
}

proof fn lemma_starts(
    a: Seq<char>,
    b: Seq<char>,
    c: Seq<char>,
    d: Seq<char>,
    e: Seq<char>,
    f: Seq<char>,
    g: Seq<char>,
    h: Seq<char>,
)
    ensures
        starts(a + b + c + d + e + f + g + h, a),
{
    let all = a + b + c + d + e + f + g + h;
    assert(all.subrange(0, a.len() as int) =~= a);
}

/// Every collection that a hook takes its steps from is written.
pub proof fn law_every_spread_is_written(spreads: Seq<Seq<char>>, i: int)
    requires
        0 <= i < spreads.len(),
    ensures
        has_text(spread_lines(spreads), "..."@ + spreads[i] + "\n"@),
    decreases spreads.len(),
{
    let init = spreads.drop_last();
    let before = spread_lines(init);
    let line = "            ..."@ + spreads.last() + "\n"@;
    let wanted = "..."@ + spreads[i] + "\n"@;
    crate::text::lemma_two_stand(before, line);
    if i < init.len() {
        law_every_spread_is_written(init, i);
        crate::text::lemma_stands_within(before + line, before, wanted);
    } else {
        lemma_split_literal();
        crate::text::lemma_three_at_once("            "@, "..."@, spreads.last(), "\n"@);
        crate::text::lemma_two_stand("            "@, wanted);
        crate::text::lemma_stands_within(before + line, line, wanted);
    }
}

/// A hook is written under its name, with whether it fixes, how it puts work aside, and all
/// its steps.
pub proof fn law_hooks_are_written(name: Seq<char>, hook: HkHookView)
    ensures
        ({
            let text = hook_text(name, hook);
            &&& has_text(text, "[\""@ + name + "\"] {\n"@)
            &&& hook.fix == Some(true) ==> has_text(text, "fix = true\n"@)
            &&& hook.fix == Some(false) ==> has_text(text, "fix = false\n"@)
            &&& hook.stash matches Some(s) ==> has_text(text, "stash = \""@ + s + "\"\n"@)
            &&& hook.step_spreads.len() > 0 || hook.direct_steps.len() > 0 ==> has_text(
                text,
                spread_lines(hook.step_spreads),
            ) && has_text(text, steps_text(hook.direct_steps, 3))
        }),
{
    let text = hook_text(name, hook);
    let title = "[\""@ + name + "\"] {\n"@;
    let open = "    [\""@ + name + "\"] {\n"@;
    let fixes = match hook.fix {
        Some(fix) => if fix {
            "        fix = true\n"@
        } else {
            "        fix = false\n"@
        },
        None => ""@,
    };
    let stash = match hook.stash {
        Some(s) => "        stash = \""@ + s + "\"\n"@,
        None => seq![],
    };
    let head = open + fixes + stash;
    lemma_split_literal();
    crate::text::lemma_three_stand(open, fixes, stash);
    crate::text::lemma_three_at_once("    "@, "[\""@, name, "\"] {\n"@);
    crate::text::lemma_two_stand("    "@, title);
    if hook.step_spreads.len() > 0 || hook.direct_steps.len() > 0 {
        let spreads = spread_lines(hook.step_spreads);
        let steps = steps_text(hook.direct_steps, 3);
        let start = head + "        steps {\n"@;
        crate::text::lemma_two_stand(head, "        steps {\n"@);
        crate::text::lemma_five_stand(start, spreads, steps, "        }\n"@, "    }\n"@);
        crate::text::lemma_stands_within(text, start, head);
    } else {
        crate::text::lemma_two_stand(head, "    }\n"@);
    }
    crate::text::lemma_stands_within(text, head, open);
    crate::text::lemma_stands_within(text, open, title);
    if hook.fix is Some {
        let word = if hook.fix->0 {
            "fix = true\n"@
        } else {
            "fix = false\n"@
        };
        crate::text::lemma_two_stand("        "@, word);
        crate::text::lemma_stands_within(text, head, fixes);
        crate::text::lemma_stands_within(text, fixes, word);
    }
    if hook.stash is Some {
        let line = "stash = \""@ + hook.stash->0 + "\"\n"@;
        crate::text::lemma_three_at_once("        "@, "stash = \""@, hook.stash->0, "\"\n"@);
        crate::text::lemma_two_stand("        "@, line);
        crate::text::lemma_stands_within(text, head, stash);
        crate::text::lemma_stands_within(text, stash, line);
    }
}

/// Every hook of a list is written.
pub proof fn law_every_hook_is_written(hooks: Seq<(Seq<char>, HkHookView)>, i: int)
    requires
        0 <= i < hooks.len(),
    ensures
        has_text(all_hooks_text(hooks), hook_text(hooks[i].0, hooks[i].1)),
{
    lemma_hooks_text(hooks, i);
    crate::text::lemma_stands_in_part(
        "hooks {\n"@,
        hooks_text(hooks),
        "}\n"@,
        hook_text(hooks[i].0, hooks[i].1),
    );
}

proof fn lemma_hooks_text(hooks: Seq<(Seq<char>, HkHookView)>, i: int)
    requires
        0 <= i < hooks.len(),
    ensures
        has_text(hooks_text(hooks), hook_text(hooks[i].0, hooks[i].1)),
    decreases hooks.len(),
{
    let init = hooks.drop_last();
    let before = hooks_text(init);
    let last = hook_text(hooks.last().0, hooks.last().1);
    if i < init.len() {
        lemma_hooks_text(init, i);
        crate::text::lemma_stands_in_part(seq![], before, last, hook_text(hooks[i].0, hooks[i].1));
        assert(seq![] + before + last =~= hooks_text(hooks));
    } else {
        crate::text::lemma_stands_between(before, last, seq![]);
        assert(before + last + seq![] =~= hooks_text(hooks));
    }
}

/// Every import is written, one under a name with the name.
pub proof fn law_every_import_is_written(
    imports: Seq<Seq<char>>,
    vendors: Seq<VendorImportView>,
    i: int,
)
    ensures
        0 <= i < imports.len() ==> has_text(import_lines(imports), "import \""@ + imports[i] + "\"\n"@),
        0 <= i < vendors.len() ==> has_text(
            vendor_lines(vendors),
            "import \""@ + vendors[i].path + "\" as "@ + vendors[i].name + "\n"@,
        ),
    decreases imports.len() + vendors.len(),
{
    if imports.len() > 0 {
        let init = imports.drop_last();
        let before = import_lines(init);
        let line = "import \""@ + imports.last() + "\"\n"@;
        law_every_import_is_written(init, vendors, i);
        if 0 <= i < init.len() {
            crate::text::lemma_stands_in_part(
                seq![],
                before,
                line,
                "import \""@ + imports[i] + "\"\n"@,
            );
            assert(seq![] + before + line =~= import_lines(imports));
        } else {
            crate::text::lemma_stands_between(before, line, seq![]);
            assert(before + line + seq![] =~= import_lines(imports));
        }
    } else if vendors.len() > 0 {
        let init = vendors.drop_last();
        let before = vendor_lines(init);
        let line = "import \""@ + vendors.last().path + "\" as "@ + vendors.last().name + "\n"@;
        law_every_import_is_written(imports, init, i);
        if 0 <= i < init.len() {
            crate::text::lemma_stands_in_part(
                seq![],
                before,
                line,
                "import \""@ + vendors[i].path + "\" as "@ + vendors[i].name + "\n"@,
            );
            assert(seq![] + before + line =~= vendor_lines(vendors));
        } else {
            crate::text::lemma_stands_between(before, line, seq![]);
            assert(before + line + seq![] =~= vendor_lines(vendors));
        }
    }
}

/// Every collection with steps is written with all of them.
pub proof fn law_every_collection_is_written(
    collections: Seq<(Seq<char>, Seq<(Seq<char>, HkStepView)>)>,
    i: int,
)
    requires
        0 <= i < collections.len(),
        collections[i].1.len() > 0,
    ensures
        has_text(
            collections_text(collections),
            "local "@ + collections[i].0 + " = new Mapping {\n"@ + steps_text(collections[i].1, 1)
                + "}\n"@,
        ),
    decreases collections.len(),
{
    let init = collections.drop_last();
    let before = collections_text(init);
    let (name, steps) = collections.last();
    let open = "local "@ + name + " = new Mapping {\n"@ + steps_text(steps, 1);
    let last = open + "}\n\n"@;
    if i < init.len() {
        law_every_collection_is_written(init, i);
        let wanted = "local "@ + collections[i].0 + " = new Mapping {\n"@ + steps_text(
            collections[i].1,
            1,
        ) + "}\n"@;
        if steps.len() > 0 {
            crate::text::lemma_stands_in_part(seq![], before, last, wanted);
            assert(seq![] + before + last =~= collections_text(collections));
        }
    } else {
        reveal_strlit("}\n\n");
        reveal_strlit("}\n");
        assert("}\n\n"@ =~= "}\n"@ + seq!['\n']);
        crate::text::lemma_stands_between(before, open + "}\n"@, seq!['\n']);
        assert(before + (open + "}\n"@) + seq!['\n'] =~= collections_text(collections)) by {
            assert(last =~= (open + "}\n"@) + seq!['\n']);
            assert(before + last =~= before + (open + "}\n"@) + seq!['\n']);
        }
    }
}

/// Every step that is taken from a collection is written with the collection.
pub proof fn law_every_reference_is_written(references: Seq<(Seq<char>, Seq<char>)>, i: int)
    requires
        0 <= i < references.len(),
    ensures
        has_text(
            reference_lines(references),
            "    [\""@ + references[i].0 + "\"] = "@ + references[i].1 + "[\""@ + references[i].0
                + "\"]\n"@,
        ),
    decreases references.len(),
{
    let init = references.drop_last();
    let before = reference_lines(init);
    let (id, collection) = references.last();
    let line = "    [\""@ + id + "\"] = "@ + collection + "[\""@ + id + "\"]\n"@;
    if i < init.len() {
        law_every_reference_is_written(init, i);
        crate::text::lemma_stands_in_part(
            seq![],
            before,
            line,
            "    [\""@ + references[i].0 + "\"] = "@ + references[i].1 + "[\""@ + references[i].0
                + "\"]\n"@,
        );
        assert(seq![] + before + line =~= reference_lines(references));
    } else {
        crate::text::lemma_stands_between(before, line, seq![]);
        assert(before + line + seq![] =~= reference_lines(references));
    }
}

/// A configuration begins with what it amends, and holds its imports, comments, collections,
/// steps and hooks.
pub proof fn law_configurations_are_written_whole(c: HkConfigView)
    ensures
        ({
            let text = config_text(c);
            &&& starts(text, "amends \""@ + c.amends + "\"\n"@)
            &&& has_text(text, import_lines(c.imports))
            &&& has_text(text, vendor_lines(c.vendor_imports))
            &&& has_text(text, comment_lines(seq![], c.header_comments))
            &&& has_text(text, collections_text(c.step_collections))
            &&& c.step_references.len() > 0 || c.steps.len() > 0 ==> has_text(
                text,
                reference_lines(c.step_references),
            ) && has_text(text, steps_text(c.steps, 1))
            &&& has_text(text, all_hooks_text(c.hooks))
        }),
{
    let text = config_text(c);
    let a = "amends \""@ + c.amends + "\"\n"@;
    let b = import_lines(c.imports);
    let d = vendor_lines(c.vendor_imports);
    let e = header_text(c.header_comments);
    let f = collections_text(c.step_collections);
    let g = shared_steps_text(c.step_references, c.steps);
    let h = all_hooks_text(c.hooks);
    crate::text::lemma_two_stand(a, b);
    crate::text::lemma_seven_stand(a + b, d, "\n"@, e, f, g, h);
    crate::text::lemma_stands_within(text, a + b, b);
    lemma_starts(a, b, d, "\n"@, e, f, g, h);
    let comments = comment_lines(seq![], c.header_comments);
    reveal_strlit("");
    assert(""@ =~= seq![]);
    if c.header_comments.len() == 0 {
        crate::text::lemma_stands_alone(e);
    } else {
        crate::text::lemma_two_stand(comments, "\n"@);
    }
    crate::text::lemma_stands_within(text, e, comments);
    if c.step_references.len() > 0 || c.steps.len() > 0 {
        let references = reference_lines(c.step_references);
        let steps = steps_text(c.steps, 1);
        crate::text::lemma_two_stand("steps {\n"@, references);
        crate::text::lemma_three_stand("steps {\n"@ + references, steps, "}\n\n"@);
        crate::text::lemma_stands_within(g, "steps {\n"@ + references, references);
        crate::text::lemma_stands_within(text, g, references);
        crate::text::lemma_stands_within(text, g, steps);
    }
}

/// A new configuration amends and imports what was given; what was not is the package of
/// the program, in its version.
pub proof fn law_new_configurations_amend_what_is_given(
    amends: Option<Seq<char>>,
    builtins: Option<Seq<char>>,
)
    ensures
        ({
            let c = blank_hk_config(amends, builtins);
            &&& amends is Some ==> c.amends == amends->0
            &&& amends is None ==> c.amends == package_address("Config.pkl"@)
            &&& builtins is Some ==> c.imports == seq![builtins->0]
            &&& builtins is None ==> c.imports == seq![package_address("Builtins.pkl"@)]
            &&& c.steps.len() == 0 && c.hooks.len() == 0 && c.step_collections.len() == 0
                && c.step_references.len() == 0 && c.vendor_imports.len() == 0
        }),
        has_text(package_address("Config.pkl"@), current_version()),
{
    let a = "package://github.com/jdx/hk/releases/download/v"@;
    let v = current_version();
    let b = "/hk@"@ + v + "#/"@ + "Config.pkl"@;
    crate::text::lemma_stands_between(a, v, b);
    assert(a + v + b =~= package_address("Config.pkl"@));
}

/// A pattern with what only a regular expression has looks like one.
pub proof fn law_expressions_are_recognized(pattern: Seq<char>)
    ensures
        starts(trimmed(pattern), "^"@) ==> looks_like_regex(pattern),
        starts(trimmed(pattern), "(?"@) ==> looks_like_regex(pattern),
        has_text(trimmed(pattern), ".*"@) || has_text(trimmed(pattern), ".+"@) ==> looks_like_regex(
            pattern,
        ),
        has_text(trimmed(pattern), "\\b"@) || has_text(trimmed(pattern), "\\s"@) || has_text(
            trimmed(pattern),
            "\\d"@,
        ) || has_text(trimmed(pattern), "\\w"@) ==> looks_like_regex(pattern),
        !has_char(trimmed(pattern), '^') && !has_char(trimmed(pattern), '(') && !has_char(
            trimmed(pattern),
            '.',
        ) && !has_char(trimmed(pattern), '\\') ==> !looks_like_regex(pattern),
{
    let t = trimmed(pattern);
    reveal_strlit("(?x)");
    reveal_strlit("(?i");
    reveal_strlit("(?");
    reveal_strlit("^");
    reveal_strlit("\\b");
    reveal_strlit("\\s");
    reveal_strlit("\\d");
    reveal_strlit("\\w");
    reveal_strlit(".*");
    reveal_strlit(".+");
    lemma_first_of(t, "(?x)"@, '(');
    lemma_first_of(t, "(?i"@, '(');
    lemma_first_of(t, "(?"@, '(');
    lemma_first_of(t, "^"@, '^');
    lemma_first_of(t, "\\b"@, '\\');
    lemma_first_of(t, "\\s"@, '\\');
    lemma_first_of(t, "\\d"@, '\\');
    lemma_first_of(t, "\\w"@, '\\');
    lemma_first_of(t, ".*"@, '.');
    lemma_first_of(t, ".+"@, '.');
}

proof fn lemma_first_of(t: Seq<char>, pat: Seq<char>, c: char)
    requires
        pat.len() > 0,
        pat[0] == c,
    ensures
        starts(t, pat) ==> has_char(t, c),
        has_text(t, pat) ==> has_char(t, c),
{
    if starts(t, pat) {
        assert(t.subrange(0, pat.len() as int)[0] == t[0]);
    }
    if has_text(t, pat) {
        let i = choose|i: int| crate::text::occurs_at(t, pat, i);
        assert(t.subrange(i, i + pat.len())[0] == t[i]);
    }
}

} // verus!
