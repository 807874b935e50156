//! Converting the configuration of pre-commit.

use shell_quote::Quote;
use vstd::prelude::*;
use vstd::multiset::Multiset;
use vstd::string::*;
use crate::config::error_of;
use crate::json::{json_result, parse_json, parsed_json, Json, JsonView};
use crate::mcp::{from_utf8_lossy, lossy_text};
use crate::pkl::{
    blank_hk_config, blank_hk_step, pkl_read, HkConfig, HkConfigView, HkHook, HkHookView, HkStep,
    HkStepView, VendorImport, VendorImportView,
};
use crate::seqs::{lemma_either, lemma_last_or_before, opt_text, opt_texts, texts, views};
use crate::step_group::first_of;
use crate::table::{
    distinct, has_key, keys_of, lemma_lookup_put, lemma_position, lookup, position, put, Dup,
    NameSet, Table,
};
use crate::text::{
    after, contains, cut_at, decimal, dup_list, dup_opt, ends, ends_with, find_from, has_text, join,
    joined, list_has, lower_case, occurs_at, push_char, replace, replace_char, replaced_char,
    replaced_text, same, show_usize, split, split_on, split_once, starts, starts_with, strip_end,
    strip_prefix, stripped_end, to_chars, to_lower, words, words_of,
};
use crate::version::{current_version, version};

verus! {

broadcast use crate::seqs::group_text;

/// The options of a conversion.
pub struct PreCommit {
    /// The configuration to convert.
    pub config: String,
    /// Overwrite a file that is there.
    pub force: bool,
    /// Where the result goes.
    pub output: String,
    /// Where the Pkl files of the program are, if not in its package.
    pub hk_pkl_root: Option<String>,
}

/// What [`PreCommit`] stands for.
pub struct PreCommitView {
    pub config: Seq<char>,
    pub force: bool,
    pub output: Seq<char>,
    pub hk_pkl_root: Option<Seq<char>>,
}

impl View for PreCommit {
    type V = PreCommitView;

    open spec fn view(&self) -> PreCommitView {
        PreCommitView {
            config: self.config@,
            force: self.force,
            output: self.output@,
            hk_pkl_root: opt_text(self.hk_pkl_root),
        }
    }
}

/// A hook of a configuration of pre-commit.
pub struct PreCommitHook {
    pub id: String,
    pub name: Option<String>,
    pub entry: Option<String>,
    pub files: Option<String>,
    pub exclude: Option<String>,
    pub types: Vec<String>,
    pub types_or: Vec<String>,
    pub exclude_types: Vec<String>,
    pub args: Vec<String>,
    pub additional_dependencies: Vec<String>,
    pub stages: Vec<String>,
    pub always_run: bool,
    pub pass_filenames: Option<bool>,
    pub language_version: Option<String>,
    pub require_serial: bool,
    pub language: Option<String>,
}

/// What [`PreCommitHook`] stands for.
pub struct PreCommitHookView {
    pub id: Seq<char>,
    pub name: Option<Seq<char>>,
    pub entry: Option<Seq<char>>,
    pub files: Option<Seq<char>>,
    pub exclude: Option<Seq<char>>,
    pub types: Seq<Seq<char>>,
    pub types_or: Seq<Seq<char>>,
    pub exclude_types: Seq<Seq<char>>,
    pub args: Seq<Seq<char>>,
    pub additional_dependencies: Seq<Seq<char>>,
    pub stages: Seq<Seq<char>>,
    pub always_run: bool,
    pub pass_filenames: Option<bool>,
    pub language_version: Option<Seq<char>>,
    pub require_serial: bool,
    pub language: Option<Seq<char>>,
}

impl View for PreCommitHook {
    type V = PreCommitHookView;

    open spec fn view(&self) -> PreCommitHookView {
        PreCommitHookView {
            id: self.id@,
            name: opt_text(self.name),
            entry: opt_text(self.entry),
            files: opt_text(self.files),
            exclude: opt_text(self.exclude),
            types: texts(self.types@),
            types_or: texts(self.types_or@),
            exclude_types: texts(self.exclude_types@),
            args: texts(self.args@),
            additional_dependencies: texts(self.additional_dependencies@),
            stages: texts(self.stages@),
            always_run: self.always_run,
            pass_filenames: self.pass_filenames,
            language_version: opt_text(self.language_version),
            require_serial: self.require_serial,
            language: opt_text(self.language),
        }
    }
}

/// A repository that hooks come from.
pub struct PreCommitRepo {
    pub repo: String,
    pub rev: Option<String>,
    pub hooks: Vec<PreCommitHook>,
}

/// What [`PreCommitRepo`] stands for.
pub struct PreCommitRepoView {
    pub repo: Seq<char>,
    pub rev: Option<Seq<char>>,
    pub hooks: Seq<PreCommitHookView>,
}

impl View for PreCommitRepo {
    type V = PreCommitRepoView;

    open spec fn view(&self) -> PreCommitRepoView {
        PreCommitRepoView {
            repo: self.repo@,
            rev: opt_text(self.rev),
            hooks: views(self.hooks@),
        }
    }
}

/// A configuration of pre-commit.
pub struct PreCommitConfig {
    pub repos: Vec<PreCommitRepo>,
    pub fail_fast: bool,
    pub default_language_version: Table<String>,
    pub default_stages: Vec<String>,
}

/// What [`PreCommitConfig`] stands for.
pub struct PreCommitConfigView {
    pub repos: Seq<PreCommitRepoView>,
    pub fail_fast: bool,
    pub default_language_version: Seq<(Seq<char>, Seq<char>)>,
    pub default_stages: Seq<Seq<char>>,
}

impl View for PreCommitConfig {
    type V = PreCommitConfigView;

    open spec fn view(&self) -> PreCommitConfigView {
        PreCommitConfigView {
            repos: views(self.repos@),
            fail_fast: self.fail_fast,
            default_language_version: self.default_language_version@,
            default_stages: texts(self.default_stages@),
        }
    }
}

/// A hook as its repository defines it.
pub struct PreCommitHookDefinition {
    pub id: String,
    pub name: Option<String>,
    pub entry: String,
    pub language: String,
    pub files: Option<String>,
    pub types: Vec<String>,
    pub pass_filenames: Option<bool>,
}

/// What [`PreCommitHookDefinition`] stands for.
pub struct PreCommitHookDefinitionView {
    pub id: Seq<char>,
    pub name: Option<Seq<char>>,
    pub entry: Seq<char>,
    pub language: Seq<char>,
    pub files: Option<Seq<char>>,
    pub types: Seq<Seq<char>>,
    pub pass_filenames: Option<bool>,
}

impl View for PreCommitHookDefinition {
    type V = PreCommitHookDefinitionView;

    open spec fn view(&self) -> PreCommitHookDefinitionView {
        PreCommitHookDefinitionView {
            id: self.id@,
            name: opt_text(self.name),
            entry: self.entry@,
            language: self.language@,
            files: opt_text(self.files),
            types: texts(self.types@),
            pass_filenames: self.pass_filenames,
        }
    }
}

/// A repository that was copied into the project.
pub struct VendoredRepo {
    pub url: String,
    pub name: String,
    pub hooks: Vec<PreCommitHookDefinition>,
}

/// What [`VendoredRepo`] stands for.
pub struct VendoredRepoView {
    pub url: Seq<char>,
    pub name: Seq<char>,
    pub hooks: Seq<PreCommitHookDefinitionView>,
}

impl View for VendoredRepo {
    type V = VendoredRepoView;

    open spec fn view(&self) -> VendoredRepoView {
        VendoredRepoView {
            url: self.url@,
            name: self.name@,
            hooks: views(self.hooks@),
        }
    }
}

/// The builtin that stands for a hook, if one does.
pub open spec fn builtin_for(id: Seq<char>) -> Option<Seq<char>> {
    if id == "black"@ {
        Some("black"@)
    } else if id == "flake8"@ {
        Some("flake8"@)
    } else if id == "isort"@ {
        Some("isort"@)
    } else if id == "mypy"@ {
        Some("mypy"@)
    } else if id == "pylint"@ {
        Some("pylint"@)
    } else if id == "ruff"@ {
        Some("ruff"@)
    } else if id == "prettier"@ {
        Some("prettier"@)
    } else if id == "eslint"@ {
        Some("eslint"@)
    } else if id == "standard"@ {
        Some("standard_js"@)
    } else if id == "rustfmt"@ {
        Some("rustfmt"@)
    } else if id == "cargo-fmt"@ {
        Some("cargo_fmt"@)
    } else if id == "clippy"@ {
        Some("cargo_clippy"@)
    } else if id == "cargo-check"@ {
        Some("cargo_check"@)
    } else if id == "fmt"@ {
        Some("rustfmt"@)
    } else if id == "gofmt"@ {
        Some("go_fmt"@)
    } else if id == "goimports"@ {
        Some("go_imports"@)
    } else if id == "golangci-lint"@ {
        Some("golangci_lint"@)
    } else if id == "go-vet"@ {
        Some("go_vet"@)
    } else if id == "rubocop"@ {
        Some("rubocop"@)
    } else if id == "shellcheck"@ {
        Some("shellcheck"@)
    } else if id == "shfmt"@ {
        Some("shfmt"@)
    } else if id == "yamllint"@ {
        Some("yamllint"@)
    } else if id == "hadolint"@ {
        Some("hadolint"@)
    } else if id == "terraform-fmt"@ {
        Some("terraform"@)
    } else if id == "terraform_fmt"@ {
        Some("terraform"@)
    } else if id == "terraform_docs"@ {
        Some("terraform_docs"@)
    } else if id == "terraform_validate"@ {
        Some("terraform_validate"@)
    } else if id == "tflint"@ {
        Some("tf_lint"@)
    } else if id == "terraform_tflint"@ {
        Some("tf_lint"@)
    } else if id == "terragrunt_fmt"@ {
        Some("terragrunt_hcl_fmt"@)
    } else if id == "stylelint"@ {
        Some("stylelint"@)
    } else if id == "markdownlint"@ {
        Some("markdown_lint"@)
    } else if id == "actionlint"@ {
        Some("actionlint"@)
    } else if id == "trailing-whitespace"@ {
        Some("trailing_whitespace"@)
    } else if id == "end-of-file-fixer"@ {
        Some("newlines"@)
    } else if id == "check-yaml"@ {
        Some("yamllint"@)
    } else if id == "check-json"@ {
        Some("jq"@)
    } else if id == "check-toml"@ {
        Some("taplo"@)
    } else if id == "check-merge-conflict"@ {
        Some("check_merge_conflict"@)
    } else if id == "check-case-conflict"@ {
        Some("check_case_conflict"@)
    } else if id == "mixed-line-ending"@ {
        Some("mixed_line_ending"@)
    } else if id == "check-executables-have-shebangs"@ {
        Some("check_executables_have_shebangs"@)
    } else if id == "check-shebang-scripts-are-executable"@ {
        Some("check_shebang_scripts_are_executable"@)
    } else if id == "check-symlinks"@ {
        Some("check_symlinks"@)
    } else if id == "destroyed-symlinks"@ {
        Some("destroyed_symlinks"@)
    } else if id == "forbid-submodules"@ {
        Some("forbid_submodules"@)
    } else if id == "check-byte-order-marker"@ {
        Some("byte_order_marker"@)
    } else if id == "check-added-large-files"@ {
        Some("check_added_large_files"@)
    } else if id == "check-ast"@ {
        Some("python_check_ast"@)
    } else if id == "debug-statements"@ {
        Some("python_debug_statements"@)
    } else if id == "detect-private-key"@ {
        Some("detect_private_key"@)
    } else if id == "no-commit-to-branch"@ {
        Some("no_commit_to_branch"@)
    } else if id == "fix-byte-order-marker"@ {
        Some("byte_order_marker"@)
    } else {
        None
    }
}

/// The builtin that stands for a hook, if one does.
pub fn find_builtin(id: &str) -> (r: Option<&'static str>)
    ensures
        (match r {
            Some(b) => Some(b@),
            None => None,
        }) == builtin_for(id@),
{
    if same(id, "black") {
        Some("black")
    } else if same(id, "flake8") {
        Some("flake8")
    } else if same(id, "isort") {
        Some("isort")
    } else if same(id, "mypy") {
        Some("mypy")
    } else if same(id, "pylint") {
        Some("pylint")
    } else if same(id, "ruff") {
        Some("ruff")
    } else if same(id, "prettier") {
        Some("prettier")
    } else if same(id, "eslint") {
        Some("eslint")
    } else if same(id, "standard") {
        Some("standard_js")
    } else if same(id, "rustfmt") {
        Some("rustfmt")
    } else if same(id, "cargo-fmt") {
        Some("cargo_fmt")
    } else if same(id, "clippy") {
        Some("cargo_clippy")
    } else if same(id, "cargo-check") {
        Some("cargo_check")
    } else if same(id, "fmt") {
        Some("rustfmt")
    } else if same(id, "gofmt") {
        Some("go_fmt")
    } else if same(id, "goimports") {
        Some("go_imports")
    } else if same(id, "golangci-lint") {
        Some("golangci_lint")
    } else if same(id, "go-vet") {
        Some("go_vet")
    } else if same(id, "rubocop") {
        Some("rubocop")
    } else if same(id, "shellcheck") {
        Some("shellcheck")
    } else if same(id, "shfmt") {
        Some("shfmt")
    } else if same(id, "yamllint") {
        Some("yamllint")
    } else if same(id, "hadolint") {
        Some("hadolint")
    } else if same(id, "terraform-fmt") {
        Some("terraform")
    } else if same(id, "terraform_fmt") {
        Some("terraform")
    } else if same(id, "terraform_docs") {
        Some("terraform_docs")
    } else if same(id, "terraform_validate") {
        Some("terraform_validate")
    } else if same(id, "tflint") {
        Some("tf_lint")
    } else if same(id, "terraform_tflint") {
        Some("tf_lint")
    } else if same(id, "terragrunt_fmt") {
        Some("terragrunt_hcl_fmt")
    } else if same(id, "stylelint") {
        Some("stylelint")
    } else if same(id, "markdownlint") {
        Some("markdown_lint")
    } else if same(id, "actionlint") {
        Some("actionlint")
    } else if same(id, "trailing-whitespace") {
        Some("trailing_whitespace")
    } else if same(id, "end-of-file-fixer") {
        Some("newlines")
    } else if same(id, "check-yaml") {
        Some("yamllint")
    } else if same(id, "check-json") {
        Some("jq")
    } else if same(id, "check-toml") {
        Some("taplo")
    } else if same(id, "check-merge-conflict") {
        Some("check_merge_conflict")
    } else if same(id, "check-case-conflict") {
        Some("check_case_conflict")
    } else if same(id, "mixed-line-ending") {
        Some("mixed_line_ending")
    } else if same(id, "check-executables-have-shebangs") {
        Some("check_executables_have_shebangs")
    } else if same(id, "check-shebang-scripts-are-executable") {
        Some("check_shebang_scripts_are_executable")
    } else if same(id, "check-symlinks") {
        Some("check_symlinks")
    } else if same(id, "destroyed-symlinks") {
        Some("destroyed_symlinks")
    } else if same(id, "forbid-submodules") {
        Some("forbid_submodules")
    } else if same(id, "check-byte-order-marker") {
        Some("byte_order_marker")
    } else if same(id, "check-added-large-files") {
        Some("check_added_large_files")
    } else if same(id, "check-ast") {
        Some("python_check_ast")
    } else if same(id, "debug-statements") {
        Some("python_debug_statements")
    } else if same(id, "detect-private-key") {
        Some("detect_private_key")
    } else if same(id, "no-commit-to-branch") {
        Some("no_commit_to_branch")
    } else if same(id, "fix-byte-order-marker") {
        Some("byte_order_marker")
    } else {
        None
    }
}

/// The tool that a hook needs.
pub open spec fn tool_for(id: Seq<char>) -> Seq<char> {
    if id == "rustfmt"@ || id == "cargo-fmt"@ || id == "clippy"@ {
        "rust"@
    } else if id == "rubocop"@ {
        "ruby"@
    } else if id == "gofmt"@ || id == "goimports"@ || id == "golangci-lint"@ || id == "go-vet"@ {
        "go"@
    } else if id == "terraform-fmt"@ || id == "terraform_fmt"@ || id == "terraform_validate"@ {
        "terraform"@
    } else if id == "tflint"@ || id == "terraform_tflint"@ {
        "tflint"@
    } else if id == "terraform_docs"@ {
        "terraform-docs"@
    } else if id == "terragrunt_fmt"@ {
        "terragrunt"@
    } else if id == "stylelint"@ || id == "markdownlint"@ {
        "node"@
    } else {
        id
    }
}

impl PreCommit {
    /// The tool that a hook needs.
    pub fn hook_id_to_tool(id: &str) -> (r: String)
        ensures
            r@ == tool_for(id@),
    {
        if same(id, "rustfmt") || same(id, "cargo-fmt") || same(id, "clippy") {
            "rust".to_owned()
        } else if same(id, "rubocop") {
            "ruby".to_owned()
        } else if same(id, "gofmt") || same(id, "goimports") || same(id, "golangci-lint") || same(id, "go-vet") {
            "go".to_owned()
        } else if same(id, "terraform-fmt") || same(id, "terraform_fmt") || same(id, "terraform_validate") {
            "terraform".to_owned()
        } else if same(id, "tflint") || same(id, "terraform_tflint") {
            "tflint".to_owned()
        } else if same(id, "terraform_docs") {
            "terraform-docs".to_owned()
        } else if same(id, "terragrunt_fmt") {
            "terragrunt".to_owned()
        } else if same(id, "stylelint") || same(id, "markdownlint") {
            "node".to_owned()
        } else {
            id.to_owned()
        }
    }

    /// Whether a builtin stands for a hook.
    pub fn is_known_hook(id: &str) -> (r: bool)
        ensures
            r == builtin_for(id@) is Some,
    {
        find_builtin(id).is_some()
    }
}

/// The extensions of the files of a type, where it is known.
pub open spec fn type_extensions(name: Seq<char>) -> Option<Seq<Seq<char>>> {
    if name == "python"@ {
        Some(seq!["py"@])
    } else if name == "pyi"@ {
        Some(seq!["pyi"@])
    } else if name == "yaml"@ {
        Some(seq!["yaml"@, "yml"@])
    } else if name == "json"@ {
        Some(seq!["json"@])
    } else if name == "toml"@ {
        Some(seq!["toml"@])
    } else if name == "markdown"@ {
        Some(seq!["md"@, "markdown"@, "mdown"@])
    } else if name == "javascript"@ {
        Some(seq!["js"@])
    } else if name == "jsx"@ {
        Some(seq!["jsx"@])
    } else if name == "typescript"@ {
        Some(seq!["ts"@])
    } else if name == "tsx"@ {
        Some(seq!["tsx"@])
    } else if name == "rust"@ {
        Some(seq!["rs"@])
    } else if name == "go"@ {
        Some(seq!["go"@])
    } else if name == "shell"@ {
        Some(seq!["sh"@, "bash"@])
    } else {
        None
    }
}

fn one(a: &str) -> (r: Vec<String>)
    ensures
        texts(r@) == seq![a@],
{
    let mut v: Vec<String> = Vec::new();
    v.push(a.to_owned());
    assert(texts(v@) =~= seq![a@]);
    v
}

fn two(a: &str, b: &str) -> (r: Vec<String>)
    ensures
        texts(r@) == seq![a@, b@],
{
    let mut v: Vec<String> = Vec::new();
    v.push(a.to_owned());
    v.push(b.to_owned());
    assert(texts(v@) =~= seq![a@, b@]);
    v
}

fn three(a: &str, b: &str, c: &str) -> (r: Vec<String>)
    ensures
        texts(r@) == seq![a@, b@, c@],
{
    let mut v: Vec<String> = Vec::new();
    v.push(a.to_owned());
    v.push(b.to_owned());
    v.push(c.to_owned());
    assert(texts(v@) =~= seq![a@, b@, c@]);
    v
}

fn extensions_of(name: &str) -> (r: Option<Vec<String>>)
    ensures
        opt_texts(r) == type_extensions(name@),
{
    if same(name, "python") {
        Some(one("py"))
    } else if same(name, "pyi") {
        Some(one("pyi"))
    } else if same(name, "yaml") {
        Some(two("yaml", "yml"))
    } else if same(name, "json") {
        Some(one("json"))
    } else if same(name, "toml") {
        Some(one("toml"))
    } else if same(name, "markdown") {
        Some(three("md", "markdown", "mdown"))
    } else if same(name, "javascript") {
        Some(one("js"))
    } else if same(name, "jsx") {
        Some(one("jsx"))
    } else if same(name, "typescript") {
        Some(one("ts"))
    } else if same(name, "tsx") {
        Some(one("tsx"))
    } else if same(name, "rust") {
        Some(one("rs"))
    } else if same(name, "go") {
        Some(one("go"))
    } else if same(name, "shell") {
        Some(two("sh", "bash"))
    } else {
        None
    }
}

/// The extensions of the files of all types, where all are known.
pub open spec fn all_extensions(names: Seq<Seq<char>>) -> Option<Seq<Seq<char>>>
    decreases names.len(),
{
    if names.len() == 0 {
        Some(seq![])
    } else {
        match (all_extensions(names.drop_last()), type_extensions(names.last())) {
            (Some(before), Some(more)) => Some(before + more),
            _ => None,
        }
    }
}

fn add_texts(out: &mut Vec<String>, more: Vec<String>)
    ensures
        texts(final(out)@) == texts(old(out)@) + texts(more@),
{
    let ghost a = out@;
    let mut more = more;
    let ghost b = more@;
    out.append(&mut more);
    assert(texts(out@) =~= texts(a) + texts(b));
}

fn collect_extensions(names: &[String]) -> (r: Option<Vec<String>>)
    ensures
        opt_texts(r) == all_extensions(texts(names@)),
{
    let mut all: Option<Vec<String>> = Some(Vec::new());
    assert(texts(all->0@) =~= seq![]);
    for i in 0..names.len()
        invariant
            opt_texts(all) == all_extensions(texts(names@).take(i as int)),
    {
        all = match (all, extensions_of(names[i].as_str())) {
            (Some(mut list), Some(more)) => {
                add_texts(&mut list, more);
                Some(list)
            },
            _ => None,
        };
    }
    assert(texts(names@).take(names@.len() as int) =~= texts(names@));
    all
}

/// The types that count: any of `types_or`, else all of `types`.
pub open spec fn counted_types(
    types: Seq<Seq<char>>,
    types_or: Seq<Seq<char>>,
) -> Seq<Seq<char>> {
    if types_or.len() > 0 {
        types_or
    } else {
        types
    }
}

pub open spec fn extension_regex(ext: Seq<char>) -> Seq<char> {
    ".*\\."@ + ext + "$"@
}

/// The pattern of the files of given types: a glob for one extension, a regular
/// expression for several, none where a type is unknown.
pub open spec fn types_glob(
    types: Seq<Seq<char>>,
    types_or: Seq<Seq<char>>,
) -> Option<Seq<char>> {
    match all_extensions(counted_types(types, types_or)) {
        Some(exts) => if exts.len() == 0 {
            None
        } else if exts.len() == 1 {
            Some("**/*."@ + exts[0])
        } else {
            Some(
                "("@ + joined(exts.map_values(|e: Seq<char>| extension_regex(e)), "|"@) + ")"@,
            )
        },
        None => None,
    }
}

/// Extensions of files that are often found in a repository.
pub open spec fn common_extensions() -> Seq<Seq<char>> {
    seq![
        "py"@,
        "pyi"@,
        "js"@,
        "jsx"@,
        "ts"@,
        "tsx"@,
        "json"@,
        "yaml"@,
        "yml"@,
        "toml"@,
        "md"@,
        "markdown"@,
        "mdown"@,
        "txt"@,
        "rst"@,
        "xml"@,
        "html"@,
        "css"@,
        "scss"@,
        "sh"@,
        "bash"@,
        "zsh"@,
        "fish"@,
        "c"@,
        "cpp"@,
        "h"@,
        "hpp"@,
        "rs"@,
        "go"@,
        "java"@,
        "kt"@,
        "rb"@,
        "php"@,
        "pl"@,
        "lua"@,
        "r"@,
        "sql"@,
        "proto"@,
        "graphql"@,
        "vue"@,
        "svelte"@,
    ]
}

fn list_common_extensions() -> (r: Vec<String>)
    ensures
        texts(r@) == common_extensions(),
{
    let mut v: Vec<String> = Vec::new();
    v.push("py".to_owned());
    v.push("pyi".to_owned());
    v.push("js".to_owned());
    v.push("jsx".to_owned());
    v.push("ts".to_owned());
    v.push("tsx".to_owned());
    v.push("json".to_owned());
    v.push("yaml".to_owned());
    v.push("yml".to_owned());
    v.push("toml".to_owned());
    v.push("md".to_owned());
    v.push("markdown".to_owned());
    v.push("mdown".to_owned());
    v.push("txt".to_owned());
    v.push("rst".to_owned());
    v.push("xml".to_owned());
    v.push("html".to_owned());
    v.push("css".to_owned());
    v.push("scss".to_owned());
    v.push("sh".to_owned());
    v.push("bash".to_owned());
    v.push("zsh".to_owned());
    v.push("fish".to_owned());
    v.push("c".to_owned());
    v.push("cpp".to_owned());
    v.push("h".to_owned());
    v.push("hpp".to_owned());
    v.push("rs".to_owned());
    v.push("go".to_owned());
    v.push("java".to_owned());
    v.push("kt".to_owned());
    v.push("rb".to_owned());
    v.push("php".to_owned());
    v.push("pl".to_owned());
    v.push("lua".to_owned());
    v.push("r".to_owned());
    v.push("sql".to_owned());
    v.push("proto".to_owned());
    v.push("graphql".to_owned());
    v.push("vue".to_owned());
    v.push("svelte".to_owned());
    assert(texts(v@) =~= common_extensions());
    v
}

/// The lock files of common tools: what stands before the extension, and the extension.
pub open spec fn lock_files() -> Seq<(Seq<char>, Seq<char>)> {
    seq![
        ("uv"@, "lock"@),
        ("Cargo"@, "lock"@),
        ("package-lock"@, "json"@),
        ("yarn"@, "lock"@),
        ("pnpm-lock"@, "yaml"@),
        ("poetry"@, "lock"@),
        ("Gemfile"@, "lock"@),
        ("Pipfile"@, "lock"@),
    ]
}

/// The regular expressions of lock files whose extensions are not among `exts`.
pub open spec fn other_locks(
    locks: Seq<(Seq<char>, Seq<char>)>,
    exts: Seq<Seq<char>>,
) -> Seq<Seq<char>>
    decreases locks.len(),
{
    if locks.len() == 0 {
        seq![]
    } else {
        let before = other_locks(locks.drop_last(), exts);
        if exts.contains(locks.last().1) {
            before
        } else {
            before.push(locks.last().0 + "\\."@ + locks.last().1 + "$"@)
        }
    }
}

/// What pairs of texts stand for.
pub open spec fn pair_views(v: Seq<(&'static str, &'static str)>) -> Seq<(Seq<char>, Seq<char>)> {
    v.map_values(|p: (&'static str, &'static str)| (p.0@, p.1@))
}

fn list_other_locks(exts: &Vec<String>) -> (r: Vec<String>)
    ensures
        texts(r@) == other_locks(lock_files(), texts(exts@)),
{
    let mut locks: Vec<(&'static str, &'static str)> = Vec::new();
    locks.push(("uv", "lock"));
    locks.push(("Cargo", "lock"));
    locks.push(("package-lock", "json"));
    locks.push(("yarn", "lock"));
    locks.push(("pnpm-lock", "yaml"));
    locks.push(("poetry", "lock"));
    locks.push(("Gemfile", "lock"));
    locks.push(("Pipfile", "lock"));
    let ghost all = lock_files();
    assert(pair_views(locks@) =~= all);
    let mut out: Vec<String> = Vec::new();
    assert(texts(out@) =~= other_locks(all.take(0), texts(exts@)));
    for i in 0..locks.len()
        invariant
            pair_views(locks@) == all,
            texts(out@) == other_locks(all.take(i as int), texts(exts@)),
    {
        let (name, ext) = locks[i];
        assert(all[i as int] == (name@, ext@)) by {
            assert(pair_views(locks@)[i as int] == (name@, ext@));
        }
        assert(all.take(i + 1).drop_last() =~= all.take(i as int));
        if !list_has(exts, ext) {
            let mut p = name.to_owned();
            p.append("\\.");
            p.append(ext);
            p.append("$");
            out.push(p);
        }
    }
    assert(all.take(locks@.len() as int) =~= all) by {
        assert(pair_views(locks@).len() == locks@.len());
    }
    out
}

/// The regular expressions of common files whose extensions are not among `exts`.
pub open spec fn other_files(common: Seq<Seq<char>>, exts: Seq<Seq<char>>) -> Seq<Seq<char>>
    decreases common.len(),
{
    if common.len() == 0 {
        seq![]
    } else {
        let before = other_files(common.drop_last(), exts);
        if exts.contains(common.last()) {
            before
        } else {
            before.push("\\."@ + common.last() + "$"@)
        }
    }
}

/// The pattern that leaves out common files and lock files of other types, none where a
/// type is unknown. No file of a wanted type is left out.
pub open spec fn types_exclude(
    types: Seq<Seq<char>>,
    types_or: Seq<Seq<char>>,
) -> Option<Seq<char>> {
    match all_extensions(counted_types(types, types_or)) {
        Some(exts) => {
            let others = other_files(common_extensions(), exts);
            if exts.len() == 0 || others.len() == 0 {
                None
            } else {
                Some(joined(others + other_locks(lock_files(), exts), "|"@))
            }
        },
        None => None,
    }
}

pub open spec fn default_exclude(existing: Option<Seq<char>>) -> Seq<char> {
    match existing {
        Some(e) => if e.len() > 0 {
            e + "|"@ + "^\\.hk/"@
        } else {
            "^\\.hk/"@
        },
        None => "^\\.hk/"@,
    }
}

/// The version of a language as mise names it.
pub open spec fn plain_version(version: Seq<char>) -> Seq<char> {
    if starts(version, "python"@) {
        after(version, 6)
    } else {
        version
    }
}

/// The hook of git that a stage of pre-commit stands for.
pub open spec fn stage_of(stage: Seq<char>) -> Seq<char> {
    if stage == "commit"@ || stage == "commit-msg"@ {
        "commit-msg"@
    } else if stage == "push"@ || stage == "pre-push"@ {
        "pre-push"@
    } else if stage == "prepare-commit-msg"@ {
        "prepare-commit-msg"@
    } else if stage == "manual"@ {
        "manual"@
    } else {
        "pre-commit"@
    }
}

/// The package and the version that a dependency names, at the first of these
/// signs that it holds: `==`, `>=`, `<=`, `>`, `<`.
pub open spec fn dependency(dep: Seq<char>) -> (Seq<char>, Option<Seq<char>>) {
    match cut_at(dep, "=="@) {
        Some((p, v)) => (p, Some(v)),
        None => match cut_at(dep, ">="@) {
            Some((p, v)) => (p, Some(v)),
            None => match cut_at(dep, "<="@) {
                Some((p, v)) => (p, Some(v)),
                None => match cut_at(dep, ">"@) {
                    Some((p, v)) => (p, Some(v)),
                    None => match cut_at(dep, "<"@) {
                        Some((p, v)) => (p, Some(v)),
                        None => (dep, None),
                    },
                },
            },
        },
    }
}

/// What runs a command with the first dependency at hand.
pub open spec fn mise_prefix(dependencies: Seq<Seq<char>>) -> Option<Seq<char>> {
    if dependencies.len() == 0 {
        None
    } else {
        let (package, version) = dependency(dependencies[0]);
        Some(
            match version {
                Some(v) => "mise x pipx:"@ + package + "@"@ + v + " --"@,
                None => "mise x pipx:"@ + package + " --"@,
            },
        )
    }
}

fn parse_dependency(dep: &str) -> (r: (String, Option<String>))
    ensures
        (r.0@, opt_text(r.1)) == dependency(dep@),
{
    match split_once(dep, "==") {
        Some((p, v)) => (p, Some(v)),
        None => match split_once(dep, ">=") {
            Some((p, v)) => (p, Some(v)),
            None => match split_once(dep, "<=") {
                Some((p, v)) => (p, Some(v)),
                None => match split_once(dep, ">") {
                    Some((p, v)) => (p, Some(v)),
                    None => match split_once(dep, "<") {
                        Some((p, v)) => (p, Some(v)),
                        None => (dep.to_owned(), None),
                    },
                },
            },
        },
    }
}

/// A repository whose hooks builtins stand for.
pub open spec fn is_standard_repo(url: Seq<char>) -> bool {
    ||| has_text(url, "github.com/pre-commit/pre-commit-hooks"@)
    ||| has_text(url, "github.com/pre-commit/mirrors-"@)
    ||| has_text(url, "github.com/psf/"@)
    ||| has_text(url, "github.com/PyCQA/"@)
    ||| has_text(url, "github.com/asottile/"@)
}

/// The directory name of a repository: the last two parts of its address.
pub open spec fn vendor_name(url: Seq<char>) -> Seq<char> {
    let parts = split_on(stripped_end(url, '/'), '/');
    let last = if parts.len() > 2 {
        parts.subrange(parts.len() - 2, parts.len() as int)
    } else {
        parts
    };
    replaced_char(joined(last, "-"@), '.', "-"@)
}

/// A letter or a digit of any script.
pub uninterp spec fn is_alnum(c: char) -> bool;

/// `char::is_alphanumeric`: a letter or a digit of any script. Of the characters
/// of ASCII, the letters and the digits are and no others.
#[verifier::external_body]
fn alphanumeric(c: char) -> (r: bool)
    ensures
        r == is_alnum(c),
        (c as u32) < 128 ==> r == (('a' <= c && c <= 'z') || ('A' <= c && c <= 'Z') || ('0' <= c && c
            <= '9')),
{
    c.is_alphanumeric()
}

/// The characters of `s` that may stand in an identifier.
pub open spec fn identifier_chars(s: Seq<char>) -> Seq<char>
    decreases s.len(),
{
    if s.len() == 0 {
        seq![]
    } else {
        let before = identifier_chars(s.drop_last());
        if is_alnum(s.last()) || s.last() == '_' {
            before.push(s.last())
        } else {
            before
        }
    }
}

/// The name under which the hooks of a repository are imported.
pub open spec fn import_name(url: Seq<char>) -> Seq<char> {
    "Vendors_"@ + identifier_chars(
        replaced_char(replaced_char(vendor_name(url), '-', "_"@), '.', "_"@),
    )
}

/// A text as it stands between the quotes of a Pkl string.
pub open spec fn escaped(s: Seq<char>) -> Seq<char> {
    replaced_char(
        replaced_char(
            replaced_char(
                replaced_char(replaced_char(s, '\\', "\\\\"@), '"', "\\\""@),
                '\n',
                "\\n"@,
            ),
            '\r',
            "\\r"@,
        ),
        '\t',
        "\\t"@,
    )
}

/// One character as it stands between the quotes of a Pkl string.
pub open spec fn escaped_char(c: char) -> Seq<char> {
    if c == '\\' {
        seq!['\\', '\\']
    } else if c == '"' {
        seq!['\\', '"']
    } else if c == '\n' {
        seq!['\\', 'n']
    } else if c == '\r' {
        seq!['\\', 'r']
    } else if c == '\t' {
        seq!['\\', 't']
    } else {
        seq![c]
    }
}

proof fn lemma_replaced_char_concat(a: Seq<char>, b: Seq<char>, c: char, by: Seq<char>)
    ensures
        replaced_char(a + b, c, by) == replaced_char(a, c, by) + replaced_char(b, c, by),
    decreases b.len(),
{
    if b.len() == 0 {
        assert(a + b =~= a);
        assert(replaced_char(a, c, by) + replaced_char(b, c, by) =~= replaced_char(a, c, by));
    } else {
        assert((a + b).drop_last() =~= a + b.drop_last());
        lemma_replaced_char_concat(a, b.drop_last(), c, by);
        assert(replaced_char(a + b, c, by) =~= replaced_char(a, c, by) + replaced_char(b, c, by));
    }
}

proof fn lemma_escaped_concat(a: Seq<char>, b: Seq<char>)
    ensures
        escaped(a + b) == escaped(a) + escaped(b),
{
    let (a1, b1) = (replaced_char(a, '\\', "\\\\"@), replaced_char(b, '\\', "\\\\"@));
    let (a2, b2) = (replaced_char(a1, '"', "\\\""@), replaced_char(b1, '"', "\\\""@));
    let (a3, b3) = (replaced_char(a2, '\n', "\\n"@), replaced_char(b2, '\n', "\\n"@));
    let (a4, b4) = (replaced_char(a3, '\r', "\\r"@), replaced_char(b3, '\r', "\\r"@));
    lemma_replaced_char_concat(a, b, '\\', "\\\\"@);
    lemma_replaced_char_concat(a1, b1, '"', "\\\""@);
    lemma_replaced_char_concat(a2, b2, '\n', "\\n"@);
    lemma_replaced_char_concat(a3, b3, '\r', "\\r"@);
    lemma_replaced_char_concat(a4, b4, '\t', "\\t"@);
}

proof fn lemma_replaced_one(x: char, c: char, by: Seq<char>)
    ensures
        replaced_char(seq![x], c, by) == if x == c {
            by
        } else {
            seq![x]
        },
{
    assert(seq![x].drop_last() =~= Seq::<char>::empty());
    assert(replaced_char(seq![x].drop_last(), c, by) =~= Seq::<char>::empty());
    assert(replaced_char(seq![x], c, by) =~= if x == c {
        by
    } else {
        seq![x]
    });
}

proof fn lemma_replaced_two(x: char, y: char, c: char, by: Seq<char>)
    requires
        x != c,
        y != c,
    ensures
        replaced_char(seq![x, y], c, by) == seq![x, y],
{
    assert(seq![x, y] =~= seq![x] + seq![y]);
    lemma_replaced_char_concat(seq![x], seq![y], c, by);
    lemma_replaced_one(x, c, by);
    lemma_replaced_one(y, c, by);
}

proof fn lemma_escaped_one(c: char)
    ensures
        escaped(seq![c]) == escaped_char(c),
{
    reveal_strlit("\\\\");
    reveal_strlit("\\\"");
    reveal_strlit("\\n");
    reveal_strlit("\\r");
    reveal_strlit("\\t");
    assert("\\\\"@ =~= seq!['\\', '\\']);
    assert("\\\""@ =~= seq!['\\', '"']);
    assert("\\n"@ =~= seq!['\\', 'n']);
    assert("\\r"@ =~= seq!['\\', 'r']);
    assert("\\t"@ =~= seq!['\\', 't']);
    lemma_replaced_one(c, '\\', "\\\\"@);
    lemma_replaced_one(c, '"', "\\\""@);
    lemma_replaced_one(c, '\n', "\\n"@);
    lemma_replaced_one(c, '\r', "\\r"@);
    lemma_replaced_one(c, '\t', "\\t"@);
    lemma_replaced_two('\\', '\\', '"', "\\\""@);
    lemma_replaced_two('\\', '\\', '\n', "\\n"@);
    lemma_replaced_two('\\', '\\', '\r', "\\r"@);
    lemma_replaced_two('\\', '\\', '\t', "\\t"@);
    lemma_replaced_two('\\', '"', '\n', "\\n"@);
    lemma_replaced_two('\\', '"', '\r', "\\r"@);
    lemma_replaced_two('\\', '"', '\t', "\\t"@);
    lemma_replaced_two('\\', 'n', '\r', "\\r"@);
    lemma_replaced_two('\\', 'n', '\t', "\\t"@);
    lemma_replaced_two('\\', 'r', '\t', "\\t"@);
}

proof fn lemma_read_one(before: Seq<char>, c: char)
    requires
        !pkl_read(before).1,
    ensures
        pkl_read(before + escaped_char(c)) == (pkl_read(before).0.push(c), false),
        escaped_char(c).len() == 2 ==> pkl_read(before.push(escaped_char(c)[0])).1,
{
    let one = escaped_char(c);
    let now = before + one;
    if one.len() == 1 {
        assert(now =~= before.push(c));
        assert(now.drop_last() =~= before);
    } else {
        let half = before.push('\\');
        assert(half.drop_last() =~= before);
        assert(pkl_read(half) == (pkl_read(before).0, true));
        assert(now =~= half.push(one[1]));
        assert(now.drop_last() =~= half);
    }
}

/// A line break, a carriage return or a tab.
spec fn is_blank_control(c: char) -> bool {
    c == '\n' || c == '\r' || c == '\t'
}

/// A text is escaped character by character: the escaped form of two texts in a row is
/// the one behind the other.
pub proof fn law_texts_are_escaped_piece_by_piece(a: Seq<char>, b: Seq<char>)
    ensures
        escaped(a + b) == escaped(a) + escaped(b),
{
    lemma_escaped_concat(a, b);
}

/// An escaped text reads back as the text, and the string that it stands in ends only
/// behind it: every quote in it is escaped, and it has no line break, carriage return or
/// tab.
pub proof fn law_escaped_texts_read_back(s: Seq<char>)
    ensures
        pkl_read(escaped(s)) == (s, false),
        forall|k: int|
            0 <= k < escaped(s).len() && #[trigger] escaped(s)[k] == '"' ==> pkl_read(
                escaped(s).take(k),
            ).1,
        !escaped(s).contains('\n'),
        !escaped(s).contains('\r'),
        !escaped(s).contains('\t'),
    decreases s.len(),
{
    if s.len() == 0 {
        assert(escaped(s) =~= Seq::<char>::empty());
        assert(pkl_read(escaped(s)).0 =~= s);
    } else {
        let init = s.drop_last();
        let c = s.last();
        law_escaped_texts_read_back(init);
        assert(s =~= init + seq![c]);
        lemma_escaped_concat(init, seq![c]);
        lemma_escaped_one(c);
        let before = escaped(init);
        let now = escaped(s);
        let one = escaped_char(c);
        assert(now == before + one);
        lemma_read_one(before, c);
        assert(init.push(c) =~= s);
        assert forall|k: int| 0 <= k < now.len() && #[trigger] now[k] == '"' implies pkl_read(
            now.take(k),
        ).1 by {
            if k < before.len() {
                assert(before[k] == '"');
                assert(now.take(k) =~= before.take(k));
            } else {
                assert(k == before.len() + 1);
                assert(now.take(k) =~= before.push(one[0]));
            }
        }
        assert forall|k: int| 0 <= k < now.len() implies !is_blank_control(#[trigger] now[k]) by {
            if k < before.len() {
                assert(before[k] == now[k]);
                assert(before.contains(before[k]));
            } else {
                assert(now[k] == one[k - before.len()]);
            }
        }
    }
}

/// The beginnings of names of hooks that change files.
pub open spec fn names_fixer(id: Seq<char>) -> bool {
    ||| starts(id, "remove-"@)
    ||| starts(id, "fix-"@)
    ||| starts(id, "format-"@)
    ||| starts(id, "sort-"@)
    ||| starts(id, "insert-"@)
    ||| starts(id, "add-"@)
    ||| starts(id, "delete-"@)
    ||| starts(id, "replace-"@)
    ||| starts(id, "reorder-"@)
    ||| starts(id, "normalize-"@)
    ||| starts(id, "trim-"@)
    ||| starts(id, "strip-"@)
    ||| starts(id, "clean-"@)
    ||| starts(id, "update-"@)
    ||| starts(id, "transform-"@)
}

/// The beginnings of names of hooks that only check.
pub open spec fn names_checker(id: Seq<char>) -> bool {
    ||| starts(id, "forbid-"@)
    ||| starts(id, "check-"@)
    ||| starts(id, "detect-"@)
    ||| starts(id, "validate-"@)
    ||| starts(id, "verify-"@)
    ||| starts(id, "lint-"@)
    ||| starts(id, "scan-"@)
    ||| starts(id, "find-"@)
}

/// A description in lower case that speaks of changing files.
pub open spec fn describes_fixer(lower: Seq<char>) -> bool {
    ||| has_text(lower, "remover"@)
    ||| has_text(lower, "fixer"@)
    ||| has_text(lower, "formatter"@)
    ||| has_text(lower, "replace"@)
    ||| has_text(lower, "format "@)
}

/// A hook that changes files, by its name and its description in lower case.
pub open spec fn is_fixer(id: Seq<char>, lower: Option<Seq<char>>) -> bool {
    if names_fixer(id) {
        true
    } else if names_checker(id) {
        false
    } else {
        lower is Some && describes_fixer(lower->0)
    }
}

/// Whether a hook changes files, by its name and its description in lower case.
pub fn is_fixer_by(id: &str, lower: &Option<String>) -> (r: bool)
    ensures
        r == is_fixer(id@, opt_text(*lower)),
{
    if starts_with(id, "remove-") || starts_with(id, "fix-") || starts_with(id, "format-") || starts_with(id, "sort-") || starts_with(id, "insert-") || starts_with(id, "add-") || starts_with(id, "delete-") || starts_with(id, "replace-") || starts_with(id, "reorder-") || starts_with(id, "normalize-") || starts_with(id, "trim-") || starts_with(id, "strip-") || starts_with(id, "clean-") || starts_with(id, "update-") || starts_with(id, "transform-") {
        return true;
    }
    if starts_with(id, "forbid-") || starts_with(id, "check-") || starts_with(id, "detect-") || starts_with(id, "validate-") || starts_with(id, "verify-") || starts_with(id, "lint-") || starts_with(id, "scan-") || starts_with(id, "find-") {
        return false;
    }
    match lower {
        Some(l) => contains(l.as_str(), "remover") || contains(l.as_str(), "fixer") || contains(
            l.as_str(),
            "formatter",
        ) || contains(l.as_str(), "replace") || contains(l.as_str(), "format "),
        None => false,
    }
}

impl PreCommit {
    /// The pattern of the files of given types.
    pub fn types_to_glob_pattern(types: &Vec<String>, types_or: &Vec<String>) -> (r: Option<String>)
        ensures
            opt_text(r) == types_glob(texts(types@), texts(types_or@)),
    {
        let counted = if types_or.len() > 0 {
            types_or
        } else {
            types
        };
        let exts = match collect_extensions(counted) {
            Some(exts) => exts,
            None => {
                return None;
            },
        };
        if exts.len() == 0 {
            return None;
        }
        if exts.len() == 1 {
            assert(texts(exts@)[0] == exts@[0]@);
            let mut s = "**/*.".to_owned();
            s.append(exts[0].as_str());
            return Some(s);
        }
        let ghost all = texts(exts@).map_values(|e: Seq<char>| extension_regex(e));
        let mut parts: Vec<String> = Vec::new();
        for i in 0..exts.len()
            invariant
                all == texts(exts@).map_values(|e: Seq<char>| extension_regex(e)),
                texts(parts@) =~= all.take(i as int),
        {
            let mut p = ".*\\.".to_owned();
            p.append(exts[i].as_str());
            p.append("$");
            parts.push(p);
        }
        assert(texts(parts@) =~= all);
        let mut s = "(".to_owned();
        s.append(join(&parts, "|").as_str());
        s.append(")");
        Some(s)
    }

    /// The pattern that leaves out common files of other types.
    /// What a hook says of types that it leaves out itself does not count.
    pub fn types_to_exclude_pattern(
        types: &Vec<String>,
        types_or: &Vec<String>,
        _exclude_types: &Vec<String>,
    ) -> (r: Option<String>)
        ensures
            opt_text(r) == types_exclude(texts(types@), texts(types_or@)),
    {
        let counted = if types_or.len() > 0 {
            types_or
        } else {
            types
        };
        let exts = match collect_extensions(counted) {
            Some(exts) => exts,
            None => {
                return None;
            },
        };
        if exts.len() == 0 {
            return None;
        }
        let common = list_common_extensions();
        let mut parts: Vec<String> = Vec::new();
        assert(texts(parts@) =~= other_files(texts(common@).take(0), texts(exts@)));
        for i in 0..common.len()
            invariant
                texts(parts@) == other_files(texts(common@).take(i as int), texts(exts@)),
        {
            if !list_has(&exts, common[i].as_str()) {
                let mut p = "\\.".to_owned();
                p.append(common[i].as_str());
                p.append("$");
                parts.push(p);
            }
        }
        assert(texts(common@).take(common@.len() as int) =~= texts(common@));
        if parts.len() == 0 {
            return None;
        }
        add_texts(&mut parts, list_other_locks(&exts));
        Some(join(&parts, "|"))
    }

    /// A pattern of files to leave out, with the files of the program itself.
    pub fn add_default_exclude(existing: &Option<String>) -> (r: Option<String>)
        ensures
            opt_text(r) == Some(default_exclude(opt_text(*existing))),
    {
        match existing {
            Some(e) => if !e.as_str().is_empty() {
                let mut s = e.clone();
                s.append("|");
                s.append("^\\.hk/");
                Some(s)
            } else {
                Some("^\\.hk/".to_owned())
            },
            None => Some("^\\.hk/".to_owned()),
        }
    }

    /// The version of a language as mise names it.
    pub fn normalize_language_version(version: &str) -> (r: String)
        ensures
            r@ == plain_version(version@),
    {
        proof {
            reveal_strlit("python");
        }
        match strip_prefix(version, "python") {
            Some(rest) => rest,
            None => version.to_owned(),
        }
    }

    /// What runs a command with the first dependency at hand.
    pub fn generate_mise_prefix(dependencies: &Vec<String>) -> (r: Option<String>)
        ensures
            opt_text(r) == mise_prefix(texts(dependencies@)),
    {
        if dependencies.len() == 0 {
            return None;
        }
        assert(texts(dependencies@)[0] == dependencies@[0]@);
        let (package, version) = parse_dependency(dependencies[0].as_str());
        let mut s = "mise x pipx:".to_owned();
        s.append(package.as_str());
        if let Some(v) = version {
            s.append("@");
            s.append(v.as_str());
        }
        s.append(" --");
        Some(s)
    }

    /// The hook of git that a stage of pre-commit stands for.
    pub fn map_stage(stage: &str) -> (r: &'static str)
        ensures
            r@ == stage_of(stage@),
    {
        if same(stage, "commit") || same(stage, "commit-msg") {
            "commit-msg"
        } else if same(stage, "push") || same(stage, "pre-push") {
            "pre-push"
        } else if same(stage, "prepare-commit-msg") {
            "prepare-commit-msg"
        } else if same(stage, "manual") {
            "manual"
        } else {
            "pre-commit"
        }
    }

    /// Whether builtins stand for the hooks of a repository.
    pub fn is_github_precommit_hooks(url: &str) -> (r: bool)
        ensures
            r == is_standard_repo(url@),
    {
        contains(url, "github.com/pre-commit/pre-commit-hooks") || contains(
            url,
            "github.com/pre-commit/mirrors-",
        ) || contains(url, "github.com/psf/") || contains(url, "github.com/PyCQA/") || contains(
            url,
            "github.com/asottile/",
        )
    }

    /// The directory name of a repository.
    pub fn repo_url_to_vendor_name(url: &str) -> (r: String)
        ensures
            r@ == vendor_name(url@),
    {
        let stripped = strip_end(url, '/');
        let parts = split(stripped.as_str(), '/');
        let n: usize = parts.len();
        let start: usize = if n > 2 { n - 2 } else { 0 };
        let ghost all = texts(parts@);
        let mut last: Vec<String> = Vec::new();
        for i in start..n
            invariant
                n == parts@.len(),
                start <= n,
                all == texts(parts@),
                texts(last@) =~= all.subrange(start as int, i as int),
        {
            last.push(parts[i].clone());
        }
        proof {
            if n <= 2 {
                assert(all.subrange(0, n as int) =~= all);
            }
        }
        replace_char(join(&last, "-").as_str(), '.', "-")
    }

    /// The name under which the hooks of a repository are imported.
    pub fn repo_url_to_import_name(url: &str) -> (r: String)
        ensures
            r@ == import_name(url@),
    {
        let name = PreCommit::repo_url_to_vendor_name(url);
        let name = replace_char(name.as_str(), '-', "_");
        let name = replace_char(name.as_str(), '.', "_");
        let chars = to_chars(name.as_str());
        let mut id = String::new();
        for i in 0..chars.len()
            invariant
                chars@ == name@,
                id@ == identifier_chars(name@.take(i as int)),
        {
            if alphanumeric(chars[i]) || chars[i] == '_' {
                push_char(&mut id, chars[i]);
            }
        }
        assert(name@.take(name@.len() as int) =~= name@);
        let mut out = "Vendors_".to_owned();
        out.append(id.as_str());
        out
    }

    /// A text as it stands between the quotes of a Pkl string.
    pub fn escape_for_pkl(s: &str) -> (r: String)
        ensures
            r@ == escaped(s@),
    {
        let s = replace_char(s, '\\', "\\\\");
        let s = replace_char(s.as_str(), '"', "\\\"");
        let s = replace_char(s.as_str(), '\n', "\\n");
        let s = replace_char(s.as_str(), '\r', "\\r");
        replace_char(s.as_str(), '\t', "\\t")
    }

    /// Whether a hook changes files, by its name and its description.
    pub fn is_fixer_hook(id: &str, name: &Option<String>) -> (r: bool)
        ensures
            r == is_fixer(
                id@,
                match name {
                    Some(n) => Some(lower_case(n@)),
                    None => None,
                },
            ),
    {
        let lower = match name {
            Some(n) => Some(to_lower(n.as_str())),
            None => None,
        };
        is_fixer_by(id, &lower)
    }
}

/// `label` and the list behind it, where there is one.
pub open spec fn list_note(
    label: Seq<char>,
    list: Seq<Seq<char>>,
    sep: Seq<char>,
) -> Seq<Seq<char>> {
    if list.len() == 0 {
        seq![]
    } else {
        seq![label + joined(list, sep)]
    }
}

/// `label` and the text behind it, where there is one.
pub open spec fn text_note(label: Seq<char>, text: Option<Seq<char>>) -> Seq<Seq<char>> {
    match text {
        Some(t) => seq![label + t],
        None => seq![],
    }
}

fn note(out: &mut Vec<String>, label: &str, text: &str)
    ensures
        texts(final(out)@) == texts(old(out)@).push(label@ + text@),
{
    let mut s = label.to_owned();
    s.append(text);
    out.push(s);
}

fn note_list(out: &mut Vec<String>, label: &str, list: &Vec<String>, sep: &str)
    ensures
        texts(final(out)@) == texts(old(out)@) + list_note(label@, texts(list@), sep@),
{
    let ghost start = texts(out@);
    if list.len() > 0 {
        note(out, label, join(list, sep).as_str());
        assert(texts(out@) =~= start + seq![label@ + joined(texts(list@), sep@)]);
    } else {
        assert(texts(out@) =~= start + Seq::<Seq<char>>::empty());
    }
}

fn note_text(out: &mut Vec<String>, label: &str, text: &Option<String>)
    ensures
        texts(final(out)@) == texts(old(out)@) + text_note(label@, opt_text(*text)),
{
    let ghost start = texts(out@);
    match text {
        Some(t) => {
            note(out, label, t.as_str());
            assert(texts(out@) =~= start + seq![label@ + t@]);
        },
        None => {
            assert(texts(out@) =~= start + Seq::<Seq<char>>::empty());
        },
    }
}

/// Lines that are added where a condition holds.
pub open spec fn lines_if(condition: bool, lines: Seq<Seq<char>>) -> Seq<Seq<char>> {
    if condition {
        lines
    } else {
        seq![]
    }
}

fn add_if(out: &mut Vec<String>, condition: bool, lines: Vec<String>)
    ensures
        texts(final(out)@) == texts(old(out)@) + lines_if(condition, texts(lines@)),
{
    let ghost start = texts(out@);
    if condition {
        add_texts(out, lines);
    } else {
        assert(texts(out@) =~= start + Seq::<Seq<char>>::empty());
    }
}

/// The comment on a hook that had to get another name.
pub open spec fn id_comment(unique_id: Seq<char>, id: Seq<char>) -> Seq<Seq<char>> {
    lines_if(unique_id != id, seq!["Original ID: "@ + id])
}

fn add_id_comment(out: &mut Vec<String>, unique_id: &str, id: &str)
    ensures
        texts(final(out)@) == texts(old(out)@) + id_comment(unique_id@, id@),
{
    let mut s = "Original ID: ".to_owned();
    s.append(id);
    add_if(out, !same(unique_id, id), one(s.as_str()));
}

/// What cannot be said of a hook that a builtin stands for, as comments.
pub open spec fn known_notes(hook: PreCommitHookView) -> Seq<Seq<char>> {
    (match hook.files {
        Some(f) => seq![
            "files pattern from pre-commit: "@ + f,
            "Note: Convert regex to glob pattern for hk"@,
        ],
        None => seq![],
    }) + list_note("types (AND): "@, hook.types, ", "@) + list_note(
        "types_or: "@,
        hook.types_or,
        ", "@,
    ) + list_note("exclude_types: "@, hook.exclude_types, ", "@) + lines_if(
        hook.always_run,
        seq![
            "always_run: true - runs even without matching files"@,
            "Note: hk doesn't have direct equivalent, hook will run on all files"@,
        ],
    ) + lines_if(
        hook.pass_filenames == Some(false),
        seq![
            "pass_filenames: false"@,
            "Note: Adjust check/fix commands to not use {{files}}"@,
        ],
    ) + lines_if(
        hook.args.len() > 0,
        seq![
            "args from pre-commit: "@ + joined(hook.args, " "@),
            "Consider updating check/fix commands with these args"@,
        ],
    ) + lines_if(
        hook.additional_dependencies.len() > 0,
        seq![
            "additional_dependencies: "@ + joined(hook.additional_dependencies, ", "@),
            "Use mise x to install dependencies:"@,
            "prefix = \"mise x "@ + tool_for(hook.id) + "@latest --\""@,
        ],
    ) + (match hook.language_version {
        Some(v) => seq!["language_version: "@ + v, "Configure version in mise.toml"@],
        None => seq![],
    })
}

/// A step for a hook that a builtin stands for.
pub open spec fn known_step(
    hook: PreCommitHookView,
    unique_id: Seq<char>,
    builtin: Seq<char>,
) -> HkStepView {
    HkStepView {
        builtin: Some("Builtins."@ + builtin),
        comments: id_comment(unique_id, hook.id),
        exclude: Some(default_exclude(hook.exclude)),
        exclusive: hook.require_serial,
        properties_as_comments: known_notes(hook),
        ..blank_hk_step()
    }
}

fn both(a: &str, b: &str) -> (r: String)
    ensures
        r@ == a@ + b@,
{
    let mut s = a.to_owned();
    s.append(b);
    s
}

fn list_known_notes(hook: &PreCommitHook) -> (r: Vec<String>)
    ensures
        texts(r@) == known_notes(hook@),
{
    let mut out = match &hook.files {
        Some(f) => two(
            both("files pattern from pre-commit: ", f.as_str()).as_str(),
            "Note: Convert regex to glob pattern for hk",
        ),
        None => Vec::new(),
    };
    assert(texts(out@) =~= (match hook@.files {
        Some(f) => seq![
            "files pattern from pre-commit: "@ + f,
            "Note: Convert regex to glob pattern for hk"@,
        ],
        None => seq![],
    }));
    note_list(&mut out, "types (AND): ", &hook.types, ", ");
    note_list(&mut out, "types_or: ", &hook.types_or, ", ");
    note_list(&mut out, "exclude_types: ", &hook.exclude_types, ", ");
    add_if(
        &mut out,
        hook.always_run,
        two(
            "always_run: true - runs even without matching files",
            "Note: hk doesn't have direct equivalent, hook will run on all files",
        ),
    );
    let no_names = match hook.pass_filenames {
        Some(b) => !b,
        None => false,
    };
    add_if(
        &mut out,
        no_names,
        two("pass_filenames: false", "Note: Adjust check/fix commands to not use {{files}}"),
    );
    add_if(
        &mut out,
        hook.args.len() > 0,
        two(
            both("args from pre-commit: ", join(&hook.args, " ").as_str()).as_str(),
            "Consider updating check/fix commands with these args",
        ),
    );
    let mut prefix = "prefix = \"mise x ".to_owned();
    prefix.append(PreCommit::hook_id_to_tool(hook.id.as_str()).as_str());
    prefix.append("@latest --\"");
    add_if(
        &mut out,
        hook.additional_dependencies.len() > 0,
        three(
            both(
                "additional_dependencies: ",
                join(&hook.additional_dependencies, ", ").as_str(),
            ).as_str(),
            "Use mise x to install dependencies:",
            prefix.as_str(),
        ),
    );
    let language = match &hook.language_version {
        Some(v) => two(both("language_version: ", v.as_str()).as_str(), "Configure version in mise.toml"),
        None => Vec::new(),
    };
    assert(texts(language@) =~= (match hook@.language_version {
        Some(v) => seq!["language_version: "@ + v, "Configure version in mise.toml"@],
        None => seq![],
    }));
    add_texts(&mut out, language);
    out
}

impl PreCommit {
    /// A step for a hook, where a builtin stands for it.
    pub fn convert_known_hook(hook: &PreCommitHook, unique_id: &str) -> (r: Option<HkStep>)
        ensures
            crate::seqs::opt_view(r) == (match builtin_for(hook@.id) {
                Some(b) => Some(known_step(hook@, unique_id@, b)),
                None => None,
            }),
    {
        match find_builtin(hook.id.as_str()) {
            Some(b) => {
                let mut step = HkStep::default();
                step.builtin = Some(both("Builtins.", b));
                add_id_comment(&mut step.comments, unique_id, hook.id.as_str());
                step.exclude = PreCommit::add_default_exclude(&hook.exclude);
                step.exclusive = hook.require_serial;
                step.properties_as_comments = list_known_notes(hook);
                assert(step@.comments =~= id_comment(unique_id@, hook@.id));
                Some(step)
            },
            None => None,
        }
    }
}

/// `s` as one word of bash.
pub uninterp spec fn bash_word(s: Seq<char>) -> Seq<char>;

/// `shell_quote::Bash::quote`: the text as one word of bash, quoted where that
/// is needed. The same text always gives the same word.
#[verifier::external_body]
fn bash_quote(s: &str) -> (r: String)
    ensures
        r@ == bash_word(s@),
{
    shell_quote::Bash::quote(s)
}

/// A Python script of the project.
pub open spec fn is_script(entry: Seq<char>) -> bool {
    ends(entry, ".py"@) || (words_of(entry).len() > 0 && ends(words_of(entry)[0], ".py"@))
}

/// The command of a local hook without its files, where `quoted` is its entry
/// as one word of a shell.
pub open spec fn local_command(
    language: Option<Seq<char>>,
    entry: Seq<char>,
    quoted: Seq<char>,
) -> Seq<char> {
    if language == Some("pygrep"@) {
        "! grep -P "@ + quoted
    } else if language == Some("docker_image"@) {
        let parts = words_of(entry);
        let image = "docker run --rm -v $(pwd):/src -w /src "@ + parts[0];
        if parts.len() > 1 {
            image + " "@ + joined(parts.drop_first(), " "@)
        } else {
            image
        }
    } else if language == Some("python"@) && is_script(entry) {
        "uv run "@ + entry
    } else {
        entry
    }
}

/// The command of a local hook with its arguments, which stand before its files.
pub open spec fn full_command(
    command: Seq<char>,
    args: Seq<Seq<char>>,
    pass_filenames: bool,
) -> Seq<char> {
    let with_files = if pass_filenames {
        command + " {{files}}"@
    } else {
        command
    };
    if args.len() == 0 {
        with_files
    } else if pass_filenames {
        replaced_text(with_files, " {{files}}"@, " "@ + joined(args, " "@) + " {{files}}"@)
    } else {
        with_files + " "@ + joined(args, " "@)
    }
}

/// A hook that can be converted: a hook that runs a container image names one.
pub open spec fn is_convertible(hook: PreCommitHookView) -> bool {
    hook.language == Some("docker_image"@) && hook.entry is Some ==> words_of(hook.entry->0).len() > 0
}

pub open spec fn passes_filenames(hook: PreCommitHookView) -> bool {
    match hook.pass_filenames {
        Some(b) => b,
        None => true,
    }
}

/// What cannot be said of a local hook, as comments.
pub open spec fn local_notes(hook: PreCommitHookView) -> Seq<Seq<char>> {
    list_note("types (AND): "@, hook.types, ", "@) + list_note(
        "types (OR): "@,
        hook.types_or,
        ", "@,
    ) + (if hook.entry is Some {
        lines_if(!passes_filenames(hook), seq!["pass_filenames was false in pre-commit"@])
    } else {
        seq![
            "TODO: Configure check and/or fix commands from local hook"@,
            "check = \"...\""@,
        ] + list_note("Original args: "@, hook.args, " "@)
    }) + lines_if(hook.always_run, seq!["always_run was true in pre-commit"@])
}

/// A step for a hook of the project itself, where `quoted` is its entry as one
/// word of a shell.
pub open spec fn local_step(
    hook: PreCommitHookView,
    unique_id: Seq<char>,
    quoted: Seq<char>,
) -> HkStepView {
    let base = default_exclude(hook.exclude);
    HkStepView {
        comments: id_comment(unique_id, hook.id) + text_note("Name: "@, hook.name),
        glob: first_of(hook.files, types_glob(hook.types, hook.types_or)),
        exclude: if hook.files is Some && types_exclude(hook.types, hook.types_or) is Some {
            Some(base + "|"@ + types_exclude(hook.types, hook.types_or)->0)
        } else {
            Some(base)
        },
        prefix: mise_prefix(hook.additional_dependencies),
        check: match hook.entry {
            Some(entry) => Some(
                full_command(
                    local_command(hook.language, entry, quoted),
                    hook.args,
                    passes_filenames(hook),
                ),
            ),
            None => None,
        },
        exclusive: hook.require_serial,
        properties_as_comments: local_notes(hook),
        ..blank_hk_step()
    }
}

fn is_text(o: &Option<String>, s: &str) -> (r: bool)
    ensures
        r == (opt_text(*o) == Some(s@)),
{
    match o {
        Some(t) => same(t.as_str(), s),
        None => false,
    }
}

fn names_script(entry: &str) -> (r: bool)
    ensures
        r == is_script(entry@),
{
    if ends_with(entry, ".py") {
        return true;
    }
    let parts = words(entry);
    if parts.len() > 0 {
        assert(texts(parts@)[0] == parts@[0]@);
        ends_with(parts[0].as_str(), ".py")
    } else {
        false
    }
}

fn docker_command(entry: &str) -> (r: String)
    requires
        words_of(entry@).len() > 0,
    ensures
        r@ == local_command(Some("docker_image"@), entry@, seq![]),
{
    proof {
        reveal_strlit("docker_image");
        reveal_strlit("pygrep");
        assert("docker_image"@.len() == 12 && "pygrep"@.len() == 6);
    }
    let parts = words(entry);
    assert(texts(parts@).len() == parts@.len());
    assert(texts(parts@)[0] == parts@[0]@);
    let mut cmd = "docker run --rm -v $(pwd):/src -w /src ".to_owned();
    cmd.append(parts[0].as_str());
    if parts.len() > 1 {
        let ghost all = texts(parts@);
        let mut rest: Vec<String> = Vec::new();
        for i in 1..parts.len()
            invariant
                all == texts(parts@),
                texts(rest@) =~= all.subrange(1, i as int),
        {
            rest.push(parts[i].clone());
        }
        assert(texts(rest@) =~= all.drop_first());
        cmd.append(" ");
        cmd.append(join(&rest, " ").as_str());
    }
    cmd
}

fn write_local_command(language: &Option<String>, entry: &str, quoted: &str) -> (r: String)
    requires
        opt_text(*language) == Some("docker_image"@) ==> words_of(entry@).len() > 0,
    ensures
        r@ == local_command(opt_text(*language), entry@, quoted@),
{
    proof {
        reveal_strlit("docker_image");
        reveal_strlit("pygrep");
        assert("docker_image"@.len() == 12 && "pygrep"@.len() == 6);
    }
    if is_text(language, "pygrep") {
        both("! grep -P ", quoted)
    } else if is_text(language, "docker_image") {
        docker_command(entry)
    } else if is_text(language, "python") && names_script(entry) {
        both("uv run ", entry)
    } else {
        entry.to_owned()
    }
}

fn write_full_command(command: &str, args: &Vec<String>, pass_filenames: bool) -> (r: String)
    ensures
        r@ == full_command(command@, texts(args@), pass_filenames),
{
    let with_files = if pass_filenames {
        both(command, " {{files}}")
    } else {
        command.to_owned()
    };
    if args.len() == 0 {
        return with_files;
    }
    let list = join(args, " ");
    if pass_filenames {
        proof {
            reveal_strlit(" {{files}}");
        }
        let mut by = " ".to_owned();
        by.append(list.as_str());
        by.append(" {{files}}");
        replace(with_files.as_str(), " {{files}}", by.as_str())
    } else {
        let mut s = with_files;
        s.append(" ");
        s.append(list.as_str());
        s
    }
}

fn list_local_notes(hook: &PreCommitHook) -> (r: Vec<String>)
    ensures
        texts(r@) == local_notes(hook@),
{
    let mut out: Vec<String> = Vec::new();
    note_list(&mut out, "types (AND): ", &hook.types, ", ");
    assert(texts(out@) =~= list_note("types (AND): "@, hook@.types, ", "@));
    note_list(&mut out, "types (OR): ", &hook.types_or, ", ");
    let mut middle: Vec<String> = Vec::new();
    if hook.entry.is_some() {
        let pass = match hook.pass_filenames {
            Some(b) => b,
            None => true,
        };
        add_if(&mut middle, !pass, one("pass_filenames was false in pre-commit"));
        assert(texts(middle@) =~= lines_if(
            !passes_filenames(hook@),
            seq!["pass_filenames was false in pre-commit"@],
        ));
    } else {
        middle = two(
            "TODO: Configure check and/or fix commands from local hook",
            "check = \"...\"",
        );
        note_list(&mut middle, "Original args: ", &hook.args, " ");
    }
    add_texts(&mut out, middle);
    add_if(&mut out, hook.always_run, one("always_run was true in pre-commit"));
    out
}

impl PreCommit {
    /// A step for a hook of the project itself, where `quoted` is its entry as
    /// one word of a shell.
    pub fn convert_local_hook_with(hook: &PreCommitHook, unique_id: &str, quoted: &str) -> (r: HkStep)
        requires
            is_convertible(hook@),
        ensures
            r@ == local_step(hook@, unique_id@, quoted@),
    {
        let mut step = HkStep::default();
        add_id_comment(&mut step.comments, unique_id, hook.id.as_str());
        note_text(&mut step.comments, "Name: ", &hook.name);
        assert(step@.comments =~= id_comment(unique_id@, hook@.id) + text_note("Name: "@, hook@.name));
        step.glob = match &hook.files {
            Some(f) => Some(f.clone()),
            None => PreCommit::types_to_glob_pattern(&hook.types, &hook.types_or),
        };
        let base = PreCommit::add_default_exclude(&hook.exclude);
        step.exclude = base;
        if hook.files.is_some() {
            if let Some(more) = PreCommit::types_to_exclude_pattern(
                &hook.types,
                &hook.types_or,
                &hook.exclude_types,
            ) {
                let mut both_patterns = match PreCommit::add_default_exclude(&hook.exclude) {
                    Some(s) => s,
                    None => String::new(),
                };
                both_patterns.append("|");
                both_patterns.append(more.as_str());
                step.exclude = Some(both_patterns);
            }
        }
        step.prefix = PreCommit::generate_mise_prefix(&hook.additional_dependencies);
        if let Some(entry) = &hook.entry {
            let pass = match hook.pass_filenames {
                Some(b) => b,
                None => true,
            };
            let command = write_local_command(&hook.language, entry.as_str(), quoted);
            step.check = Some(write_full_command(command.as_str(), &hook.args, pass));
        }
        step.exclusive = hook.require_serial;
        step.properties_as_comments = list_local_notes(hook);
        step
    }

    /// A step for a hook of the project itself.
    pub fn convert_local_hook(hook: &PreCommitHook, unique_id: &str) -> (r: HkStep)
        requires
            is_convertible(hook@),
        ensures
            r@ == local_step(hook@, unique_id@, quoted_entry(hook@)),
    {
        let quoted = match &hook.entry {
            Some(e) => bash_quote(e.as_str()),
            None => String::new(),
        };
        PreCommit::convert_local_hook_with(hook, unique_id, quoted.as_str())
    }
}

/// The entry of a hook as one word of a shell.
pub open spec fn quoted_entry(hook: PreCommitHookView) -> Seq<char> {
    match hook.entry {
        Some(e) => bash_word(e),
        None => seq![],
    }
}

/// The hook is one that its repository defines.
pub open spec fn defines(hooks: Seq<PreCommitHookDefinitionView>, id: Seq<char>) -> bool {
    exists|i: int| 0 <= i < hooks.len() && (#[trigger] hooks[i]).id == id
}

/// A step for a hook of a repository that was copied into the project.
pub open spec fn vendored_step(
    hook: PreCommitHookView,
    unique_id: Seq<char>,
    url: Seq<char>,
) -> HkStepView {
    HkStepView {
        builtin: Some(import_name(url) + "."@ + replaced_char(hook.id, '-', "_"@)),
        comments: id_comment(unique_id, hook.id),
        exclude: Some(default_exclude(hook.exclude)),
        exclusive: hook.require_serial,
        properties_as_comments: text_note("files pattern from pre-commit: "@, hook.files) + list_note(
            "types (AND): "@,
            hook.types,
            ", "@,
        ) + list_note("args from pre-commit: "@, hook.args, " "@),
        ..blank_hk_step()
    }
}

/// What is to be done by hand for a hook that is not known, as comments.
pub open spec fn unknown_notes(hook: PreCommitHookView) -> Seq<Seq<char>> {
    text_note("files: "@, hook.files) + lines_if(
        hook.types.len() > 0 || hook.types_or.len() > 0,
        seq!["File type filtering needed"@],
    ) + seq![
        "TODO: Configure check and/or fix commands"@,
        "check = \"...\""@,
        "fix = \"...\""@,
    ] + list_note("Original args: "@, hook.args, " "@) + list_note(
        "Dependencies: "@,
        hook.additional_dependencies,
        ", "@,
    )
}

/// A step for a hook that is not known.
pub open spec fn unknown_step(
    hook: PreCommitHookView,
    unique_id: Seq<char>,
    url: Seq<char>,
    rev: Option<Seq<char>>,
) -> HkStepView {
    HkStepView {
        comments: seq![
            "Repo: "@ + url + (match rev {
                Some(r) => " @ "@ + r,
                None => seq![],
            }),
        ] + id_comment(unique_id, hook.id) + text_note("Name: "@, hook.name),
        exclude: Some(default_exclude(hook.exclude)),
        exclusive: hook.require_serial,
        properties_as_comments: unknown_notes(hook),
        ..blank_hk_step()
    }
}

/// A step for a hook that no builtin stands for.
pub open spec fn other_step(
    hook: PreCommitHookView,
    unique_id: Seq<char>,
    url: Seq<char>,
    rev: Option<Seq<char>>,
    vendored: Seq<(Seq<char>, VendoredRepoView)>,
) -> HkStepView {
    match lookup(vendored, url) {
        Some(v) => if defines(v.hooks, hook.id) {
            vendored_step(hook, unique_id, url)
        } else {
            unknown_step(hook, unique_id, url, rev)
        },
        None => unknown_step(hook, unique_id, url, rev),
    }
}

fn has_definition(hooks: &Vec<PreCommitHookDefinition>, id: &str) -> (r: bool)
    ensures
        r == defines(views(hooks@), id@),
{
    for i in 0..hooks.len()
        invariant
            forall|k: int| 0 <= k < i ==> (#[trigger] views(hooks@)[k]).id != id@,
    {
        assert(views(hooks@)[i as int] == hooks@[i as int]@);
        if same(hooks[i].id.as_str(), id) {
            return true;
        }
    }
    false
}

fn make_vendored_step(hook: &PreCommitHook, unique_id: &str, url: &str) -> (r: HkStep)
    ensures
        r@ == vendored_step(hook@, unique_id@, url@),
{
    let mut step = HkStep::default();
    let mut builtin = PreCommit::repo_url_to_import_name(url);
    builtin.append(".");
    builtin.append(replace_char(hook.id.as_str(), '-', "_").as_str());
    step.builtin = Some(builtin);
    add_id_comment(&mut step.comments, unique_id, hook.id.as_str());
    assert(step@.comments =~= id_comment(unique_id@, hook@.id));
    step.exclude = PreCommit::add_default_exclude(&hook.exclude);
    step.exclusive = hook.require_serial;
    let mut notes: Vec<String> = Vec::new();
    note_text(&mut notes, "files pattern from pre-commit: ", &hook.files);
    assert(texts(notes@) =~= text_note("files pattern from pre-commit: "@, hook@.files));
    note_list(&mut notes, "types (AND): ", &hook.types, ", ");
    note_list(&mut notes, "args from pre-commit: ", &hook.args, " ");
    step.properties_as_comments = notes;
    step
}

fn make_unknown_step(hook: &PreCommitHook, unique_id: &str, url: &str, rev: &Option<String>) -> (r:
    HkStep)
    ensures
        r@ == unknown_step(hook@, unique_id@, url@, opt_text(*rev)),
{
    let mut step = HkStep::default();
    let mut origin = both("Repo: ", url);
    let mut at = String::new();
    if let Some(r) = rev {
        at = both(" @ ", r.as_str());
    }
    origin.append(at.as_str());
    let mut comments = one(origin.as_str());
    add_id_comment(&mut comments, unique_id, hook.id.as_str());
    note_text(&mut comments, "Name: ", &hook.name);
    step.comments = comments;
    step.exclude = PreCommit::add_default_exclude(&hook.exclude);
    step.exclusive = hook.require_serial;
    let mut notes: Vec<String> = Vec::new();
    note_text(&mut notes, "files: ", &hook.files);
    assert(texts(notes@) =~= text_note("files: "@, hook@.files));
    add_if(
        &mut notes,
        hook.types.len() > 0 || hook.types_or.len() > 0,
        one("File type filtering needed"),
    );
    add_texts(
        &mut notes,
        three(
            "TODO: Configure check and/or fix commands",
            "check = \"...\"",
            "fix = \"...\"",
        ),
    );
    note_list(&mut notes, "Original args: ", &hook.args, " ");
    note_list(&mut notes, "Dependencies: ", &hook.additional_dependencies, ", ");
    step.properties_as_comments = notes;
    step
}

impl PreCommit {
    /// A step for a hook that no builtin stands for.
    pub fn convert_unknown_hook(
        hook: &PreCommitHook,
        unique_id: &str,
        repo: &PreCommitRepo,
        vendored: &Table<VendoredRepo>,
    ) -> (r: HkStep)
        ensures
            r@ == other_step(hook@, unique_id@, repo@.repo, repo@.rev, vendored@),
    {
        if let Some(v) = vendored.get(repo.repo.as_str()) {
            if has_definition(&v.hooks, hook.id.as_str()) {
                return make_vendored_step(hook, unique_id, repo.repo.as_str());
            }
        }
        make_unknown_step(hook, unique_id, repo.repo.as_str(), &repo.rev)
    }
}

/// `id` with a number behind it.
pub open spec fn numbered(id: Seq<char>, n: nat) -> Seq<char> {
    id + "-"@ + decimal(n)
}

/// `n` is the first number from 2 on that makes `id` free.
pub open spec fn is_first_free(used: Seq<Seq<char>>, id: Seq<char>, n: nat) -> bool {
    &&& n >= 2
    &&& !used.contains(numbered(id, n))
    &&& forall|k: nat| 2 <= k < n ==> used.contains(#[trigger] numbered(id, k))
}

/// `id`, or where that is used `id` with the first number that makes it free.
pub open spec fn unique_id(used: Seq<Seq<char>>, id: Seq<char>) -> Seq<char> {
    if !used.contains(id) {
        id
    } else {
        numbered(id, choose|n: nat| is_first_free(used, id, n))
    }
}

proof fn lemma_numbered_injective(id: Seq<char>, a: nat, b: nat)
    requires
        numbered(id, a) == numbered(id, b),
    ensures
        a == b,
{
    let head = id + "-"@;
    assert(decimal(a) =~= numbered(id, a).subrange(head.len() as int, numbered(id, a).len() as int));
    assert(decimal(b) =~= numbered(id, b).subrange(head.len() as int, numbered(id, b).len() as int));
    crate::text::lemma_decimal_injective(a, b);
}

/// Among more numbers than there are used names, one makes `id` free.
proof fn lemma_some_number_is_free(used: Seq<Seq<char>>, id: Seq<char>)
    ensures
        exists|n: nat| 2 <= n <= used.len() + 2 && !used.contains(#[trigger] numbered(id, n)),
{
    if forall|n: nat| 2 <= n <= used.len() + 2 ==> used.contains(#[trigger] numbered(id, n)) {
        let names = Seq::new(used.len() + 1, |i: int| numbered(id, (i + 2) as nat));
        assert(names.no_duplicates()) by {
            assert forall|i: int, j: int|
                0 <= i < names.len() && 0 <= j < names.len() && i != j implies names[i] != names[j] by {
                if names[i] == names[j] {
                    lemma_numbered_injective(id, (i + 2) as nat, (j + 2) as nat);
                }
            }
        }
        names.unique_seq_to_set();
        used.lemma_cardinality_of_set();
        assert(names.to_set().subset_of(used.to_set())) by {
            assert forall|x: Seq<char>| names.to_set().contains(x) implies used.to_set().contains(x) by {
                let i = choose|i: int| 0 <= i < names.len() && names[i] == x;
                assert(used.contains(numbered(id, (i + 2) as nat)));
            }
        }
        vstd::set_lib::lemma_len_subset(names.to_set(), used.to_set());
    }
}

proof fn lemma_first_free_is_unique(used: Seq<Seq<char>>, id: Seq<char>, a: nat, b: nat)
    requires
        is_first_free(used, id, a),
        is_first_free(used, id, b),
    ensures
        a == b,
{
    if a < b {
        assert(used.contains(numbered(id, a)));
    }
    if b < a {
        assert(used.contains(numbered(id, b)));
    }
}

impl PreCommit {
    /// A name for a hook that no other has: its own, or with a number behind it.
    pub fn make_unique_hook_id(id: &str, used: &mut NameSet) -> (r: String)
        requires
            old(used)@.len() < usize::MAX - 2,
        ensures
            r@ == unique_id(old(used)@, id@),
            !old(used)@.contains(r@),
            final(used)@ == old(used)@.push(r@),
    {
        if !used.contains(id) {
            used.insert(id.to_owned());
            return id.to_owned();
        }
        let ghost start = used@;
        let limit: usize = used.len() + 2;
        let mut counter: usize = 2;
        proof {
            lemma_some_number_is_free(used@, id@);
        }
        while counter <= limit
            invariant
                2 <= counter <= limit + 1,
                limit == start.len() + 2,
                limit < usize::MAX,
                used@ == start,
                start == old(used)@,
                start.contains(id@),
                forall|k: nat| 2 <= k < counter ==> start.contains(#[trigger] numbered(id@, k)),
                exists|n: nat|
                    2 <= n <= start.len() + 2 && !start.contains(#[trigger] numbered(id@, n)),
            decreases limit + 1 - counter,
        {
            let mut name = id.to_owned();
            name.append("-");
            name.append(show_usize(counter).as_str());
            if !used.contains(name.as_str()) {
                proof {
                    assert(is_first_free(start, id@, counter as nat));
                    let n = choose|n: nat| is_first_free(start, id@, n);
                    lemma_first_free_is_unique(start, id@, n, counter as nat);
                }
                used.insert(name.clone());
                return name;
            }
            counter += 1;
        }
        proof {
            let n = choose|n: nat|
                2 <= n <= start.len() + 2 && !start.contains(#[trigger] numbered(id@, n));
            assert(start.contains(numbered(id@, n)));
        }
        id.to_owned()
    }
}

/// There is a first number that makes a name free, and only one.
pub proof fn law_some_number_is_free(used: Seq<Seq<char>>, id: Seq<char>)
    ensures
        exists|n: nat|
            n <= used.len() + 2 && #[trigger] is_first_free(used, id, n) && forall|m: nat|
                #[trigger] is_first_free(used, id, m) ==> m == n,
{
    lemma_some_number_is_free(used, id);
    lemma_first_free_exists(used, id, 2);
    let n = choose|n: nat| is_first_free(used, id, n);
    let free = choose|n: nat|
        2 <= n <= used.len() + 2 && !used.contains(#[trigger] numbered(id, n));
    if free < n {
        assert(used.contains(numbered(id, free)));
    }
    assert forall|m: nat| #[trigger] is_first_free(used, id, m) implies m == n by {
        lemma_first_free_is_unique(used, id, m, n);
    }
}

/// A name that is used gets the first number that makes it free.
pub proof fn law_used_names_are_numbered(used: Seq<Seq<char>>, id: Seq<char>, n: nat)
    requires
        used.contains(id),
        is_first_free(used, id, n),
    ensures
        unique_id(used, id) == numbered(id, n),
{
    let m = choose|m: nat| is_first_free(used, id, m);
    lemma_first_free_is_unique(used, id, m, n);
}

/// No two hooks get the same name.
pub proof fn law_unique_ids_are_new(used: Seq<Seq<char>>, id: Seq<char>)
    ensures
        !used.contains(unique_id(used, id)),
{
    if used.contains(id) {
        lemma_some_number_is_free(used, id);
        lemma_first_free_exists(used, id, 2);
        let n = choose|n: nat| is_first_free(used, id, n);
        assert(!used.contains(numbered(id, n)));
    }
}

proof fn lemma_first_free_exists(used: Seq<Seq<char>>, id: Seq<char>, from: nat)
    requires
        from >= 2,
        forall|k: nat| 2 <= k < from ==> used.contains(#[trigger] numbered(id, k)),
        exists|n: nat| 2 <= n <= used.len() + 2 && !used.contains(#[trigger] numbered(id, n)),
    ensures
        exists|n: nat| is_first_free(used, id, n),
    decreases used.len() + 3 - from,
{
    if !used.contains(numbered(id, from)) {
        assert(is_first_free(used, id, from));
    } else {
        let n = choose|n: nat| 2 <= n <= used.len() + 2 && !used.contains(#[trigger] numbered(id, n));
        if n < from {
            assert(used.contains(numbered(id, n)));
        }
        lemma_first_free_exists(used, id, from + 1);
    }
}

/// A step that runs in a stage, and the collection it stands in.
pub struct StageEntry {
    pub id: String,
    pub collection: String,
}

/// What [`StageEntry`] stands for.
pub struct StageEntryView {
    pub id: Seq<char>,
    pub collection: Seq<char>,
}

impl View for StageEntry {
    type V = StageEntryView;

    open spec fn view(&self) -> StageEntryView {
        StageEntryView {
            id: self.id@,
            collection: self.collection@,
        }
    }
}

impl Dup for StageEntry {
    fn dup(&self) -> (r: Self) {
        StageEntry {
            id: self.id.clone(),
            collection: self.collection.clone(),
        }
    }
}

/// The steps that run in one stage.
pub struct StageList {
    pub entries: Vec<StageEntry>,
}

impl View for StageList {
    type V = Seq<StageEntryView>;

    open spec fn view(&self) -> Seq<StageEntryView> {
        views(self.entries@)
    }
}

/// How far a conversion has come: the names that are used, the steps in their collections, and the steps of each stage.
pub struct Conversion {
    pub used: NameSet,
    pub linters: Table<HkStep>,
    pub local_hooks: Table<HkStep>,
    pub custom_steps: Table<HkStep>,
    pub manual_steps: Table<HkStep>,
    pub stages: Table<StageList>,
}

/// What [`Conversion`] stands for.
pub struct ConversionView {
    pub used: Seq<Seq<char>>,
    pub linters: Seq<(Seq<char>, HkStepView)>,
    pub local_hooks: Seq<(Seq<char>, HkStepView)>,
    pub custom_steps: Seq<(Seq<char>, HkStepView)>,
    pub manual_steps: Seq<(Seq<char>, HkStepView)>,
    pub stages: Seq<(Seq<char>, Seq<StageEntryView>)>,
}

impl View for Conversion {
    type V = ConversionView;

    open spec fn view(&self) -> ConversionView {
        ConversionView {
            used: self.used@,
            linters: self.linters@,
            local_hooks: self.local_hooks@,
            custom_steps: self.custom_steps@,
            manual_steps: self.manual_steps@,
            stages: self.stages@,
        }
    }
}

/// The stages that a hook runs in: its own, else those of the configuration, else `pre-commit`.
pub open spec fn hook_stages(
    hook: PreCommitHookView,
    default_stages: Seq<Seq<char>>,
) -> Seq<Seq<char>> {
    if hook.stages.len() > 0 {
        hook.stages
    } else if default_stages.len() > 0 {
        default_stages
    } else {
        seq!["pre-commit"@]
    }
}

/// The collection that the step of a hook goes to.
pub open spec fn collection_of(
    stages: Seq<Seq<char>>,
    is_local: bool,
    is_known: bool,
    is_vendored: bool,
) -> Seq<char> {
    if stages.len() == 1 && stages[0] == "manual"@ {
        "manual_steps"@
    } else if is_local {
        "local_hooks"@
    } else if is_known || is_vendored {
        "linters"@
    } else {
        "custom_steps"@
    }
}

/// The steps of the stages with one more step in each of `stages`.
pub open spec fn staged(
    by_stage: Seq<(Seq<char>, Seq<StageEntryView>)>,
    stages: Seq<Seq<char>>,
    entry: StageEntryView,
) -> Seq<(Seq<char>, Seq<StageEntryView>)>
    decreases stages.len(),
{
    if stages.len() == 0 {
        by_stage
    } else {
        let before = staged(by_stage, stages.drop_last(), entry);
        let stage = stage_of(stages.last());
        let entries = match lookup(before, stage) {
            Some(e) => e,
            None => seq![],
        };
        put(before, stage, entries.push(entry))
    }
}

/// The step of a hook of a repository.
pub open spec fn converted_step(
    hook: PreCommitHookView,
    id: Seq<char>,
    repo: Seq<char>,
    rev: Option<Seq<char>>,
    vendored: Seq<(Seq<char>, VendoredRepoView)>,
) -> HkStepView {
    if repo == "local"@ {
        local_step(hook, id, quoted_entry(hook))
    } else {
        match builtin_for(hook.id) {
            Some(b) => known_step(hook, id, b),
            None => other_step(hook, id, repo, rev, vendored),
        }
    }
}

/// A conversion with one more hook.
pub open spec fn hook_converted(
    c: ConversionView,
    hook: PreCommitHookView,
    repo: Seq<char>,
    rev: Option<Seq<char>>,
    default_stages: Seq<Seq<char>>,
    vendored: Seq<(Seq<char>, VendoredRepoView)>,
) -> ConversionView {
    let id = unique_id(c.used, hook.id);
    let stages = hook_stages(hook, default_stages);
    let step = converted_step(hook, id, repo, rev, vendored);
    let collection = collection_of(
        stages,
        repo == "local"@,
        builtin_for(hook.id) is Some,
        has_key(vendored, repo),
    );
    ConversionView {
        used: c.used.push(id),
        manual_steps: if collection == "manual_steps"@ {
            put(c.manual_steps, id, step)
        } else {
            c.manual_steps
        },
        local_hooks: if collection == "local_hooks"@ {
            put(c.local_hooks, id, step)
        } else {
            c.local_hooks
        },
        linters: if collection == "linters"@ {
            put(c.linters, id, step)
        } else {
            c.linters
        },
        custom_steps: if collection == "custom_steps"@ {
            put(c.custom_steps, id, step)
        } else {
            c.custom_steps
        },
        stages: staged(c.stages, stages, StageEntryView { id, collection }),
    }
}

/// A conversion with all hooks of a repository.
pub open spec fn hooks_converted(
    c: ConversionView,
    hooks: Seq<PreCommitHookView>,
    repo: Seq<char>,
    rev: Option<Seq<char>>,
    default_stages: Seq<Seq<char>>,
    vendored: Seq<(Seq<char>, VendoredRepoView)>,
) -> ConversionView
    decreases hooks.len(),
{
    if hooks.len() == 0 {
        c
    } else {
        hook_converted(
            hooks_converted(c, hooks.drop_last(), repo, rev, default_stages, vendored),
            hooks.last(),
            repo,
            rev,
            default_stages,
            vendored,
        )
    }
}

/// A conversion with all hooks of all repositories, but for those of pre-commit itself.
pub open spec fn repos_converted(
    c: ConversionView,
    repos: Seq<PreCommitRepoView>,
    default_stages: Seq<Seq<char>>,
    vendored: Seq<(Seq<char>, VendoredRepoView)>,
) -> ConversionView
    decreases repos.len(),
{
    if repos.len() == 0 {
        c
    } else {
        let before = repos_converted(c, repos.drop_last(), default_stages, vendored);
        let r = repos.last();
        if r.repo == "meta"@ {
            before
        } else {
            hooks_converted(before, r.hooks, r.repo, r.rev, default_stages, vendored)
        }
    }
}

/// A conversion that has not begun.
pub open spec fn blank_conversion() -> ConversionView {
    ConversionView {
        used: seq![],
        linters: seq![],
        local_hooks: seq![],
        custom_steps: seq![],
        manual_steps: seq![],
        stages: seq![],
    }
}

/// How many hooks the repositories have together.
pub open spec fn hook_count(repos: Seq<PreCommitRepoView>) -> nat
    decreases repos.len(),
{
    if repos.len() == 0 {
        0
    } else {
        hook_count(repos.drop_last()) + repos.last().hooks.len()
    }
}

/// Every hook of the project itself can be converted.
pub open spec fn all_convertible(repos: Seq<PreCommitRepoView>) -> bool {
    forall|i: int, j: int|
        0 <= i < repos.len() && 0 <= j < repos[i].hooks.len() && repos[i].repo == "local"@
            ==> is_convertible(#[trigger] repos[i].hooks[j])
}

proof fn lemma_collection_names()
    ensures
        "manual_steps"@ != "local_hooks"@,
        "manual_steps"@ != "linters"@,
        "local_hooks"@ != "linters"@,
        "custom_steps"@ != "local_hooks"@,
        "custom_steps"@ != "linters"@,
        "custom_steps"@ != "manual_steps"@,
{
    reveal_strlit("manual_steps");
    reveal_strlit("local_hooks");
    reveal_strlit("linters");
    reveal_strlit("custom_steps");
    assert("manual_steps"@.len() == 12 && "local_hooks"@.len() == 11 && "linters"@.len() == 7
        && "custom_steps"@.len() == 12);
    assert("manual_steps"@[0] != "custom_steps"@[0]);
}

fn add_stage(by_stage: &mut Table<StageList>, stage: &str, entry: StageEntry)
    ensures
        final(by_stage)@ == put(
            old(by_stage)@,
            stage@,
            (match lookup(old(by_stage)@, stage@) {
                Some(e) => e,
                None => seq![],
            }).push(entry@),
        ),
{
    let ghost start = by_stage@;
    match by_stage.find(stage) {
        Some(i) => {
            let empty = StageList { entries: Vec::new() };
            let mut list = by_stage.replace_at(i, empty);
            list.entries.push(entry);
            by_stage.replace_at(i, list);
            assert(by_stage@ =~= put(start, stage@, list@));
        },
        None => {
            let ghost e = entry@;
            let mut entries: Vec<StageEntry> = Vec::new();
            entries.push(entry);
            assert(views(entries@) =~= Seq::<StageEntryView>::empty().push(e));
            by_stage.insert(stage.to_owned(), StageList { entries });
        },
    }
}

fn choose_collection(
    stages: &Vec<String>,
    is_local: bool,
    is_known: bool,
    is_vendored: bool,
) -> (r: &'static str)
    ensures
        r@ == collection_of(texts(stages@), is_local, is_known, is_vendored),
{
    let manual = if stages.len() == 1 {
        assert(texts(stages@)[0] == stages@[0]@);
        same(stages[0].as_str(), "manual")
    } else {
        false
    };
    if manual {
        "manual_steps"
    } else if is_local {
        "local_hooks"
    } else if is_known || is_vendored {
        "linters"
    } else {
        "custom_steps"
    }
}

fn choose_stages(hook: &PreCommitHook, default_stages: &Vec<String>) -> (r: Vec<String>)
    ensures
        texts(r@) == hook_stages(hook@, texts(default_stages@)),
{
    if hook.stages.len() > 0 {
        dup_list(&hook.stages)
    } else if default_stages.len() > 0 {
        dup_list(default_stages)
    } else {
        one("pre-commit")
    }
}

fn make_step(
    hook: &PreCommitHook,
    id: &str,
    repo: &PreCommitRepo,
    vendored: &Table<VendoredRepo>,
) -> (r: HkStep)
    requires
        repo@.repo == "local"@ ==> is_convertible(hook@),
    ensures
        r@ == converted_step(hook@, id@, repo@.repo, repo@.rev, vendored@),
{
    if same(repo.repo.as_str(), "local") {
        return PreCommit::convert_local_hook(hook, id);
    }
    match PreCommit::convert_known_hook(hook, id) {
        Some(step) => step,
        None => PreCommit::convert_unknown_hook(hook, id, repo, vendored),
    }
}

impl Conversion {
    fn new() -> (r: Self)
        ensures
            r@ == blank_conversion(),
    {
        Conversion {
            used: NameSet::new(),
            linters: Table::new(),
            local_hooks: Table::new(),
            custom_steps: Table::new(),
            manual_steps: Table::new(),
            stages: Table::new(),
        }
    }

    fn convert_hook(
        &mut self,
        hook: &PreCommitHook,
        repo: &PreCommitRepo,
        default_stages: &Vec<String>,
        vendored: &Table<VendoredRepo>,
    )
        requires
            repo@.repo == "local"@ ==> is_convertible(hook@),
            old(self)@.used.len() < usize::MAX - 2,
        ensures
            final(self)@ == hook_converted(
                old(self)@,
                hook@,
                repo@.repo,
                repo@.rev,
                texts(default_stages@),
                vendored@,
            ),
    {
        let ghost c = self@;
        proof {
            lemma_collection_names();
        }
        let id = PreCommit::make_unique_hook_id(hook.id.as_str(), &mut self.used);
        let stages = choose_stages(hook, default_stages);
        let step = make_step(hook, id.as_str(), repo, vendored);
        let collection = choose_collection(
            &stages,
            same(repo.repo.as_str(), "local"),
            PreCommit::is_known_hook(hook.id.as_str()),
            vendored.contains_key(repo.repo.as_str()),
        );
        if same(collection, "manual_steps") {
            self.manual_steps.insert(id.clone(), step);
        } else if same(collection, "local_hooks") {
            self.local_hooks.insert(id.clone(), step);
        } else if same(collection, "linters") {
            self.linters.insert(id.clone(), step);
        } else {
            self.custom_steps.insert(id.clone(), step);
        }
        let ghost entry = StageEntryView { id: id@, collection: collection@ };
        let ghost rest = self@;
        for i in 0..stages.len()
            invariant
                entry == (StageEntryView { id: id@, collection: collection@ }),
                rest.stages == c.stages,
                self@ == (ConversionView {
                    stages: staged(c.stages, texts(stages@).take(i as int), entry),
                    ..rest
                }),
        {
            add_stage(
                &mut self.stages,
                PreCommit::map_stage(stages[i].as_str()),
                StageEntry { id: id.clone(), collection: collection.to_owned() },
            );
        }
        assert(texts(stages@).take(stages@.len() as int) =~= texts(stages@));
    }

    fn convert_repo(
        &mut self,
        repo: &PreCommitRepo,
        default_stages: &Vec<String>,
        vendored: &Table<VendoredRepo>,
    )
        requires
            forall|j: int|
                0 <= j < repo@.hooks.len() && repo@.repo == "local"@ ==> is_convertible(
                    #[trigger] repo@.hooks[j],
                ),
            old(self)@.used.len() + repo@.hooks.len() < usize::MAX - 2,
        ensures
            final(self)@ == hooks_converted(
                old(self)@,
                repo@.hooks,
                repo@.repo,
                repo@.rev,
                texts(default_stages@),
                vendored@,
            ),
            final(self)@.used.len() == old(self)@.used.len() + repo@.hooks.len(),
    {
        let ghost c = self@;
        for i in 0..repo.hooks.len()
            invariant
                forall|j: int|
                    0 <= j < repo@.hooks.len() && repo@.repo == "local"@ ==> is_convertible(
                        #[trigger] repo@.hooks[j],
                    ),
                c.used.len() + repo@.hooks.len() < usize::MAX - 2,
                self@.used.len() == c.used.len() + i,
                self@ == hooks_converted(
                    c,
                    repo@.hooks.take(i as int),
                    repo@.repo,
                    repo@.rev,
                    texts(default_stages@),
                    vendored@,
                ),
        {
            assert(repo@.hooks[i as int] == repo.hooks@[i as int]@);
            self.convert_hook(&repo.hooks[i], repo, default_stages, vendored);
        }
        assert(repo@.hooks.take(repo.hooks@.len() as int) =~= repo@.hooks);
    }
}

proof fn lemma_hook_count_prefix(repos: Seq<PreCommitRepoView>, n: int)
    requires
        0 <= n <= repos.len(),
    ensures
        hook_count(repos.take(n)) <= hook_count(repos),
    decreases repos.len() - n,
{
    if n < repos.len() {
        lemma_hook_count_prefix(repos, n + 1);
    }
}

fn convert_repos(config: &PreCommitConfig, vendored: &Table<VendoredRepo>) -> (r: Conversion)
    requires
        all_convertible(config@.repos),
        hook_count(config@.repos) < usize::MAX - 2,
    ensures
        r@ == repos_converted(
            blank_conversion(),
            config@.repos,
            config@.default_stages,
            vendored@,
        ),
{
    let mut c = Conversion::new();
    for i in 0..config.repos.len()
        invariant
            all_convertible(config@.repos),
            hook_count(config@.repos) < usize::MAX - 2,
            c@.used.len() <= hook_count(config@.repos.take(i as int)),
            c@ == repos_converted(
                blank_conversion(),
                config@.repos.take(i as int),
                config@.default_stages,
                vendored@,
            ),
    {
        let repo = &config.repos[i];
        proof {
            assert(config@.repos[i as int] == repo@);
            lemma_hook_count_prefix(config@.repos, i + 1);
            assert forall|j: int|
                0 <= j < repo@.hooks.len() && repo@.repo == "local"@ implies is_convertible(
                #[trigger] repo@.hooks[j],
            ) by {
                assert(is_convertible(config@.repos[i as int].hooks[j]));
            }
        }
        if !same(repo.repo.as_str(), "meta") {
            c.convert_repo(repo, &config.default_stages, vendored);
        }
    }
    assert(config@.repos.take(config.repos@.len() as int) =~= config@.repos);
    c
}

/// The comments at the top of a configuration that was converted.
pub open spec fn header_notes(
    config: PreCommitConfigView,
    vendored: bool,
) -> Seq<Seq<char>> {
    lines_if(vendored, vendored_header()) + lines_if(config.fail_fast, fail_fast_header())
        + lines_if(config.default_language_version.len() > 0, language_header(config.default_language_version))
}

pub open spec fn vendored_header() -> Seq<Seq<char>> {
    seq![
        "TODO: Vendored repos detected"@,
        "The .hk/vendors directory is a compatibility layer for pre-commit projects."@,
        "For better performance and idiomatic hk usage, consider installing tools with mise:"@,
        "  mise use <tool>@<version>"@,
        "Then update your hooks to use the mise-installed tools directly."@,
        ""@,
    ]
}

pub open spec fn fail_fast_header() -> Seq<Seq<char>> {
    seq![
        "Migrated from pre-commit fail_fast setting"@,
        "Note: hk uses --fail-fast CLI flag instead of config setting"@,
        ""@,
    ]
}

/// The versions of languages, as the configuration gives them and as mise sets them.
pub open spec fn language_header(versions: Seq<(Seq<char>, Seq<char>)>) -> Seq<Seq<char>> {
    seq!["pre-commit default_language_version:"@] + versions.map_values(
        |v: (Seq<char>, Seq<char>)| "  "@ + v.0 + ": "@ + v.1,
    ) + seq![""@, "To set these versions with mise, run:"@] + versions.map_values(
        |v: (Seq<char>, Seq<char>)| "  mise use "@ + v.0 + "@"@ + plain_version(v.1),
    )
}

fn write_vendored_header() -> (r: Vec<String>)
    ensures
        texts(r@) == vendored_header(),
{
    let mut v: Vec<String> = Vec::new();
    v.push("TODO: Vendored repos detected".to_owned());
    v.push("The .hk/vendors directory is a compatibility layer for pre-commit projects.".to_owned());
    v.push(
        "For better performance and idiomatic hk usage, consider installing tools with mise:".to_owned(),
    );
    v.push("  mise use <tool>@<version>".to_owned());
    v.push("Then update your hooks to use the mise-installed tools directly.".to_owned());
    v.push("".to_owned());
    assert(texts(v@) =~= vendored_header());
    v
}

fn write_language_header(versions: &Table<String>) -> (r: Vec<String>)
    ensures
        texts(r@) == language_header(versions@),
{
    let mut out = one("pre-commit default_language_version:");
    let n: usize = versions.len();
    let ghost given = versions@.map_values(
        |v: (Seq<char>, Seq<char>)| "  "@ + v.0 + ": "@ + v.1,
    );
    let ghost start = texts(out@);
    assert(texts(out@) =~= start + given.take(0));
    for i in 0..n
        invariant
            n == versions@.len(),
            given == versions@.map_values(|v: (Seq<char>, Seq<char>)| "  "@ + v.0 + ": "@ + v.1),
            texts(out@) =~= start + given.take(i as int),
    {
        let mut s = "  ".to_owned();
        s.append(versions.key_at(i).as_str());
        s.append(": ");
        s.append(versions.value_at(i).as_str());
        assert(s@ == given[i as int]);
        out.push(s);
    }
    assert(given.take(n as int) =~= given);
    add_texts(&mut out, two("", "To set these versions with mise, run:"));
    let ghost wanted = versions@.map_values(
        |v: (Seq<char>, Seq<char>)| "  mise use "@ + v.0 + "@"@ + plain_version(v.1),
    );
    let ghost middle = texts(out@);
    assert(texts(out@) =~= middle + wanted.take(0));
    for i in 0..n
        invariant
            n == versions@.len(),
            wanted == versions@.map_values(
                |v: (Seq<char>, Seq<char>)| "  mise use "@ + v.0 + "@"@ + plain_version(v.1),
            ),
            texts(out@) =~= middle + wanted.take(i as int),
    {
        let mut s = "  mise use ".to_owned();
        s.append(versions.key_at(i).as_str());
        s.append("@");
        s.append(
            PreCommit::normalize_language_version(versions.value_at(i).as_str()).as_str(),
        );
        assert(s@ == wanted[i as int]);
        out.push(s);
    }
    assert(wanted.take(n as int) =~= wanted);
    out
}

fn write_header_notes(config: &PreCommitConfig, vendored: bool) -> (r: Vec<String>)
    ensures
        texts(r@) == header_notes(config@, vendored),
{
    let mut out: Vec<String> = Vec::new();
    add_if(&mut out, vendored, write_vendored_header());
    assert(texts(out@) =~= lines_if(vendored, vendored_header()));
    add_if(
        &mut out,
        config.fail_fast,
        three(
            "Migrated from pre-commit fail_fast setting",
            "Note: hk uses --fail-fast CLI flag instead of config setting",
            "",
        ),
    );
    add_if(
        &mut out,
        !config.default_language_version.is_empty(),
        write_language_header(&config.default_language_version),
    );
    out
}

/// The imports of the repositories that were copied into the project.
pub open spec fn vendor_imports(
    vendored: Seq<(Seq<char>, VendoredRepoView)>,
) -> Seq<VendorImportView> {
    vendored.map_values(
        |v: (Seq<char>, VendoredRepoView)|
            VendorImportView {
                name: import_name(v.1.url),
                path: ".hk/vendors/"@ + v.1.name + "/hooks.pkl"@,
            },
    )
}

/// The collections that are not empty, in a fixed order.
pub open spec fn filled_collections(
    c: ConversionView,
) -> Seq<(Seq<char>, Seq<(Seq<char>, HkStepView)>)> {
    let s0 = Seq::<(Seq<char>, Seq<(Seq<char>, HkStepView)>)>::empty();
    let s1 = if c.linters.len() > 0 {
        put(s0, "linters"@, c.linters)
    } else {
        s0
    };
    let s2 = if c.local_hooks.len() > 0 {
        put(s1, "local_hooks"@, c.local_hooks)
    } else {
        s1
    };
    let s3 = if c.custom_steps.len() > 0 {
        put(s2, "custom_steps"@, c.custom_steps)
    } else {
        s2
    };
    if c.manual_steps.len() > 0 {
        put(s3, "manual_steps"@, c.manual_steps)
    } else {
        s3
    }
}

/// The steps that `pre-commit` runs, with their collections.
pub open spec fn references(entries: Seq<StageEntryView>) -> Seq<(Seq<char>, Seq<char>)>
    decreases entries.len(),
{
    if entries.len() == 0 {
        seq![]
    } else {
        put(references(entries.drop_last()), entries.last().id, entries.last().collection)
    }
}

/// Some step of the stage stands in the collection.
pub open spec fn uses_collection(entries: Seq<StageEntryView>, collection: Seq<char>) -> bool {
    exists|i: int| 0 <= i < entries.len() && (#[trigger] entries[i]).collection == collection
}

/// The collections that a stage runs: those that some step of it stands in.
pub open spec fn stage_spreads(entries: Seq<StageEntryView>) -> Seq<Seq<char>> {
    lines_if(uses_collection(entries, "linters"@), seq!["linters"@]) + lines_if(
        uses_collection(entries, "local_hooks"@),
        seq!["local_hooks"@],
    ) + lines_if(uses_collection(entries, "custom_steps"@), seq!["custom_steps"@])
}

/// A hook that runs collections.
pub open spec fn spreading_hook(fix: Option<bool>, spreads: Seq<Seq<char>>) -> HkHookView {
    HkHookView { fix, stash: None, step_spreads: spreads, direct_steps: seq![] }
}

/// The hooks of the stages other than `manual`, which no event runs, and
/// `pre-commit`, which runs the shared steps by itself.
pub open spec fn stage_hooks(
    stages: Seq<(Seq<char>, Seq<StageEntryView>)>,
) -> Seq<(Seq<char>, HkHookView)>
    decreases stages.len(),
{
    if stages.len() == 0 {
        seq![]
    } else {
        let before = stage_hooks(stages.drop_last());
        let (stage, entries) = stages.last();
        if stage == "manual"@ || stage == "pre-commit"@ {
            before
        } else {
            put(before, stage, spreading_hook(None, stage_spreads(entries)))
        }
    }
}

/// The collections that `check` and `fix` run: all that are not empty.
pub open spec fn all_spreads(c: ConversionView) -> Seq<Seq<char>> {
    lines_if(c.linters.len() > 0, seq!["linters"@]) + lines_if(
        c.local_hooks.len() > 0,
        seq!["local_hooks"@],
    ) + lines_if(c.custom_steps.len() > 0, seq!["custom_steps"@]) + lines_if(
        c.manual_steps.len() > 0,
        seq!["manual_steps"@],
    )
}

/// The hooks of a converted configuration: those of the stages, and `check` and
/// `fix` where there are steps.
pub open spec fn converted_hooks(c: ConversionView) -> Seq<(Seq<char>, HkHookView)> {
    let hooks = stage_hooks(c.stages);
    if all_spreads(c).len() > 0 {
        put(
            put(hooks, "check"@, spreading_hook(None, all_spreads(c))),
            "fix"@,
            spreading_hook(Some(true), all_spreads(c)),
        )
    } else {
        hooks
    }
}

/// A configuration of pre-commit, converted.
pub open spec fn converted(
    config: PreCommitConfigView,
    vendored: Seq<(Seq<char>, VendoredRepoView)>,
    amends: Option<Seq<char>>,
    builtins: Option<Seq<char>>,
) -> HkConfigView {
    let c = repos_converted(blank_conversion(), config.repos, config.default_stages, vendored);
    HkConfigView {
        vendor_imports: vendor_imports(vendored),
        header_comments: header_notes(config, vendored.len() > 0),
        step_collections: filled_collections(c),
        step_references: match lookup(c.stages, "pre-commit"@) {
            Some(entries) => references(entries),
            None => seq![],
        },
        hooks: converted_hooks(c),
        ..blank_hk_config(amends, builtins)
    }
}

fn stage_uses(entries: &Vec<StageEntry>, collection: &str) -> (r: bool)
    ensures
        r == uses_collection(views(entries@), collection@),
{
    for i in 0..entries.len()
        invariant
            forall|k: int| 0 <= k < i ==> (#[trigger] views(entries@)[k]).collection != collection@,
    {
        assert(views(entries@)[i as int] == entries@[i as int]@);
        if same(entries[i].collection.as_str(), collection) {
            return true;
        }
    }
    false
}

fn new_hook(fix: Option<bool>, spreads: Vec<String>) -> (r: HkHook)
    ensures
        r@ == spreading_hook(fix, texts(spreads@)),
{
    HkHook { fix, stash: None, step_spreads: spreads, direct_steps: Table::new() }
}

fn list_stage_spreads(entries: &Vec<StageEntry>) -> (r: Vec<String>)
    ensures
        texts(r@) == stage_spreads(views(entries@)),
{
    let mut out: Vec<String> = Vec::new();
    add_if(&mut out, stage_uses(entries, "linters"), one("linters"));
    assert(texts(out@) =~= lines_if(uses_collection(views(entries@), "linters"@), seq!["linters"@]));
    add_if(&mut out, stage_uses(entries, "local_hooks"), one("local_hooks"));
    add_if(&mut out, stage_uses(entries, "custom_steps"), one("custom_steps"));
    out
}

fn list_stage_hooks(stages: &Table<StageList>) -> (r: Table<HkHook>)
    ensures
        r@ == stage_hooks(stages@),
{
    let mut hooks: Table<HkHook> = Table::new();
    let n: usize = stages.len();
    for i in 0..n
        invariant
            n == stages@.len(),
            hooks@ == stage_hooks(stages@.take(i as int)),
    {
        let stage = stages.key_at(i);
        if !same(stage.as_str(), "manual") && !same(stage.as_str(), "pre-commit") {
            let list = stages.value_at(i);
            hooks.insert(stage.clone(), new_hook(None, list_stage_spreads(&list.entries)));
        }
    }
    assert(stages@.take(n as int) =~= stages@);
    hooks
}

fn list_all_spreads(c: &Conversion) -> (r: Vec<String>)
    ensures
        texts(r@) == all_spreads(c@),
{
    let mut out: Vec<String> = Vec::new();
    add_if(&mut out, !c.linters.is_empty(), one("linters"));
    assert(texts(out@) =~= lines_if(c@.linters.len() > 0, seq!["linters"@]));
    add_if(&mut out, !c.local_hooks.is_empty(), one("local_hooks"));
    add_if(&mut out, !c.custom_steps.is_empty(), one("custom_steps"));
    add_if(&mut out, !c.manual_steps.is_empty(), one("manual_steps"));
    out
}

fn list_hooks(c: &Conversion) -> (r: Table<HkHook>)
    ensures
        r@ == converted_hooks(c@),
{
    let mut hooks = list_stage_hooks(&c.stages);
    let spreads = list_all_spreads(c);
    assert(texts(spreads@).len() == spreads@.len());
    if spreads.len() > 0 {
        hooks.insert("check".to_owned(), new_hook(None, dup_list(&spreads)));
        hooks.insert("fix".to_owned(), new_hook(Some(true), spreads));
    }
    hooks
}

fn list_references(stages: &Table<StageList>) -> (r: Table<String>)
    ensures
        r@ == (match lookup(stages@, "pre-commit"@) {
            Some(entries) => references(entries),
            None => seq![],
        }),
{
    let mut out: Table<String> = Table::new();
    if let Some(list) = stages.get("pre-commit") {
        for i in 0..list.entries.len()
            invariant
                out@ == references(views(list.entries@).take(i as int)),
        {
            assert(views(list.entries@)[i as int] == list.entries@[i as int]@);
            out.insert(list.entries[i].id.clone(), list.entries[i].collection.clone());
        }
        assert(views(list.entries@).take(list.entries@.len() as int) =~= views(list.entries@));
    }
    out
}

fn list_collections(
    linters: Table<HkStep>,
    local_hooks: Table<HkStep>,
    custom_steps: Table<HkStep>,
    manual_steps: Table<HkStep>,
) -> (r: Table<Table<HkStep>>)
    ensures
        forall|c: ConversionView|
            c.linters == linters@ && c.local_hooks == local_hooks@ && c.custom_steps == custom_steps@
                && c.manual_steps == manual_steps@ ==> r@ == #[trigger] filled_collections(c),
{
    let mut out: Table<Table<HkStep>> = Table::new();
    if !linters.is_empty() {
        out.insert("linters".to_owned(), linters);
    }
    if !local_hooks.is_empty() {
        out.insert("local_hooks".to_owned(), local_hooks);
    }
    if !custom_steps.is_empty() {
        out.insert("custom_steps".to_owned(), custom_steps);
    }
    if !manual_steps.is_empty() {
        out.insert("manual_steps".to_owned(), manual_steps);
    }
    out
}

fn list_vendor_imports(vendored: &Table<VendoredRepo>) -> (r: Vec<VendorImport>)
    ensures
        views(r@) == vendor_imports(vendored@),
{
    let mut out: Vec<VendorImport> = Vec::new();
    let n: usize = vendored.len();
    let ghost all = vendor_imports(vendored@);
    for i in 0..n
        invariant
            n == vendored@.len(),
            all == vendor_imports(vendored@),
            views(out@) =~= all.take(i as int),
    {
        let v = vendored.value_at(i);
        let mut path = ".hk/vendors/".to_owned();
        path.append(v.name.as_str());
        path.append("/hooks.pkl");
        let import = VendorImport {
            name: PreCommit::repo_url_to_import_name(v.url.as_str()),
            path,
        };
        assert(import@ == all[i as int]);
        out.push(import);
    }
    assert(views(out@) =~= all);
    out
}

impl PreCommit {
    /// Converts a configuration of pre-commit, where `vendored` holds, by their
    /// addresses, the repositories that were copied into the project.
    pub fn convert_config(
        config: &PreCommitConfig,
        vendored: &Table<VendoredRepo>,
        amends_config_pkl: Option<String>,
        builtins_pkl: Option<String>,
    ) -> (r: HkConfig)
        requires
            all_convertible(config@.repos),
            hook_count(config@.repos) < usize::MAX - 2,
        ensures
            r@ == converted(
                config@,
                vendored@,
                opt_text(amends_config_pkl),
                opt_text(builtins_pkl),
            ),
    {
        let mut hk = HkConfig::new(amends_config_pkl, builtins_pkl);
        hk.vendor_imports = list_vendor_imports(vendored);
        hk.header_comments = write_header_notes(config, !vendored.is_empty());
        let c = convert_repos(config, vendored);
        let ghost cv = c@;
        hk.step_references = list_references(&c.stages);
        hk.hooks = list_hooks(&c);
        let Conversion { used: _, linters, local_hooks, custom_steps, manual_steps, stages: _ } = c;
        hk.step_collections = list_collections(linters, local_hooks, custom_steps, manual_steps);
        assert(hk@.step_collections == filled_collections(cv));
        hk
    }

    /// The addresses of the Pkl files that a converted configuration amends and imports.
    pub fn pkl_addresses(&self) -> (r: (Option<String>, Option<String>))
        ensures
            match self@.hk_pkl_root {
                Some(root) => opt_text(r.0) == Some(root + "/Config.pkl"@) && opt_text(r.1) == Some(
                    root + "/Builtins.pkl"@,
                ),
                None => r.0 is None && r.1 is None,
            },
    {
        match &self.hk_pkl_root {
            Some(root) => (
                Some(both(root.as_str(), "/Config.pkl")),
                Some(both(root.as_str(), "/Builtins.pkl")),
            ),
            None => (None, None),
        }
    }

    /// Whether a conversion can begin: its result overwrites nothing that it
    /// must not, and there is something to convert.
    pub fn check_files(&self, output_present: bool, config_present: bool) -> (r: Result<(), String>)
        ensures
            error_of(r) == if output_present && !self@.force {
                Some(self@.output + " already exists, use --force to overwrite"@)
            } else if !config_present {
                Some(self@.config + " does not exist"@)
            } else {
                None
            },
    {
        if output_present && !self.force {
            return Err(both(self.output.as_str(), " already exists, use --force to overwrite"));
        }
        if !config_present {
            return Err(both(self.config.as_str(), " does not exist"));
        }
        Ok(())
    }
}

/// A conversion keeps as many names as it has converted hooks, all different.
pub proof fn law_converted_hooks_have_distinct_names(
    c: ConversionView,
    hooks: Seq<PreCommitHookView>,
    repo: Seq<char>,
    rev: Option<Seq<char>>,
    default_stages: Seq<Seq<char>>,
    vendored: Seq<(Seq<char>, VendoredRepoView)>,
)
    requires
        c.used.no_duplicates(),
    ensures
        ({
            let after = hooks_converted(c, hooks, repo, rev, default_stages, vendored);
            &&& after.used.no_duplicates()
            &&& after.used.len() == c.used.len() + hooks.len()
        }),
    decreases hooks.len(),
{
    if hooks.len() > 0 {
        law_converted_hooks_have_distinct_names(
            c,
            hooks.drop_last(),
            repo,
            rev,
            default_stages,
            vendored,
        );
        let before = hooks_converted(c, hooks.drop_last(), repo, rev, default_stages, vendored);
        law_unique_ids_are_new(before.used, hooks.last().id);
    }
}

/// How many hooks are converted: all but those of pre-commit itself.
pub open spec fn converted_count(repos: Seq<PreCommitRepoView>) -> nat
    decreases repos.len(),
{
    if repos.len() == 0 {
        0
    } else {
        converted_count(repos.drop_last()) + if repos.last().repo == "meta"@ {
            0
        } else {
            repos.last().hooks.len()
        }
    }
}

/// The names of the steps of all collections, collection by collection.
pub open spec fn step_names(
    collections: Seq<(Seq<char>, Seq<(Seq<char>, HkStepView)>)>,
) -> Seq<Seq<char>>
    decreases collections.len(),
{
    if collections.len() == 0 {
        seq![]
    } else {
        step_names(collections.drop_last()) + keys_of(collections.last().1)
    }
}

/// The names in the four collections, each as often as it occurs.
spec fn collected(c: ConversionView) -> Multiset<Seq<char>> {
    keys_of(c.linters).to_multiset().add(keys_of(c.local_hooks).to_multiset()).add(
        keys_of(c.custom_steps).to_multiset(),
    ).add(keys_of(c.manual_steps).to_multiset())
}

/// The collections hold the names that are used, each once.
spec fn is_consistent(c: ConversionView) -> bool {
    c.used.no_duplicates() && collected(c) == c.used.to_multiset()
}

proof fn lemma_new_key(e: Seq<(Seq<char>, HkStepView)>, id: Seq<char>, step: HkStepView)
    requires
        keys_of(e).to_multiset().count(id) == 0,
    ensures
        keys_of(put(e, id, step)).to_multiset() == keys_of(e).to_multiset().insert(id),
{
    broadcast use vstd::seq_lib::group_to_multiset_ensures;

    lemma_position(e, id);
    if has_key(e, id) {
        assert(keys_of(e)[position(e, id)] == id);
        assert(keys_of(e).contains(id));
    }
    assert(keys_of(e.push((id, step))) =~= keys_of(e).push(id));
}

proof fn lemma_hook_consistent(
    c: ConversionView,
    hook: PreCommitHookView,
    repo: Seq<char>,
    rev: Option<Seq<char>>,
    default_stages: Seq<Seq<char>>,
    vendored: Seq<(Seq<char>, VendoredRepoView)>,
)
    requires
        is_consistent(c),
    ensures
        is_consistent(hook_converted(c, hook, repo, rev, default_stages, vendored)),
{
    broadcast use vstd::seq_lib::group_to_multiset_ensures;
    broadcast use vstd::multiset::group_multiset_axioms;

    let id = unique_id(c.used, hook.id);
    let step = converted_step(hook, id, repo, rev, vendored);
    let after = hook_converted(c, hook, repo, rev, default_stages, vendored);
    law_unique_ids_are_new(c.used, hook.id);
    lemma_collection_names();
    assert(c.used.to_multiset().count(id) == 0);
    assert(collected(c).count(id) == 0);
    lemma_new_key(c.linters, id, step);
    lemma_new_key(c.local_hooks, id, step);
    lemma_new_key(c.custom_steps, id, step);
    lemma_new_key(c.manual_steps, id, step);
    assert(collected(after) =~= collected(c).insert(id));
    assert(after.used.to_multiset() =~= c.used.to_multiset().insert(id));
    assert(after.used.no_duplicates());
}

proof fn lemma_hooks_consistent(
    c: ConversionView,
    hooks: Seq<PreCommitHookView>,
    repo: Seq<char>,
    rev: Option<Seq<char>>,
    default_stages: Seq<Seq<char>>,
    vendored: Seq<(Seq<char>, VendoredRepoView)>,
)
    requires
        is_consistent(c),
    ensures
        is_consistent(hooks_converted(c, hooks, repo, rev, default_stages, vendored)),
    decreases hooks.len(),
{
    if hooks.len() > 0 {
        let init = hooks.drop_last();
        lemma_hooks_consistent(c, init, repo, rev, default_stages, vendored);
        lemma_hook_consistent(
            hooks_converted(c, init, repo, rev, default_stages, vendored),
            hooks.last(),
            repo,
            rev,
            default_stages,
            vendored,
        );
    }
}

proof fn lemma_repos_consistent(
    repos: Seq<PreCommitRepoView>,
    default_stages: Seq<Seq<char>>,
    vendored: Seq<(Seq<char>, VendoredRepoView)>,
)
    ensures
        ({
            let c = repos_converted(blank_conversion(), repos, default_stages, vendored);
            is_consistent(c) && c.used.len() == converted_count(repos)
        }),
    decreases repos.len(),
{
    if repos.len() == 0 {
        let c = blank_conversion();
        broadcast use vstd::seq_lib::group_to_multiset_ensures;
        broadcast use vstd::multiset::group_multiset_axioms;

        assert(keys_of(c.linters) =~= c.used);
        assert(collected(c) =~= c.used.to_multiset());
    } else {
        let init = repos.drop_last();
        let r = repos.last();
        lemma_repos_consistent(init, default_stages, vendored);
        let before = repos_converted(blank_conversion(), init, default_stages, vendored);
        if r.repo != "meta"@ {
            lemma_hooks_consistent(before, r.hooks, r.repo, r.rev, default_stages, vendored);
            law_converted_hooks_have_distinct_names(
                before,
                r.hooks,
                r.repo,
                r.rev,
                default_stages,
                vendored,
            );
        }
    }
}

proof fn lemma_add_collection(
    collections: Seq<(Seq<char>, Seq<(Seq<char>, HkStepView)>)>,
    name: Seq<char>,
    steps: Seq<(Seq<char>, HkStepView)>,
)
    requires
        forall|i: int| 0 <= i < collections.len() ==> (#[trigger] collections[i]).0 != name,
    ensures
        step_names(put(collections, name, steps)) == step_names(collections) + keys_of(steps),
        put(collections, name, steps) == collections.push((name, steps)),
{
    lemma_position(collections, name);
    assert(collections.push((name, steps)).drop_last() =~= collections);
}

proof fn lemma_filled_names(c: ConversionView)
    ensures
        step_names(filled_collections(c)).to_multiset() == collected(c),
{
    broadcast use vstd::multiset::group_multiset_axioms;

    lemma_collection_names();
    let s0 = Seq::<(Seq<char>, Seq<(Seq<char>, HkStepView)>)>::empty();
    let s1 = if c.linters.len() > 0 {
        put(s0, "linters"@, c.linters)
    } else {
        s0
    };
    let s2 = if c.local_hooks.len() > 0 {
        put(s1, "local_hooks"@, c.local_hooks)
    } else {
        s1
    };
    let s3 = if c.custom_steps.len() > 0 {
        put(s2, "custom_steps"@, c.custom_steps)
    } else {
        s2
    };
    let s4 = filled_collections(c);
    lemma_add_collection(s0, "linters"@, c.linters);
    lemma_add_collection(s1, "local_hooks"@, c.local_hooks);
    lemma_add_collection(s2, "custom_steps"@, c.custom_steps);
    lemma_add_collection(s3, "manual_steps"@, c.manual_steps);
    assert(step_names(s1) =~= keys_of(c.linters));
    assert(step_names(s2) =~= step_names(s1) + keys_of(c.local_hooks));
    assert(step_names(s3) =~= step_names(s2) + keys_of(c.custom_steps));
    assert(step_names(s4) =~= step_names(s3) + keys_of(c.manual_steps));
    vstd::seq_lib::lemma_multiset_commutative(step_names(s1), keys_of(c.local_hooks));
    vstd::seq_lib::lemma_multiset_commutative(step_names(s2), keys_of(c.custom_steps));
    vstd::seq_lib::lemma_multiset_commutative(step_names(s3), keys_of(c.manual_steps));
}

/// The steps of a converted configuration all have different names, over all collections,
/// and there are as many as hooks that were converted.
pub proof fn law_converted_steps_have_distinct_names(
    config: PreCommitConfigView,
    vendored: Seq<(Seq<char>, VendoredRepoView)>,
    amends: Option<Seq<char>>,
    builtins: Option<Seq<char>>,
)
    ensures
        ({
            let names = step_names(converted(config, vendored, amends, builtins).step_collections);
            &&& names.no_duplicates()
            &&& names.len() == converted_count(config.repos)
        }),
{
    broadcast use vstd::seq_lib::group_to_multiset_ensures;

    let c = repos_converted(blank_conversion(), config.repos, config.default_stages, vendored);
    lemma_repos_consistent(config.repos, config.default_stages, vendored);
    lemma_filled_names(c);
    c.used.lemma_multiset_has_no_duplicates();
    let names = step_names(filled_collections(c));
    names.lemma_multiset_has_no_duplicates_conv();
    assert(names.to_multiset().len() == c.used.to_multiset().len());
}

/// What a copied repository has for the entry of a hook.
pub struct EntryFacts {
    /// The entry is a file of the repository.
    pub present: bool,
    /// The Python module that the entry runs.
    pub module: Option<String>,
}

/// What [`EntryFacts`] stands for.
pub struct EntryFactsView {
    pub present: bool,
    pub module: Option<Seq<char>>,
}

impl View for EntryFacts {
    type V = EntryFactsView;

    open spec fn view(&self) -> EntryFactsView {
        EntryFactsView {
            present: self.present,
            module: opt_text(self.module),
        }
    }
}

/// The command that runs a Python module of a copied repository.
pub open spec fn run_python(name: Seq<char>, module: Seq<char>) -> Seq<char> {
    "[ -d .hk/vendors/"@ + name + "/.venv ] || (cd .hk/vendors/"@ + name + " && uv venv && uv pip install -e .) && .hk/vendors/"@ + name + "/.venv/bin/python -m "@ + module
}

fn write_run_python(name: &str, module: &str) -> (r: String)
    ensures
        r@ == run_python(name@, module@),
{
    let mut s = "[ -d .hk/vendors/".to_owned();
    s.append(name);
    s.append("/.venv ] || (cd .hk/vendors/");
    s.append(name);
    s.append(" && uv venv && uv pip install -e .) && .hk/vendors/");
    s.append(name);
    s.append("/.venv/bin/python -m ");
    s.append(module);
    s
}

/// The command that runs the Node package of a copied repository.
pub open spec fn run_node(name: Seq<char>, package: Seq<char>) -> Seq<char> {
    "[ -d .hk/vendors/"@ + name + "/node_modules ] || (cd .hk/vendors/"@ + name + " && npm install --silent --no-audit --no-fund) && npx --prefix .hk/vendors/"@ + name + " "@ + package
}

fn write_run_node(name: &str, package: &str) -> (r: String)
    ensures
        r@ == run_node(name@, package@),
{
    let mut s = "[ -d .hk/vendors/".to_owned();
    s.append(name);
    s.append("/node_modules ] || (cd .hk/vendors/");
    s.append(name);
    s.append(" && npm install --silent --no-audit --no-fund) && npx --prefix .hk/vendors/");
    s.append(name);
    s.append(" ");
    s.append(package);
    s
}

/// The command that runs a Go program of a copied repository.
pub open spec fn run_go(name: Seq<char>, program: Seq<char>) -> Seq<char> {
    "[ -d .hk/vendors/"@ + name + "/.gopath/bin ] || (export GOPATH=$(pwd)/.hk/vendors/"@ + name + "/.gopath && cd .hk/vendors/"@ + name + " && go install ./...) && .hk/vendors/"@ + name + "/.gopath/bin/"@ + program
}

fn write_run_go(name: &str, program: &str) -> (r: String)
    ensures
        r@ == run_go(name@, program@),
{
    let mut s = "[ -d .hk/vendors/".to_owned();
    s.append(name);
    s.append("/.gopath/bin ] || (export GOPATH=$(pwd)/.hk/vendors/");
    s.append(name);
    s.append("/.gopath && cd .hk/vendors/");
    s.append(name);
    s.append(" && go install ./...) && .hk/vendors/");
    s.append(name);
    s.append("/.gopath/bin/");
    s.append(program);
    s
}

/// The command that runs a program of the gem of a copied repository.
pub open spec fn run_ruby(name: Seq<char>, program: Seq<char>) -> Seq<char> {
    "[ -d .hk/vendors/"@ + name + "/.gem-home/bin ] || (cd .hk/vendors/"@ + name + " && gem build *.gemspec && gem install --no-document --install-dir $(pwd)/.gem-home --bindir $(pwd)/.gem-home/bin *.gem) && GEM_HOME=$(pwd)/.hk/vendors/"@ + name + "/.gem-home GEM_PATH= PATH=$(pwd)/.hk/vendors/"@ + name + "/.gem-home/bin:$PATH .hk/vendors/"@ + name + "/.gem-home/bin/"@ + program
}

fn write_run_ruby(name: &str, program: &str) -> (r: String)
    ensures
        r@ == run_ruby(name@, program@),
{
    let mut s = "[ -d .hk/vendors/".to_owned();
    s.append(name);
    s.append("/.gem-home/bin ] || (cd .hk/vendors/");
    s.append(name);
    s.append(" && gem build *.gemspec && gem install --no-document --install-dir $(pwd)/.gem-home --bindir $(pwd)/.gem-home/bin *.gem) && GEM_HOME=$(pwd)/.hk/vendors/");
    s.append(name);
    s.append("/.gem-home GEM_PATH= PATH=$(pwd)/.hk/vendors/");
    s.append(name);
    s.append("/.gem-home/bin:$PATH .hk/vendors/");
    s.append(name);
    s.append("/.gem-home/bin/");
    s.append(program);
    s
}

/// The command that runs a Swift program of a copied repository.
pub open spec fn run_swift(name: Seq<char>, program: Seq<char>) -> Seq<char> {
    "[ -d .hk/vendors/"@ + name + "/.swift_env/.build/release ] || (cd .hk/vendors/"@ + name + " && swift build -c release --build-path .swift_env/.build) && .hk/vendors/"@ + name + "/.swift_env/.build/release/"@ + program
}

fn write_run_swift(name: &str, program: &str) -> (r: String)
    ensures
        r@ == run_swift(name@, program@),
{
    let mut s = "[ -d .hk/vendors/".to_owned();
    s.append(name);
    s.append("/.swift_env/.build/release ] || (cd .hk/vendors/");
    s.append(name);
    s.append(" && swift build -c release --build-path .swift_env/.build) && .hk/vendors/");
    s.append(name);
    s.append("/.swift_env/.build/release/");
    s.append(program);
    s
}

/// A file of a copied repository.
pub open spec fn in_vendors(name: Seq<char>, entry: Seq<char>) -> Seq<char> {
    ".hk/vendors/"@ + name + "/"@ + entry
}

fn write_in_vendors(name: &str, entry: &str) -> (r: String)
    ensures
        r@ == in_vendors(name@, entry@),
{
    let mut s = ".hk/vendors/".to_owned();
    s.append(name);
    s.append("/");
    s.append(entry);
    s
}

/// What runs a hook of a copied repository, without the files it is given.
pub open spec fn vendor_body(
    hook: PreCommitHookDefinitionView,
    name: Seq<char>,
    facts: EntryFactsView,
    package: Option<Seq<char>>,
) -> Seq<char> {
    if hook.language == "pygrep"@ {
        "rg --color=never --pcre2 -n '"@ + hook.entry + "'"@
    } else if hook.language == "python"@ {
        if facts.present && ends(hook.entry, ".py"@) {
            "uv run "@ + in_vendors(name, hook.entry)
        } else {
            match facts.module {
                Some(module) => run_python(name, module),
                None => hook.entry,
            }
        }
    } else if hook.language == "node"@ {
        match package {
            Some(p) => run_node(name, p),
            None => hook.entry,
        }
    } else if hook.language == "golang"@ {
        run_go(name, split_on(hook.entry, '/').last())
    } else if hook.language == "ruby"@ {
        run_ruby(name, hook.entry)
    } else if hook.language == "swift"@ {
        run_swift(name, swift_call(hook.entry))
    } else if facts.present {
        in_vendors(name, hook.entry)
    } else {
        hook.entry
    }
}

/// A program and its arguments, with one space between.
pub open spec fn swift_call(entry: Seq<char>) -> Seq<char> {
    let parts = words_of(entry);
    if parts.len() == 0 {
        entry
    } else if parts.len() == 1 {
        parts[0]
    } else {
        parts[0] + " "@ + joined(parts.drop_first(), " "@)
    }
}

/// The hook has to be found among the programs of Python: it is no file and no
/// module of the copied repository.
pub open spec fn wants_python(hook: PreCommitHookDefinitionView, facts: EntryFactsView) -> bool {
    hook.language == "python"@ && !(facts.present && ends(hook.entry, ".py"@)) && facts.module is None
}

/// The command of a hook of a copied repository.
pub open spec fn vendor_command(
    hook: PreCommitHookDefinitionView,
    name: Seq<char>,
    facts: EntryFactsView,
    package: Option<Seq<char>>,
) -> Seq<char> {
    if hook.pass_filenames == Some(false) {
        vendor_body(hook, name, facts, package)
    } else {
        vendor_body(hook, name, facts, package) + " {{files}}"@
    }
}

/// The step of a hook of a copied repository, where `fixer` says whether it changes files.
pub open spec fn vendor_entry(
    hook: PreCommitHookDefinitionView,
    name: Seq<char>,
    facts: EntryFactsView,
    package: Option<Seq<char>>,
    fixer: bool,
) -> Seq<char> {
    let command = escaped(vendor_command(hook, name, facts, package));
    let head = replaced_char(hook.id, '-', "_"@) + " = new Config.Step {\n"@;
    let glob = match hook.files {
        Some(f) => "    glob = \""@ + escaped(f) + "\"\n"@,
        None => ""@,
    };
    let prefix = if wants_python(hook, facts) {
        "    prefix = \"mise x python@latest --\"\n"@
    } else {
        ""@
    };
    let fix = if fixer {
        "    fix = \""@ + command + "\"\n"@
    } else {
        ""@
    };
    head + glob + prefix + "    check = \""@ + command + "\"\n"@ + fix + "}\n\n"@
}

/// The steps of the hooks of a copied repository.
pub open spec fn vendor_entries(
    hooks: Seq<PreCommitHookDefinitionView>,
    name: Seq<char>,
    facts: Seq<EntryFactsView>,
    package: Option<Seq<char>>,
) -> Seq<char>
    decreases hooks.len(),
{
    if hooks.len() == 0 {
        seq![]
    } else {
        vendor_entries(hooks.drop_last(), name, facts, package) + vendor_entry(
            hooks.last(),
            name,
            facts[hooks.len() - 1],
            package,
            is_fixer(hooks.last().id, lower_name(hooks.last().name)),
        )
    }
}

/// A description in lower case.
pub open spec fn lower_name(name: Option<Seq<char>>) -> Option<Seq<char>> {
    match name {
        Some(n) => Some(lower_case(n)),
        None => None,
    }
}

/// The first lines of the Pkl file of a copied repository. The file stands three
/// directories down, so an address that leads out of the project leads further up.
pub open spec fn vendor_head(root: Option<Seq<char>>, url: Seq<char>) -> Seq<char> {
    let top = "// Auto-generated hooks from vendored repository\n"@ + "// Source: "@ + url + "\n\n"@;
    let address = match root {
        Some(r) => if starts(r, "../"@) {
            "../../../../"@ + after(r, "../"@.len() as int)
        } else {
            r
        },
        None => "package://github.com/jdx/hk/releases/download/v"@ + current_version() + "/hk@"@
            + current_version() + "#"@,
    };
    top + "import \""@ + address + "/Config.pkl\"\n\n"@
}

/// The Pkl file of a copied repository.
pub open spec fn vendor_text(
    root: Option<Seq<char>>,
    url: Seq<char>,
    hooks: Seq<PreCommitHookDefinitionView>,
    facts: Seq<EntryFactsView>,
    package: Option<Seq<char>>,
) -> Seq<char> {
    vendor_head(root, url) + vendor_entries(hooks, vendor_name(url), facts, package)
}

fn write_swift_call(entry: &str) -> (r: String)
    ensures
        r@ == swift_call(entry@),
{
    let parts = words(entry);
    assert(texts(parts@).len() == parts@.len());
    if parts.len() == 0 {
        return entry.to_owned();
    }
    assert(texts(parts@)[0] == parts@[0]@);
    if parts.len() == 1 {
        return parts[0].clone();
    }
    let mut rest: Vec<String> = Vec::new();
    for i in 1..parts.len()
        invariant
            texts(rest@) =~= texts(parts@).subrange(1, i as int),
    {
        rest.push(parts[i].clone());
    }
    assert(texts(rest@) =~= texts(parts@).drop_first());
    let mut s = parts[0].clone();
    s.append(" ");
    s.append(join(&rest, " ").as_str());
    s
}

fn last_part(entry: &str) -> (r: String)
    ensures
        r@ == split_on(entry@, '/').last(),
{
    let parts = split(entry, '/');
    let n: usize = parts.len();
    assert(texts(parts@).len() == n);
    assert(texts(parts@)[n - 1] == parts@[n - 1]@);
    parts[n - 1].clone()
}

fn write_vendor_body(
    hook: &PreCommitHookDefinition,
    name: &str,
    facts: &EntryFacts,
    package: &Option<String>,
) -> (r: String)
    ensures
        r@ == vendor_body(hook@, name@, facts@, opt_text(*package)),
{
    let entry = hook.entry.as_str();
    let language = hook.language.as_str();
    if same(language, "pygrep") {
        let mut s = "rg --color=never --pcre2 -n '".to_owned();
        s.append(entry);
        s.append("'");
        s
    } else if same(language, "python") {
        if facts.present && ends_with(entry, ".py") {
            both("uv run ", write_in_vendors(name, entry).as_str())
        } else {
            match &facts.module {
                Some(module) => write_run_python(name, module.as_str()),
                None => entry.to_owned(),
            }
        }
    } else if same(language, "node") {
        match package {
            Some(p) => write_run_node(name, p.as_str()),
            None => entry.to_owned(),
        }
    } else if same(language, "golang") {
        write_run_go(name, last_part(entry).as_str())
    } else if same(language, "ruby") {
        write_run_ruby(name, entry)
    } else if same(language, "swift") {
        write_run_swift(name, write_swift_call(entry).as_str())
    } else if facts.present {
        write_in_vendors(name, entry)
    } else {
        entry.to_owned()
    }
}

fn write_vendor_entry(
    hook: &PreCommitHookDefinition,
    name: &str,
    facts: &EntryFacts,
    package: &Option<String>,
    fixer: bool,
) -> (r: String)
    ensures
        r@ == vendor_entry(hook@, name@, facts@, opt_text(*package), fixer),
{
    let mut command = write_vendor_body(hook, name, facts, package);
    let pass = match hook.pass_filenames {
        Some(b) => b,
        None => true,
    };
    if pass {
        command.append(" {{files}}");
    }
    let command = PreCommit::escape_for_pkl(command.as_str());
    let mut s = replace_char(hook.id.as_str(), '-', "_");
    s.append(" = new Config.Step {\n");
    let glob = match &hook.files {
        Some(f) => {
            let mut g = "    glob = \"".to_owned();
            g.append(PreCommit::escape_for_pkl(f.as_str()).as_str());
            g.append("\"\n");
            g
        },
        None => "".to_owned(),
    };
    s.append(glob.as_str());
    let unplaced = same(hook.language.as_str(), "python") && !(facts.present && ends_with(
        hook.entry.as_str(),
        ".py",
    )) && facts.module.is_none();
    s.append(
        if unplaced {
            "    prefix = \"mise x python@latest --\"\n"
        } else {
            ""
        },
    );
    s.append("    check = \"");
    s.append(command.as_str());
    s.append("\"\n");
    let fix = if fixer {
        let mut f = "    fix = \"".to_owned();
        f.append(command.as_str());
        f.append("\"\n");
        f
    } else {
        "".to_owned()
    };
    s.append(fix.as_str());
    s.append("}\n\n");
    s
}

fn write_vendor_head(root: &Option<String>, url: &str) -> (r: String)
    ensures
        r@ == vendor_head(opt_text(*root), url@),
{
    let mut s = "// Auto-generated hooks from vendored repository\n".to_owned();
    s.append("// Source: ");
    s.append(url);
    s.append("\n\n");
    let address = match root {
        Some(r) => match strip_prefix(r.as_str(), "../") {
            Some(rest) => both("../../../../", rest.as_str()),
            None => r.clone(),
        },
        None => {
            let mut a = "package://github.com/jdx/hk/releases/download/v".to_owned();
            a.append(version());
            a.append("/hk@");
            a.append(version());
            a.append("#");
            a
        },
    };
    s.append("import \"");
    s.append(address.as_str());
    s.append("/Config.pkl\"\n\n");
    s
}

/// The module that a `setup.py` gives for a script: what stands between the name
/// of the script and the colon, behind the list of scripts.
pub open spec fn setup_module(content: Seq<char>, entry: Seq<char>) -> Option<Seq<char>> {
    match cut_at(content, "\"console_scripts\""@) {
        Some((_, rest)) => match cut_at("\"console_scripts\""@ + rest, entry + " = "@) {
            Some((_, found)) => match cut_at(found, "\""@) {
                Some((target, _)) => Some(split_on(target, ':')[0]),
                None => None,
            },
            None => None,
        },
        None => None,
    }
}

/// The Python module that an entry runs.
pub open spec fn python_module(
    has_hook_file: bool,
    setup: Option<Seq<char>>,
    entry: Seq<char>,
) -> Option<Seq<char>> {
    if has_hook_file {
        Some("pre_commit_hooks."@ + entry)
    } else {
        match setup {
            Some(content) => setup_module(content, entry),
            None => None,
        }
    }
}

fn find_setup_module(content: &str, entry: &str) -> (r: Option<String>)
    ensures
        opt_text(r) == setup_module(content@, entry@),
{
    match split_once(content, "\"console_scripts\"") {
        Some((_, rest)) => {
            let from = both("\"console_scripts\"", rest.as_str());
            match split_once(from.as_str(), both(entry, " = ").as_str()) {
                Some((_, found)) => match split_once(found.as_str(), "\"") {
                    Some((target, _)) => {
                        let parts = split(target.as_str(), ':');
                        assert(texts(parts@).len() == parts@.len());
                        assert(texts(parts@)[0] == parts@[0]@);
                        Some(parts[0].clone())
                    },
                    None => None,
                },
                None => None,
            }
        },
        None => None,
    }
}

/// The name of a Node package that its description gives.
pub open spec fn described_package(json: Result<JsonView, Seq<char>>) -> Option<Seq<char>> {
    match json {
        Ok(j) => j.field_text("name"@),
        Err(_) => None,
    }
}

/// The repository has to be copied into the project: it is not the project
/// itself, not pre-commit, none whose hooks are all built in, and some hook of it
/// is not built in.
pub open spec fn wants_vendoring(repo: PreCommitRepoView) -> bool {
    &&& repo.repo != "local"@
    &&& repo.repo != "meta"@
    &&& !is_standard_repo(repo.repo)
    &&& exists|i: int| 0 <= i < repo.hooks.len() && builtin_for((#[trigger] repo.hooks[i]).id) is None
}

/// The definition of a hook whose repository has none.
pub open spec fn basic_definition(hook: PreCommitHookView) -> PreCommitHookDefinitionView {
    PreCommitHookDefinitionView {
        id: hook.id,
        name: hook.name,
        entry: match hook.entry {
            Some(e) => e,
            None => hook.id,
        },
        language: match hook.language {
            Some(l) => l,
            None => "system"@,
        },
        files: hook.files,
        types: hook.types,
        pass_filenames: hook.pass_filenames,
    }
}

/// The arguments that git copies a repository with.
pub open spec fn clone_arguments(
    url: Seq<char>,
    rev: Option<Seq<char>>,
    dest: Seq<char>,
) -> Seq<Seq<char>> {
    seq!["clone"@, "--depth=1"@] + (match rev {
        Some(r) => seq!["--branch"@, r],
        None => seq![],
    }) + seq![url, dest]
}

impl PreCommit {
    /// The Pkl file of a copied repository, where `facts` say of each hook what
    /// the repository has for it and `package` is its Node package.
    pub fn generate_vendor_pkl(
        &self,
        repo_url: &str,
        hooks: &Vec<PreCommitHookDefinition>,
        facts: &Vec<EntryFacts>,
        package: &Option<String>,
    ) -> (r: String)
        requires
            facts@.len() == hooks@.len(),
        ensures
            r@ == vendor_text(
                self@.hk_pkl_root,
                repo_url@,
                views(hooks@),
                views(facts@),
                opt_text(*package),
            ),
    {
        let name = PreCommit::repo_url_to_vendor_name(repo_url);
        let mut s = write_vendor_head(&self.hk_pkl_root, repo_url);
        let ghost head = s@;
        assert(s@ =~= head + vendor_entries(
            views(hooks@).take(0),
            name@,
            views(facts@),
            opt_text(*package),
        ));
        for i in 0..hooks.len()
            invariant
                facts@.len() == hooks@.len(),
                s@ == head + vendor_entries(
                    views(hooks@).take(i as int),
                    name@,
                    views(facts@),
                    opt_text(*package),
                ),
        {
            let hook = &hooks[i];
            let fixer = PreCommit::is_fixer_hook(hook.id.as_str(), &hook.name);
            let step = write_vendor_entry(hook, name.as_str(), &facts[i], package, fixer);
            s.append(step.as_str());
            proof {
                let hs = views(hooks@);
                assert(hs.take(i + 1).drop_last() =~= hs.take(i as int));
                assert(hs.take(i + 1).last() == hook@);
                assert(views(facts@)[i as int] == facts@[i as int]@);
                assert(s@ =~= head + vendor_entries(
                    hs.take(i + 1),
                    name@,
                    views(facts@),
                    opt_text(*package),
                ));
            }
        }
        assert(views(hooks@).take(hooks@.len() as int) =~= views(hooks@));
        s
    }

    /// The Python module that an entry runs, where `has_hook_file` says whether
    /// the repository has a file for it among its hooks and `setup` is the text of
    /// its `setup.py`.
    pub fn find_python_module(has_hook_file: bool, setup: &Option<String>, entry: &str) -> (r: Option<
        String,
    >)
        ensures
            opt_text(r) == python_module(has_hook_file, opt_text(*setup), entry@),
    {
        if has_hook_file {
            return Some(both("pre_commit_hooks.", entry));
        }
        match setup {
            Some(content) => find_setup_module(content.as_str(), entry),
            None => None,
        }
    }

    /// The name of a Node package, from its description.
    pub fn node_package_of(json: &Result<Json, String>) -> (r: Option<String>)
        ensures
            opt_text(r) == described_package(json_result(*json)),
    {
        match json {
            Ok(j) => match j.get_str("name") {
                Some(n) => Some(n.to_owned()),
                None => None,
            },
            Err(_) => None,
        }
    }

    /// The name of a Node package, from the bytes of its `package.json`.
    pub fn find_node_package_name(package_json: &[u8]) -> (r: Option<String>)
        ensures
            opt_text(r) == described_package(parsed_json(package_json@)),
    {
        let json = parse_json(package_json);
        PreCommit::node_package_of(&json)
    }

    /// Whether a repository has to be copied into the project.
    pub fn needs_vendoring(repo: &PreCommitRepo) -> (r: bool)
        ensures
            r == wants_vendoring(repo@),
    {
        let url = repo.repo.as_str();
        if same(url, "local") || same(url, "meta") || PreCommit::is_github_precommit_hooks(url) {
            return false;
        }
        for i in 0..repo.hooks.len()
            invariant
                repo@.repo != "local"@ && repo@.repo != "meta"@ && !is_standard_repo(repo@.repo),
                forall|k: int|
                    0 <= k < i ==> builtin_for((#[trigger] repo@.hooks[k]).id) is Some,
        {
            assert(repo@.hooks[i as int] == repo.hooks@[i as int]@);
            if !PreCommit::is_known_hook(repo.hooks[i].id.as_str()) {
                assert(builtin_for(repo@.hooks[i as int].id) is None);
                return true;
            }
        }
        false
    }

    /// Definitions for the hooks of a repository that has none.
    pub fn basic_definitions(hooks: &Vec<PreCommitHook>) -> (r: Vec<PreCommitHookDefinition>)
        ensures
            views(r@) == views(hooks@).map_values(|h: PreCommitHookView| basic_definition(h)),
    {
        let mut out: Vec<PreCommitHookDefinition> = Vec::new();
        let ghost all = views(hooks@).map_values(|h: PreCommitHookView| basic_definition(h));
        for i in 0..hooks.len()
            invariant
                all == views(hooks@).map_values(|h: PreCommitHookView| basic_definition(h)),
                views(out@) =~= all.take(i as int),
        {
            let h = &hooks[i];
            let d = PreCommitHookDefinition {
                id: h.id.clone(),
                name: dup_opt(&h.name),
                entry: match &h.entry {
                    Some(e) => e.clone(),
                    None => h.id.clone(),
                },
                language: match &h.language {
                    Some(l) => l.clone(),
                    None => "system".to_owned(),
                },
                files: dup_opt(&h.files),
                types: dup_list(&h.types),
                pass_filenames: h.pass_filenames,
            };
            assert(d@ == all[i as int]);
            out.push(d);
        }
        assert(views(out@) =~= all);
        out
    }

    /// A repository that was copied, with the definitions that it has or else
    /// with basic ones.
    pub fn vendor(repo: &PreCommitRepo, definitions: Option<Vec<PreCommitHookDefinition>>) -> (r:
        VendoredRepo)
        ensures
            r@ == (VendoredRepoView {
                url: repo@.repo,
                name: vendor_name(repo@.repo),
                hooks: match definitions {
                    Some(d) => views(d@),
                    None => repo@.hooks.map_values(|h: PreCommitHookView| basic_definition(h)),
                },
            }),
    {
        let hooks = match definitions {
            Some(d) => d,
            None => PreCommit::basic_definitions(&repo.hooks),
        };
        VendoredRepo {
            url: repo.repo.clone(),
            name: PreCommit::repo_url_to_vendor_name(repo.repo.as_str()),
            hooks,
        }
    }

    /// The arguments that git copies a repository to `dest` with.
    pub fn clone_args(url: &str, rev: &Option<String>, dest: &str) -> (r: Result<Vec<String>, String>)
        ensures
            match r {
                Ok(args) => (starts(url@, "https://"@) || starts(url@, "git@"@)) && texts(args@)
                    == clone_arguments(url@, opt_text(*rev), dest@),
                Err(e) => !starts(url@, "https://"@) && !starts(url@, "git@"@) && e@
                    == "Unsupported repository URL format: "@ + url@,
            },
    {
        if starts_with(url, "https://") || starts_with(url, "git@") {
            let mut args = two("clone", "--depth=1");
            if let Some(r) = rev {
                add_texts(&mut args, two("--branch", r.as_str()));
            }
            add_texts(&mut args, two(url, dest));
            assert(texts(args@) =~= clone_arguments(url@, opt_text(*rev), dest@));
            Ok(args)
        } else {
            Err(both("Unsupported repository URL format: ", url))
        }
    }

    /// What is said where git failed to copy a repository.
    pub fn clone_error(url: &str, stderr: &[u8]) -> (r: String)
        ensures
            r@ == "Failed to clone repository "@ + url@ + ": "@ + lossy_text(stderr@),
    {
        let mut s = "Failed to clone repository ".to_owned();
        s.append(url);
        s.append(": ");
        s.append(from_utf8_lossy(stderr).as_str());
        s
    }

    /// Whether a file of a copied repository is made executable: a Python script,
    /// and outside the directory of hooks a shell script.
    pub fn is_script_file(name: &str, in_hooks_dir: bool) -> (r: bool)
        ensures
            r == ((name@.len() > 3 && ends(name@, ".py"@)) || (!in_hooks_dir && name@.len() > 3 && ends(
                name@,
                ".sh"@,
            ))),
    {
        let long = name.unicode_len() > 3;
        long && (ends_with(name, ".py") || (!in_hooks_dir && ends_with(name, ".sh")))
    }
}

/// Every hook of a copied repository becomes a step whose command is checked,
/// and the steps of more hooks stand behind those of fewer.
pub proof fn law_vendor_steps_are_appended(
    hooks: Seq<PreCommitHookDefinitionView>,
    name: Seq<char>,
    facts: Seq<EntryFactsView>,
    package: Option<Seq<char>>,
    n: int,
)
    requires
        0 <= n <= hooks.len(),
    ensures
        starts(
            vendor_entries(hooks, name, facts, package),
            vendor_entries(hooks.take(n), name, facts, package),
        ),
    decreases hooks.len() - n,
{
    let all = vendor_entries(hooks, name, facts, package);
    if n == hooks.len() {
        assert(hooks.take(n) =~= hooks);
        assert(all.take(all.len() as int) =~= all);
    } else {
        law_vendor_steps_are_appended(hooks, name, facts, package, n + 1);
        assert(hooks.take(n + 1).drop_last() =~= hooks.take(n));
        let more = vendor_entries(hooks.take(n + 1), name, facts, package);
        let few = vendor_entries(hooks.take(n), name, facts, package);
        assert(more.take(few.len() as int) =~= few);
        assert(all.take(few.len() as int) =~= all.take(more.len() as int).take(few.len() as int));
    }
}

/// A conversion from another manager of hooks.
pub enum MigrateCommands {
    PreCommit(PreCommit),
}

/// The options of conversions.
pub struct Migrate {
    pub command: MigrateCommands,
}

/// Whatever was converted, `check` and `fix` run all collections, and `fix` fixes.
pub proof fn law_check_and_fix_run_everything(c: ConversionView)
    requires
        all_spreads(c).len() > 0,
    ensures
        lookup(converted_hooks(c), "check"@) == Some(spreading_hook(None, all_spreads(c))),
        lookup(converted_hooks(c), "fix"@) == Some(spreading_hook(Some(true), all_spreads(c))),
{
    reveal_strlit("check");
    reveal_strlit("fix");
    assert("check"@.len() != "fix"@.len());
    let hooks = stage_hooks(c.stages);
    let check = spreading_hook(None, all_spreads(c));
    let fix = spreading_hook(Some(true), all_spreads(c));
    lemma_lookup_put(hooks, "check"@, check, "check"@);
    lemma_lookup_put(put(hooks, "check"@, check), "fix"@, fix, "check"@);
    lemma_lookup_put(put(hooks, "check"@, check), "fix"@, fix, "fix"@);
}

/// No event of git runs the steps that are run by hand: there is no hook for their
/// stage, and no hook of another stage runs their collection.
pub proof fn law_manual_steps_are_run_by_hand(
    stages: Seq<(Seq<char>, Seq<StageEntryView>)>,
    name: Seq<char>,
)
    ensures
        lookup(stage_hooks(stages), "manual"@) is None,
        lookup(stage_hooks(stages), name) matches Some(hook) ==> !hook.step_spreads.contains(
            "manual_steps"@,
        ),
    decreases stages.len(),
{
    lemma_collection_names();
    if stages.len() > 0 {
        law_manual_steps_are_run_by_hand(stages.drop_last(), name);
        let before = stage_hooks(stages.drop_last());
        let (stage, entries) = stages.last();
        let hook = spreading_hook(None, stage_spreads(entries));
        lemma_lookup_put(before, stage, hook, "manual"@);
        lemma_lookup_put(before, stage, hook, name);
        assert forall|i: int| 0 <= i < hook.step_spreads.len() implies hook.step_spreads[i]
            != "manual_steps"@ by {}
    }
}

/// What leaves out files of other types names no extension of a wanted type, neither
/// among the common files nor among the lock files.
pub proof fn law_wanted_types_are_not_left_out(
    exts: Seq<Seq<char>>,
    common: Seq<Seq<char>>,
    locks: Seq<(Seq<char>, Seq<char>)>,
    pattern: Seq<char>,
)
    ensures
        other_files(common, exts).contains(pattern) ==> exists|i: int|
            0 <= i < common.len() && !exts.contains(#[trigger] common[i]) && pattern == "\\."@ + common[i]
                + "$"@,
        other_locks(locks, exts).contains(pattern) ==> exists|i: int|
            0 <= i < locks.len() && !exts.contains((#[trigger] locks[i]).1) && pattern == locks[i].0
                + "\\."@ + locks[i].1 + "$"@,
    decreases common.len() + locks.len(),
{
    if common.len() > 0 {
        law_wanted_types_are_not_left_out(exts, common.drop_last(), locks, pattern);
        let before = other_files(common.drop_last(), exts);
        if other_files(common, exts).contains(pattern) {
            if before.contains(pattern) {
                let i = choose|i: int|
                    0 <= i < common.len() - 1 && !exts.contains(#[trigger] common.drop_last()[i]) && pattern
                        == "\\."@ + common.drop_last()[i] + "$"@;
                assert(common[i] == common.drop_last()[i]);
            } else {
                let all = other_files(common, exts);
                let k = choose|k: int| 0 <= k < all.len() && all[k] == pattern;
                if k < before.len() {
                    assert(before[k] == pattern);
                }
                assert(common[common.len() - 1] == common.last());
            }
        }
    } else if locks.len() > 0 {
        law_wanted_types_are_not_left_out(exts, common, locks.drop_last(), pattern);
        let before = other_locks(locks.drop_last(), exts);
        if other_locks(locks, exts).contains(pattern) {
            if before.contains(pattern) {
                let i = choose|i: int|
                    0 <= i < locks.len() - 1 && !exts.contains((#[trigger] locks.drop_last()[i]).1)
                        && pattern == locks.drop_last()[i].0 + "\\."@ + locks.drop_last()[i].1 + "$"@;
                assert(locks[i] == locks.drop_last()[i]);
            } else {
                let all = other_locks(locks, exts);
                let k = choose|k: int| 0 <= k < all.len() && all[k] == pattern;
                if k < before.len() {
                    assert(before[k] == pattern);
                }
                assert(locks[locks.len() - 1] == locks.last());
            }
        }
    }
}

/// A hook of the project itself keeps the pattern of its files; only where it has none
/// does the pattern come from its types.
pub proof fn law_local_hooks_keep_their_files(
    hook: PreCommitHookView,
    id: Seq<char>,
    quoted: Seq<char>,
)
    ensures
        hook.files is Some ==> local_step(hook, id, quoted).glob == hook.files,
        hook.files is None ==> local_step(hook, id, quoted).glob == types_glob(
            hook.types,
            hook.types_or,
        ),
        hook.files is None && hook.types.len() == 0 && hook.types_or.len() == 0 ==> local_step(
            hook,
            id,
            quoted,
        ).glob is None,
{
}

/// The files of a type are those with one of its extensions: a step for files of types has
/// a glob for the one extension, or names each of several, and none where a type is not
/// known. Types of which any will do come before those that all have to hold.
pub proof fn law_types_select_by_extension(
    types: Seq<Seq<char>>,
    types_or: Seq<Seq<char>>,
    name: Seq<char>,
    i: int,
)
    ensures
        types_or.len() > 0 ==> types_glob(types, types_or) == types_glob(types_or, seq![]),
        types_or.len() == 0 && 0 <= i < types.len() && type_extensions(types[i]) is None
            ==> types_glob(types, types_or) is None,
        type_extensions(name) matches Some(exts) ==> {
            &&& exts.len() == 1 ==> types_glob(seq![name], seq![]) == Some(
                seq!['*', '*', '/', '*', '.'] + exts[0],
            )
            &&& exts.len() > 1 ==> types_glob(seq![name], seq![]) is Some
        },
{
    reveal_strlit("**/*.");
    assert("**/*."@ =~= seq!['*', '*', '/', '*', '.']);
    if types_or.len() == 0 && 0 <= i < types.len() && type_extensions(types[i]) is None {
        lemma_unknown_type(types, i);
    }
    if let Some(exts) = type_extensions(name) {
        let one = seq![name];
        assert(one.drop_last() =~= Seq::<Seq<char>>::empty());
        reveal_with_fuel(all_extensions, 2);
        assert(Seq::<Seq<char>>::empty() + exts =~= exts);
        assert(all_extensions(one) == Some(exts));
    }
}

proof fn lemma_unknown_type(types: Seq<Seq<char>>, i: int)
    requires
        0 <= i < types.len(),
        type_extensions(types[i]) is None,
    ensures
        all_extensions(types) is None,
    decreases types.len(),
{
    if i < types.len() - 1 {
        assert(types.drop_last()[i] == types[i]);
        lemma_unknown_type(types.drop_last(), i);
    }
}

proof fn lemma_files_stand_behind(command: Seq<char>, by: Seq<char>)
    requires
        !has_text(command, " {{files}}"@),
    ensures
        replaced_text(command + " {{files}}"@, " {{files}}"@, by) == command + by,
{
    reveal_strlit(" {{files}}");
    let pat = " {{files}}"@;
    let s = command + pat;
    let n = command.len() as int;
    assert(s.subrange(n, n + pat.len()) =~= pat);
    assert(occurs_at(s, pat, n));
    assert forall|i: int| 0 <= i < n implies !occurs_at(s, pat, i) by {
        if occurs_at(s, pat, i) {
            if i + pat.len() <= n {
                assert(s.subrange(i, i + pat.len()) =~= command.subrange(i, i + pat.len()));
                assert(occurs_at(command, pat, i));
            } else {
                assert(s.subrange(i, i + pat.len())[n - i] == s[n]);
                assert(s[n] == pat[0]);
                assert(pat[n - i] == ' ');
            }
        }
    }
    lemma_first_occurrence(s, pat, 0, n);
    let rest = after(s, n + pat.len());
    assert(rest =~= Seq::<char>::empty());
    assert(!occurs_at(rest, pat, 0));
    reveal_with_fuel(find_from, 2);
    assert(find_from(rest, pat, 0) == -1);
    assert(replaced_text(rest, pat, by) == rest);
    assert(s.take(n) =~= command);
    assert(command + by + rest =~= command + by);
}

proof fn lemma_first_occurrence(s: Seq<char>, pat: Seq<char>, from: int, n: int)
    requires
        0 <= from <= n,
        occurs_at(s, pat, n),
        forall|i: int| from <= i < n ==> !occurs_at(s, pat, i),
    ensures
        find_from(s, pat, from) == n,
    decreases n - from,
{
    if from < n {
        lemma_first_occurrence(s, pat, from + 1, n);
    }
}

/// The command of a step is that of the hook, with its arguments behind it, and with the
/// files behind those unless the hook takes none. A hook without a command has to be
/// completed by hand.
pub proof fn law_local_hooks_run_their_command(
    hook: PreCommitHookView,
    id: Seq<char>,
    quoted: Seq<char>,
)
    ensures
        hook.entry is None ==> local_step(hook, id, quoted).check is None,
        hook.entry is Some && !has_text(
            local_command(hook.language, hook.entry->0, quoted),
            " {{files}}"@,
        ) ==> ({
            let command = local_command(hook.language, hook.entry->0, quoted);
            let arguments = if hook.args.len() > 0 {
                seq![' '] + joined(hook.args, seq![' '])
            } else {
                seq![]
            };
            let files = if hook.pass_filenames == Some(false) {
                seq![]
            } else {
                " {{files}}"@
            };
            local_step(hook, id, quoted).check == Some(command + arguments + files)
        }),
{
    reveal_strlit(" ");
    assert(" "@ =~= seq![' ']);
    if hook.entry is Some {
        let command = local_command(hook.language, hook.entry->0, quoted);
        let more = " "@ + joined(hook.args, " "@);
        if !has_text(command, " {{files}}"@) {
            lemma_files_stand_behind(command, more + " {{files}}"@);
            let none = Seq::<char>::empty();
            assert(command + none + " {{files}}"@ =~= command + " {{files}}"@);
            assert(command + none + none =~= command);
            assert(command + more + " {{files}}"@ =~= command + (more + " {{files}}"@));
            assert(command + more + none =~= command + " "@ + joined(hook.args, " "@));
        }
    }
}

/// What runs the entry of a hook follows its language: a pattern is searched for, an image
/// is run with the words behind it, a Python script is run by `uv`, and all else runs as
/// it stands.
pub proof fn law_languages_run_the_entry(
    language: Option<Seq<char>>,
    entry: Seq<char>,
    quoted: Seq<char>,
)
    ensures
        language is None ==> local_command(language, entry, quoted) == entry,
        language is Some && language->0 != "pygrep"@ && language->0 != "docker_image"@
            && language->0 != "python"@ ==> local_command(language, entry, quoted) == entry,
        language == Some("python"@) && ends(entry, ".py"@) ==> exists|a: Seq<char>|
            local_command(language, entry, quoted) == #[trigger] (a + entry) && a.len() > 0,
        language == Some("pygrep"@) ==> exists|a: Seq<char>|
            local_command(language, entry, quoted) == #[trigger] (a + quoted) && a.len() > 0,
        language == Some("docker_image"@) && words_of(entry).len() == 1 ==> exists|a: Seq<char>|
            local_command(language, entry, quoted) == #[trigger] (a + words_of(entry)[0]) && a.len()
                > 0,
        language == Some("docker_image"@) && words_of(entry).len() > 1 ==> exists|a: Seq<char>|
            local_command(language, entry, quoted) == #[trigger] (a + words_of(entry)[0] + " "@
                + joined(words_of(entry).drop_first(), " "@)) && a.len() > 0,
{
    reveal_strlit("pygrep");
    reveal_strlit("docker_image");
    reveal_strlit("python");
    reveal_strlit("uv run ");
    reveal_strlit("! grep -P ");
    reveal_strlit("docker run --rm -v $(pwd):/src -w /src ");
    assert("pygrep"@.len() == 6 && "python"@.len() == 6 && "docker_image"@.len() == 12);
    assert("pygrep"@[2] != "python"@[2]);
    assert("uv run "@.len() > 0);
    assert("! grep -P "@.len() > 0);
    assert("docker run --rm -v $(pwd):/src -w /src "@.len() > 0);
    if language == Some("python"@) && ends(entry, ".py"@) {
        assert(local_command(language, entry, quoted) == "uv run "@ + entry);
    }
    if language == Some("pygrep"@) {
        assert(local_command(language, entry, quoted) == "! grep -P "@ + quoted);
    }
    if language == Some("docker_image"@) && words_of(entry).len() >= 1 {
        let a = "docker run --rm -v $(pwd):/src -w /src "@;
        let w = words_of(entry);
        if w.len() == 1 {
            assert(local_command(language, entry, quoted) == a + w[0]);
        } else {
            assert(local_command(language, entry, quoted) == a + w[0] + " "@ + joined(
                w.drop_first(),
                " "@,
            ));
        }
    }
}

/// The step of a hook keeps what the hook says: that it runs alone, which files it leaves
/// out, and the name it had; and it never runs on the copies of repositories.
pub proof fn law_steps_keep_what_hooks_say(
    hook: PreCommitHookView,
    id: Seq<char>,
    repo: Seq<char>,
    rev: Option<Seq<char>>,
    vendored: Seq<(Seq<char>, VendoredRepoView)>,
)
    ensures
        ({
            let step = converted_step(hook, id, repo, rev, vendored);
            &&& step.exclusive == hook.require_serial
            &&& step.exclude is Some
            &&& hook.exclude is Some && hook.exclude->0.len() > 0 ==> starts(
                step.exclude->0,
                hook.exclude->0 + seq!['|'] + "^\\.hk/"@,
            )
            &&& hook.exclude is None || hook.exclude->0.len() == 0 ==> starts(
                step.exclude->0,
                "^\\.hk/"@,
            )
            &&& id != hook.id ==> step.comments.contains("Original ID: "@ + hook.id)
        }),
{
    reveal_strlit("|");
    assert("|"@ =~= seq!['|']);
    let step = converted_step(hook, id, repo, rev, vendored);
    let base = default_exclude(hook.exclude);
    assert(starts(step.exclude->0, base)) by {
        let more = types_exclude(hook.types, hook.types_or);
        assert(base.subrange(0, base.len() as int) =~= base);
        if more is Some {
            let all = base + "|"@ + more->0;
            assert(all.subrange(0, base.len() as int) =~= base);
        }
    }
    if id != hook.id {
        let note = "Original ID: "@ + hook.id;
        let comment = id_comment(id, hook.id);
        assert(comment[0] == note);
        assert(comment.contains(note));
        lemma_either(comment, text_note("Name: "@, hook.name), note);
        let origin = seq![
            "Repo: "@ + repo + (match rev {
                Some(r) => " @ "@ + r,
                None => seq![],
            }),
        ];
        lemma_either(origin, comment, note);
        lemma_either(origin + comment, text_note("Name: "@, hook.name), note);
    }
}

/// A hook becomes a builtin where there is one for it, else a step of the copied
/// repository that defines it, else a step that has to be completed by hand and names
/// where it came from. A hook of the project itself is none of these.
pub proof fn law_hooks_become_what_stands_for_them(
    hook: PreCommitHookView,
    id: Seq<char>,
    repo: Seq<char>,
    rev: Option<Seq<char>>,
    vendored: Seq<(Seq<char>, VendoredRepoView)>,
)
    ensures
        ({
            let step = converted_step(hook, id, repo, rev, vendored);
            let copied = lookup(vendored, repo) is Some && exists|i: int|
                0 <= i < lookup(vendored, repo)->0.hooks.len() && (
                #[trigger] lookup(vendored, repo)->0.hooks[i]).id == hook.id;
            &&& repo == "local"@ ==> step.builtin is None
            &&& repo != "local"@ ==> match builtin_for(hook.id) {
                Some(b) => step.builtin == Some("Builtins."@ + b) && step.check is None,
                None => if copied {
                    step.builtin == Some(
                        import_name(repo) + seq!['.'] + replaced_char(hook.id, '-', seq!['_']),
                    )
                } else {
                    step.builtin is None && step.check is None && exists|more: Seq<char>|
                        step.comments.contains(#[trigger] ("Repo: "@ + repo + more))
                },
            }
        }),
{
    reveal_strlit(".");
    reveal_strlit("_");
    assert("."@ =~= seq!['.']);
    assert("_"@ =~= seq!['_']);
    let step = converted_step(hook, id, repo, rev, vendored);
    let more = match rev {
        Some(r) => " @ "@ + r,
        None => seq![],
    };
    if repo != "local"@ && builtin_for(hook.id) is None && !(lookup(vendored, repo) is Some
        && defines(lookup(vendored, repo)->0.hooks, hook.id)) {
        assert(step == unknown_step(hook, id, repo, rev));
        assert(step.comments[0] == "Repo: "@ + repo + more);
        assert(step.comments.contains("Repo: "@ + repo + more));
    }
}

/// The arguments of a hook are not lost: they stand in a comment of its step where they
/// do not stand in its command.
pub proof fn law_arguments_are_not_lost(
    hook: PreCommitHookView,
    id: Seq<char>,
    repo: Seq<char>,
    rev: Option<Seq<char>>,
    vendored: Seq<(Seq<char>, VendoredRepoView)>,
)
    requires
        hook.args.len() > 0,
        repo != "local"@ || hook.entry is None,
    ensures
        exists|label: Seq<char>|
            converted_step(hook, id, repo, rev, vendored).properties_as_comments.contains(
                #[trigger] (label + joined(hook.args, " "@)),
            ),
{
    let text = joined(hook.args, " "@);
    let notes = converted_step(hook, id, repo, rev, vendored).properties_as_comments;
    if repo == "local"@ {
        let x = "Original args: "@ + text;
        let a = list_note("types (AND): "@, hook.types, ", "@) + list_note(
            "types (OR): "@,
            hook.types_or,
            ", "@,
        );
        let todo = seq![
            "TODO: Configure check and/or fix commands from local hook"@,
            "check = \"...\""@,
        ];
        let own = list_note("Original args: "@, hook.args, " "@);
        assert(own[0] == x);
        assert(own.contains(x));
        lemma_either(todo, own, x);
        lemma_either(a, todo + own, x);
        lemma_either(
            a + (todo + own),
            lines_if(hook.always_run, seq!["always_run was true in pre-commit"@]),
            x,
        );
        assert(notes.contains("Original args: "@ + text));
    } else if builtin_for(hook.id) is Some {
        let x = "args from pre-commit: "@ + text;
        lemma_known_notes_args(hook);
        assert(notes.contains(x));
    } else if lookup(vendored, repo) is Some && defines(lookup(vendored, repo)->0.hooks, hook.id) {
        let x = "args from pre-commit: "@ + text;
        let own = list_note("args from pre-commit: "@, hook.args, " "@);
        let a = text_note("files pattern from pre-commit: "@, hook.files) + list_note(
            "types (AND): "@,
            hook.types,
            ", "@,
        );
        assert(own[0] == x);
        assert(own.contains(x));
        lemma_either(a, own, x);
        assert(notes.contains(x));
    } else {
        let x = "Original args: "@ + text;
        let own = list_note("Original args: "@, hook.args, " "@);
        let a = text_note("files: "@, hook.files) + lines_if(
            hook.types.len() > 0 || hook.types_or.len() > 0,
            seq!["File type filtering needed"@],
        ) + seq![
            "TODO: Configure check and/or fix commands"@,
            "check = \"...\""@,
            "fix = \"...\""@,
        ];
        assert(own[0] == x);
        assert(own.contains(x));
        lemma_either(a, own, x);
        lemma_either(
            a + own,
            list_note("Dependencies: "@, hook.additional_dependencies, ", "@),
            x,
        );
        assert(notes.contains(x));
    }
}

proof fn lemma_known_notes_args(hook: PreCommitHookView)
    requires
        hook.args.len() > 0,
    ensures
        known_notes(hook).contains("args from pre-commit: "@ + joined(hook.args, " "@)),
{
    let x = "args from pre-commit: "@ + joined(hook.args, " "@);
    let a = (match hook.files {
        Some(f) => seq![
            "files pattern from pre-commit: "@ + f,
            "Note: Convert regex to glob pattern for hk"@,
        ],
        None => seq![],
    }) + list_note("types (AND): "@, hook.types, ", "@) + list_note(
        "types_or: "@,
        hook.types_or,
        ", "@,
    ) + list_note("exclude_types: "@, hook.exclude_types, ", "@) + lines_if(
        hook.always_run,
        seq![
            "always_run: true - runs even without matching files"@,
            "Note: hk doesn't have direct equivalent, hook will run on all files"@,
        ],
    ) + lines_if(
        hook.pass_filenames == Some(false),
        seq![
            "pass_filenames: false"@,
            "Note: Adjust check/fix commands to not use {{files}}"@,
        ],
    );
    let own = seq![x, "Consider updating check/fix commands with these args"@];
    let dependencies = lines_if(
        hook.additional_dependencies.len() > 0,
        seq![
            "additional_dependencies: "@ + joined(hook.additional_dependencies, ", "@),
            "Use mise x to install dependencies:"@,
            "prefix = \"mise x "@ + tool_for(hook.id) + "@latest --\""@,
        ],
    );
    let language = match hook.language_version {
        Some(v) => seq!["language_version: "@ + v, "Configure version in mise.toml"@],
        None => seq![],
    };
    assert(own[0] == x);
    assert(own.contains(x));
    lemma_either(a, own, x);
    lemma_either(a + own, dependencies, x);
    lemma_either(a + own + dependencies, language, x);
    assert(known_notes(hook) =~= a + own + dependencies + language);
}

/// The pattern of the files of a hook is not lost where a builtin or a copied repository
/// stands for it, nor where it has to be completed by hand: it stands in a comment.
pub proof fn law_file_patterns_are_not_lost(
    hook: PreCommitHookView,
    id: Seq<char>,
    repo: Seq<char>,
    rev: Option<Seq<char>>,
    vendored: Seq<(Seq<char>, VendoredRepoView)>,
)
    requires
        hook.files is Some,
        repo != "local"@,
    ensures
        exists|label: Seq<char>|
            converted_step(hook, id, repo, rev, vendored).properties_as_comments.contains(
                #[trigger] (label + hook.files->0),
            ),
{
    let notes = converted_step(hook, id, repo, rev, vendored).properties_as_comments;
    if builtin_for(hook.id) is Some || (lookup(vendored, repo) is Some && defines(
        lookup(vendored, repo)->0.hooks,
        hook.id,
    )) {
        assert(notes[0] == "files pattern from pre-commit: "@ + hook.files->0);
        assert(notes.contains("files pattern from pre-commit: "@ + hook.files->0));
    } else {
        assert(notes[0] == "files: "@ + hook.files->0);
        assert(notes.contains("files: "@ + hook.files->0));
    }
}

/// What a hook depends on is at hand when its step runs, at the version it asks for: the
/// first dependency, where it has one.
pub proof fn law_dependencies_are_at_hand(hook: PreCommitHookView, id: Seq<char>, quoted: Seq<char>)
    ensures
        ({
            let prefix = local_step(hook, id, quoted).prefix;
            &&& prefix is None <==> hook.additional_dependencies.len() == 0
            &&& hook.additional_dependencies.len() > 0 ==> {
                let dep = hook.additional_dependencies[0];
                let (package, version) = dependency(dep);
                &&& prefix == Some(
                    "mise x pipx:"@ + package + (if version is Some {
                        seq!['@'] + version->0
                    } else {
                        seq![]
                    }) + " --"@,
                )
                &&& version is None ==> package == dep
                &&& version is Some ==> exists|sign: Seq<char>|
                    dep == #[trigger] (package + sign + version->0)
            }
        }),
{
    reveal_strlit("@");
    assert("@"@ =~= seq!['@']);
    if hook.additional_dependencies.len() > 0 {
        let dep = hook.additional_dependencies[0];
        let (package, version) = dependency(dep);
        lemma_cut(dep, "=="@);
        lemma_cut(dep, ">="@);
        lemma_cut(dep, "<="@);
        lemma_cut(dep, ">"@);
        lemma_cut(dep, "<"@);
        match version {
            Some(v) => {
                assert("mise x pipx:"@ + package + "@"@ + v =~= "mise x pipx:"@ + package + (
                seq!['@'] + v));
            },
            None => {
                assert("mise x pipx:"@ + package + Seq::<char>::empty() =~= "mise x pipx:"@
                    + package);
            },
        }
    }
}

proof fn lemma_cut(s: Seq<char>, sign: Seq<char>)
    ensures
        cut_at(s, sign) matches Some((a, b)) ==> s == a + sign + b,
{
    crate::text::law_texts_are_cut_at_the_first(s, sign);
}

/// A hook joins exactly one collection, under its name; what stands in the collections
/// stays as it is.
pub proof fn law_hooks_join_their_collection(
    c: ConversionView,
    hook: PreCommitHookView,
    repo: Seq<char>,
    rev: Option<Seq<char>>,
    default_stages: Seq<Seq<char>>,
    vendored: Seq<(Seq<char>, VendoredRepoView)>,
    other: Seq<char>,
)
    ensures
        ({
            let after = hook_converted(c, hook, repo, rev, default_stages, vendored);
            let id = unique_id(c.used, hook.id);
            let step = Some(converted_step(hook, id, repo, rev, vendored));
            let stages = hook_stages(hook, default_stages);
            let by_hand = stages.len() == 1 && stages[0] == "manual"@;
            let known = builtin_for(hook.id) is Some || has_key(vendored, repo);
            &&& by_hand ==> lookup(after.manual_steps, id) == step
            &&& !by_hand && repo == "local"@ ==> lookup(after.local_hooks, id) == step
            &&& !by_hand && repo != "local"@ && known ==> lookup(after.linters, id) == step
            &&& !by_hand && repo != "local"@ && !known ==> lookup(after.custom_steps, id) == step
            &&& other != id ==> {
                &&& lookup(after.manual_steps, other) == lookup(c.manual_steps, other)
                &&& lookup(after.local_hooks, other) == lookup(c.local_hooks, other)
                &&& lookup(after.linters, other) == lookup(c.linters, other)
                &&& lookup(after.custom_steps, other) == lookup(c.custom_steps, other)
            }
        }),
{
    lemma_collection_names();
    let id = unique_id(c.used, hook.id);
    let step = converted_step(hook, id, repo, rev, vendored);
    lemma_lookup_put(c.manual_steps, id, step, id);
    lemma_lookup_put(c.local_hooks, id, step, id);
    lemma_lookup_put(c.linters, id, step, id);
    lemma_lookup_put(c.custom_steps, id, step, id);
    lemma_lookup_put(c.manual_steps, id, step, other);
    lemma_lookup_put(c.local_hooks, id, step, other);
    lemma_lookup_put(c.linters, id, step, other);
    lemma_lookup_put(c.custom_steps, id, step, other);
}

/// A hook runs in the stages that it names, else in those of the configuration, else
/// before a commit; the stages keep the hooks that they have.
pub proof fn law_hooks_run_in_their_stages(
    c: ConversionView,
    hook: PreCommitHookView,
    repo: Seq<char>,
    rev: Option<Seq<char>>,
    default_stages: Seq<Seq<char>>,
    vendored: Seq<(Seq<char>, VendoredRepoView)>,
    stage: Seq<char>,
)
    ensures
        ({
            let after = hook_converted(c, hook, repo, rev, default_stages, vendored);
            let id = unique_id(c.used, hook.id);
            let named = if hook.stages.len() > 0 {
                hook.stages
            } else {
                default_stages
            };
            &&& named.contains(stage) ==> runs_in(after.stages, stage_of(stage), id)
            &&& named.len() == 0 ==> runs_in(after.stages, "pre-commit"@, id)
            &&& forall|other: Seq<char>|
                runs_in(c.stages, stage, other) ==> #[trigger] runs_in(after.stages, stage, other)
        }),
{
    let id = unique_id(c.used, hook.id);
    let stages = hook_stages(hook, default_stages);
    let collection = collection_of(
        stages,
        repo == "local"@,
        builtin_for(hook.id) is Some,
        has_key(vendored, repo),
    );
    let entry = StageEntryView { id, collection };
    lemma_staged(c.stages, stages, entry, stage);
    if hook.stages.len() == 0 && default_stages.len() == 0 {
        assert(stages[0] == "pre-commit"@);
        assert(stages.contains("pre-commit"@));
        lemma_staged(c.stages, stages, entry, "pre-commit"@);
        lemma_stage_names();
        assert(stage_of("pre-commit"@) == "pre-commit"@);
    }
}

/// A step runs in a stage.
pub open spec fn runs_in(
    by_stage: Seq<(Seq<char>, Seq<StageEntryView>)>,
    stage: Seq<char>,
    id: Seq<char>,
) -> bool {
    lookup(by_stage, stage) is Some && exists|i: int|
        0 <= i < lookup(by_stage, stage)->0.len() && (#[trigger] lookup(by_stage, stage)->0[i]).id
            == id
}

proof fn lemma_stage_names()
    ensures
        "pre-commit"@ != "commit"@,
        "pre-commit"@ != "commit-msg"@,
        "pre-commit"@ != "push"@,
        "pre-commit"@ != "pre-push"@,
        "pre-commit"@ != "prepare-commit-msg"@,
        "pre-commit"@ != "manual"@,
{
    reveal_strlit("pre-commit");
    reveal_strlit("commit");
    reveal_strlit("commit-msg");
    reveal_strlit("push");
    reveal_strlit("pre-push");
    reveal_strlit("prepare-commit-msg");
    reveal_strlit("manual");
    assert("pre-commit"@[0] != "commit-msg"@[0]);
    assert("pre-commit"@.len() == 10 && "commit"@.len() == 6 && "push"@.len() == 4
        && "pre-push"@.len() == 8 && "prepare-commit-msg"@.len() == 18 && "manual"@.len() == 6);
}

proof fn lemma_staged(
    by_stage: Seq<(Seq<char>, Seq<StageEntryView>)>,
    stages: Seq<Seq<char>>,
    entry: StageEntryView,
    stage: Seq<char>,
)
    ensures
        stages.contains(stage) ==> runs_in(staged(by_stage, stages, entry), stage_of(stage), entry.id),
        forall|s: Seq<char>, other: Seq<char>|
            runs_in(by_stage, s, other) ==> #[trigger] runs_in(
                staged(by_stage, stages, entry),
                s,
                other,
            ),
    decreases stages.len(),
{
    if stages.len() > 0 {
        let init = stages.drop_last();
        lemma_staged(by_stage, init, entry, stage);
        let before = staged(by_stage, init, entry);
        let now = staged(by_stage, stages, entry);
        let last = stage_of(stages.last());
        let entries = match lookup(before, last) {
            Some(e) => e,
            None => seq![],
        };
        assert forall|s: Seq<char>, other: Seq<char>| runs_in(before, s, other) implies #[trigger] runs_in(
            now,
            s,
            other,
        ) by {
            lemma_lookup_put(before, last, entries.push(entry), s);
            let i = choose|i: int|
                0 <= i < lookup(before, s)->0.len() && (#[trigger] lookup(before, s)->0[i]).id
                    == other;
            if s == last {
                assert(lookup(now, s)->0[i] == lookup(before, s)->0[i]);
            }
        }
        lemma_lookup_put(before, last, entries.push(entry), last);
        assert(lookup(now, last)->0[entries.len() as int].id == entry.id);
        assert(runs_in(now, last, entry.id));
        lemma_last_or_before(stages, stage);
    }
}

/// The hook of a stage runs every collection that a step of the stage stands in, and no
/// other; before a commit and by hand there is no such hook.
pub proof fn law_stages_run_their_collections(
    stages: Seq<(Seq<char>, Seq<StageEntryView>)>,
    i: int,
    collection: Seq<char>,
)
    requires
        distinct(stages),
        0 <= i < stages.len(),
    ensures
        ({
            let (stage, entries) = stages[i];
            let hook = lookup(stage_hooks(stages), stage);
            let shared = collection == "linters"@ || collection == "local_hooks"@ || collection
                == "custom_steps"@;
            &&& hook is Some <==> stage != "manual"@ && stage != "pre-commit"@
            &&& hook is Some ==> (hook->0.step_spreads.contains(collection) <==> shared && exists|
                k: int,
            |
                0 <= k < entries.len() && (#[trigger] entries[k]).collection == collection)
        }),
    decreases stages.len(),
{
    lemma_collection_names();
    let init = stages.drop_last();
    let before = stage_hooks(init);
    let (stage, entries) = stages[i];
    let last = stages.last().0;
    let hook = spreading_hook(None, stage_spreads(stages.last().1));
    lemma_lookup_put(before, last, hook, stage);
    if i < init.len() {
        assert(distinct(init)) by {
            assert forall|a: int, b: int| 0 <= a < b < init.len() implies init[a].0 != init[b].0 by {
                assert(stages[a].0 != stages[b].0);
            }
        }
        law_stages_run_their_collections(init, i, collection);
        assert(init[i] == stages[i]);
        assert(stages[i].0 != stages[stages.len() - 1].0);
    } else {
        lemma_no_stage_yet(init, stage);
        let a = lines_if(uses_collection(entries, "linters"@), seq!["linters"@]);
        let b = lines_if(uses_collection(entries, "local_hooks"@), seq!["local_hooks"@]);
        let c = lines_if(uses_collection(entries, "custom_steps"@), seq!["custom_steps"@]);
        lemma_either(a, b, collection);
        lemma_either(a + b, c, collection);
        lemma_line_if(uses_collection(entries, "linters"@), "linters"@, collection);
        lemma_line_if(uses_collection(entries, "local_hooks"@), "local_hooks"@, collection);
        lemma_line_if(uses_collection(entries, "custom_steps"@), "custom_steps"@, collection);
    }
}

proof fn lemma_line_if(condition: bool, line: Seq<char>, x: Seq<char>)
    ensures
        lines_if(condition, seq![line]).contains(x) <==> condition && x == line,
{
    let one = seq![line];
    assert(one[0] == line);
    if one.contains(x) {
        let i = choose|i: int| 0 <= i < one.len() && one[i] == x;
    }
}

proof fn lemma_no_stage_yet(stages: Seq<(Seq<char>, Seq<StageEntryView>)>, stage: Seq<char>)
    requires
        forall|k: int| 0 <= k < stages.len() ==> (#[trigger] stages[k]).0 != stage,
    ensures
        lookup(stage_hooks(stages), stage) is None,
    decreases stages.len(),
{
    if stages.len() > 0 {
        let init = stages.drop_last();
        assert forall|k: int| 0 <= k < init.len() implies (#[trigger] init[k]).0 != stage by {
            assert(stages[k].0 != stage);
        }
        lemma_no_stage_yet(init, stage);
        assert(stages[stages.len() - 1].0 != stage);
        lemma_lookup_put(
            stage_hooks(init),
            stages.last().0,
            spreading_hook(None, stage_spreads(stages.last().1)),
            stage,
        );
    }
}

/// Before a commit every step of that stage runs, from the collection that it stands in.
pub proof fn law_commits_run_their_steps(entries: Seq<StageEntryView>, i: int)
    requires
        0 <= i < entries.len(),
        forall|k: int| i < k < entries.len() ==> (#[trigger] entries[k]).id != entries[i].id,
    ensures
        lookup(references(entries), entries[i].id) == Some(entries[i].collection),
    decreases entries.len(),
{
    let init = entries.drop_last();
    lemma_lookup_put(
        references(init),
        entries.last().id,
        entries.last().collection,
        entries[i].id,
    );
    if i < init.len() {
        assert(entries[entries.len() - 1].id != entries[i].id);
        assert forall|k: int| i < k < init.len() implies (#[trigger] init[k]).id != init[i].id by {
            assert(entries[k].id != entries[i].id);
        }
        law_commits_run_their_steps(init, i);
    }
}

/// A converted configuration holds each collection that is not empty under its name, and
/// no empty one.
pub proof fn law_collections_are_written(c: ConversionView)
    ensures
        ({
            let all = filled_collections(c);
            &&& lookup(all, "linters"@) == if c.linters.len() > 0 {
                Some(c.linters)
            } else {
                None
            }
            &&& lookup(all, "local_hooks"@) == if c.local_hooks.len() > 0 {
                Some(c.local_hooks)
            } else {
                None
            }
            &&& lookup(all, "custom_steps"@) == if c.custom_steps.len() > 0 {
                Some(c.custom_steps)
            } else {
                None
            }
            &&& lookup(all, "manual_steps"@) == if c.manual_steps.len() > 0 {
                Some(c.manual_steps)
            } else {
                None
            }
        }),
{
    lemma_collection_names();
    lemma_written(c, "linters"@);
    lemma_written(c, "local_hooks"@);
    lemma_written(c, "custom_steps"@);
    lemma_written(c, "manual_steps"@);
}

proof fn lemma_written(c: ConversionView, x: Seq<char>)
    ensures
        lookup(filled_collections(c), x) == if x == "manual_steps"@ && c.manual_steps.len() > 0 {
            Some(c.manual_steps)
        } else if x == "custom_steps"@ && c.custom_steps.len() > 0 {
            Some(c.custom_steps)
        } else if x == "local_hooks"@ && c.local_hooks.len() > 0 {
            Some(c.local_hooks)
        } else if x == "linters"@ && c.linters.len() > 0 {
            Some(c.linters)
        } else {
            None
        },
{
    let s0 = Seq::<(Seq<char>, Seq<(Seq<char>, HkStepView)>)>::empty();
    let s1 = if c.linters.len() > 0 {
        put(s0, "linters"@, c.linters)
    } else {
        s0
    };
    let s2 = if c.local_hooks.len() > 0 {
        put(s1, "local_hooks"@, c.local_hooks)
    } else {
        s1
    };
    let s3 = if c.custom_steps.len() > 0 {
        put(s2, "custom_steps"@, c.custom_steps)
    } else {
        s2
    };
    lemma_lookup_put(s0, "linters"@, c.linters, x);
    lemma_lookup_put(s1, "local_hooks"@, c.local_hooks, x);
    lemma_lookup_put(s2, "custom_steps"@, c.custom_steps, x);
    lemma_lookup_put(s3, "manual_steps"@, c.manual_steps, x);
}

/// A repository is copied into the project exactly where it is a foreign one, builtins do
/// not stand for all its hooks, and it is none of those that builtins are made for.
pub proof fn law_unknown_repositories_are_copied(repo: PreCommitRepoView)
    ensures
        wants_vendoring(repo) ==> repo.repo != "local"@ && repo.repo != "meta"@
            && !is_standard_repo(repo.repo) && exists|i: int|
            0 <= i < repo.hooks.len() && builtin_for((#[trigger] repo.hooks[i]).id) is None,
        repo.repo != "local"@ && repo.repo != "meta"@ && !is_standard_repo(repo.repo) && (exists|
            i: int,
        |
            0 <= i < repo.hooks.len() && builtin_for((#[trigger] repo.hooks[i]).id) is None)
            ==> wants_vendoring(repo),
{
}

/// The step of a hook of a copied repository checks with its command, fixes with it where
/// it is a fixer, and takes the files that the hook takes.
pub proof fn law_copied_hooks_keep_command_and_files(
    hook: PreCommitHookDefinitionView,
    name: Seq<char>,
    facts: EntryFactsView,
    package: Option<Seq<char>>,
    fixer: bool,
)
    ensures
        ({
            let text = vendor_entry(hook, name, facts, package, fixer);
            let command = escaped(vendor_command(hook, name, facts, package));
            &&& exists|a: Seq<char>, b: Seq<char>|
                text == #[trigger] (a + ("    check = \""@ + command + "\"\n"@) + b)
            &&& fixer ==> exists|a: Seq<char>, b: Seq<char>|
                text == #[trigger] (a + ("    fix = \""@ + command + "\"\n"@) + b)
            &&& hook.files is Some ==> exists|a: Seq<char>, b: Seq<char>|
                text == #[trigger] (a + ("    glob = \""@ + escaped(hook.files->0) + "\"\n"@) + b)
        }),
{
    let text = vendor_entry(hook, name, facts, package, fixer);
    let command = escaped(vendor_command(hook, name, facts, package));
    let head = replaced_char(hook.id, '-', "_"@) + " = new Config.Step {\n"@;
    let glob = match hook.files {
        Some(f) => "    glob = \""@ + escaped(f) + "\"\n"@,
        None => ""@,
    };
    let prefix = if wants_python(hook, facts) {
        "    prefix = \"mise x python@latest --\"\n"@
    } else {
        ""@
    };
    let check = "    check = \""@ + command + "\"\n"@;
    let fix = if fixer {
        "    fix = \""@ + command + "\"\n"@
    } else {
        ""@
    };
    assert(text =~= (head + glob + prefix) + check + (fix + "}\n\n"@));
    if fixer {
        assert(text =~= (head + glob + prefix + check) + fix + "}\n\n"@);
    }
    if hook.files is Some {
        assert(text =~= head + glob + (prefix + check + fix + "}\n\n"@));
    }
}

/// A hook of a copied repository is handed its files unless it takes none, and what runs
/// it follows its language: from the copy where its entry lies there.
pub proof fn law_copied_hooks_run_from_the_copy(
    hook: PreCommitHookDefinitionView,
    name: Seq<char>,
    facts: EntryFactsView,
    package: Option<Seq<char>>,
)
    ensures
        hook.pass_filenames == Some(false) ==> vendor_command(hook, name, facts, package)
            == vendor_body(hook, name, facts, package),
        hook.pass_filenames != Some(false) ==> vendor_command(hook, name, facts, package)
            == vendor_body(hook, name, facts, package) + " {{files}}"@,
        hook.language == "system"@ || hook.language == "script"@ ==> vendor_body(
            hook,
            name,
            facts,
            package,
        ) == (if facts.present {
            ".hk/vendors/"@ + name + "/"@ + hook.entry
        } else {
            hook.entry
        }),
        hook.language == "python"@ && facts.present && ends(hook.entry, ".py"@) ==> ends(
            vendor_body(hook, name, facts, package),
            ".hk/vendors/"@ + name + "/"@ + hook.entry,
        ),
        hook.language == "python"@ && !(facts.present && ends(hook.entry, ".py"@))
            && facts.module is Some ==> ends(
            vendor_body(hook, name, facts, package),
            facts.module->0,
        ),
        hook.language == "node"@ && package is Some ==> ends(
            vendor_body(hook, name, facts, package),
            package->0,
        ),
        hook.language == "ruby"@ ==> ends(vendor_body(hook, name, facts, package), hook.entry),
{
    lemma_languages();
    let body = vendor_body(hook, name, facts, package);
    if hook.language == "python"@ && facts.present && ends(hook.entry, ".py"@) {
        lemma_ends("uv run "@, in_vendors(name, hook.entry));
    }
    if hook.language == "python"@ && !(facts.present && ends(hook.entry, ".py"@))
        && facts.module is Some {
        let m = facts.module->0;
        lemma_ends(body.take(body.len() - m.len()), m);
        assert(body =~= body.take(body.len() - m.len()) + m);
    }
    if hook.language == "node"@ && package is Some {
        let p = package->0;
        assert(body =~= body.take(body.len() - p.len()) + p);
        lemma_ends(body.take(body.len() - p.len()), p);
    }
    if hook.language == "ruby"@ {
        let e = hook.entry;
        assert(body =~= body.take(body.len() - e.len()) + e);
        lemma_ends(body.take(body.len() - e.len()), e);
    }
}

proof fn lemma_ends(a: Seq<char>, b: Seq<char>)
    ensures
        ends(a + b, b),
{
    assert((a + b).subrange(a.len() as int, (a + b).len() as int) =~= b);
}

proof fn lemma_languages()
    ensures
        "system"@ != "pygrep"@,
        "system"@ != "python"@,
        "system"@ != "node"@,
        "system"@ != "golang"@,
        "system"@ != "ruby"@,
        "system"@ != "swift"@,
        "script"@ != "pygrep"@,
        "script"@ != "python"@,
        "script"@ != "node"@,
        "script"@ != "golang"@,
        "script"@ != "ruby"@,
        "script"@ != "swift"@,
        "python"@ != "pygrep"@,
        "node"@ != "pygrep"@,
        "node"@ != "python"@,
        "ruby"@ != "pygrep"@,
        "ruby"@ != "python"@,
        "ruby"@ != "node"@,
        "ruby"@ != "golang"@,
{
    reveal_strlit("system");
    reveal_strlit("script");
    reveal_strlit("pygrep");
    reveal_strlit("python");
    reveal_strlit("node");
    reveal_strlit("golang");
    reveal_strlit("ruby");
    reveal_strlit("swift");
    assert("system"@.len() == 6 && "script"@.len() == 6 && "pygrep"@.len() == 6 && "python"@.len()
        == 6 && "node"@.len() == 4 && "golang"@.len() == 6 && "ruby"@.len() == 4 && "swift"@.len()
        == 5);
    assert("system"@[0] != "pygrep"@[0] && "system"@[0] != "python"@[0] && "system"@[0]
        != "golang"@[0]);
    assert("script"@[0] != "pygrep"@[0] && "script"@[0] != "python"@[0] && "script"@[0]
        != "golang"@[0]);
    assert("python"@[2] != "pygrep"@[2]);
    assert("ruby"@[0] != "node"@[0]);
}

/// What hooks say of types, of running always and of versions is kept as comments.
pub proof fn law_what_cannot_be_said_is_noted(hook: PreCommitHookView)
    ensures
        ({
            let notes = known_notes(hook);
            &&& hook.types.len() > 0 ==> notes.contains("types (AND): "@ + joined(hook.types, ", "@))
            &&& hook.types_or.len() > 0 ==> notes.contains("types_or: "@ + joined(hook.types_or, ", "@))
            &&& hook.exclude_types.len() > 0 ==> notes.contains(
                "exclude_types: "@ + joined(hook.exclude_types, ", "@),
            )
            &&& hook.always_run ==> notes.contains(
                "always_run: true - runs even without matching files"@,
            )
            &&& hook.pass_filenames == Some(false) ==> notes.contains("pass_filenames: false"@)
            &&& hook.additional_dependencies.len() > 0 ==> notes.contains(
                "additional_dependencies: "@ + joined(hook.additional_dependencies, ", "@),
            )
            &&& hook.language_version matches Some(v) ==> notes.contains("language_version: "@ + v)
        }),
{
    let a: Seq<Seq<char>> = match hook.files {
        Some(f) => seq![
            "files pattern from pre-commit: "@ + f,
            "Note: Convert regex to glob pattern for hk"@,
        ],
        None => seq![],
    };
    let b = list_note("types (AND): "@, hook.types, ", "@);
    let c = list_note("types_or: "@, hook.types_or, ", "@);
    let d = list_note("exclude_types: "@, hook.exclude_types, ", "@);
    let e = lines_if(
        hook.always_run,
        seq![
            "always_run: true - runs even without matching files"@,
            "Note: hk doesn't have direct equivalent, hook will run on all files"@,
        ],
    );
    let f = lines_if(
        hook.pass_filenames == Some(false),
        seq![
            "pass_filenames: false"@,
            "Note: Adjust check/fix commands to not use {{files}}"@,
        ],
    );
    let g = lines_if(
        hook.args.len() > 0,
        seq![
            "args from pre-commit: "@ + joined(hook.args, " "@),
            "Consider updating check/fix commands with these args"@,
        ],
    );
    let h = lines_if(
        hook.additional_dependencies.len() > 0,
        seq![
            "additional_dependencies: "@ + joined(hook.additional_dependencies, ", "@),
            "Use mise x to install dependencies:"@,
            "prefix = \"mise x "@ + tool_for(hook.id) + "@latest --\""@,
        ],
    );
    let k: Seq<Seq<char>> = match hook.language_version {
        Some(v) => seq!["language_version: "@ + v, "Configure version in mise.toml"@],
        None => seq![],
    };
    let ab = a + b;
    let abc = ab + c;
    let abcd = abc + d;
    let abcde = abcd + e;
    let to_f = abcde + f;
    let to_g = to_f + g;
    let to_h = to_g + h;
    let notes = to_h + k;
    assert(notes == known_notes(hook));
    if hook.types.len() > 0 {
        let x = "types (AND): "@ + joined(hook.types, ", "@);
        assert(b[0] == x);
        lemma_either(a, b, x);
        lemma_either(ab, c, x);
        lemma_either(abc, d, x);
        lemma_either(abcd, e, x);
        lemma_either(abcde, f, x);
        lemma_either(to_f, g, x);
        lemma_either(to_g, h, x);
        lemma_either(to_h, k, x);
    }
    if hook.types_or.len() > 0 {
        let x = "types_or: "@ + joined(hook.types_or, ", "@);
        assert(c[0] == x);
        lemma_either(ab, c, x);
        lemma_either(abc, d, x);
        lemma_either(abcd, e, x);
        lemma_either(abcde, f, x);
        lemma_either(to_f, g, x);
        lemma_either(to_g, h, x);
        lemma_either(to_h, k, x);
    }
    if hook.exclude_types.len() > 0 {
        let x = "exclude_types: "@ + joined(hook.exclude_types, ", "@);
        assert(d[0] == x);
        lemma_either(abc, d, x);
        lemma_either(abcd, e, x);
        lemma_either(abcde, f, x);
        lemma_either(to_f, g, x);
        lemma_either(to_g, h, x);
        lemma_either(to_h, k, x);
    }
    if hook.always_run {
        let x = "always_run: true - runs even without matching files"@;
        assert(e[0] == x);
        lemma_either(abcd, e, x);
        lemma_either(abcde, f, x);
        lemma_either(to_f, g, x);
        lemma_either(to_g, h, x);
        lemma_either(to_h, k, x);
    }
    if hook.pass_filenames == Some(false) {
        let x = "pass_filenames: false"@;
        assert(f[0] == x);
        lemma_either(abcde, f, x);
        lemma_either(to_f, g, x);
        lemma_either(to_g, h, x);
        lemma_either(to_h, k, x);
    }
    if hook.additional_dependencies.len() > 0 {
        let x = "additional_dependencies: "@ + joined(hook.additional_dependencies, ", "@);
        assert(h[0] == x);
        lemma_either(to_g, h, x);
        lemma_either(to_h, k, x);
    }
    if hook.language_version is Some {
        let x = "language_version: "@ + hook.language_version->0;
        assert(k[0] == x);
        lemma_either(to_h, k, x);
    }
}

/// A version of Python is named without the language, any other as it is.
pub proof fn law_versions_lose_their_language(version: Seq<char>)
    ensures
        plain_version("python"@ + version) == version,
        !starts(version, "python"@) ==> plain_version(version) == version,
{
    reveal_strlit("python");
    let all = "python"@ + version;
    assert("python"@.len() == 6);
    assert(all.subrange(0, 6) =~= "python"@);
    assert(after(all, 6) =~= version);
}

/// Every version of a language is told as it is given, and as mise sets it.
pub proof fn law_language_versions_are_told(versions: Seq<(Seq<char>, Seq<char>)>, i: int)
    requires
        0 <= i < versions.len(),
    ensures
        language_header(versions).contains("  "@ + versions[i].0 + ": "@ + versions[i].1),
        language_header(versions).contains(
            "  mise use "@ + versions[i].0 + "@"@ + plain_version(versions[i].1),
        ),
{
    let a = seq!["pre-commit default_language_version:"@];
    let b = versions.map_values(|v: (Seq<char>, Seq<char>)| "  "@ + v.0 + ": "@ + v.1);
    let c = seq![""@, "To set these versions with mise, run:"@];
    let d = versions.map_values(
        |v: (Seq<char>, Seq<char>)| "  mise use "@ + v.0 + "@"@ + plain_version(v.1),
    );
    assert(b.contains(b[i]));
    assert(d.contains(d[i]));
    lemma_either(a, b, b[i]);
    lemma_either(a + b, c, b[i]);
    lemma_either(a + b + c, d, b[i]);
    lemma_either(a + b + c, d, d[i]);
}

/// A copied repository comes from its address to its place, at the revision that is asked
/// for.
pub proof fn law_repositories_are_copied_from_their_address(
    url: Seq<char>,
    rev: Option<Seq<char>>,
    dest: Seq<char>,
)
    ensures
        ({
            let args = clone_arguments(url, rev, dest);
            &&& args[0] == "clone"@
            &&& args.last() == dest && args[args.len() - 2] == url
            &&& rev matches Some(r) ==> args[args.len() - 4] == "--branch"@ && args[args.len() - 3] == r
            &&& rev is None ==> args.len() == 4
        }),
{
}

/// A hook whose repository does not define it is taken for what it says itself; by itself
/// its name is its command, run by the system.
pub proof fn law_undefined_hooks_define_themselves(hook: PreCommitHookView)
    ensures
        ({
            let d = basic_definition(hook);
            &&& d.id == hook.id && d.name == hook.name && d.files == hook.files && d.types
                == hook.types && d.pass_filenames == hook.pass_filenames
            &&& hook.entry is Some ==> d.entry == hook.entry->0
            &&& hook.entry is None ==> d.entry == hook.id
            &&& hook.language is Some ==> d.language == hook.language->0
            &&& hook.language is None ==> d.language == "system"@
        }),
{
}

/// A hook with a file of its own runs it; else the list of scripts names its module, which
/// stands there behind the name of the script.
pub proof fn law_modules_come_from_the_list_of_scripts(setup: Option<Seq<char>>, entry: Seq<char>)
    ensures
        python_module(true, setup, entry) == Some("pre_commit_hooks."@ + entry),
        python_module(false, None, entry) is None,
        setup matches Some(content) ==> {
            &&& python_module(false, setup, entry) matches Some(m) ==> has_text(
                content,
                "\"console_scripts\""@,
            ) && has_text("\"console_scripts\""@ + content, entry + " = "@ + m) && !m.contains(':')
            &&& !has_text(content, "\"console_scripts\""@) ==> python_module(false, setup, entry) is None
        },
{
    if let Some(content) = setup {
        let sign = "\"console_scripts\""@;
        crate::text::law_texts_are_cut_at_the_first(content, sign);
        if let Some((before, rest)) = cut_at(content, sign) {
            crate::text::lemma_stands_between(before, sign, rest);
            let list = sign + rest;
            crate::text::law_texts_are_cut_at_the_first(list, entry + " = "@);
            if let Some((x, found)) = cut_at(list, entry + " = "@) {
                crate::text::law_texts_are_cut_at_the_first(found, "\""@);
                if let Some((target, y)) = cut_at(found, "\""@) {
                    let m = split_on(target, ':')[0];
                    crate::text::law_pieces_join_to_the_text(target, ':');
                    lemma_first_piece_begins(target);
                    let z = target.skip(m.len() as int);
                    let key = entry + " = "@;
                    let all = sign + content;
                    assert(target =~= m + z);
                    assert(found =~= m + (z + "\""@ + y));
                    assert(list =~= x + (key + m) + (z + "\""@ + y));
                    crate::text::lemma_stands_between(x, key + m, z + "\""@ + y);
                    assert(has_text(list, key + m));
                    assert(content =~= before + list);
                    crate::text::lemma_stands_between(sign + before, list, seq![]);
                    assert(sign + before + list + seq![] =~= all);
                    crate::text::lemma_stands_within(all, list, key + m);
                }
            }
        }
    }
}

proof fn lemma_first_piece_begins(s: Seq<char>)
    ensures
        split_on(s, ':').len() > 0,
        split_on(s, ':')[0].len() <= s.len(),
        s.take(split_on(s, ':')[0].len() as int) == split_on(s, ':')[0],
    decreases s.len(),
{
    if s.len() == 0 {
        assert(s.take(0) =~= seq![]);
    } else {
        let init = s.drop_last();
        lemma_first_piece_begins(init);
        let before = split_on(init, ':');
        let first = before[0];
        assert(s.take(first.len() as int) =~= init.take(first.len() as int));
        if s.last() != ':' && before.len() == 1 {
            crate::text::law_pieces_join_to_the_text(init, ':');
            assert(joined(before, seq![':']) == before[0]);
            assert(s.take(s.len() as int) =~= init.push(s.last()));
        }
    }
}

/// The Pkl file of a copied repository names where it comes from, and imports from the
/// given place, seen from where the file stands.
pub proof fn law_copies_name_their_source(root: Seq<char>, url: Seq<char>)
    ensures
        has_text(vendor_head(None, url), url),
        has_text(vendor_head(Some(root), url), url),
        !starts(root, "../"@) ==> has_text(
            vendor_head(Some(root), url),
            "import \""@ + root + "/Config.pkl\"\n"@,
        ),
        has_text(
            vendor_head(Some("../"@ + root), url),
            "import \""@ + ("../../../../"@ + root) + "/Config.pkl\"\n"@,
        ),
        has_text(vendor_head(None, url), current_version()),
{
    let package = "package://github.com/jdx/hk/releases/download/v"@ + current_version() + "/hk@"@
        + current_version() + "#"@;
    lemma_vendor_head(None, url, package);
    crate::text::lemma_five_stand(
        "package://github.com/jdx/hk/releases/download/v"@,
        current_version(),
        "/hk@"@,
        current_version(),
        "#"@,
    );
    crate::text::lemma_three_stand("import \""@, package, "/Config.pkl\"\n"@);
    let line = "import \""@ + package + "/Config.pkl\"\n"@;
    crate::text::lemma_stands_within(line, package, current_version());
    crate::text::lemma_stands_within(vendor_head(None, url), line, current_version());
    let up = "../"@ + root;
    assert(up.subrange(0, "../"@.len() as int) =~= "../"@);
    assert(after(up, "../"@.len() as int) =~= root);
    lemma_vendor_head(Some(up), url, "../../../../"@ + root);
    if starts(root, "../"@) {
        lemma_vendor_head(
            Some(root),
            url,
            "../../../../"@ + after(root, "../"@.len() as int),
        );
    } else {
        lemma_vendor_head(Some(root), url, root);
    }
}

proof fn lemma_vendor_head(root: Option<Seq<char>>, url: Seq<char>, address: Seq<char>)
    requires
        address == match root {
            Some(r) => if starts(r, "../"@) {
                "../../../../"@ + after(r, "../"@.len() as int)
            } else {
                r
            },
            None => "package://github.com/jdx/hk/releases/download/v"@ + current_version() + "/hk@"@
                + current_version() + "#"@,
        },
    ensures
        has_text(vendor_head(root, url), url),
        has_text(vendor_head(root, url), "import \""@ + address + "/Config.pkl\"\n"@),
{
    let head = vendor_head(root, url);
    let top = "// Auto-generated hooks from vendored repository\n"@ + "// Source: "@ + url + "\n\n"@;
    crate::text::lemma_three_stand(
        "// Auto-generated hooks from vendored repository\n"@ + "// Source: "@,
        url,
        "\n\n"@,
    );
    let line = "import \""@ + address + "/Config.pkl\"\n"@;
    reveal_strlit("/Config.pkl\"\n\n");
    reveal_strlit("/Config.pkl\"\n");
    assert("/Config.pkl\"\n\n"@ =~= "/Config.pkl\"\n"@ + seq!['\n']);
    assert(head =~= top + line + seq!['\n']);
    crate::text::lemma_three_stand(top, line, seq!['\n']);
    crate::text::lemma_stands_within(head, top, url);
}

/// A copied repository has the name of its owner and its own; how its address begins and
/// whether it ends in a separator do not matter.
pub proof fn law_copies_are_named_after_owner_and_name(
    base: Seq<char>,
    owner: Seq<char>,
    name: Seq<char>,
)
    requires
        !owner.contains('/') && !owner.contains('.'),
        !name.contains('/') && !name.contains('.'),
        name.len() > 0,
    ensures
        vendor_name(base + "/"@ + owner + "/"@ + name) == owner + "-"@ + name,
        vendor_name(base + "/"@ + owner + "/"@ + name + "/"@) == owner + "-"@ + name,
{
    reveal_strlit("/");
    assert("/"@ =~= seq!['/']);
    reveal_strlit("-");
    assert("-"@ =~= seq!['-']);
    let url = base + "/"@ + owner + "/"@ + name;
    assert(url.last() == name.last());
    assert(name[name.len() - 1] != '/');
    assert((url + "/"@).drop_last() =~= url);
    assert((url + "/"@).last() == '/');
    assert(stripped_end(url, '/') == url);
    assert(stripped_end(url + "/"@, '/') == url);
    crate::paths::lemma_split_at_separator(base + "/"@ + owner, name);
    crate::paths::lemma_split_at_separator(base, owner);
    lemma_whole_piece(owner);
    lemma_whole_piece(name);
    crate::text::law_pieces_join_to_the_text(base, '/');
    let parts = split_on(url, '/');
    assert(parts =~= split_on(base, '/') + seq![owner] + seq![name]);
    let last = parts.subrange(parts.len() - 2, parts.len() as int);
    assert(last =~= seq![owner, name]);
    assert(last.drop_last() =~= seq![owner]);
    assert(joined(seq![owner], "-"@) == owner);
    assert(last.last() == name);
    assert(joined(last, "-"@) == joined(last.drop_last(), "-"@) + "-"@ + last.last());
    lemma_nothing_replaced(owner);
    lemma_nothing_replaced(name);
    lemma_nothing_replaced("-"@);
    crate::text::law_characters_are_replaced_one_by_one(owner + "-"@, name, 'x', '.', "-"@);
    crate::text::law_characters_are_replaced_one_by_one(owner, "-"@, 'x', '.', "-"@);
}

proof fn lemma_whole_piece(s: Seq<char>)
    requires
        !s.contains('/'),
    ensures
        split_on(s, '/') == seq![s],
    decreases s.len(),
{
    if s.len() == 0 {
        assert(s =~= seq![]);
    } else {
        let init = s.drop_last();
        assert(!init.contains('/')) by {
            if init.contains('/') {
                let i = choose|i: int| 0 <= i < init.len() && init[i] == '/';
                assert(s[i] == '/');
            }
        }
        lemma_whole_piece(init);
        assert(s[s.len() - 1] != '/');
        assert(init.push(s.last()) =~= s);
        assert(split_on(s, '/') =~= seq![s]);
    }
}

proof fn lemma_nothing_replaced(s: Seq<char>)
    requires
        !s.contains('.'),
    ensures
        replaced_char(s, '.', "-"@) == s,
    decreases s.len(),
{
    if s.len() == 0 {
        assert(s =~= seq![]);
    } else {
        let init = s.drop_last();
        assert(!init.contains('.')) by {
            if init.contains('.') {
                let i = choose|i: int| 0 <= i < init.len() && init[i] == '.';
                assert(s[i] == '.');
            }
        }
        lemma_nothing_replaced(init);
        assert(s[s.len() - 1] != '.');
        assert(init + seq![s.last()] =~= s);
    }
}

/// Whether a hook changes files is told by its name before its description.
pub proof fn law_names_tell_before_descriptions(id: Seq<char>, lower: Option<Seq<char>>, rest: Seq<char>)
    ensures
        is_fixer("fix-"@ + rest, lower) && is_fixer("remove-"@ + rest, lower) && is_fixer(
            "format-"@ + rest,
            lower,
        ) && is_fixer("sort-"@ + rest, lower),
        !is_fixer("check-"@ + rest, lower) && !is_fixer("detect-"@ + rest, lower) && !is_fixer(
            "validate-"@ + rest,
            lower,
        ),
        lower is None && !names_fixer(id) ==> !is_fixer(id, lower),
        lower is Some && !names_fixer(id) && !names_checker(id) ==> (is_fixer(id, lower)
            <==> describes_fixer(lower->0)),
{
    lemma_begins("fix-"@, rest);
    lemma_begins("remove-"@, rest);
    lemma_begins("format-"@, rest);
    lemma_begins("sort-"@, rest);
    lemma_begins("check-"@, rest);
    lemma_begins("detect-"@, rest);
    lemma_begins("validate-"@, rest);
    lemma_checkers_are_no_fixers("check-"@ + rest);
    lemma_checkers_are_no_fixers("detect-"@ + rest);
    lemma_checkers_are_no_fixers("validate-"@ + rest);
}

proof fn lemma_begins(a: Seq<char>, b: Seq<char>)
    ensures
        starts(a + b, a),
{
    assert((a + b).subrange(0, a.len() as int) =~= a);
}

proof fn lemma_checkers_are_no_fixers(id: Seq<char>)
    requires
        starts(id, "check-"@) || starts(id, "detect-"@) || starts(id, "validate-"@),
    ensures
        !names_fixer(id),
{
    reveal_strlit("check-");
    reveal_strlit("detect-");
    reveal_strlit("validate-");
    reveal_strlit("remove-");
    reveal_strlit("fix-");
    reveal_strlit("format-");
    reveal_strlit("sort-");
    reveal_strlit("insert-");
    reveal_strlit("add-");
    reveal_strlit("delete-");
    reveal_strlit("replace-");
    reveal_strlit("reorder-");
    reveal_strlit("normalize-");
    reveal_strlit("trim-");
    reveal_strlit("strip-");
    reveal_strlit("clean-");
    reveal_strlit("update-");
    reveal_strlit("transform-");
    lemma_beginning(id, "check-"@);
    lemma_beginning(id, "detect-"@);
    lemma_beginning(id, "validate-"@);
    lemma_beginning(id, "remove-"@);
    lemma_beginning(id, "fix-"@);
    lemma_beginning(id, "format-"@);
    lemma_beginning(id, "sort-"@);
    lemma_beginning(id, "insert-"@);
    lemma_beginning(id, "add-"@);
    lemma_beginning(id, "delete-"@);
    lemma_beginning(id, "replace-"@);
    lemma_beginning(id, "reorder-"@);
    lemma_beginning(id, "normalize-"@);
    lemma_beginning(id, "trim-"@);
    lemma_beginning(id, "strip-"@);
    lemma_beginning(id, "clean-"@);
    lemma_beginning(id, "update-"@);
    lemma_beginning(id, "transform-"@);
}

proof fn lemma_beginning(s: Seq<char>, pat: Seq<char>)
    ensures
        starts(s, pat) && pat.len() >= 3 ==> s[0] == pat[0] && s[1] == pat[1] && s[2] == pat[2],
{
    if starts(s, pat) && pat.len() >= 3 {
        assert(s.subrange(0, pat.len() as int)[0] == s[0]);
        assert(s.subrange(0, pat.len() as int)[1] == s[1]);
        assert(s.subrange(0, pat.len() as int)[2] == s[2]);
    }
}

/// What is called is the words of the entry with one space between.
pub proof fn law_calls_are_the_words_of_the_entry(entry: Seq<char>)
    ensures
        words_of(entry).len() > 0 ==> swift_call(entry) == joined(words_of(entry), " "@),
        words_of(entry).len() == 0 ==> swift_call(entry) == entry,
{
    let parts = words_of(entry);
    if parts.len() > 1 {
        lemma_joined_from_front(parts, " "@);
    }
}

proof fn lemma_joined_from_front(parts: Seq<Seq<char>>, sep: Seq<char>)
    requires
        parts.len() > 1,
    ensures
        joined(parts, sep) == parts[0] + sep + joined(parts.drop_first(), sep),
    decreases parts.len(),
{
    let init = parts.drop_last();
    let rest = parts.drop_first();
    if parts.len() == 2 {
        assert(joined(init, sep) == parts[0]);
        assert(joined(rest, sep) == parts[1]);
    } else {
        lemma_joined_from_front(init, sep);
        assert(init.drop_first() =~= rest.drop_last());
        assert(rest.last() == parts.last());
        let mid = joined(rest.drop_last(), sep);
        assert(joined(parts, sep) =~= parts[0] + sep + (mid + sep + parts.last()));
    }
}

/// An identifier keeps the letters, digits and underscores of a name, in their order.
pub proof fn law_identifiers_keep_letters_and_digits(s: Seq<char>)
    ensures
        identifier_chars(s) == s.filter(|c: char| is_alnum(c) || c == '_'),
    decreases s.len(),
{
    reveal(Seq::filter);
    if s.len() > 0 {
        law_identifiers_keep_letters_and_digits(s.drop_last());
    }
}

/// `check` and `fix` run exactly the collections that hold steps.
pub proof fn law_every_collection_with_steps_is_run(c: ConversionView)
    ensures
        all_spreads(c).contains("linters"@) <==> c.linters.len() > 0,
        all_spreads(c).contains("local_hooks"@) <==> c.local_hooks.len() > 0,
        all_spreads(c).contains("custom_steps"@) <==> c.custom_steps.len() > 0,
        all_spreads(c).contains("manual_steps"@) <==> c.manual_steps.len() > 0,
{
    reveal_strlit("linters");
    reveal_strlit("local_hooks");
    reveal_strlit("custom_steps");
    reveal_strlit("manual_steps");
    assert("linters"@.len() == 7 && "local_hooks"@.len() == 11 && "custom_steps"@.len() == 12
        && "manual_steps"@.len() == 12);
    assert("custom_steps"@[0] != "manual_steps"@[0]);
    lemma_spread(c, "linters"@);
    lemma_spread(c, "local_hooks"@);
    lemma_spread(c, "custom_steps"@);
    lemma_spread(c, "manual_steps"@);
}

proof fn lemma_spread(c: ConversionView, name: Seq<char>)
    ensures
        all_spreads(c).contains(name) <==> {
            ||| name == "linters"@ && c.linters.len() > 0
            ||| name == "local_hooks"@ && c.local_hooks.len() > 0
            ||| name == "custom_steps"@ && c.custom_steps.len() > 0
            ||| name == "manual_steps"@ && c.manual_steps.len() > 0
        },
{
    let a = lines_if(c.linters.len() > 0, seq!["linters"@]);
    let b = lines_if(c.local_hooks.len() > 0, seq!["local_hooks"@]);
    let d = lines_if(c.custom_steps.len() > 0, seq!["custom_steps"@]);
    let e = lines_if(c.manual_steps.len() > 0, seq!["manual_steps"@]);
    lemma_one_line(c.linters.len() > 0, "linters"@, name);
    lemma_one_line(c.local_hooks.len() > 0, "local_hooks"@, name);
    lemma_one_line(c.custom_steps.len() > 0, "custom_steps"@, name);
    lemma_one_line(c.manual_steps.len() > 0, "manual_steps"@, name);
    lemma_either(a, b, name);
    lemma_either(a + b, d, name);
    lemma_either(a + b + d, e, name);
}

proof fn lemma_one_line(condition: bool, line: Seq<char>, name: Seq<char>)
    ensures
        lines_if(condition, seq![line]).contains(name) <==> condition && name == line,
{
    if condition {
        assert(seq![line][0] == line);
    }
}

} // verus!
