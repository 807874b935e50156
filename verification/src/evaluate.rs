//! Evaluating configurations: what they import, how the evaluator is called, and
//! what is said where that fails.

use vstd::prelude::*;
use vstd::string::*;
use vstd::utf8::encode_utf8;
use crate::cache::{CacheManagerBuilder, FreshFileKeyMode};
use crate::json::{json_result, parse_json, parsed_json, Json, JsonView};
use crate::mcp::{from_utf8_lossy, lossy_text};
use crate::paths::{extension, extension_of, join_path, joined_path};
use crate::seqs::{opt_text, texts};
use crate::table::{push_all_new, push_new, Dup, NameSet};
use crate::text::{
    after, contains, contains_char, dup_list, has_char, has_text, lines, lines_of, same, show_i32,
    signed_decimal, starts, starts_with, strip_prefix, trim_start, trimmed_start,
};
use crate::version::{current_version, version};

verus! {

broadcast use crate::seqs::group_text;

/// The form that a configuration is written in.
#[derive(Clone, Copy, Debug, PartialEq, Eq, Structural)]
pub enum ConfigFormat {
    Toml,
    Yaml,
    Json,
    Pkl,
}

/// The extension of a path, empty where it has none.
pub open spec fn extension_text(path: Seq<char>) -> Seq<char> {
    match extension(path) {
        Some(e) => e,
        None => ""@,
    }
}

/// The form that a configuration with the extension `ext` is written in.
pub open spec fn format_of(ext: Seq<char>) -> Option<ConfigFormat> {
    if ext == "toml"@ {
        Some(ConfigFormat::Toml)
    } else if ext == "yaml"@ || ext == "yml"@ {
        Some(ConfigFormat::Yaml)
    } else if ext == "json"@ {
        Some(ConfigFormat::Json)
    } else if ext == "pkl"@ {
        Some(ConfigFormat::Pkl)
    } else {
        None
    }
}

/// The form that the configuration at `path` is written in.
pub fn config_format(path: &str) -> (r: Result<ConfigFormat, String>)
    ensures
        match r {
            Ok(f) => format_of(extension_text(path@)) == Some(f),
            Err(e) => format_of(extension_text(path@)) is None && e@ == "Unsupported file extension: "@
                + extension_text(path@),
        },
{
    let ext = match extension_of(path) {
        Some(e) => e,
        None => "".to_owned(),
    };
    if same(ext.as_str(), "toml") {
        Ok(ConfigFormat::Toml)
    } else if same(ext.as_str(), "yaml") || same(ext.as_str(), "yml") {
        Ok(ConfigFormat::Yaml)
    } else if same(ext.as_str(), "json") {
        Ok(ConfigFormat::Json)
    } else if same(ext.as_str(), "pkl") {
        Ok(ConfigFormat::Pkl)
    } else {
        let mut m = "Unsupported file extension: ".to_owned();
        m.append(ext.as_str());
        Err(m)
    }
}

/// An import whose content cannot be read from a file.
pub open spec fn is_remote(uri: Seq<char>) -> bool {
    starts(uri, "http://"@) || starts(uri, "https://"@) || starts(uri, "package://"@)
}

/// Whether an import is one whose content cannot be read from a file.
pub fn is_untracked_import_uri(uri: &str) -> (r: bool)
    ensures
        r == is_remote(uri@),
{
    starts_with(uri, "http://") || starts_with(uri, "https://") || starts_with(uri, "package://")
}

/// A line that may import what cannot be read from a file.
pub open spec fn line_imports_remote(line: Seq<char>) -> bool {
    let l = trimmed_start(line);
    &&& !starts(l, "//"@)
    &&& starts(l, "amends"@) || starts(l, "extends"@) || starts(l, "import"@) || starts(l, "import*"@)
    &&& has_text(l, "\"http://"@) || has_text(l, "\"https://"@) || has_text(l, "\"package://"@)
}

/// Some line of a source may import what cannot be read from a file.
pub open spec fn imports_remote(source: Seq<char>) -> bool {
    exists|i: int| 0 <= i < lines_of(source).len() && line_imports_remote(#[trigger] lines_of(source)[i])
}

fn may_import_remote(line: &str) -> (r: bool)
    ensures
        r == line_imports_remote(line@),
{
    let trimmed = trim_start(line);
    let l = trimmed.as_str();
    !starts_with(l, "//") && (starts_with(l, "amends") || starts_with(l, "extends") || starts_with(
        l,
        "import",
    ) || starts_with(l, "import*")) && (contains(l, "\"http://") || contains(l, "\"https://")
        || contains(l, "\"package://"))
}

/// Whether some line of a source may import what cannot be read from a file.
pub fn source_may_reference_untracked_import(source: &str) -> (r: bool)
    ensures
        r == imports_remote(source@),
{
    let all = lines(source);
    for i in 0..all.len()
        invariant
            texts(all@) == lines_of(source@),
            forall|k: int| 0 <= k < i ==> !line_imports_remote(#[trigger] lines_of(source@)[k]),
    {
        assert(texts(all@)[i as int] == all@[i as int]@);
        if may_import_remote(all[i].as_str()) {
            assert(line_imports_remote(lines_of(source@)[i as int]));
            return true;
        }
    }
    false
}

/// Whether some of the sources may import what cannot be read from a file.
pub fn has_untracked_imports_in_pkl_sources(sources: &Vec<String>) -> (r: bool)
    ensures
        r == (exists|i: int| 0 <= i < sources@.len() && imports_remote(#[trigger] texts(sources@)[i])),
{
    for i in 0..sources.len()
        invariant
            forall|k: int| 0 <= k < i ==> !imports_remote(#[trigger] texts(sources@)[k]),
    {
        assert(texts(sources@)[i as int] == sources@[i as int]@);
        if source_may_reference_untracked_import(sources[i].as_str()) {
            assert(imports_remote(texts(sources@)[i as int]));
            return true;
        }
    }
    false
}

/// What a configuration imports: files, and whether also what cannot be read from a file.
pub struct ImportAnalysis {
    pub local_paths: NameSet,
    pub has_untracked_imports: bool,
}

/// What [`ImportAnalysis`] stands for.
pub struct ImportAnalysisView {
    pub local_paths: Seq<Seq<char>>,
    pub has_untracked_imports: bool,
}

impl View for ImportAnalysis {
    type V = ImportAnalysisView;

    open spec fn view(&self) -> ImportAnalysisView {
        ImportAnalysisView {
            local_paths: self.local_paths@,
            has_untracked_imports: self.has_untracked_imports,
        }
    }
}

/// The files among imports, each once.
pub open spec fn local_imports(uris: Seq<Seq<char>>) -> Seq<Seq<char>>
    decreases uris.len(),
{
    if uris.len() == 0 {
        seq![]
    } else {
        let before = local_imports(uris.drop_last());
        if starts(uris.last(), "file://"@) {
            push_new(before, after(uris.last(), "file://"@.len() as int))
        } else {
            before
        }
    }
}

/// What the addresses of imports say.
pub fn analyze_imports(uris: &Vec<String>) -> (r: ImportAnalysis)
    ensures
        r@.local_paths == local_imports(texts(uris@)),
        r@.has_untracked_imports == (exists|i: int|
            0 <= i < uris@.len() && !starts(texts(uris@)[i], "file://"@) && is_remote(
                #[trigger] texts(uris@)[i],
            )),
{
    let ghost us = texts(uris@);
    let mut local_paths = NameSet::new();
    let mut remote = false;
    for i in 0..uris.len()
        invariant
            us == texts(uris@),
            local_paths@ == local_imports(us.take(i as int)),
            remote == (exists|k: int|
                0 <= k < i && !starts(us[k], "file://"@) && is_remote(#[trigger] us[k])),
    {
        let uri = uris[i].as_str();
        assert(us.take(i + 1).drop_last() =~= us.take(i as int));
        assert(us.take(i + 1).last() == uri@);
        assert(us[i as int] == uri@);
        match strip_prefix(uri, "file://") {
            Some(path) => {
                local_paths.insert(path);
            },
            None => {
                if is_untracked_import_uri(uri) {
                    remote = true;
                }
            },
        }
    }
    assert(us.take(uris@.len() as int) =~= us);
    ImportAnalysis { local_paths, has_untracked_imports: remote }
}

/// The sources that have to be searched for imports: the configuration and what it imports.
pub fn import_sources(path: &str, local_paths: &NameSet) -> (r: NameSet)
    ensures
        r@ == push_all_new(push_new(seq![], path@), local_paths@),
{
    let mut paths = NameSet::new();
    paths.insert(path.to_owned());
    paths.extend(local_paths);
    paths
}

/// The files that a configuration depends on.
pub open spec fn fresh_paths(path: Seq<char>, local_paths: Option<Seq<Seq<char>>>) -> Seq<Seq<char>> {
    match local_paths {
        Some(l) => push_new(l, path),
        None => seq![path],
    }
}

/// Whether the configuration at `path` is written in Pkl.
pub fn is_pkl(path: &str) -> (r: bool)
    ensures
        r == (extension(path@) == Some("pkl"@)),
{
    match extension_of(path) {
        Some(e) => same(e.as_str(), "pkl"),
        None => false,
    }
}

/// The cache of what a configuration imports, where `path_hash` is the hash of its path.
pub fn imports_cache(cache_dir: &str, path: &str, path_hash: &str) -> (r: CacheManagerBuilder)
    ensures
        r.cache_file_path@ == joined_path(
            joined_path(cache_dir@, "configs"@),
            path_hash@ + "-imports.json"@,
        ),
        texts(r.cache_keys@) == seq![current_version()],
        texts(r.fresh_files@) == seq![path@],
        r.fresh_file_key_mode == FreshFileKeyMode::PathAndContent,
        r.fresh_duration is None,
{
    let dir = join_path(cache_dir, "configs");
    let mut name = path_hash.to_owned();
    name.append("-imports.json");
    let mut files: Vec<String> = Vec::new();
    files.push(path.to_owned());
    let builder = CacheManagerBuilder::new(join_path(dir.as_str(), name.as_str()).as_str());
    let r = builder.with_fresh_files(files);
    assert(texts(r.fresh_files@) =~= seq![path@]);
    r
}

/// The cache of a configuration. `path_hash` is the hash of its path, `analysis`
/// is what it imports where it is written in Pkl, and `remote_sources` says whether
/// its sources may import what cannot be read from a file.
///
/// The configuration of the project has a file of its own that depends on contents
/// alone, so that checkouts of one project share it. One with imports that cannot be
/// read, and that of a subproject, has a file for its path.
pub fn config_cache(
    cache_dir: &str,
    path: &str,
    path_hash: &str,
    is_root: bool,
    backend: &str,
    analysis: &Option<ImportAnalysis>,
    remote_sources: bool,
) -> (r: CacheManagerBuilder)
    ensures
        ({
            let remote = analysis is Some && (analysis->0@.has_untracked_imports || remote_sources);
            &&& r.cache_file_path@ == joined_path(
                joined_path(cache_dir@, "configs"@),
                if remote || !is_root {
                    path_hash@ + ".json"@
                } else {
                    "resolved-config.json"@
                },
            )
            &&& texts(r.cache_keys@) == seq![current_version(), "pkl-backend:"@ + backend@]
            &&& texts(r.fresh_files@) == fresh_paths(
                path@,
                match analysis {
                    Some(a) => Some(a@.local_paths),
                    None => None,
                },
            )
            &&& r.fresh_file_key_mode == if remote {
                FreshFileKeyMode::PathAndContent
            } else {
                FreshFileKeyMode::ContentOnly
            }
            &&& r.fresh_duration is None
        }),
{
    let (files, remote) = match analysis {
        Some(a) => {
            let mut all = a.local_paths.dup();
            all.insert(path.to_owned());
            (all.to_list(), a.has_untracked_imports || remote_sources)
        },
        None => {
            let mut v: Vec<String> = Vec::new();
            v.push(path.to_owned());
            assert(texts(v@) =~= seq![path@]);
            (v, false)
        },
    };
    let dir = join_path(cache_dir, "configs");
    let mut name = "resolved-config.json".to_owned();
    if remote || !is_root {
        name = path_hash.to_owned();
        name.append(".json");
    }
    let mut key = "pkl-backend:".to_owned();
    key.append(backend);
    let builder = CacheManagerBuilder::new(
        join_path(dir.as_str(), name.as_str()).as_str(),
    ).with_cache_key(key.as_str());
    assert(texts(builder.cache_keys@) =~= seq![current_version(), "pkl-backend:"@ + backend@]);
    let ghost given = texts(files@);
    let r = if remote {
        builder.with_fresh_files(files)
    } else {
        builder.with_content_fresh_files(files)
    };
    assert(texts(r.fresh_files@) =~= given);
    r
}

/// The first variable that is set decides, and an empty one is as good as none.
pub open spec fn first_set(values: Seq<Option<Seq<char>>>) -> Option<Seq<char>>
    decreases values.len(),
{
    if values.len() == 0 {
        None
    } else {
        match values[0] {
            Some(v) => if v.len() == 0 {
                None
            } else {
                Some(v)
            },
            None => first_set(values.drop_first()),
        }
    }
}

fn non_empty(value: &String) -> (r: Option<String>)
    ensures
        opt_text(r) == if value@.len() == 0 {
            None
        } else {
            Some(value@)
        },
{
    if value.as_str().is_empty() {
        None
    } else {
        Some(value.clone())
    }
}

/// The proxy that the variables `http_proxy`, `HTTP_PROXY`, `https_proxy` and
/// `HTTPS_PROXY`, in that order, set.
pub fn get_http_proxy(
    http_lower: &Option<String>,
    http_upper: &Option<String>,
    https_lower: &Option<String>,
    https_upper: &Option<String>,
) -> (r: Option<String>)
    ensures
        opt_text(r) == first_set(
            seq![
                opt_text(*http_lower),
                opt_text(*http_upper),
                opt_text(*https_lower),
                opt_text(*https_upper),
            ],
        ),
{
    proof {
        let a = opt_text(*http_lower);
        let b = opt_text(*http_upper);
        let c = opt_text(*https_lower);
        let d = opt_text(*https_upper);
        assert(seq![a, b, c, d].drop_first() =~= seq![b, c, d]);
        assert(seq![b, c, d].drop_first() =~= seq![c, d]);
        assert(seq![c, d].drop_first() =~= seq![d]);
        assert(seq![d].drop_first() =~= Seq::<Option<Seq<char>>>::empty());
        reveal_with_fuel(first_set, 5);
    }
    if let Some(v) = http_lower {
        return non_empty(v);
    }
    if let Some(v) = http_upper {
        return non_empty(v);
    }
    if let Some(v) = https_lower {
        return non_empty(v);
    }
    if let Some(v) = https_upper {
        return non_empty(v);
    }
    None
}

/// The hosts without a proxy that the variables `no_proxy` and `NO_PROXY`, in that order, set.
pub fn get_no_proxy(lower: &Option<String>, upper: &Option<String>) -> (r: Option<String>)
    ensures
        opt_text(r) == first_set(seq![opt_text(*lower), opt_text(*upper)]),
{
    proof {
        let a = opt_text(*lower);
        let b = opt_text(*upper);
        assert(seq![a, b].drop_first() =~= seq![b]);
        assert(seq![b].drop_first() =~= Seq::<Option<Seq<char>>>::empty());
        reveal_with_fuel(first_set, 3);
    }
    if let Some(v) = lower {
        return non_empty(v);
    }
    if let Some(v) = upper {
        return non_empty(v);
    }
    None
}

/// The address of the package with the Pkl files of this version.
pub fn embedded_pkl_package_url() -> (r: String)
    ensures
        r@ == "https://github.com/jdx/hk/releases/download/v"@ + current_version() + "/hk@"@
            + current_version() + ".zip"@,
{
    let mut s = "https://github.com/jdx/hk/releases/download/v".to_owned();
    s.append(version());
    s.append("/hk@");
    s.append(version());
    s.append(".zip");
    s
}

/// The words of a command line, or why it has none.
pub uninterp spec fn shell_parts(s: Seq<char>) -> Result<Seq<Seq<char>>, Seq<char>>;

/// What a result with words stands for.
pub open spec fn parts_result(r: Result<Vec<String>, String>) -> Result<Seq<Seq<char>>, Seq<char>> {
    match r {
        Ok(v) => Ok(texts(v@)),
        Err(e) => Err(e@),
    }
}

/// `shell_words::split`: the words of a command line by the rules of a Unix shell,
/// or the message of the error. The same text always gives the same.
#[verifier::external_body]
fn shell_split(s: &str) -> (r: Result<Vec<String>, String>)
    ensures
        parts_result(r) == shell_parts(s@),
{
    shell_words::split(s).map_err(|e| e.to_string())
}

/// What the environment says about calling the evaluator.
pub struct PklOptions {
    pub http_proxy: Option<String>,
    pub no_proxy: Option<String>,
    pub http_rewrite: Option<String>,
    pub ca_certificates: Option<String>,
}

/// What [`PklOptions`] stands for.
pub struct PklOptionsView {
    pub http_proxy: Option<Seq<char>>,
    pub no_proxy: Option<Seq<char>>,
    pub http_rewrite: Option<Seq<char>>,
    pub ca_certificates: Option<Seq<char>>,
}

impl View for PklOptions {
    type V = PklOptionsView;

    open spec fn view(&self) -> PklOptionsView {
        PklOptionsView {
            http_proxy: opt_text(self.http_proxy),
            no_proxy: opt_text(self.no_proxy),
            http_rewrite: opt_text(self.http_rewrite),
            ca_certificates: opt_text(self.ca_certificates),
        }
    }
}

/// A flag with its value, where there is one.
pub open spec fn flag(name: Seq<char>, value: Option<Seq<char>>) -> Seq<Seq<char>> {
    match value {
        Some(v) => seq![name, v],
        None => seq![],
    }
}

/// The proxy that the evaluator can use: one that is called by HTTP and wants no password.
pub open spec fn usable_proxy(proxy: Option<Seq<char>>) -> Option<Seq<char>> {
    match proxy {
        Some(p) => if starts(p, "http://"@) && !has_char(p, '@') {
            Some(p)
        } else {
            None
        },
        None => None,
    }
}

/// The arguments of the evaluator: those of its command, then the flags, then the path.
pub open spec fn pkl_arguments(
    bin_args: Seq<Seq<char>>,
    subcommand: Seq<Seq<char>>,
    options: PklOptionsView,
    path: Seq<char>,
) -> Seq<Seq<char>> {
    bin_args + subcommand + seq!["-f"@, "json"@] + flag("--http-proxy"@, usable_proxy(options.http_proxy))
        + flag("--http-no-proxy"@, options.no_proxy) + flag("--http-rewrite"@, options.http_rewrite)
        + flag("--ca-certificates"@, options.ca_certificates) + seq![path]
}

/// The command that calls the evaluator and its arguments, or why there is none.
pub open spec fn pkl_call(
    parts: Result<Seq<Seq<char>>, Seq<char>>,
    subcommand: Seq<Seq<char>>,
    options: PklOptionsView,
    path: Seq<char>,
) -> Result<(Seq<char>, Seq<Seq<char>>), Seq<char>> {
    match parts {
        Ok(p) => if p.len() == 0 {
            Err("empty pkl command"@)
        } else {
            Ok((p[0], pkl_arguments(p.drop_first(), subcommand, options, path)))
        },
        Err(e) => Err("failed to parse pkl command: "@ + e),
    }
}

/// What a result with a command stands for.
pub open spec fn call_result(
    r: Result<(String, Vec<String>), String>,
) -> Result<(Seq<char>, Seq<Seq<char>>), Seq<char>> {
    match r {
        Ok((c, args)) => Ok((c@, texts(args@))),
        Err(e) => Err(e@),
    }
}

fn add_flag(out: &mut Vec<String>, name: &str, value: &Option<String>)
    ensures
        texts(final(out)@) == texts(old(out)@) + flag(name@, opt_text(*value)),
{
    let ghost start = texts(out@);
    if let Some(v) = value {
        out.push(name.to_owned());
        out.push(v.clone());
    }
    assert(texts(out@) =~= start + flag(name@, opt_text(*value)));
}

fn choose_proxy(proxy: &Option<String>) -> (r: Option<String>)
    ensures
        opt_text(r) == usable_proxy(opt_text(*proxy)),
{
    match proxy {
        Some(p) => if starts_with(p.as_str(), "http://") && !contains_char(p.as_str(), '@') {
            Some(p.clone())
        } else {
            None
        },
        None => None,
    }
}

/// The command that calls the evaluator and its arguments, where `parts` are the
/// words of the command.
pub fn pkl_call_with(
    parts: Result<Vec<String>, String>,
    subcommand: &Vec<String>,
    options: &PklOptions,
    path: &str,
) -> (r: Result<(String, Vec<String>), String>)
    ensures
        call_result(r) == pkl_call(parts_result(parts), texts(subcommand@), options@, path@),
{
    let parts = match parts {
        Ok(p) => p,
        Err(e) => {
            let mut m = "failed to parse pkl command: ".to_owned();
            m.append(e.as_str());
            return Err(m);
        },
    };
    let ghost ps = texts(parts@);
    assert(ps.len() == parts@.len());
    if parts.len() == 0 {
        return Err("empty pkl command".to_owned());
    }
    assert(ps[0] == parts@[0]@);
    let mut args: Vec<String> = Vec::new();
    for i in 1..parts.len()
        invariant
            ps == texts(parts@),
            texts(args@) =~= ps.subrange(1, i as int),
    {
        args.push(parts[i].clone());
    }
    assert(texts(args@) =~= ps.drop_first());
    let mut more = dup_list(subcommand);
    let ghost head = texts(args@);
    let ghost tail = texts(more@);
    args.append(&mut more);
    assert(texts(args@) =~= head + tail);
    args.push("-f".to_owned());
    args.push("json".to_owned());
    assert(texts(args@) =~= head + tail + seq!["-f"@, "json"@]);
    let proxy = choose_proxy(&options.http_proxy);
    add_flag(&mut args, "--http-proxy", &proxy);
    add_flag(&mut args, "--http-no-proxy", &options.no_proxy);
    add_flag(&mut args, "--http-rewrite", &options.http_rewrite);
    add_flag(&mut args, "--ca-certificates", &options.ca_certificates);
    let ghost flags = texts(args@);
    args.push(path.to_owned());
    assert(texts(args@) =~= flags + seq![path@]);
    Ok((parts[0].clone(), args))
}

/// The command that calls the evaluator `bin` and its arguments.
pub fn pkl_command(bin: &str, subcommand: &Vec<String>, options: &PklOptions, path: &str) -> (r: Result<
    (String, Vec<String>),
    String,
>)
    ensures
        call_result(r) == pkl_call(shell_parts(bin@), texts(subcommand@), options@, path@),
{
    let parts = shell_split(bin);
    pkl_call_with(parts, subcommand, options, path)
}

/// What follows a first call of the evaluator.
pub enum PklNext {
    /// Its result is used.
    Done,
    /// It is not installed, so it is called through mise.
    TryMise,
    Fail(String),
}

/// What follows a first call of the evaluator that failed with `error`, if it failed.
pub fn after_pkl(error: &Option<String>, installed: bool) -> (r: PklNext)
    ensures
        match r {
            PklNext::Done => error is None,
            PklNext::TryMise => error is Some && !installed,
            PklNext::Fail(m) => error is Some && installed && m@ == "failed to run pkl: "@ + error->0@,
        },
{
    match error {
        None => PklNext::Done,
        Some(e) => {
            if installed {
                let mut m = "failed to run pkl: ".to_owned();
                m.append(e.as_str());
                PklNext::Fail(m)
            } else {
                PklNext::TryMise
            }
        },
    }
}

/// The name of a package with the Pkl files of this version.
pub open spec fn package_name() -> Seq<char> {
    "package://github.com/jdx/hk/releases/download/v"@ + current_version() + "/hk@"@ + current_version()
        + "#/Config.pkl\""@
}

/// What is said of a configuration that does not say what it amends.
pub open spec fn missing_amends_text(path: Seq<char>) -> Seq<char> {
    "Missing 'amends' declaration in "@ + path
        + ". \n\nYour hk.pkl file should start with one of:\n\u{2022} amends \"pkl/Config.pkl\" (if vendored)\n\u{2022} amends \""@
        + package_name()
        + " (for released versions)\n\nSee https://github.com/jdx/hk for more information."@
}

/// What is said of a configuration that amends what cannot be found.
pub open spec fn invalid_uri_text(path: Seq<char>) -> Seq<char> {
    "Invalid module URI in "@ + path
        + ". \n\nMake sure your 'amends' declaration uses a valid path or package URL.\nExamples:\n\u{2022} amends \"pkl/Config.pkl\" (if vendored)\n\u{2022} amends \""@
        + package_name()
}

/// What is said of a configuration that could not be evaluated.
pub open spec fn failed_text(path: Seq<char>, code: Option<Seq<char>>, stderr: Seq<char>) -> Seq<char> {
    let head = "Failed to evaluate Pkl config at "@ + path;
    match code {
        Some(c) => head + "\n\nExit code: "@ + c + "\n\nError output:\n"@ + stderr,
        None => head + "\n\nError output:\n"@ + stderr,
    }
}

fn write_package_name() -> (r: String)
    ensures
        r@ == package_name(),
{
    let mut s = "package://github.com/jdx/hk/releases/download/v".to_owned();
    s.append(version());
    s.append("/hk@");
    s.append(version());
    s.append("#/Config.pkl\"");
    s
}

/// What is said of a configuration that does not say what it amends.
pub fn missing_amends_error(path: &str) -> (r: String)
    ensures
        r@ == missing_amends_text(path@),
{
    let mut s = "Missing 'amends' declaration in ".to_owned();
    s.append(path);
    s.append(
        ". \n\nYour hk.pkl file should start with one of:\n\u{2022} amends \"pkl/Config.pkl\" (if vendored)\n\u{2022} amends \"",
    );
    s.append(write_package_name().as_str());
    s.append(" (for released versions)\n\nSee https://github.com/jdx/hk for more information.");
    s
}

/// What is said of a configuration that amends what cannot be found.
pub fn invalid_module_uri_error(path: &str) -> (r: String)
    ensures
        r@ == invalid_uri_text(path@),
{
    let mut s = "Invalid module URI in ".to_owned();
    s.append(path);
    s.append(
        ". \n\nMake sure your 'amends' declaration uses a valid path or package URL.\nExamples:\n\u{2022} amends \"pkl/Config.pkl\" (if vendored)\n\u{2022} amends \"",
    );
    s.append(write_package_name().as_str());
    s
}

/// What is said of a configuration that could not be evaluated.
pub fn failed_pkl_config_error(path: &str, code: &Option<String>, stderr: &str) -> (r: String)
    ensures
        r@ == failed_text(path@, opt_text(*code), stderr@),
{
    let mut s = "Failed to evaluate Pkl config at ".to_owned();
    s.append(path);
    if let Some(c) = code {
        s.append("\n\nExit code: ");
        s.append(c.as_str());
    }
    s.append("\n\nError output:\n");
    s.append(stderr);
    s
}

/// The exit code of a process, `unknown` where a signal ended it.
pub open spec fn code_text(code: Option<i32>) -> Seq<char> {
    match code {
        Some(c) => signed_decimal(c as int),
        None => "unknown"@,
    }
}

/// What is said of a call of the evaluator that failed, by what it printed.
pub open spec fn pkl_error(stderr: Seq<char>, code: Option<i32>, path: Seq<char>) -> Seq<char> {
    if has_text(stderr, "Cannot find type `Hook`"@) || has_text(stderr, "Cannot find type `Step`"@) {
        missing_amends_text(path)
    } else if has_text(stderr, "Module URI"@) && has_text(stderr, "has invalid syntax"@) {
        invalid_uri_text(path)
    } else {
        failed_text(path, Some(code_text(code)), stderr)
    }
}

/// What is said of a call of the evaluator that failed.
pub fn pkl_error_of(stderr: &str, code: Option<i32>, path: &str) -> (r: String)
    ensures
        r@ == pkl_error(stderr@, code, path@),
{
    if contains(stderr, "Cannot find type `Hook`") || contains(stderr, "Cannot find type `Step`") {
        missing_amends_error(path)
    } else if contains(stderr, "Module URI") && contains(stderr, "has invalid syntax") {
        invalid_module_uri_error(path)
    } else {
        let text = match code {
            Some(c) => show_i32(c),
            None => "unknown".to_owned(),
        };
        failed_pkl_config_error(path, &Some(text), stderr)
    }
}

/// What is said of a call of the evaluator that failed, by the bytes it printed.
pub fn handle_pkl_error(stderr: &[u8], code: Option<i32>, path: &str) -> (r: String)
    ensures
        r@ == pkl_error(lossy_text(stderr@), code, path@),
{
    let text = from_utf8_lossy(stderr);
    pkl_error_of(text.as_str(), code, path)
}

/// The JSON value that the evaluator printed, where `parsed` is the result of parsing it.
pub open spec fn pkl_value(parsed: Result<JsonView, Seq<char>>) -> Result<JsonView, Seq<char>> {
    match parsed {
        Ok(value) => Ok(value),
        Err(e) => Err("failed to parse pkl output: "@ + e),
    }
}

/// The JSON value that the evaluator printed, where `parsed` is the result of parsing it.
pub fn pkl_value_of(parsed: Result<Json, String>) -> (r: Result<Json, String>)
    ensures
        json_result(r) == pkl_value(json_result(parsed)),
{
    match parsed {
        Ok(value) => Ok(value),
        Err(e) => {
            let mut m = "failed to parse pkl output: ".to_owned();
            m.append(e.as_str());
            Err(m)
        },
    }
}

/// The JSON value that a call of the evaluator gave, or why it gave none: it failed, or
/// what it printed is no JSON.
pub fn read_pkl_output(
    success: bool,
    stdout: &[u8],
    stderr: &[u8],
    code: Option<i32>,
    path: &str,
) -> (r: Result<Json, String>)
    ensures
        json_result(r) == if success {
            pkl_value(parsed_json(encode_utf8(lossy_text(stdout@))))
        } else {
            Err(pkl_error(lossy_text(stderr@), code, path@))
        },
{
    if success {
        let text = from_utf8_lossy(stdout);
        pkl_value_of(parse_json(text.as_str().as_bytes()))
    } else {
        Err(handle_pkl_error(stderr, code, path))
    }
}

/// What is said where the built-in evaluator failed.
pub fn handle_pklr_eval_error(error: &str, path: &str) -> (r: String)
    ensures
        r@ == if has_text(error@, "unsupported package URI"@) || (has_text(error@, "Module URI"@) && has_text(
            error@,
            "has invalid syntax"@,
        )) {
            invalid_uri_text(path@)
        } else {
            failed_text(path@, None, error@)
        },
{
    if contains(error, "unsupported package URI") || (contains(error, "Module URI") && contains(
        error,
        "has invalid syntax",
    )) {
        invalid_module_uri_error(path)
    } else {
        failed_pkl_config_error(path, &None, error)
    }
}

/// Some line says what the configuration amends.
pub open spec fn has_amends(raw: Seq<char>) -> bool {
    exists|i: int|
        0 <= i < lines_of(raw).len() && starts(trimmed_start(#[trigger] lines_of(raw)[i]), "amends "@)
}

/// Whether some line says what the configuration amends, where its text could be read.
pub fn pkl_file_has_amends(raw: &Option<String>) -> (r: bool)
    ensures
        r == (raw is Some && has_amends(raw->0@)),
{
    let all = match raw {
        Some(text) => lines(text.as_str()),
        None => {
            return false;
        },
    };
    let ghost ls = lines_of(raw->0@);
    for i in 0..all.len()
        invariant
            raw is Some,
            ls == lines_of(raw->0@),
            texts(all@) == ls,
            forall|k: int| 0 <= k < i ==> !starts(trimmed_start(#[trigger] ls[k]), "amends "@),
    {
        assert(texts(all@)[i as int] == all@[i as int]@);
        let line = trim_start(all[i].as_str());
        if starts_with(line.as_str(), "amends ") {
            assert(starts(trimmed_start(ls[i as int]), "amends "@));
            return true;
        }
    }
    false
}

/// What is said where the result of the built-in evaluator is no configuration;
/// `raw` is the text of the file where it could be read.
pub fn handle_pklr_deserialize_error(error: &str, path: &str, raw: &Option<String>) -> (r: String)
    ensures
        r@ == if !(raw is Some && has_amends(raw->0@)) && has_text(error@, "unknown field"@) {
            missing_amends_text(path@)
        } else {
            "failed to deserialize pklr output\n\nCaused by:\n    "@ + error@
        },
{
    if !pkl_file_has_amends(raw) && contains(error, "unknown field") {
        missing_amends_error(path)
    } else {
        let mut s = "failed to deserialize pklr output\n\nCaused by:\n    ".to_owned();
        s.append(error);
        s
    }
}

/// The file with the settings of the user, and what is said of where it lies.
pub struct HkrcChoice {
    pub path: String,
    pub warning: Option<String>,
}

/// What [`HkrcChoice`] stands for.
pub struct HkrcChoiceView {
    pub path: Seq<char>,
    pub warning: Option<Seq<char>>,
}

impl View for HkrcChoice {
    type V = HkrcChoiceView;

    open spec fn view(&self) -> HkrcChoiceView {
        HkrcChoiceView {
            path: self.path@,
            warning: opt_text(self.warning),
        }
    }
}

/// Where the settings of the user are looked for.
pub struct HkrcPlaces {
    /// The file that was asked for, and whether it is there.
    pub explicit: Option<(String, bool)>,
    pub config_dir: String,
    pub home_dir: String,
    pub cwd_there: bool,
    pub home_there: bool,
    pub config_there: bool,
}

/// The file with the settings of the user: the one that was asked for, which must
/// be there; else the first that is there of the current directory, the home
/// directory and the directory for configurations. Places of old are warned of.
pub open spec fn hkrc_choice(p: HkrcPlaces) -> Result<Option<HkrcChoiceView>, Seq<char>> {
    let good = p.config_dir@ + "/config.pkl"@;
    match p.explicit {
        Some((path, there)) => if there {
            Ok(
                Some(
                    HkrcChoiceView {
                        path: path@,
                        warning: Some(
                            "--hkrc is deprecated. Use "@ + good
                                + " for global config or hk.local.pkl for per-project overrides."@,
                        ),
                    },
                ),
            )
        } else {
            Err("Config file not found: "@ + path@)
        },
        None => if p.cwd_there {
            Ok(
                Some(
                    HkrcChoiceView {
                        path: ".hkrc.pkl"@,
                        warning: Some(
                            ".hkrc.pkl is deprecated. Use hk.local.pkl in the project root instead."@,
                        ),
                    },
                ),
            )
        } else if p.home_there {
            Ok(
                Some(
                    HkrcChoiceView {
                        path: joined_path(p.home_dir@, ".hkrc.pkl"@),
                        warning: Some("~/.hkrc.pkl is deprecated. Use "@ + good + " instead."@),
                    },
                ),
            )
        } else if p.config_there {
            Ok(
                Some(
                    HkrcChoiceView {
                        path: joined_path(p.config_dir@, "config.pkl"@),
                        warning: None,
                    },
                ),
            )
        } else {
            Ok(None)
        },
    }
}

/// What a result with a choice stands for.
pub open spec fn choice_result(
    r: Result<Option<HkrcChoice>, String>,
) -> Result<Option<HkrcChoiceView>, Seq<char>> {
    match r {
        Ok(Some(c)) => Ok(Some(c@)),
        Ok(None) => Ok(None),
        Err(e) => Err(e@),
    }
}

/// The file with the settings of the user.
pub fn choose_hkrc(p: &HkrcPlaces) -> (r: Result<Option<HkrcChoice>, String>)
    ensures
        choice_result(r) == hkrc_choice(*p),
{
    let mut good = p.config_dir.clone();
    good.append("/config.pkl");
    match &p.explicit {
        Some((path, there)) => {
            if !*there {
                let mut m = "Config file not found: ".to_owned();
                m.append(path.as_str());
                return Err(m);
            }
            let mut w = "--hkrc is deprecated. Use ".to_owned();
            w.append(good.as_str());
            w.append(" for global config or hk.local.pkl for per-project overrides.");
            Ok(Some(HkrcChoice { path: path.clone(), warning: Some(w) }))
        },
        None => {
            if p.cwd_there {
                let w = ".hkrc.pkl is deprecated. Use hk.local.pkl in the project root instead.".to_owned();
                Ok(Some(HkrcChoice { path: ".hkrc.pkl".to_owned(), warning: Some(w) }))
            } else if p.home_there {
                let mut w = "~/.hkrc.pkl is deprecated. Use ".to_owned();
                w.append(good.as_str());
                w.append(" instead.");
                let path = join_path(p.home_dir.as_str(), ".hkrc.pkl");
                Ok(Some(HkrcChoice { path, warning: Some(w) }))
            } else if p.config_there {
                let path = join_path(p.config_dir.as_str(), "config.pkl");
                Ok(Some(HkrcChoice { path, warning: None }))
            } else {
                Ok(None)
            }
        },
    }
}

/// Whether the settings of a user come in the form of their own: they then say
/// something under `environment`.
pub fn is_user_config(json: &Json) -> (r: bool)
    ensures
        r == (json@.field("environment"@) is Some),
{
    json.get("environment").is_some()
}

/// A configuration with imports that cannot be read from a file never shares its
/// cache file with that of another path.
pub proof fn law_remote_imports_key_the_cache_by_path(
    cache_dir: Seq<char>,
    hash_a: Seq<char>,
    hash_b: Seq<char>,
)
    requires
        hash_a != hash_b,
        !starts(hash_a, "/"@),
        !starts(hash_b, "/"@),
    ensures
        joined_path(joined_path(cache_dir, "configs"@), hash_a + ".json"@) != joined_path(
            joined_path(cache_dir, "configs"@),
            hash_b + ".json"@,
        ),
{
    reveal_strlit("/");
    reveal_strlit(".json");
    let dir = joined_path(cache_dir, "configs"@);
    reveal_strlit("configs");
    let a = hash_a + ".json"@;
    let b = hash_b + ".json"@;
    assert(!starts(a, "/"@)) by {
        if starts(a, "/"@) {
            assert(a.subrange(0, 1)[0] == '/');
            if hash_a.len() > 0 {
                assert(hash_a[0] == a[0]);
                assert(hash_a.subrange(0, 1) =~= "/"@);
            } else {
                assert(a[0] == ".json"@[0]);
            }
        }
    }
    assert(!starts(b, "/"@)) by {
        if starts(b, "/"@) {
            assert(b.subrange(0, 1)[0] == '/');
            if hash_b.len() > 0 {
                assert(hash_b[0] == b[0]);
                assert(hash_b.subrange(0, 1) =~= "/"@);
            } else {
                assert(b[0] == ".json"@[0]);
            }
        }
    }
    if joined_path(dir, a) == joined_path(dir, b) {
        let x = joined_path(dir, a);
        let y = joined_path(dir, b);
        let n = x.len() - a.len();
        assert(x.len() == y.len());
        assert(a.len() == b.len());
        assert(after(x, n) =~= a);
        assert(after(y, n) =~= b);
        assert(hash_a =~= a.take(hash_a.len() as int));
        assert(hash_b =~= b.take(hash_b.len() as int));
    }
}

/// The form of a configuration follows its extension, and no other extension has one.
pub proof fn law_extensions_tell_the_format(ext: Seq<char>)
    ensures
        format_of("toml"@) == Some(ConfigFormat::Toml),
        format_of("yaml"@) == Some(ConfigFormat::Yaml),
        format_of("yml"@) == Some(ConfigFormat::Yaml),
        format_of("json"@) == Some(ConfigFormat::Json),
        format_of("pkl"@) == Some(ConfigFormat::Pkl),
        ext != "toml"@ && ext != "yaml"@ && ext != "yml"@ && ext != "json"@ && ext != "pkl"@
            ==> format_of(ext) is None,
{
    reveal_strlit("toml");
    reveal_strlit("yaml");
    reveal_strlit("yml");
    reveal_strlit("json");
    reveal_strlit("pkl");
    assert("toml"@.len() == 4 && "yaml"@.len() == 4 && "yml"@.len() == 3 && "json"@.len() == 4
        && "pkl"@.len() == 3);
    assert("toml"@[0] != "yaml"@[0] && "toml"@[0] != "json"@[0] && "yaml"@[0] != "json"@[0]);
    assert("yml"@[0] != "pkl"@[0]);
}

/// What a configuration imports from files is what its imports name behind `file://`, each
/// once.
pub proof fn law_local_imports_are_files(uris: Seq<Seq<char>>, path: Seq<char>)
    ensures
        local_imports(uris).contains(path) <==> uris.contains("file://"@ + path),
        local_imports(uris).no_duplicates(),
    decreases uris.len(),
{
    if uris.len() > 0 {
        let init = uris.drop_last();
        law_local_imports_are_files(init, path);
        crate::seqs::lemma_last_or_before(uris, "file://"@ + path);
        let uri = uris.last();
        let head = "file://"@;
        if starts(uri, head) {
            let rest = after(uri, head.len() as int);
            assert(uri =~= head + rest) by {
                assert(uri.subrange(0, head.len() as int) == head);
                assert forall|k: int| 0 <= k < uri.len() implies uri[k] == (head + rest)[k] by {
                    if k < head.len() {
                        assert(uri.subrange(0, head.len() as int)[k] == head[k]);
                    }
                }
            }
            crate::seqs::lemma_pushed(local_imports(init), rest, path);
            if uri == head + path {
                assert(rest =~= path);
            }
        } else if uri == head + path {
            assert((head + path).subrange(0, head.len() as int) =~= head);
        }
    }
}

/// The cache of a configuration depends on the configuration itself and on all that it
/// imports from files.
pub proof fn law_caches_depend_on_every_import(
    path: Seq<char>,
    local_paths: Option<Seq<Seq<char>>>,
    file: Seq<char>,
)
    ensures
        fresh_paths(path, local_paths).contains(file) <==> file == path || (local_paths is Some
            && local_paths->0.contains(file)),
{
    match local_paths {
        Some(l) => {
            crate::seqs::lemma_pushed(l, path, file);
        },
        None => {
            let one = seq![path];
            assert(one[0] == path);
        },
    }
}

/// Of the variables for a proxy the first that is set counts, and counts as none where it
/// is empty.
pub proof fn law_the_first_proxy_counts(values: Seq<Option<Seq<char>>>, i: int)
    requires
        0 <= i < values.len(),
        values[i] is Some,
        forall|k: int| 0 <= k < i ==> (#[trigger] values[k]) is None,
    ensures
        values[i]->0.len() > 0 ==> first_set(values) == values[i],
        values[i]->0.len() == 0 ==> first_set(values) is None,
    decreases values.len(),
{
    if i > 0 {
        assert(values[0] is None);
        let rest = values.drop_first();
        assert forall|k: int| 0 <= k < i - 1 implies (#[trigger] rest[k]) is None by {
            assert(values[k + 1] is None);
        }
        assert(rest[i - 1] == values[i]);
        law_the_first_proxy_counts(rest, i - 1);
    }
}

/// The evaluator is told of a proxy that it can use, and of no other.
pub proof fn law_only_plain_proxies_are_used(proxy: Option<Seq<char>>)
    ensures
        usable_proxy(proxy) is Some <==> proxy is Some && starts(proxy->0, "http://"@)
            && !proxy->0.contains('@'),
        usable_proxy(proxy) is Some ==> usable_proxy(proxy) == proxy,
{
}

/// The path of the configuration is the last argument of the evaluator, behind all flags;
/// the command that calls it comes first.
pub proof fn law_the_path_comes_last(
    bin_args: Seq<Seq<char>>,
    subcommand: Seq<Seq<char>>,
    options: PklOptionsView,
    path: Seq<char>,
)
    ensures
        ({
            let args = pkl_arguments(bin_args, subcommand, options, path);
            &&& args.len() > 0 && args.last() == path
            &&& args.take((bin_args.len() + subcommand.len()) as int) == bin_args + subcommand
            &&& options.http_rewrite is Some ==> args.contains(options.http_rewrite->0)
            &&& options.no_proxy is Some ==> args.contains(options.no_proxy->0)
            &&& options.ca_certificates is Some ==> args.contains(options.ca_certificates->0)
            &&& args.contains("json"@)
        }),
{
    let args = pkl_arguments(bin_args, subcommand, options, path);
    let n = (bin_args.len() + subcommand.len()) as int;
    assert(args.take(n) =~= bin_args + subcommand);
    assert(args[n + 1] == "json"@);
    let a = flag("--http-proxy"@, usable_proxy(options.http_proxy)).len();
    let b = flag("--http-no-proxy"@, options.no_proxy).len();
    let c = flag("--http-rewrite"@, options.http_rewrite).len();
    if options.no_proxy is Some {
        assert(args[n + 2 + a + 1] == options.no_proxy->0);
    }
    if options.http_rewrite is Some {
        assert(args[n + 2 + a + b + 1] == options.http_rewrite->0);
    }
    if options.ca_certificates is Some {
        assert(args[n + 2 + a + b + c + 1] == options.ca_certificates->0);
    }
}

/// The settings of the user are those that were asked for, which have to be there; else the
/// first that are there of the current directory, the home directory and the directory for
/// configurations.
pub proof fn law_the_first_user_settings_count(p: HkrcPlaces)
    ensures
        ({
            let r = hkrc_choice(p);
            let found = |path: Seq<char>| r is Ok && r->Ok_0 is Some && r->Ok_0->0.path == path;
            &&& p.explicit matches Some((path, there)) ==> {
                &&& there ==> found(path@)
                &&& !there ==> r is Err
            }
            &&& p.explicit is None ==> {
                &&& p.cwd_there ==> found(".hkrc.pkl"@)
                &&& !p.cwd_there && p.home_there ==> found(
                    joined_path(p.home_dir@, ".hkrc.pkl"@),
                )
                &&& !p.cwd_there && !p.home_there && p.config_there ==> found(
                    joined_path(p.config_dir@, "config.pkl"@),
                ) && r->Ok_0->0.warning is None
                &&& !p.cwd_there && !p.home_there && !p.config_there ==> r
                    == Ok::<Option<HkrcChoiceView>, Seq<char>>(None)
                &&& p.cwd_there || p.home_there ==> r->Ok_0->0.warning is Some
            }
        }),
{
}

/// What the evaluator printed on its errors is told, unless it shows that the configuration
/// says nothing of what it amends, or amends what cannot be found.
pub proof fn law_evaluator_errors_are_told(stderr: Seq<char>, code: Option<i32>, path: Seq<char>)
    requires
        !has_text(stderr, "Cannot find type `Hook`"@),
        !has_text(stderr, "Cannot find type `Step`"@),
        !(has_text(stderr, "Module URI"@) && has_text(stderr, "has invalid syntax"@)),
    ensures
        ends_in(pkl_error(stderr, code, path), stderr),
{
    let code_words = code_text(code);
    let head = "Failed to evaluate Pkl config at "@ + path + "\n\nExit code: "@ + code_words
        + "\n\nError output:\n"@;
    assert(pkl_error(stderr, code, path) =~= head + stderr);
}

/// `s` ends in `tail`.
pub open spec fn ends_in(s: Seq<char>, tail: Seq<char>) -> bool {
    exists|head: Seq<char>| s == #[trigger] (head + tail)
}

/// Only addresses of the web and of packages cannot be read from a file.
pub proof fn law_remote_imports_have_an_address(rest: Seq<char>, path: Seq<char>)
    ensures
        is_remote("http://"@ + rest) && is_remote("https://"@ + rest) && is_remote(
            "package://"@ + rest,
        ),
        !has_text(path, "://"@) ==> !is_remote(path),
{
    lemma_begins_with("http://"@, rest);
    lemma_begins_with("https://"@, rest);
    lemma_begins_with("package://"@, rest);
    reveal_strlit("http://");
    reveal_strlit("https://");
    reveal_strlit("package://");
    reveal_strlit("://");
    lemma_scheme(path, "http://"@);
    lemma_scheme(path, "https://"@);
    lemma_scheme(path, "package://"@);
}

proof fn lemma_begins_with(a: Seq<char>, b: Seq<char>)
    ensures
        starts(a + b, a),
{
    assert((a + b).subrange(0, a.len() as int) =~= a);
}

proof fn lemma_scheme(path: Seq<char>, scheme: Seq<char>)
    requires
        scheme.len() >= 3,
        scheme[scheme.len() - 3] == ':',
        scheme[scheme.len() - 2] == '/',
        scheme[scheme.len() - 1] == '/',
    ensures
        starts(path, scheme) ==> has_text(path, "://"@),
{
    reveal_strlit("://");
    if starts(path, scheme) {
        let n = scheme.len() as int;
        assert(path.subrange(0, n)[n - 3] == path[n - 3]);
        assert(path.subrange(0, n)[n - 2] == path[n - 2]);
        assert(path.subrange(0, n)[n - 1] == path[n - 1]);
        assert(path.subrange(n - 3, n) =~= "://"@);
        assert(crate::text::occurs_at(path, "://"@, n - 3));
    }
}

/// A line imports from elsewhere where it amends, extends or imports such an address; a
/// comment never does.
pub proof fn law_lines_import_from_elsewhere(line: Seq<char>)
    ensures
        starts(trimmed_start(line), "//"@) ==> !line_imports_remote(line),
        line_imports_remote(line) ==> has_text(line, "\"http://"@) || has_text(line, "\"https://"@)
            || has_text(line, "\"package://"@),
        (starts(trimmed_start(line), "amends"@) || starts(trimmed_start(line), "import"@) || starts(
            trimmed_start(line),
            "extends"@,
        )) && (has_text(trimmed_start(line), "\"http://"@) || has_text(
            trimmed_start(line),
            "\"https://"@,
        ) || has_text(trimmed_start(line), "\"package://"@)) ==> line_imports_remote(line),
{
    let l = trimmed_start(line);
    reveal_strlit("//");
    reveal_strlit("amends");
    reveal_strlit("extends");
    reveal_strlit("import");
    if starts(l, "//"@) {
        assert("//"@[0] == '/' && "//"@.len() == 2);
        assert(l.subrange(0, 2)[0] == l[0]);
    }
    if starts(l, "amends"@) {
        assert("amends"@[0] == 'a' && "amends"@.len() == 6);
        assert(l.subrange(0, 6)[0] == l[0]);
    }
    if starts(l, "extends"@) {
        assert("extends"@[0] == 'e' && "extends"@.len() == 7);
        assert(l.subrange(0, 7)[0] == l[0]);
    }
    if starts(l, "import"@) {
        assert("import"@[0] == 'i' && "import"@.len() == 6);
        assert(l.subrange(0, 6)[0] == l[0]);
    }
    lemma_start_is_cut(line);
    let head = line.take(line.len() - l.len());
    if has_text(l, "\"http://"@) {
        crate::text::lemma_stands_in_part(head, l, seq![], "\"http://"@);
    }
    if has_text(l, "\"https://"@) {
        crate::text::lemma_stands_in_part(head, l, seq![], "\"https://"@);
    }
    if has_text(l, "\"package://"@) {
        crate::text::lemma_stands_in_part(head, l, seq![], "\"package://"@);
    }
    assert(head + l + seq![] =~= line);
}

proof fn lemma_start_is_cut(s: Seq<char>)
    ensures
        trimmed_start(s).len() <= s.len(),
        s == s.take(s.len() - trimmed_start(s).len()) + trimmed_start(s),
    decreases s.len(),
{
    let t = trimmed_start(s);
    if t == s {
        assert(s =~= s.take(0) + s);
    } else {
        let rest = s.drop_first();
        lemma_start_is_cut(rest);
        assert(trimmed_start(rest) == t);
        let n = rest.len() - t.len();
        assert(s =~= s.take(n + 1) + t) by {
            assert(s =~= seq![s[0]] + (rest.take(n) + t));
        }
    }
}

/// The evaluator is called by the first word of its command; without a word, or where the
/// command cannot be read, there is no call.
pub proof fn law_the_first_word_is_called(
    parts: Result<Seq<Seq<char>>, Seq<char>>,
    subcommand: Seq<Seq<char>>,
    options: PklOptionsView,
    path: Seq<char>,
)
    ensures
        pkl_call(parts, subcommand, options, path) is Ok <==> parts is Ok && parts->Ok_0.len() > 0,
        pkl_call(parts, subcommand, options, path) matches Ok((program, _)) ==> program
            == parts->Ok_0[0],
        parts matches Err(e) ==> pkl_call(parts, subcommand, options, path) matches Err(m) && has_text(
            m,
            e,
        ),
{
    if let Err(e) = parts {
        crate::text::lemma_two_stand("failed to parse pkl command: "@, e);
    }
}

/// What is said of a configuration that could not be evaluated names it, and tells what the
/// evaluator said.
pub proof fn law_failed_evaluations_are_told(path: Seq<char>, code: Option<Seq<char>>, stderr: Seq<char>)
    ensures
        has_text(failed_text(path, code, stderr), path),
        has_text(failed_text(path, code, stderr), stderr),
        code matches Some(c) ==> has_text(failed_text(path, code, stderr), c),
        has_text(missing_amends_text(path), path),
        has_text(invalid_uri_text(path), path),
{
    let head = "Failed to evaluate Pkl config at "@ + path;
    crate::text::lemma_two_stand("Failed to evaluate Pkl config at "@, path);
    match code {
        Some(c) => {
            crate::text::lemma_five_stand(
                head,
                "\n\nExit code: "@,
                c,
                "\n\nError output:\n"@,
                stderr,
            );
        },
        None => {
            crate::text::lemma_three_stand(head, "\n\nError output:\n"@, stderr);
        },
    }
    crate::text::lemma_stands_within(failed_text(path, code, stderr), head, path);
    let a = "Missing 'amends' declaration in "@;
    let m = missing_amends_text(path);
    let rest = m.skip((a + path).len() as int);
    crate::text::lemma_stands_between(a, path, rest);
    assert(a + path + rest =~= m);
    let b = "Invalid module URI in "@;
    let u = invalid_uri_text(path);
    let tail = u.skip((b + path).len() as int);
    crate::text::lemma_stands_between(b, path, tail);
    assert(b + path + tail =~= u);
}

} // verus!
