//! Cached values: what a cache file is named after, and when it is used.

use vstd::prelude::*;
use vstd::string::*;
use crate::seqs::{opt_text, texts};
use crate::table::{push_all_new, NameSet};
use crate::text::{after, from_chars, to_chars};
use crate::version::{current_version, version};

verus! {

broadcast use crate::seqs::group_text;

/// What of a file a cache depends on.
#[derive(Clone, Copy, Debug, PartialEq, Eq, Structural)]
pub enum FreshFileKeyMode {
    PathAndContent,
    ContentOnly,
}

/// What a cache file will be named after.
pub struct CacheManagerBuilder {
    pub cache_file_path: String,
    pub cache_keys: Vec<String>,
    pub fresh_duration: Option<u64>,
    pub fresh_files: Vec<String>,
    pub fresh_file_key_mode: FreshFileKeyMode,
}

/// The key of a file, where `hash` is the hash of its content if it could be read.
pub open spec fn file_key(
    mode: FreshFileKeyMode,
    path: Seq<char>,
    hash: Option<Seq<char>>,
) -> Seq<char> {
    let content = match hash {
        Some(h) => h,
        None => "<missing>"@,
    };
    match mode {
        FreshFileKeyMode::PathAndContent => path + ":"@ + content,
        FreshFileKeyMode::ContentOnly => content,
    }
}

/// The key of a file by its path and its content.
pub fn fresh_file_cache_key(path: &str, hash: &Option<String>) -> (r: String)
    ensures
        r@ == file_key(FreshFileKeyMode::PathAndContent, path@, opt_text(*hash)),
{
    let mut key = path.to_owned();
    key.append(":");
    match hash {
        Some(h) => key.append(h.as_str()),
        None => key.append("<missing>"),
    }
    key
}

/// The key of a file by its content alone.
pub fn fresh_file_content_cache_key(hash: &Option<String>) -> (r: String)
    ensures
        forall|path: Seq<char>|
            r@ == #[trigger] file_key(FreshFileKeyMode::ContentOnly, path, opt_text(*hash)),
{
    match hash {
        Some(h) => h.clone(),
        None => "<missing>".to_owned(),
    }
}

/// The position of the last `c`, -1 where there is none.
pub open spec fn last_position(s: Seq<char>, c: char) -> int
    decreases s.len(),
{
    if s.len() == 0 {
        -1
    } else if s.last() == c {
        s.len() - 1
    } else {
        last_position(s.drop_last(), c)
    }
}

/// The position of the last `c`.
pub fn find_last(s: &[char], c: char) -> (r: Option<usize>)
    ensures
        match r {
            Some(i) => i < s@.len() && i == last_position(s@, c),
            None => last_position(s@, c) == -1,
        },
{
    let mut i: usize = s.len();
    assert(s@.take(i as int) =~= s@);
    while i > 0
        invariant
            i <= s@.len(),
            last_position(s@, c) == last_position(s@.take(i as int), c),
        decreases i,
    {
        assert(s@.take(i as int).drop_last() =~= s@.take(i - 1));
        if s[i - 1] == c {
            return Some(i - 1);
        }
        i -= 1;
    }
    None
}

/// The part of a path up to and with its last separator.
pub open spec fn dir_part(path: Seq<char>) -> Seq<char> {
    path.take(last_position(path, '/') + 1)
}

/// The part of a path behind its last separator.
pub open spec fn name_part(path: Seq<char>) -> Seq<char> {
    after(path, last_position(path, '/') + 1)
}

/// A path that ends in a file name with an extension.
pub open spec fn has_extension(path: Seq<char>) -> bool {
    last_position(name_part(path), '.') >= 0 && name_part(path) != "."@ && name_part(path) != ".."@
}

/// A file name up to its last dot, and what stands behind it.
pub open spec fn stem_and_extension(path: Seq<char>) -> (Seq<char>, Seq<char>) {
    let name = name_part(path);
    let dot = last_position(name, '.');
    (name.take(dot), after(name, dot + 1))
}

proof fn lemma_last_position(s: Seq<char>, c: char)
    ensures
        -1 <= last_position(s, c) < s.len(),
    decreases s.len(),
{
    if s.len() > 0 && s.last() != c {
        lemma_last_position(s.drop_last(), c);
    }
}

fn file_name(path: &str) -> (r: (String, Vec<char>))
    ensures
        r.0@ == dir_part(path@),
        r.1@ == name_part(path@),
{
    let chars = to_chars(path);
    let n: usize = chars.len();
    let cut: usize = match find_last(&chars, '/') {
        Some(i) => i + 1,
        None => 0,
    };
    let dir = from_chars(&chars, 0, cut);
    assert(dir@ =~= dir_part(path@));
    let name = from_chars(&chars, cut, n);
    let name_chars = to_chars(name.as_str());
    assert(name_chars@ =~= name_part(path@));
    (dir, name_chars)
}

/// The name of the file that a path ends in, up to its last dot and behind it.
pub fn split_file_name(path: &str) -> (r: (String, String))
    requires
        has_extension(path@),
    ensures
        (r.0@, r.1@) == stem_and_extension(path@),
{
    let (_, name) = file_name(path);
    let n: usize = name.len();
    let dot: usize = match find_last(&name, '.') {
        Some(i) => i,
        None => 0,
    };
    let stem = from_chars(&name, 0, dot);
    assert(stem@ =~= name@.take(dot as int));
    (stem, from_chars(&name, dot + 1, n))
}

/// The first characters of a hash.
pub open spec fn short_hash(hash: Seq<char>) -> Seq<char> {
    hash.take(
        if hash.len() < 5 {
            hash.len() as int
        } else {
            5
        },
    )
}

fn shorten(hash: &str) -> (r: String)
    ensures
        r@ == short_hash(hash@),
{
    let chars = to_chars(hash);
    let n: usize = if chars.len() < 5 { chars.len() } else { 5 };
    let r = from_chars(&chars, 0, n);
    assert(r@ =~= hash@.take(n as int));
    r
}

/// The path of the cache file: `key` stands in the file name before the extension.
pub open spec fn keyed_path(path: Seq<char>, key: Seq<char>) -> Seq<char> {
    let (stem, ext) = stem_and_extension(path);
    dir_part(path) + (stem + "-"@ + key + "."@ + ext)
}

/// The keys of files, where `hashes` holds the hash of each if it could be read.
pub open spec fn file_keys(
    mode: FreshFileKeyMode,
    files: Seq<Seq<char>>,
    hashes: Seq<Option<Seq<char>>>,
) -> Seq<Seq<char>> {
    Seq::new(files.len(), |i: int| file_key(mode, files[i], hashes[i]))
}

pub open spec fn opt_hashes(v: Seq<Option<String>>) -> Seq<Option<Seq<char>>> {
    v.map_values(|o: Option<String>| opt_text(o))
}

impl CacheManagerBuilder {
    /// A cache at `cache_file_path`, which depends on the version of the program.
    pub fn new(cache_file_path: &str) -> (r: Self)
        ensures
            r.cache_file_path@ == cache_file_path@,
            texts(r.cache_keys@) == seq![current_version()],
            r.fresh_files@.len() == 0,
            r.fresh_duration is None,
            r.fresh_file_key_mode == FreshFileKeyMode::PathAndContent,
    {
        let mut cache_keys: Vec<String> = Vec::new();
        cache_keys.push(version().to_owned());
        assert(texts(cache_keys@) =~= seq![current_version()]);
        CacheManagerBuilder {
            cache_file_path: cache_file_path.to_owned(),
            cache_keys,
            fresh_duration: None,
            fresh_files: Vec::new(),
            fresh_file_key_mode: FreshFileKeyMode::PathAndContent,
        }
    }

    fn add_files(&mut self, paths: Vec<String>)
        ensures
            texts(final(self).fresh_files@) == texts(old(self).fresh_files@) + texts(paths@),
            final(self).cache_file_path == old(self).cache_file_path,
            final(self).cache_keys == old(self).cache_keys,
            final(self).fresh_duration == old(self).fresh_duration,
            final(self).fresh_file_key_mode == old(self).fresh_file_key_mode,
    {
        let ghost start = self.fresh_files@;
        let mut paths = paths;
        let ghost more = paths@;
        self.fresh_files.append(&mut paths);
        assert(texts(self.fresh_files@) =~= texts(start) + texts(more));
    }

    /// Lets the cache depend on the paths and contents of files too.
    pub fn with_fresh_files(self, paths: Vec<String>) -> (r: Self)
        ensures
            texts(r.fresh_files@) == texts(self.fresh_files@) + texts(paths@),
            r.cache_file_path == self.cache_file_path,
            r.cache_keys == self.cache_keys,
            r.fresh_duration == self.fresh_duration,
            r.fresh_file_key_mode == self.fresh_file_key_mode,
    {
        let mut this = self;
        this.add_files(paths);
        this
    }

    /// Lets the cache depend on `key` too.
    pub fn with_cache_key(self, key: &str) -> (r: Self)
        ensures
            texts(r.cache_keys@) == texts(self.cache_keys@).push(key@),
            r.cache_file_path == self.cache_file_path,
            r.fresh_files == self.fresh_files,
            r.fresh_duration == self.fresh_duration,
            r.fresh_file_key_mode == self.fresh_file_key_mode,
    {
        let mut this = self;
        this.cache_keys.push(key.to_owned());
        this
    }

    /// Lets the cache depend on the contents of files too, and on no path.
    pub fn with_content_fresh_files(self, paths: Vec<String>) -> (r: Self)
        ensures
            texts(r.fresh_files@) == texts(self.fresh_files@) + texts(paths@),
            r.cache_file_path == self.cache_file_path,
            r.cache_keys == self.cache_keys,
            r.fresh_duration == self.fresh_duration,
            r.fresh_file_key_mode == FreshFileKeyMode::ContentOnly,
    {
        let mut this = self;
        this.add_files(paths);
        this.fresh_file_key_mode = FreshFileKeyMode::ContentOnly;
        this
    }

    /// The files that the cache depends on, each once.
    pub fn unique_files(&self) -> (r: NameSet)
        ensures
            r@ == push_all_new(seq![], texts(self.fresh_files@)),
    {
        NameSet::of(&self.fresh_files)
    }

    /// All keys of the cache, where `hashes` holds the hash of the content of
    /// each file that it depends on, if it could be read.
    pub fn all_keys(&self, hashes: &Vec<Option<String>>) -> (r: Vec<String>)
        requires
            hashes@.len() == push_all_new(seq![], texts(self.fresh_files@)).len(),
        ensures
            texts(r@) == texts(self.cache_keys@) + file_keys(
                self.fresh_file_key_mode,
                push_all_new(seq![], texts(self.fresh_files@)),
                opt_hashes(hashes@),
            ),
    {
        let files = self.unique_files();
        let mut out = crate::text::dup_list(&self.cache_keys);
        let n: usize = files.len();
        let ghost keys = file_keys(self.fresh_file_key_mode, files@, opt_hashes(hashes@));
        assert(texts(out@) =~= texts(self.cache_keys@) + keys.take(0));
        for i in 0..n
            invariant
                n == files@.len(),
                n == hashes@.len(),
                keys == file_keys(self.fresh_file_key_mode, files@, opt_hashes(hashes@)),
                texts(out@) =~= texts(self.cache_keys@) + keys.take(i as int),
        {
            assert(opt_hashes(hashes@)[i as int] == opt_text(hashes@[i as int]));
            let key = match self.fresh_file_key_mode {
                FreshFileKeyMode::PathAndContent => fresh_file_cache_key(
                    files.at(i).as_str(),
                    &hashes[i],
                ),
                FreshFileKeyMode::ContentOnly => fresh_file_content_cache_key(&hashes[i]),
            };
            assert(key@ == keys[i as int]);
            out.push(key);
        }
        assert(keys.take(n as int) =~= keys);
        out
    }

    /// The key that a hash of all keys gives.
    pub fn cache_key(keys_hash: &str) -> (r: String)
        ensures
            r@ == short_hash(keys_hash@),
    {
        shorten(keys_hash)
    }

    /// The cache, where `keys_hash` is the hash of all its keys.
    pub fn build<T>(self, keys_hash: &str) -> (r: CacheManager<T>)
        requires
            has_extension(self.cache_file_path@),
        ensures
            r.cache_file_path@ == keyed_path(self.cache_file_path@, short_hash(keys_hash@)),
            r.fresh_duration == self.fresh_duration,
            r.value is None,
    {
        let key = CacheManagerBuilder::cache_key(keys_hash);
        let (base, ext) = split_file_name(self.cache_file_path.as_str());
        let mut name = base;
        name.append("-");
        name.append(key.as_str());
        name.append(".");
        name.append(ext.as_str());
        let (mut path, _) = file_name(self.cache_file_path.as_str());
        path.append(name.as_str());
        CacheManager { cache_file_path: path, fresh_duration: self.fresh_duration, value: None }
    }
}

/// A value that is kept in a file between runs, and in memory within one.
pub struct CacheManager<T> {
    pub cache_file_path: String,
    pub fresh_duration: Option<u64>,
    pub value: Option<T>,
}

impl<T> CacheManager<T> {
    /// Whether the cache file can be used: it exists, and is younger than the
    /// time for which it is fresh, where that is limited and the age is known.
    pub fn is_fresh(&self, present: bool, age: Option<u64>) -> (r: bool)
        ensures
            r == (present && !(self.fresh_duration is Some && age is Some && age->0
                >= self.fresh_duration->0)),
    {
        if !present {
            return false;
        }
        match (self.fresh_duration, age) {
            (Some(limit), Some(age)) => age < limit,
            _ => true,
        }
    }

    /// Settles the value: that in memory stays; else that of the cache file,
    /// `stored`, where it can be used; else what `fetch` gives, which then has to be
    /// written to the cache file. Whether it has to be is returned.
    pub fn get_or_try_init<F: FnOnce() -> Result<T, String>>(
        &mut self,
        stored: Option<T>,
        fetch: F,
    ) -> (r: Result<bool, String>)
        requires
            fetch.requires(()),
        ensures
            final(self).cache_file_path == old(self).cache_file_path,
            final(self).fresh_duration == old(self).fresh_duration,
            match old(self).value {
                Some(_) => final(self).value == old(self).value && r == Ok::<bool, String>(false),
                None => match stored {
                    Some(v) => final(self).value == Some(v) && r == Ok::<bool, String>(false),
                    None => exists|fetched: Result<T, String>|
                        #[trigger] fetch.ensures((), fetched) && (match fetched {
                            Ok(v) => final(self).value == Some(v) && r == Ok::<bool, String>(true),
                            Err(e) => final(self).value is None && r == Err::<bool, String>(e),
                        }),
                },
            },
    {
        if self.value.is_some() {
            return Ok(false);
        }
        if stored.is_some() {
            self.value = stored;
            return Ok(false);
        }
        let fetched = fetch();
        let ghost f = fetched;
        match fetched {
            Ok(v) => {
                self.value = Some(v);
                assert(fetch.ensures((), f));
                Ok(true)
            },
            Err(e) => {
                assert(fetch.ensures((), f));
                Err(e)
            },
        }
    }
}

/// Caches at the same place whose short hashes differ have different files.
pub proof fn law_distinct_keys_select_distinct_files(
    path: Seq<char>,
    a: Seq<char>,
    b: Seq<char>,
)
    requires
        has_extension(path),
        short_hash(a) != short_hash(b),
    ensures
        keyed_path(path, short_hash(a)) != keyed_path(path, short_hash(b)),
{
    let dir = dir_part(path);
    let (stem, ext) = stem_and_extension(path);
    let x = short_hash(a);
    let y = short_hash(b);
    let p = keyed_path(path, x);
    let q = keyed_path(path, y);
    let start = dir.len() + stem.len() + "-"@.len();
    let tail = "."@.len() + ext.len();
    if p == q {
        assert(p.len() == start + x.len() + tail);
        assert(q.len() == start + y.len() + tail);
        assert(x =~= p.subrange(start as int, (start + x.len()) as int));
        assert(y =~= q.subrange(start as int, (start + y.len()) as int));
    }
}

/// A cache that depends on contents alone does not depend on where files lie, so
/// that copies of a project share it.
pub proof fn law_content_keys_ignore_paths(
    a: Seq<char>,
    b: Seq<char>,
    hash: Option<Seq<char>>,
)
    ensures
        file_key(FreshFileKeyMode::ContentOnly, a, hash) == file_key(
            FreshFileKeyMode::ContentOnly,
            b,
            hash,
        ),
{
}

/// A cache depends on the content of its files, and on their paths where it is said to.
pub proof fn law_keys_depend_on_the_files(
    path: Seq<char>,
    a: Seq<char>,
    b: Seq<char>,
    mode: FreshFileKeyMode,
)
    ensures
        file_key(mode, path, Some(a)) == file_key(mode, path, Some(b)) ==> a == b,
        file_key(FreshFileKeyMode::PathAndContent, a, Some(path)) == file_key(
            FreshFileKeyMode::PathAndContent,
            b,
            Some(path),
        ) ==> a == b,
        file_key(FreshFileKeyMode::PathAndContent, a, None) == file_key(
            FreshFileKeyMode::PathAndContent,
            b,
            None,
        ) ==> a == b,
{
    let p = path + ":"@;
    let x = p + a;
    let y = p + b;
    if x == y {
        assert(x.skip(p.len() as int) =~= a);
        assert(y.skip(p.len() as int) =~= b);
    }
    let u = a + ":"@ + path;
    let v = b + ":"@ + path;
    if u == v {
        assert(u.len() == a.len() + ":"@.len() + path.len());
        assert(v.len() == b.len() + ":"@.len() + path.len());
        assert(u.take(a.len() as int) =~= a);
        assert(v.take(b.len() as int) =~= b);
    }
    let missing = "<missing>"@;
    let s = a + ":"@ + missing;
    let t = b + ":"@ + missing;
    if s == t {
        assert(s.len() == a.len() + ":"@.len() + missing.len());
        assert(t.len() == b.len() + ":"@.len() + missing.len());
        assert(s.take(a.len() as int) =~= a);
        assert(t.take(b.len() as int) =~= b);
    }
}

/// Each file of a cache has a key among its keys.
pub proof fn law_every_file_has_a_key(
    mode: FreshFileKeyMode,
    files: Seq<Seq<char>>,
    hashes: Seq<Option<Seq<char>>>,
    i: int,
)
    requires
        0 <= i < files.len(),
    ensures
        file_keys(mode, files, hashes).len() == files.len(),
        file_keys(mode, files, hashes)[i] == file_key(mode, files[i], hashes[i]),
{
}

proof fn lemma_last_found(s: Seq<char>, c: char)
    ensures
        last_position(s, c) >= 0 ==> s[last_position(s, c)] == c,
        forall|k: int| last_position(s, c) < k < s.len() ==> s[k] != c,
    decreases s.len(),
{
    lemma_last_position(s, c);
    if s.len() > 0 && s.last() != c {
        let init = s.drop_last();
        lemma_last_found(init, c);
        lemma_last_position(init, c);
        assert forall|k: int| last_position(s, c) < k < s.len() implies s[k] != c by {
            if k < init.len() {
                assert(init[k] == s[k]);
            }
        }
    }
}

/// A path is its directory and its name one behind the other; the name has no separator,
/// and the directory ends in one or is empty.
pub proof fn law_paths_are_directory_and_name(path: Seq<char>)
    ensures
        dir_part(path) + name_part(path) == path,
        !name_part(path).contains('/'),
        dir_part(path).len() > 0 ==> dir_part(path).last() == '/',
{
    lemma_last_position(path, '/');
    lemma_last_found(path, '/');
    let cut = last_position(path, '/') + 1;
    assert(dir_part(path) + name_part(path) =~= path);
    let name = name_part(path);
    if name.contains('/') {
        let i = choose|i: int| 0 <= i < name.len() && name[i] == '/';
        assert(path[cut + i] == '/');
    }
}

/// The name of a file is its stem and its extension with a dot between, and the extension
/// holds no dot.
pub proof fn law_names_are_stem_and_extension(path: Seq<char>)
    requires
        has_extension(path),
    ensures
        ({
            let (stem, ext) = stem_and_extension(path);
            &&& name_part(path) == stem + seq!['.'] + ext
            &&& !ext.contains('.')
        }),
{
    let name = name_part(path);
    lemma_last_position(name, '.');
    lemma_last_found(name, '.');
    let (stem, ext) = stem_and_extension(path);
    assert(name =~= stem + seq!['.'] + ext);
    if ext.contains('.') {
        let i = choose|i: int| 0 <= i < ext.len() && ext[i] == '.';
        assert(name[last_position(name, '.') + 1 + i] == '.');
    }
}

/// A cache file lies in the directory that was asked for, keeps the extension, and has the
/// key in its name.
pub proof fn law_cache_files_keep_place_and_kind(path: Seq<char>, key: Seq<char>)
    requires
        has_extension(path),
    ensures
        ({
            let (stem, ext) = stem_and_extension(path);
            keyed_path(path, key) == dir_part(path) + stem + seq!['-'] + key + seq!['.'] + ext
        }),
{
    let (stem, ext) = stem_and_extension(path);
    reveal_strlit("-");
    reveal_strlit(".");
    assert("-"@ =~= seq!['-']);
    assert("."@ =~= seq!['.']);
    assert(keyed_path(path, key) =~= dir_part(path) + stem + seq!['-'] + key + seq!['.'] + ext);
}

/// A short hash is the beginning of the hash.
pub proof fn law_short_hashes_begin_the_hash(hash: Seq<char>)
    ensures
        exists|rest: Seq<char>| hash == #[trigger] (short_hash(hash) + rest),
        hash.len() >= 5 ==> short_hash(hash).len() == 5,
        hash.len() < 5 ==> short_hash(hash) == hash,
{
    let n = short_hash(hash).len() as int;
    assert(hash =~= short_hash(hash) + hash.skip(n));
    if hash.len() < 5 {
        assert(short_hash(hash) =~= hash);
    }
}

} // verus!
