//! Paths, as texts whose parts are separated by `/`.

use vstd::prelude::*;
use vstd::string::*;
use crate::cache::{find_last, last_position};
use crate::seqs::{opt_text, texts};
use crate::text::{
    after, ends, ends_with, from_chars, is_before, join, joined, same, split, split_on, starts,
    starts_with, text_before, to_chars,
};

verus! {

broadcast use crate::seqs::group_text;

/// The parts of a path: whether it begins at the root, and its components.
/// Doubled separators and single dots are no components, but for a leading dot.
pub open spec fn path_parts(path: Seq<char>) -> (bool, Seq<Seq<char>>) {
    (starts(path, "/"@), components(split_on(path, '/')))
}

pub open spec fn components(pieces: Seq<Seq<char>>) -> Seq<Seq<char>>
    decreases pieces.len(),
{
    if pieces.len() == 0 {
        seq![]
    } else {
        let before = components(pieces.drop_last());
        let piece = pieces.last();
        if piece.len() == 0 || (piece == "."@ && pieces.len() > 1) {
            before
        } else {
            before.push(piece)
        }
    }
}

/// The parts of a path.
pub fn parts_of(path: &str) -> (r: (bool, Vec<String>))
    ensures
        (r.0, texts(r.1@)) == path_parts(path@),
{
    let pieces = split(path, '/');
    let mut out: Vec<String> = Vec::new();
    assert(texts(out@) =~= components(texts(pieces@).take(0)));
    for i in 0..pieces.len()
        invariant
            texts(out@) == components(texts(pieces@).take(i as int)),
    {
        let piece = pieces[i].as_str();
        if !(piece.is_empty() || (same(piece, ".") && i > 0)) {
            out.push(pieces[i].clone());
        }
    }
    assert(texts(pieces@).take(pieces@.len() as int) =~= texts(pieces@));
    (starts_with(path, "/"), out)
}

/// `path` is `root` or lies below it.
pub open spec fn lies_within(path: Seq<char>, root: Seq<char>) -> bool {
    let (a, p) = path_parts(path);
    let (b, r) = path_parts(root);
    a == b && r.len() <= p.len() && p.take(r.len() as int) == r
}

/// Whether `path` is `root` or lies below it.
pub fn is_within(path: &str, root: &str) -> (r: bool)
    ensures
        r == lies_within(path@, root@),
{
    let (a, p) = parts_of(path);
    let (b, q) = parts_of(root);
    if a != b || q.len() > p.len() {
        return false;
    }
    for i in 0..q.len()
        invariant
            q@.len() <= p@.len(),
            forall|k: int| 0 <= k < i ==> texts(p@)[k] == texts(q@)[k],
            (a, texts(p@)) == path_parts(path@),
            (b, texts(q@)) == path_parts(root@),
    {
        if !same(p[i].as_str(), q[i].as_str()) {
            assert(texts(p@).take(q@.len() as int)[i as int] != texts(q@)[i as int]);
            return false;
        }
    }
    assert(texts(p@).take(q@.len() as int) =~= texts(q@));
    true
}

/// The path with the given parts.
pub open spec fn path_text(absolute: bool, parts: Seq<Seq<char>>) -> Seq<char> {
    if absolute {
        "/"@ + joined(parts, "/"@)
    } else {
        joined(parts, "/"@)
    }
}

/// The directory that a path lies in: the path without its last part, where it has one.
pub open spec fn parent_path(path: Seq<char>) -> Option<Seq<char>> {
    let (absolute, parts) = path_parts(path);
    if parts.len() == 0 {
        None
    } else {
        Some(path_text(absolute, parts.drop_last()))
    }
}

/// The name that a path ends in.
pub open spec fn last_name(path: Seq<char>) -> Option<Seq<char>> {
    let parts = path_parts(path).1;
    if parts.len() == 0 || parts.last() == "."@ || parts.last() == ".."@ {
        None
    } else {
        Some(parts.last())
    }
}

/// What stands behind the last dot of the name that a path ends in, if the name
/// does not begin with that dot.
pub open spec fn extension(path: Seq<char>) -> Option<Seq<char>> {
    match last_name(path) {
        Some(name) => if last_position(name, '.') > 0 {
            Some(after(name, last_position(name, '.') + 1))
        } else {
            None
        },
        None => None,
    }
}

/// `path` as seen from the directory `dir`.
pub open spec fn joined_path(dir: Seq<char>, path: Seq<char>) -> Seq<char> {
    if starts(path, "/"@) || dir.len() == 0 {
        path
    } else if ends(dir, "/"@) {
        dir + path
    } else {
        dir + "/"@ + path
    }
}

/// The way from `base` down to `path`, where there is one.
pub open spec fn path_below(path: Seq<char>, base: Seq<char>) -> Option<Seq<char>> {
    if lies_within(path, base) {
        Some(
            path_text(
                false,
                path_parts(path).1.skip(path_parts(base).1.len() as int),
            ),
        )
    } else {
        None
    }
}

fn write_path(absolute: bool, parts: &Vec<String>, from: usize, to: usize) -> (r: String)
    requires
        from <= to <= parts@.len(),
    ensures
        r@ == path_text(absolute, texts(parts@).subrange(from as int, to as int)),
{
    let mut kept: Vec<String> = Vec::new();
    for i in from..to
        invariant
            from <= to <= parts@.len(),
            texts(kept@) =~= texts(parts@).subrange(from as int, i as int),
    {
        kept.push(parts[i].clone());
    }
    let text = join(&kept, "/");
    if absolute {
        let mut s = "/".to_owned();
        s.append(text.as_str());
        s
    } else {
        text
    }
}

/// The directory that a path lies in.
pub fn parent_of(path: &str) -> (r: Option<String>)
    ensures
        opt_text(r) == parent_path(path@),
{
    let (absolute, parts) = parts_of(path);
    let n: usize = parts.len();
    assert(texts(parts@).len() == n);
    if n == 0 {
        None
    } else {
        assert(texts(parts@).subrange(0, n - 1) =~= texts(parts@).drop_last());
        Some(write_path(absolute, &parts, 0, n - 1))
    }
}

/// The name that a path ends in.
pub fn name_of(path: &str) -> (r: Option<String>)
    ensures
        opt_text(r) == last_name(path@),
{
    let (_, parts) = parts_of(path);
    let n: usize = parts.len();
    assert(texts(parts@).len() == n);
    if n == 0 {
        return None;
    }
    assert(texts(parts@)[n - 1] == parts@[n - 1]@);
    let last = parts[n - 1].as_str();
    if same(last, ".") || same(last, "..") {
        None
    } else {
        Some(last.to_owned())
    }
}

/// The extension of the name that a path ends in.
pub fn extension_of(path: &str) -> (r: Option<String>)
    ensures
        opt_text(r) == extension(path@),
{
    match name_of(path) {
        Some(name) => {
            let chars = to_chars(name.as_str());
            let n: usize = chars.len();
            match find_last(&chars, '.') {
                Some(i) => if i > 0 {
                    Some(from_chars(&chars, i + 1, n))
                } else {
                    None
                },
                None => None,
            }
        },
        None => None,
    }
}

/// `path` as seen from the directory `dir`.
pub fn join_path(dir: &str, path: &str) -> (r: String)
    ensures
        r@ == joined_path(dir@, path@),
{
    if starts_with(path, "/") || dir.is_empty() {
        return path.to_owned();
    }
    let mut s = dir.to_owned();
    if !ends_with(dir, "/") {
        s.append("/");
    }
    s.append(path);
    s
}

/// The way from `base` down to `path`, where there is one.
pub fn strip_base(path: &str, base: &str) -> (r: Option<String>)
    ensures
        opt_text(r) == path_below(path@, base@),
{
    if !is_within(path, base) {
        return None;
    }
    let (_, p) = parts_of(path);
    let (_, q) = parts_of(base);
    assert(texts(p@).len() == p@.len() && texts(q@).len() == q@.len());
    assert(texts(p@).subrange(q@.len() as int, p@.len() as int) =~= texts(p@).skip(q@.len() as int));
    Some(write_path(false, &p, q.len(), p.len()))
}

/// A directory and those that it lies in, from the inside out, without the root
/// of the file system or the empty path at the end.
pub open spec fn ancestors(path: Seq<char>) -> Seq<Seq<char>> {
    let (absolute, parts) = path_parts(path);
    Seq::new(parts.len(), |i: int| path_text(absolute, parts.take(parts.len() - i)))
}

/// A directory and those that it lies in.
pub fn ancestors_of(path: &str) -> (r: Vec<String>)
    ensures
        texts(r@) == ancestors(path@),
{
    let (absolute, parts) = parts_of(path);
    let n: usize = parts.len();
    let mut out: Vec<String> = Vec::new();
    for i in 0..n
        invariant
            n == parts@.len(),
            (absolute, texts(parts@)) == path_parts(path@),
            texts(out@) =~= ancestors(path@).take(i as int),
    {
        let dir = write_path(absolute, &parts, 0, n - i);
        assert(texts(parts@).subrange(0, n - i) =~= texts(parts@).take(n - i));
        assert(dir@ == ancestors(path@)[i as int]);
        out.push(dir);
    }
    assert(texts(out@) =~= ancestors(path@));
    out
}

proof fn lemma_joined_pieces(parts: Seq<Seq<char>>)
    requires
        parts.len() > 0,
        forall|i: int| 0 <= i < parts.len() ==> !(#[trigger] parts[i]).contains('/'),
    ensures
        split_on(joined(parts, "/"@), '/') == parts,
    decreases parts.len(),
{
    reveal_strlit("/");
    let head = parts.drop_last();
    if head.len() == 0 {
        lemma_pieces_with_tail(seq![], parts[0]);
        assert(seq![seq![]] + Seq::<Seq<char>>::empty() =~= split_on(seq![], '/'));
        assert(joined(parts, "/"@) =~= Seq::<char>::empty() + parts[0]);
        assert(parts =~= seq![parts[0]]);
    } else {
        lemma_joined_pieces(head);
        let before = joined(head, "/"@) + "/"@;
        assert(before.drop_last() =~= joined(head, "/"@));
        assert(before.last() == '/');
        assert(split_on(before, '/') == head.push(seq![]));
        lemma_pieces_with_tail(before, parts.last());
        assert(joined(parts, "/"@) =~= before + parts.last());
        assert(parts =~= head.push(parts.last()));
    }
}

/// A tail without separators goes to the last piece.
proof fn lemma_pieces_with_tail(s: Seq<char>, tail: Seq<char>)
    requires
        !tail.contains('/'),
    ensures
        split_on(s, '/').len() >= 1,
        split_on(s + tail, '/') == split_on(s, '/').drop_last().push(split_on(s, '/').last() + tail),
    decreases tail.len(),
{
    crate::text::lemma_split_on(s, '/');
    let pieces = split_on(s, '/');
    if tail.len() == 0 {
        assert(s + tail =~= s);
        assert(pieces.last() + tail =~= pieces.last());
        assert(pieces.drop_last().push(pieces.last()) =~= pieces);
    } else {
        let rest = tail.drop_last();
        assert(!rest.contains('/')) by {
            assert forall|i: int| 0 <= i < rest.len() implies rest[i] != '/' by {
                assert(tail[i] == rest[i]);
            }
        }
        lemma_pieces_with_tail(s, rest);
        assert((s + tail).drop_last() =~= s + rest);
        assert((s + tail).last() == tail.last());
        assert(tail[tail.len() - 1] != '/');
        let before = split_on(s + rest, '/');
        assert(before.last() == pieces.last() + rest);
        assert((pieces.last() + rest).push(tail.last()) =~= pieces.last() + tail);
        assert(split_on(s + tail, '/') =~= pieces.drop_last().push(pieces.last() + tail));
    }
}

/// Parts that can stand in a path: none is empty, holds a separator or, behind
/// the first, is a single dot.
pub open spec fn proper_parts(absolute: bool, parts: Seq<Seq<char>>) -> bool {
    forall|i: int|
        0 <= i < parts.len() ==> (#[trigger] parts[i]).len() > 0 && !parts[i].contains('/') && (parts[i]
            == "."@ ==> i == 0 && !absolute)
}

proof fn lemma_proper_components(parts: Seq<Seq<char>>)
    requires
        proper_parts(false, parts),
    ensures
        components(parts) == parts,
    decreases parts.len(),
{
    if parts.len() > 0 {
        assert(proper_parts(false, parts.drop_last())) by {
            assert forall|i: int| 0 <= i < parts.len() - 1 implies (#[trigger] parts.drop_last()[i]).len() > 0
                && !parts.drop_last()[i].contains('/') && (parts.drop_last()[i] == "."@ ==> i == 0) by {
                assert(parts.drop_last()[i] == parts[i]);
            }
        }
        lemma_proper_components(parts.drop_last());
        assert(parts.drop_last().push(parts.last()) =~= parts);
    }
}

proof fn lemma_rooted_components(parts: Seq<Seq<char>>)
    requires
        proper_parts(true, parts),
    ensures
        components(seq![Seq::<char>::empty()] + parts) == parts,
    decreases parts.len(),
{
    let all = seq![Seq::<char>::empty()] + parts;
    if parts.len() == 0 {
        assert(all.drop_last() =~= Seq::<Seq<char>>::empty());
        assert(components(all.drop_last()) == Seq::<Seq<char>>::empty());
        assert(components(all) =~= parts);
    } else {
        assert(proper_parts(true, parts.drop_last())) by {
            assert forall|i: int| 0 <= i < parts.len() - 1 implies (#[trigger] parts.drop_last()[i]).len() > 0
                && !parts.drop_last()[i].contains('/') && (parts.drop_last()[i] == "."@ ==> false) by {
                assert(parts.drop_last()[i] == parts[i]);
            }
        }
        lemma_rooted_components(parts.drop_last());
        assert(all.drop_last() =~= seq![Seq::<char>::empty()] + parts.drop_last());
        assert(all.last() == parts[parts.len() - 1]);
        assert(parts.drop_last().push(parts.last()) =~= parts);
    }
}

/// A path that is written from parts has those parts.
pub proof fn law_written_paths_keep_their_parts(absolute: bool, parts: Seq<Seq<char>>)
    requires
        proper_parts(absolute, parts),
    ensures
        path_parts(path_text(absolute, parts)) == (absolute, parts),
{
    reveal_strlit("/");
    let text = path_text(absolute, parts);
    let inner = joined(parts, "/"@);
    if parts.len() == 0 {
        assert(inner =~= Seq::<char>::empty());
        if absolute {
            assert(text =~= seq!['/']);
            assert(text.drop_last() =~= Seq::<char>::empty());
            assert(split_on(text.drop_last(), '/') == seq![Seq::<char>::empty()]);
            assert(text.last() == '/');
            assert(split_on(text, '/') =~= seq![Seq::<char>::empty(), Seq::<char>::empty()]);
            let two = split_on(text, '/');
            assert(two.drop_last() =~= seq![Seq::<char>::empty()]);
            assert(two.drop_last().drop_last() =~= Seq::<Seq<char>>::empty());
            assert(components(two.drop_last().drop_last()) == Seq::<Seq<char>>::empty());
            assert(components(two.drop_last()) =~= Seq::<Seq<char>>::empty());
            assert(components(two) =~= parts);
            assert(starts(text, "/"@)) by {
                assert(text.subrange(0, 1) =~= "/"@);
            }
        } else {
            let one = split_on(text, '/');
            assert(one =~= seq![Seq::<char>::empty()]);
            assert(one.drop_last() =~= Seq::<Seq<char>>::empty());
            assert(components(one.drop_last()) == Seq::<Seq<char>>::empty());
            assert(components(one) =~= parts);
        }
    } else {
        assert forall|i: int| 0 <= i < parts.len() implies !(#[trigger] parts[i]).contains('/') by {}
        lemma_joined_pieces(parts);
        if absolute {
            let all = seq![Seq::<char>::empty()] + parts;
            assert(all.drop_first() =~= parts);
            lemma_joined_head(all);
            assert(text =~= joined(all, "/"@));
            assert forall|i: int| 0 <= i < all.len() implies !(#[trigger] all[i]).contains('/') by {
                if i > 0 {
                    assert(all[i] == parts[i - 1]);
                }
            }
            lemma_joined_pieces(all);
            lemma_rooted_components(parts);
            assert(starts(text, "/"@)) by {
                assert(text.subrange(0, 1) =~= "/"@);
            }
        } else {
            lemma_proper_components(parts);
            lemma_joined_first(parts);
            assert(text[0] != '/');
            assert(!starts(text, "/"@)) by {
                if starts(text, "/"@) {
                    assert(text.subrange(0, 1)[0] == "/"@[0]);
                }
            }
        }
    }
}

/// An empty first part puts a separator in front.
proof fn lemma_joined_head(all: Seq<Seq<char>>)
    requires
        all.len() > 1,
        all[0].len() == 0,
    ensures
        joined(all, "/"@) == "/"@ + joined(all.drop_first(), "/"@),
    decreases all.len(),
{
    if all.len() == 2 {
        let one = all.drop_last();
        assert(one.drop_last() =~= Seq::<Seq<char>>::empty());
        assert(joined(one, "/"@) =~= Seq::<char>::empty());
        assert(all.drop_first().drop_last() =~= Seq::<Seq<char>>::empty());
        assert(joined(all, "/"@) =~= "/"@ + joined(all.drop_first(), "/"@));
    } else {
        lemma_joined_head(all.drop_last());
        assert(all.drop_last().drop_first() =~= all.drop_first().drop_last());
        assert(joined(all, "/"@) =~= "/"@ + joined(all.drop_first(), "/"@));
    }
}

/// Joined parts begin with the first character of the first part.
proof fn lemma_joined_first(parts: Seq<Seq<char>>)
    requires
        parts.len() > 0,
        proper_parts(false, parts),
    ensures
        joined(parts, "/"@).len() > 0,
        joined(parts, "/"@)[0] == parts[0][0],
        parts[0][0] != '/',
    decreases parts.len(),
{
    assert(parts[0].contains(parts[0][0]));
    if parts.len() == 1 {
        assert(joined(parts, "/"@) =~= parts[0]);
    } else {
        let head = parts.drop_last();
        assert(proper_parts(false, head)) by {
            assert forall|i: int| 0 <= i < head.len() implies (#[trigger] head[i]).len() > 0
                && !head[i].contains('/') && (head[i] == "."@ ==> i == 0) by {
                assert(head[i] == parts[i]);
            }
        }
        lemma_joined_first(head);
    }
}

/// The pieces between separators hold no separator.
proof fn lemma_pieces_hold_no_separator(s: Seq<char>)
    ensures
        split_on(s, '/').len() >= 1,
        forall|i: int| 0 <= i < split_on(s, '/').len() ==> !(#[trigger] split_on(s, '/')[i]).contains('/'),
    decreases s.len(),
{
    if s.len() > 0 {
        let before = split_on(s.drop_last(), '/');
        lemma_pieces_hold_no_separator(s.drop_last());
        let all = split_on(s, '/');
        assert forall|i: int| 0 <= i < all.len() implies !(#[trigger] all[i]).contains('/') by {
            if i < before.len() - 1 {
                assert(all[i] == before[i]);
            } else if s.last() != '/' {
                let last = before[before.len() - 1];
                assert(all[i] == last.push(s.last()));
                assert forall|k: int| 0 <= k < all[i].len() implies all[i][k] != '/' by {
                    if k < last.len() {
                        assert(last.contains(last[k]));
                    }
                }
            } else if i < before.len() {
                assert(all[i] == before[i]);
            }
        }
    }
}

proof fn lemma_first_piece(s: Seq<char>)
    ensures
        starts(s, "/"@) ==> split_on(s, '/')[0].len() == 0,
        split_on(s, '/').len() >= 1,
    decreases s.len(),
{
    reveal_strlit("/");
    crate::text::lemma_split_on(s, '/');
    if starts(s, "/"@) {
        assert(s.subrange(0, 1)[0] == '/');
        crate::text::lemma_split_on(s.drop_last(), '/');
        if s.len() > 1 {
            assert(starts(s.drop_last(), "/"@)) by {
                assert(s.drop_last().subrange(0, 1) =~= "/"@);
            }
            lemma_first_piece(s.drop_last());
            if s.last() != '/' && split_on(s.drop_last(), '/').len() == 1 {
                lemma_rooted_has_two(s.drop_last());
            }
        } else {
            assert(s.drop_last() =~= Seq::<char>::empty());
        }
    }
}

proof fn lemma_rooted_has_two(s: Seq<char>)
    requires
        starts(s, "/"@),
    ensures
        split_on(s, '/').len() >= 2,
    decreases s.len(),
{
    reveal_strlit("/");
    assert(s.subrange(0, 1)[0] == '/');
    crate::text::lemma_split_on(s.drop_last(), '/');
    if s.len() > 1 {
        assert(starts(s.drop_last(), "/"@)) by {
            assert(s.drop_last().subrange(0, 1) =~= "/"@);
        }
        lemma_rooted_has_two(s.drop_last());
    }
}

proof fn lemma_components_are_proper(pieces: Seq<Seq<char>>, absolute: bool)
    requires
        forall|i: int| 0 <= i < pieces.len() ==> !(#[trigger] pieces[i]).contains('/'),
        absolute ==> pieces.len() > 0 && pieces[0].len() == 0,
    ensures
        proper_parts(absolute, components(pieces)),
        components(pieces).len() <= pieces.len(),
        pieces.len() > 0 && pieces[0].len() == 0 ==> components(pieces).len() < pieces.len(),
    decreases pieces.len(),
{
    if pieces.len() > 0 {
        let head = pieces.drop_last();
        assert forall|i: int| 0 <= i < head.len() implies !(#[trigger] head[i]).contains('/') by {
            assert(head[i] == pieces[i]);
        }
        if head.len() > 0 {
            assert(head[0] == pieces[0]);
            lemma_components_are_proper(head, absolute);
        } else {
            assert(components(head).len() == 0);
        }
        let before = components(head);
        let all = components(pieces);
        assert forall|i: int| 0 <= i < all.len() implies (#[trigger] all[i]).len() > 0 && !all[i].contains(
            '/',
        ) && (all[i] == "."@ ==> i == 0 && !absolute) by {
            reveal_strlit(".");
            if i < before.len() {
                assert(all[i] == before[i]);
                assert(proper_parts(absolute, before));
            } else {
                assert(all[i] == pieces[pieces.len() - 1]);
                if pieces.len() == 1 && absolute {
                    assert(pieces.last() == pieces[0]);
                }
            }
        }
    }
}

/// The parts of every path are such as can stand in one.
pub proof fn law_parts_are_proper(path: Seq<char>)
    ensures
        proper_parts(path_parts(path).0, path_parts(path).1),
{
    lemma_pieces_hold_no_separator(path);
    lemma_first_piece(path);
    lemma_components_are_proper(split_on(path, '/'), starts(path, "/"@));
}

/// The directory that a path lies in has all its parts but the last.
pub proof fn law_parent_drops_the_last_part(path: Seq<char>)
    requires
        path_parts(path).1.len() > 0,
    ensures
        parent_path(path) is Some,
        path_parts(parent_path(path)->0) == (path_parts(path).0, path_parts(path).1.drop_last()),
{
    law_parts_are_proper(path);
    let (absolute, parts) = path_parts(path);
    let fewer = parts.drop_last();
    assert(proper_parts(absolute, fewer)) by {
        assert forall|i: int| 0 <= i < fewer.len() implies (#[trigger] fewer[i]).len() > 0
            && !fewer[i].contains('/') && (fewer[i] == "."@ ==> i == 0 && !absolute) by {
            assert(fewer[i] == parts[i]);
        }
    }
    law_written_paths_keep_their_parts(absolute, fewer);
}

/// How early a part of a path comes: the root, a dot, two dots, a name.
pub open spec fn part_rank(part: Seq<char>) -> int {
    if part == "/"@ {
        0
    } else if part == "."@ {
        1
    } else if part == ".."@ {
        2
    } else {
        3
    }
}

/// The part `a` stands before the part `b`.
pub open spec fn part_before(a: Seq<char>, b: Seq<char>) -> bool {
    part_rank(a) < part_rank(b) || (part_rank(a) == part_rank(b) && text_before(a, b))
}

/// Of two lists of parts, `p` stands before `q`: by the first part in which they
/// differ, or as the shorter one.
pub open spec fn parts_before(p: Seq<Seq<char>>, q: Seq<Seq<char>>) -> bool
    decreases p.len(),
{
    if q.len() == 0 {
        false
    } else if p.len() == 0 {
        true
    } else if p[0] != q[0] {
        part_before(p[0], q[0])
    } else {
        parts_before(p.drop_first(), q.drop_first())
    }
}

/// All parts of a path, the root among them.
pub open spec fn all_parts(path: Seq<char>) -> Seq<Seq<char>> {
    let (absolute, parts) = path_parts(path);
    if absolute {
        seq!["/"@] + parts
    } else {
        parts
    }
}

/// The path `a` stands before the path `b`, part by part.
pub open spec fn path_before(a: Seq<char>, b: Seq<char>) -> bool {
    parts_before(all_parts(a), all_parts(b))
}

fn rank_of(part: &str) -> (r: u8)
    ensures
        r == part_rank(part@),
{
    if same(part, "/") {
        0
    } else if same(part, ".") {
        1
    } else if same(part, "..") {
        2
    } else {
        3
    }
}

fn list_parts(path: &str) -> (r: Vec<String>)
    ensures
        texts(r@) == all_parts(path@),
{
    let (absolute, mut parts) = parts_of(path);
    if !absolute {
        return parts;
    }
    let ghost rest = texts(parts@);
    let mut all: Vec<String> = Vec::new();
    all.push("/".to_owned());
    assert(texts(all@) =~= seq!["/"@]);
    all.append(&mut parts);
    assert(texts(all@) =~= seq!["/"@] + rest);
    all
}

/// Whether the path `a` stands before the path `b`.
pub fn is_path_before(a: &str, b: &str) -> (r: bool)
    ensures
        r == path_before(a@, b@),
{
    let p = list_parts(a);
    let q = list_parts(b);
    let ghost ps = texts(p@);
    let ghost qs = texts(q@);
    let mut i: usize = 0;
    assert(ps.skip(0) =~= ps);
    assert(qs.skip(0) =~= qs);
    while i < p.len() && i < q.len() && same(p[i].as_str(), q[i].as_str())
        invariant
            ps == texts(p@),
            qs == texts(q@),
            i <= p@.len(),
            i <= q@.len(),
            parts_before(ps, qs) == parts_before(ps.skip(i as int), qs.skip(i as int)),
        decreases p.len() - i,
    {
        assert(ps.skip(i as int).drop_first() =~= ps.skip(i + 1));
        assert(qs.skip(i as int).drop_first() =~= qs.skip(i + 1));
        i += 1;
    }
    if i == q.len() {
        false
    } else if i == p.len() {
        true
    } else {
        assert(ps.skip(i as int)[0] == p@[i as int]@);
        assert(qs.skip(i as int)[0] == q@[i as int]@);
        let x = rank_of(p[i].as_str());
        let y = rank_of(q[i].as_str());
        x < y || (x == y && is_before(p[i].as_str(), q[i].as_str()))
    }
}

/// Two texts are the same path: they have the same parts.
pub open spec fn same_path(a: Seq<char>, b: Seq<char>) -> bool {
    all_parts(a) == all_parts(b)
}

fn is_same_path(a: &str, b: &str) -> (r: bool)
    ensures
        r == same_path(a@, b@),
{
    let p = list_parts(a);
    let q = list_parts(b);
    let ghost ps = texts(p@);
    let ghost qs = texts(q@);
    if p.len() != q.len() {
        assert(ps.len() != qs.len());
        return false;
    }
    for i in 0..p.len()
        invariant
            p@.len() == q@.len(),
            ps == texts(p@),
            qs == texts(q@),
            ps == all_parts(a@),
            qs == all_parts(b@),
            forall|k: int| 0 <= k < i ==> ps[k] == qs[k],
    {
        assert(ps[i as int] == p@[i as int]@ && qs[i as int] == q@[i as int]@);
        if !same(p[i].as_str(), q[i].as_str()) {
            return false;
        }
    }
    assert(ps =~= qs);
    true
}

/// `s`, which is in order, with the path `x` at its place unless it is there already.
pub open spec fn with_path(s: Seq<Seq<char>>, x: Seq<char>) -> Seq<Seq<char>>
    decreases s.len(),
{
    if s.len() == 0 {
        seq![x]
    } else if same_path(s.last(), x) {
        s
    } else if path_before(s.last(), x) {
        s.push(x)
    } else {
        with_path(s.drop_last(), x).push(s.last())
    }
}

/// The paths of `s` in order, each once.
pub open spec fn sorted_paths(s: Seq<Seq<char>>) -> Seq<Seq<char>>
    decreases s.len(),
{
    if s.len() == 0 {
        seq![]
    } else {
        with_path(sorted_paths(s.drop_last()), s.last())
    }
}

fn insert_path(list: &mut Vec<String>, x: String)
    ensures
        texts(final(list)@) == with_path(texts(old(list)@), x@),
{
    let ghost s = texts(list@);
    let mut i: usize = list.len();
    assert(s.take(i as int) =~= s);
    assert(with_path(s, x@) =~= with_path(s.take(i as int), x@) + s.skip(i as int));
    while i > 0
        invariant
            i <= list@.len(),
            list@ == old(list)@,
            s == texts(list@),
            with_path(s, x@) == with_path(s.take(i as int), x@) + s.skip(i as int),
        decreases i,
    {
        assert(s.take(i as int).last() == list@[i - 1]@);
        if is_same_path(list[i - 1].as_str(), x.as_str()) {
            assert(s.take(i as int) + s.skip(i as int) =~= s);
            return;
        }
        if is_path_before(list[i - 1].as_str(), x.as_str()) {
            assert(s.take(i as int).push(x@) + s.skip(i as int) =~= s.insert(i as int, x@));
            list.insert(i, x);
            assert(texts(list@) =~= s.insert(i as int, x@));
            return;
        }
        assert(s.take(i as int).drop_last() =~= s.take(i - 1));
        assert(with_path(s.take(i as int), x@) + s.skip(i as int) =~= with_path(s.take(i - 1), x@)
            + s.skip(i - 1));
        i -= 1;
    }
    assert(seq![x@] + s.skip(0) =~= s.insert(0, x@));
    list.insert(0, x);
    assert(texts(list@) =~= s.insert(0, x@));
}

/// The paths of `list` in order, each once.
pub fn sort_paths(list: &Vec<String>) -> (r: Vec<String>)
    ensures
        texts(r@) == sorted_paths(texts(list@)),
{
    let mut out: Vec<String> = Vec::new();
    assert(texts(out@) =~= sorted_paths(texts(list@).take(0)));
    for i in 0..list.len()
        invariant
            texts(out@) == sorted_paths(texts(list@).take(i as int)),
    {
        insert_path(&mut out, list[i].clone());
    }
    assert(texts(list@).take(list@.len() as int) =~= texts(list@));
    out
}

/// Sorting adds no path, and loses none but where another text for it stays.
pub proof fn law_sorted_paths_keep_paths(s: Seq<Seq<char>>, x: Seq<char>)
    ensures
        sorted_paths(s).contains(x) ==> s.contains(x),
        s.contains(x) ==> exists|i: int|
            0 <= i < sorted_paths(s).len() && same_path(#[trigger] sorted_paths(s)[i], x),
    decreases s.len(),
{
    if s.len() > 0 {
        let init = s.drop_last();
        law_sorted_paths_keep_paths(init, x);
        lemma_with_path(sorted_paths(init), s.last(), x);
        assert(s[s.len() - 1] == s.last());
        if init.contains(x) {
            let i = choose|i: int| 0 <= i < init.len() && init[i] == x;
            assert(s[i] == x);
        }
        if s.contains(x) {
            if x != s.last() {
                let i = choose|i: int| 0 <= i < s.len() && s[i] == x;
                assert(init[i] == x);
                assert(has_same(sorted_paths(init), x));
            }
            assert(has_same(sorted_paths(s), x));
        }
    }
}

spec fn has_same(s: Seq<Seq<char>>, x: Seq<char>) -> bool {
    exists|i: int| 0 <= i < s.len() && same_path(#[trigger] s[i], x)
}

proof fn lemma_with_path(s: Seq<Seq<char>>, y: Seq<char>, x: Seq<char>)
    ensures
        with_path(s, y).contains(x) ==> s.contains(x) || x == y,
        has_same(s, x) ==> has_same(with_path(s, y), x),
        has_same(with_path(s, y), y),
    decreases s.len(),
{
    let w = with_path(s, y);
    if s.len() == 0 {
        assert(same_path(w[0], y));
    } else {
        let init = s.drop_last();
        assert(s[s.len() - 1] == s.last());
        if same_path(s.last(), y) {
            assert(same_path(s[s.len() - 1], y));
        } else if path_before(s.last(), y) {
            assert(same_path(w[w.len() - 1], y));
            if has_same(s, x) {
                let i = choose|i: int| 0 <= i < s.len() && same_path(#[trigger] s[i], x);
                assert(same_path(w[i], x));
            }
            if w.contains(x) {
                let i = choose|i: int| 0 <= i < w.len() && w[i] == x;
                if i < s.len() {
                    assert(s[i] == x);
                }
            }
        } else {
            lemma_with_path(init, y, x);
            let inner = with_path(init, y);
            let k = choose|i: int| 0 <= i < inner.len() && same_path(#[trigger] inner[i], y);
            assert(same_path(w[k], y));
            if has_same(s, x) {
                let i = choose|i: int| 0 <= i < s.len() && same_path(#[trigger] s[i], x);
                if i < init.len() {
                    assert(same_path(init[i], x));
                    let j = choose|j: int| 0 <= j < inner.len() && same_path(#[trigger] inner[j], x);
                    assert(same_path(w[j], x));
                } else {
                    assert(same_path(w[w.len() - 1], x));
                }
            }
            if w.contains(x) {
                let i = choose|i: int| 0 <= i < w.len() && w[i] == x;
                if i < inner.len() {
                    assert(inner[i] == x);
                    if init.contains(x) {
                        let j = choose|j: int| 0 <= j < init.len() && init[j] == x;
                        assert(s[j] == x);
                    }
                }
            }
        }
    }
}

proof fn lemma_part_order(a: Seq<char>, b: Seq<char>, c: Seq<char>)
    ensures
        a != b ==> part_before(a, b) || part_before(b, a),
        !(part_before(a, b) && part_before(b, a)),
        part_before(a, b) && part_before(b, c) ==> part_before(a, c),
{
    crate::text::law_texts_stand_in_one_order(a, b);
    if text_before(a, b) && text_before(b, c) {
        crate::text::law_order_of_texts_carries_over(a, b, c);
    }
}

proof fn lemma_parts_order(p: Seq<Seq<char>>, q: Seq<Seq<char>>)
    ensures
        p != q ==> parts_before(p, q) || parts_before(q, p),
        !(parts_before(p, q) && parts_before(q, p)),
    decreases p.len(),
{
    if p.len() > 0 && q.len() > 0 {
        lemma_part_order(p[0], q[0], q[0]);
        if p[0] == q[0] {
            lemma_parts_order(p.drop_first(), q.drop_first());
            if p.drop_first() == q.drop_first() {
                assert(p =~= seq![p[0]] + p.drop_first());
                assert(q =~= seq![q[0]] + q.drop_first());
            }
        }
    } else if p.len() == 0 && q.len() == 0 {
        assert(p =~= q);
    }
}

proof fn lemma_parts_carry_over(p: Seq<Seq<char>>, q: Seq<Seq<char>>, r: Seq<Seq<char>>)
    requires
        parts_before(p, q),
        parts_before(q, r),
    ensures
        parts_before(p, r),
    decreases p.len(),
{
    if p.len() > 0 {
        lemma_part_order(p[0], q[0], r[0]);
        lemma_part_order(q[0], r[0], r[0]);
        lemma_part_order(p[0], r[0], r[0]);
        if p[0] == q[0] && q[0] == r[0] {
            lemma_parts_carry_over(p.drop_first(), q.drop_first(), r.drop_first());
        }
    }
}

/// Paths stand in one order: of two that are not the same, exactly one stands before the
/// other, and a directory stands before all that lies in it.
pub proof fn law_paths_stand_in_one_order(a: Seq<char>, b: Seq<char>, c: Seq<char>)
    ensures
        !same_path(a, b) ==> path_before(a, b) || path_before(b, a),
        !(path_before(a, b) && path_before(b, a)),
        path_before(a, b) && path_before(b, c) ==> path_before(a, c),
        same_path(a, b) ==> !path_before(a, b),
{
    lemma_parts_order(all_parts(a), all_parts(b));
    if path_before(a, b) && path_before(b, c) {
        lemma_parts_carry_over(all_parts(a), all_parts(b), all_parts(c));
    }
}

proof fn lemma_prefix_before(p: Seq<Seq<char>>, q: Seq<Seq<char>>)
    requires
        p.len() < q.len(),
        q.take(p.len() as int) == p,
    ensures
        parts_before(p, q),
    decreases p.len(),
{
    if p.len() > 0 {
        assert(q[0] == q.take(p.len() as int)[0]);
        assert(q.drop_first().take(p.len() - 1) =~= p.drop_first()) by {
            assert forall|i: int| 0 <= i < p.len() - 1 implies q.drop_first()[i] == p.drop_first()[i] by {
                assert(q.take(p.len() as int)[i + 1] == p[i + 1]);
            }
        }
        lemma_prefix_before(p.drop_first(), q.drop_first());
    }
}

/// A directory stands before what lies in it, and by the parts in which paths first differ
/// their names decide.
pub proof fn law_directories_come_first(dir: Seq<char>, path: Seq<char>)
    requires
        lies_within(path, dir),
        !same_path(path, dir),
    ensures
        path_before(dir, path),
{
    let (a, p) = path_parts(path);
    let (b, d) = path_parts(dir);
    let all = all_parts(path);
    let top = all_parts(dir);
    if a {
        assert(all.take(top.len() as int) =~= top) by {
            assert forall|i: int| 0 <= i < top.len() implies all[i] == top[i] by {
                if i > 0 {
                    assert(p.take(d.len() as int)[i - 1] == d[i - 1]);
                }
            }
        }
    }
    if all.len() == top.len() {
        assert(p.take(d.len() as int) =~= p);
    }
    lemma_prefix_before(top, all);
}

/// Sorted paths are in order, and none is there twice.
pub proof fn law_sorted_paths_are_in_order(s: Seq<Seq<char>>, i: int, j: int)
    requires
        0 <= i < j < sorted_paths(s).len(),
    ensures
        path_before(sorted_paths(s)[i], sorted_paths(s)[j]),
        !same_path(sorted_paths(s)[i], sorted_paths(s)[j]),
{
    lemma_sorted(s);
    let a = sorted_paths(s)[i];
    let b = sorted_paths(s)[j];
    assert(path_before(a, b));
    law_paths_stand_in_one_order(a, b, b);
}

spec fn in_order(s: Seq<Seq<char>>) -> bool {
    forall|i: int, j: int| 0 <= i < j < s.len() ==> path_before(#[trigger] s[i], #[trigger] s[j])
}

proof fn lemma_sorted(s: Seq<Seq<char>>)
    ensures
        in_order(sorted_paths(s)),
    decreases s.len(),
{
    if s.len() > 0 {
        lemma_sorted(s.drop_last());
        lemma_inserted(sorted_paths(s.drop_last()), s.last());
    }
}

proof fn lemma_inserted(s: Seq<Seq<char>>, x: Seq<char>)
    requires
        in_order(s),
    ensures
        in_order(with_path(s, x)),
        forall|i: int|
            0 <= i < with_path(s, x).len() ==> s.contains(#[trigger] with_path(s, x)[i]) || with_path(
                s,
                x,
            )[i] == x,
    decreases s.len(),
{
    let w = with_path(s, x);
    if s.len() > 0 {
        let init = s.drop_last();
        let last = s.last();
        assert(s[s.len() - 1] == last);
        law_paths_stand_in_one_order(last, x, x);
        if same_path(last, x) {
            assert forall|i: int| 0 <= i < w.len() implies s.contains(#[trigger] w[i]) by {
                assert(s[i] == w[i]);
            }
        } else if path_before(last, x) {
            assert forall|i: int, j: int| 0 <= i < j < w.len() implies path_before(
                #[trigger] w[i],
                #[trigger] w[j],
            ) by {
                if j == s.len() {
                    assert(w[i] == s[i]);
                    if i < s.len() - 1 {
                        assert(path_before(s[i], s[s.len() - 1]));
                        law_paths_stand_in_one_order(s[i], last, x);
                    }
                } else {
                    assert(path_before(s[i], s[j]));
                }
            }
            assert forall|i: int| 0 <= i < w.len() implies s.contains(#[trigger] w[i]) || w[i] == x by {
                if i < s.len() {
                    assert(s[i] == w[i]);
                }
            }
        } else {
            assert forall|i: int, j: int| 0 <= i < j < init.len() implies path_before(
                #[trigger] init[i],
                #[trigger] init[j],
            ) by {
                assert(path_before(s[i], s[j]));
            }
            lemma_inserted(init, x);
            let inner = with_path(init, x);
            assert forall|i: int| 0 <= i < inner.len() implies path_before(
                #[trigger] inner[i],
                last,
            ) by {
                if init.contains(inner[i]) {
                    let k = choose|k: int| 0 <= k < init.len() && init[k] == inner[i];
                    assert(path_before(s[k], s[s.len() - 1]));
                }
            }
            assert forall|i: int, j: int| 0 <= i < j < w.len() implies path_before(
                #[trigger] w[i],
                #[trigger] w[j],
            ) by {
                assert(w[i] == inner[i]);
                if j < inner.len() {
                    assert(w[j] == inner[j]);
                }
            }
            assert forall|i: int| 0 <= i < w.len() implies s.contains(#[trigger] w[i]) || w[i] == x by {
                if i < inner.len() {
                    assert(w[i] == inner[i]);
                    if init.contains(inner[i]) {
                        let k = choose|k: int| 0 <= k < init.len() && init[k] == inner[i];
                        assert(s[k] == inner[i]);
                    }
                }
            }
        }
    }
}

/// The parts of a path are what stands between its separators, but for nothing and, behind
/// the beginning, for single dots.
pub proof fn law_parts_stand_between_separators(path: Seq<char>, part: Seq<char>)
    ensures
        path_parts(path).1.contains(part) <==> part.len() > 0 && exists|i: int|
            0 <= i < split_on(path, '/').len() && #[trigger] split_on(path, '/')[i] == part && (part
                != "."@ || i == 0),
        path_parts(path).0 <==> path.len() > 0 && path[0] == '/',
{
    lemma_components_hold(split_on(path, '/'), part);
    reveal_strlit("/");
    assert("/"@ =~= seq!['/']);
    if path.len() > 0 {
        assert(path.subrange(0, 1) =~= seq![path[0]]);
        if path[0] != '/' {
            assert(path.subrange(0, 1)[0] != '/');
        }
    }
}

proof fn lemma_components_hold(pieces: Seq<Seq<char>>, part: Seq<char>)
    ensures
        components(pieces).contains(part) <==> part.len() > 0 && exists|i: int|
            0 <= i < pieces.len() && #[trigger] pieces[i] == part && (part != "."@ || i == 0),
    decreases pieces.len(),
{
    if pieces.len() > 0 {
        let init = pieces.drop_last();
        let n = pieces.len() - 1;
        lemma_components_hold(init, part);
        crate::seqs::lemma_pushed(components(init), pieces.last(), part);
        assert(pieces[n] == pieces.last());
        if exists|i: int|
            0 <= i < init.len() && #[trigger] init[i] == part && (part != "."@ || i == 0) {
            let i = choose|i: int|
                0 <= i < init.len() && #[trigger] init[i] == part && (part != "."@ || i == 0);
            assert(pieces[i] == part);
        }
        if exists|i: int|
            0 <= i < pieces.len() && #[trigger] pieces[i] == part && (part != "."@ || i == 0) {
            let i = choose|i: int|
                0 <= i < pieces.len() && #[trigger] pieces[i] == part && (part != "."@ || i == 0);
            if i < n {
                assert(init[i] == part);
            }
        }
    }
}

/// A path lies within itself and within every directory above it, and within what those lie
/// within.
pub proof fn law_paths_lie_within_what_is_above(a: Seq<char>, b: Seq<char>, c: Seq<char>)
    ensures
        lies_within(a, a),
        lies_within(a, b) && lies_within(b, c) ==> lies_within(a, c),
        lies_within(a, b) && lies_within(b, a) ==> same_path(a, b),
        path_parts(a).1.len() > 0 ==> lies_within(a, parent_path(a)->0),
{
    let p = path_parts(a).1;
    let q = path_parts(b).1;
    let r = path_parts(c).1;
    assert(p.take(p.len() as int) =~= p);
    if lies_within(a, b) && lies_within(b, c) {
        assert(p.take(r.len() as int) =~= p.take(q.len() as int).take(r.len() as int));
    }
    if p.len() > 0 {
        law_parent_drops_the_last_part(a);
        assert(p.take(p.len() - 1) =~= p.drop_last());
    }
}

/// The directories that a path lies in are the path itself, its directory, the directory of
/// that and so on; the path lies in each.
pub proof fn law_ancestors_go_up_one_by_one(path: Seq<char>, i: int)
    requires
        0 <= i < ancestors(path).len(),
    ensures
        ancestors(path).len() == path_parts(path).1.len(),
        same_path(ancestors(path)[0], path),
        lies_within(path, ancestors(path)[i]),
        i + 1 < ancestors(path).len() ==> parent_path(ancestors(path)[i]) == Some(
            ancestors(path)[i + 1],
        ),
{
    lemma_ancestor(path, 0);
    lemma_ancestor(path, i);
    let (absolute, parts) = path_parts(path);
    assert(parts.take(parts.len() as int) =~= parts);
    if i + 1 < parts.len() {
        assert(parts.take(parts.len() - i).drop_last() =~= parts.take(parts.len() - (i + 1)));
    }
}

proof fn lemma_ancestor(path: Seq<char>, i: int)
    requires
        0 <= i < ancestors(path).len(),
    ensures
        path_parts(ancestors(path)[i]) == (
            path_parts(path).0,
            path_parts(path).1.take(path_parts(path).1.len() - i),
        ),
{
    let (absolute, parts) = path_parts(path);
    law_parts_are_proper(path);
    let some = parts.take(parts.len() - i);
    assert forall|k: int| 0 <= k < some.len() implies (#[trigger] some[k]).len() > 0
        && !some[k].contains('/') && (some[k] == "."@ ==> k == 0 && !absolute) by {
        assert(some[k] == parts[k]);
    }
    law_written_paths_keep_their_parts(absolute, some);
}

/// The way from a directory down to a path has the parts of the path behind those of the
/// directory; there is one exactly where the path lies within.
pub proof fn law_ways_down_lead_to_the_path(path: Seq<char>, base: Seq<char>)
    ensures
        path_below(path, base) is Some <==> lies_within(path, base),
        path_below(path, base) matches Some(way) ==> !path_parts(way).0 && path_parts(base).1
            + path_parts(way).1 == path_parts(path).1,
{
    if lies_within(path, base) {
        let (absolute, parts) = path_parts(path);
        let top = path_parts(base).1;
        law_parts_are_proper(path);
        let rest = parts.skip(top.len() as int);
        assert forall|k: int| 0 <= k < rest.len() implies (#[trigger] rest[k]).len() > 0
            && !rest[k].contains('/') && (rest[k] == "."@ ==> k == 0 && !false) by {
            assert(rest[k] == parts[k + top.len()]);
        }
        law_written_paths_keep_their_parts(false, rest);
        assert(top + rest =~= parts) by {
            assert(parts.take(top.len() as int) + rest =~= parts);
        }
    }
}

/// A name with an extension is what stands before a dot, which is something, and the
/// extension, which holds no dot.
pub proof fn law_extensions_stand_behind_the_last_dot(path: Seq<char>)
    ensures
        extension(path) matches Some(ext) ==> !ext.contains('.') && last_name(path) is Some
            && exists|stem: Seq<char>|
            stem.len() > 0 && last_name(path)->0 == #[trigger] (stem + seq!['.'] + ext),
        last_name(path) matches Some(name) ==> extension(path) is None ==> forall|i: int|
            0 < i < name.len() ==> name[i] != '.',
        last_name(path) is None ==> extension(path) is None,
{
    if let Some(name) = last_name(path) {
        lemma_last_dot(name);
        let dot = last_position(name, '.');
        if dot > 0 {
            let ext = extension(path)->0;
            let stem = name.take(dot);
            assert(name =~= stem + seq!['.'] + ext);
            if ext.contains('.') {
                let i = choose|i: int| 0 <= i < ext.len() && ext[i] == '.';
                assert(name[dot + 1 + i] == '.');
            }
        }
    }
}

proof fn lemma_last_dot(s: Seq<char>)
    ensures
        -1 <= last_position(s, '.') < s.len(),
        last_position(s, '.') >= 0 ==> s[last_position(s, '.')] == '.',
        forall|k: int| last_position(s, '.') < k < s.len() ==> s[k] != '.',
    decreases s.len(),
{
    if s.len() > 0 && s.last() != '.' {
        let init = s.drop_last();
        lemma_last_dot(init);
        assert forall|k: int| last_position(s, '.') < k < s.len() implies s[k] != '.' by {
            if k < init.len() {
                assert(init[k] == s[k]);
            }
        }
    }
}

/// The name that a path ends in is its last part, unless that leads elsewhere.
pub proof fn law_paths_end_in_their_name(path: Seq<char>)
    ensures
        last_name(path) matches Some(name) ==> path_parts(path).1.len() > 0 && name == path_parts(
            path,
        ).1.last() && name != "."@ && name != ".."@,
        path_parts(path).1.len() > 0 && path_parts(path).1.last() != "."@ && path_parts(path).1.last()
            != ".."@ ==> last_name(path) is Some,
{
}

/// A path that begins at the root stays as it is, seen from anywhere; any other lies in the
/// directory that it is seen from, with its own parts behind those of the directory.
pub proof fn law_joined_paths_lie_in_the_directory(dir: Seq<char>, path: Seq<char>)
    ensures
        path.len() > 0 && path[0] == '/' ==> joined_path(dir, path) == path,
        dir.len() == 0 ==> joined_path(dir, path) == path,
        dir.len() > 0 && !(path.len() > 0 && path[0] == '/') ==> path_parts(joined_path(dir, path)).0
            == path_parts(dir).0 && path_parts(joined_path(dir, path)).1 == path_parts(dir).1
            + inner_parts(path) && lies_within(joined_path(dir, path), dir),
{
    reveal_strlit("/");
    assert("/"@ =~= seq!['/']);
    if path.len() > 0 {
        assert(path.subrange(0, 1) =~= seq![path[0]]);
        if path[0] != '/' {
            assert(path.subrange(0, 1)[0] != '/');
        }
    }
    if dir.len() > 0 && !(path.len() > 0 && path[0] == '/') {
        let all = joined_path(dir, path);
        assert(dir.subrange(dir.len() - 1, dir.len() as int) =~= seq![dir.last()]);
        let body = if dir.last() == '/' {
            dir.drop_last()
        } else {
            dir
        };
        if dir.last() == '/' {
            assert(dir =~= body + "/"@);
            assert(ends(dir, "/"@));
            assert(all =~= body + "/"@ + path);
            lemma_split_at_separator(body, seq![]);
            assert(body + "/"@ + seq![] =~= dir);
            assert(split_on(dir, '/') == split_on(body, '/') + split_on(seq![], '/'));
            assert(split_on(seq![], '/') == seq![Seq::<char>::empty()]);
            assert((split_on(body, '/') + seq![Seq::<char>::empty()]).drop_last() =~= split_on(
                body,
                '/',
            ));
            assert((split_on(body, '/') + seq![Seq::<char>::empty()]).last().len() == 0);
            assert(components(split_on(dir, '/')) == components(split_on(body, '/')));
        } else {
            if ends(dir, "/"@) {
                assert(dir.subrange(dir.len() - 1, dir.len() as int)[0] == '/');
            }
        }
        lemma_split_at_separator(body, path);
        crate::text::law_pieces_join_to_the_text(body, '/');
        lemma_components_of_two(split_on(body, '/'), split_on(path, '/'));
        assert(all.subrange(0, 1) =~= dir.subrange(0, 1));
        let parts = path_parts(all).1;
        let top = path_parts(dir).1;
        assert(parts.take(top.len() as int) =~= top);
    }
}

/// The parts of a path that is not the beginning of one: there a leading dot is no part.
pub open spec fn inner_parts(path: Seq<char>) -> Seq<Seq<char>> {
    let parts = path_parts(path).1;
    if parts.len() > 0 && parts[0] == "."@ {
        parts.drop_first()
    } else {
        parts
    }
}

/// The pieces of two texts with a separator between are those of the one and of the other.
pub proof fn lemma_split_at_separator(a: Seq<char>, b: Seq<char>)
    ensures
        split_on(a + "/"@ + b, '/') == split_on(a, '/') + split_on(b, '/'),
    decreases b.len(),
{
    reveal_strlit("/");
    assert("/"@ =~= seq!['/']);
    crate::text::lemma_split_on(a, '/');
    crate::text::lemma_split_on(b, '/');
    let all = a + "/"@ + b;
    if b.len() == 0 {
        assert(all.drop_last() =~= a);
        assert(all.last() == '/');
        assert(split_on(all, '/') =~= split_on(a, '/') + split_on(b, '/'));
    } else {
        let init = b.drop_last();
        crate::text::lemma_split_on(init, '/');
        lemma_split_at_separator(a, init);
        assert(all.drop_last() =~= a + "/"@ + init);
        assert(all.last() == b.last());
        assert(split_on(all, '/') =~= split_on(a, '/') + split_on(b, '/'));
    }
}

proof fn lemma_components_of_two(p: Seq<Seq<char>>, q: Seq<Seq<char>>)
    requires
        p.len() > 0,
    ensures
        components(p + q) == components(p) + (if q.len() > 0 && q[0] == "."@ {
            components(q).drop_first()
        } else {
            components(q)
        }),
        q.len() > 0 && q[0] == "."@ ==> components(q).len() > 0 && components(q)[0] == "."@,
        q.len() > 0 && q[0] != "."@ && components(q).len() > 0 ==> components(q)[0] != "."@,
    decreases q.len(),
{
    reveal_strlit(".");
    assert("."@.len() == 1);
    if q.len() == 0 {
        assert(p + q =~= p);
        assert(components(p) + components(q) =~= components(p));
    } else {
        let init = q.drop_last();
        lemma_components_of_two(p, init);
        assert((p + q).drop_last() =~= p + init);
        assert((p + q).last() == q.last());
        if init.len() == 0 {
            assert(components(init).len() == 0);
            assert(p + init =~= p);
            assert(q[0] == q.last());
            if q.last() == "."@ {
                assert(components(q) =~= seq!["."@]);
                assert(components(q).drop_first() =~= seq![]);
                assert(components(p + q) =~= components(p) + seq![]);
            } else {
                assert(components(p + q) =~= components(p) + components(q));
            }
        } else {
            assert(init[0] == q[0]);
            let before = components(init);
            if q.last().len() == 0 || q.last() == "."@ {
            } else {
                if q[0] == "."@ {
                    assert(before.push(q.last()).drop_first() =~= before.drop_first().push(q.last()));
                }
                assert(components(p + q) =~= components(p) + (if q[0] == "."@ {
                    components(q).drop_first()
                } else {
                    components(q)
                }));
            }
        }
    }
}

} // verus!
