//! Sequences of texts, and the facts about prefixes that loops over them use.

use vstd::prelude::*;

verus! {

/// The texts of a sequence of strings.
pub open spec fn texts(v: Seq<String>) -> Seq<Seq<char>> {
    v.map_values(|s: String| s@)
}

/// The text of an optional string.
pub open spec fn opt_text(o: Option<String>) -> Option<Seq<char>> {
    match o {
        Some(s) => Some(s@),
        None => None,
    }
}

/// The texts of an optional list of strings.
pub open spec fn opt_texts(o: Option<Vec<String>>) -> Option<Seq<Seq<char>>> {
    match o {
        Some(v) => Some(texts(v@)),
        None => None,
    }
}

pub broadcast proof fn lemma_texts_push(v: Seq<String>, s: String)
    ensures
        #[trigger] texts(v.push(s)) == texts(v).push(s@),
{
    assert(texts(v.push(s)) =~= texts(v).push(s@));
}

pub broadcast proof fn lemma_texts_take(v: Seq<String>, n: int)
    requires
        0 <= n <= v.len(),
    ensures
        #[trigger] texts(v.take(n)) == texts(v).take(n),
{
    assert(texts(v.take(n)) =~= texts(v).take(n));
}

/// The next prefix of a sequence is the one before with the next item behind it.
pub broadcast proof fn lemma_take_next<T>(s: Seq<T>, n: int)
    requires
        0 <= n < s.len(),
    ensures
        #[trigger] s.take(n + 1) == s.take(n).push(s[n]),
        s.take(n + 1).drop_last() == s.take(n),
        s.take(n + 1).last() == s[n],
{
    assert(s.take(n + 1) =~= s.take(n).push(s[n]));
    assert(s.take(n + 1).drop_last() =~= s.take(n));
}

pub broadcast proof fn lemma_take_all<T>(s: Seq<T>)
    ensures
        #[trigger] s.take(s.len() as int) == s,
{
    assert(s.take(s.len() as int) =~= s);
}

pub broadcast group group_text {
    lemma_texts_push,
    lemma_texts_take,
    lemma_take_next,
    lemma_take_all,
    lemma_views_push,
    lemma_views_take,
}

/// What stands in a list is its last item, or stands before it.
pub proof fn lemma_last_or_before<T>(s: Seq<T>, x: T)
    requires
        s.len() > 0,
    ensures
        s.contains(x) <==> (x == s.last() || s.drop_last().contains(x)),
{
    assert(s[s.len() - 1] == s.last());
    if s.contains(x) && x != s.last() {
        let i = choose|i: int| 0 <= i < s.len() && s[i] == x;
        assert(s.drop_last()[i] == x);
    }
    if s.drop_last().contains(x) {
        let i = choose|i: int| 0 <= i < s.drop_last().len() && s.drop_last()[i] == x;
        assert(s[i] == x);
    }
}

/// What stands in a list with one more item is that item, or stood in the list.
pub proof fn lemma_pushed<T>(s: Seq<T>, y: T, x: T)
    ensures
        s.push(y).contains(x) <==> (x == y || s.contains(x)),
{
    lemma_last_or_before(s.push(y), x);
    assert(s.push(y).drop_last() =~= s);
}

/// What stands in two lists stands in one of them.
pub proof fn lemma_either<T>(a: Seq<T>, b: Seq<T>, x: T)
    ensures
        (a + b).contains(x) <==> (a.contains(x) || b.contains(x)),
{
    if a.contains(x) {
        let i = choose|i: int| 0 <= i < a.len() && a[i] == x;
        assert((a + b)[i] == x);
    }
    if b.contains(x) {
        let i = choose|i: int| 0 <= i < b.len() && b[i] == x;
        assert((a + b)[a.len() + i] == x);
    }
    if (a + b).contains(x) {
        let i = choose|i: int| 0 <= i < (a + b).len() && (a + b)[i] == x;
        if i < a.len() {
            assert(a[i] == x);
        } else {
            assert(b[i - a.len()] == x);
        }
    }
}

/// The last of distinct items is not among those before it.
pub proof fn lemma_last_is_new<T>(s: Seq<T>)
    requires
        s.len() > 0,
        s.no_duplicates(),
    ensures
        !s.drop_last().contains(s.last()),
        s.drop_last().no_duplicates(),
{
    if s.drop_last().contains(s.last()) {
        let i = choose|i: int| 0 <= i < s.drop_last().len() && s.drop_last()[i] == s.last();
        assert(s[i] == s[s.len() - 1]);
    }
}

/// What the items of a sequence stand for.
pub open spec fn views<T: View>(v: Seq<T>) -> Seq<T::V> {
    v.map_values(|x: T| x@)
}

/// What an optional value stands for.
pub open spec fn opt_view<T: View>(o: Option<T>) -> Option<T::V> {
    match o {
        Some(x) => Some(x@),
        None => None,
    }
}

/// What an optional list stands for.
pub open spec fn opt_views<T: View>(o: Option<Vec<T>>) -> Option<Seq<T::V>> {
    match o {
        Some(v) => Some(views(v@)),
        None => None,
    }
}

pub broadcast proof fn lemma_views_push<T: View>(v: Seq<T>, x: T)
    ensures
        #[trigger] views(v.push(x)) == views(v).push(x@),
{
    assert(views(v.push(x)) =~= views(v).push(x@));
}

pub broadcast proof fn lemma_views_take<T: View>(v: Seq<T>, n: int)
    requires
        0 <= n <= v.len(),
    ensures
        #[trigger] views(v.take(n)) == views(v).take(n),
{
    assert(views(v.take(n)) =~= views(v).take(n));
}

} // verus!
