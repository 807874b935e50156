//! Insertion-ordered collections keyed by text.
//!
//! The keys live in an `indexmap::IndexSet`, which keeps them in the order of
//! their first insertion and gives each a position; a [`Table`] holds the
//! values at the same positions. So what is believed of the set is believed of
//! texts alone, whatever the values are.

use indexmap::IndexSet;
use vstd::prelude::*;
use crate::seqs::{opt_view, opt_views, texts, views};

verus! {

broadcast use crate::seqs::group_text;

/// `indexmap::IndexSet`: distinct values in the order of their first insertion.
#[verifier::external_type_specification]
#[verifier::external_body]
#[verifier::reject_recursive_types(T)]
#[verifier::reject_recursive_types(S)]
pub struct ExIndexSet<T, S>(indexmap::IndexSet<T, S>);

/// The texts that an index set of strings holds, in its own order.
pub uninterp spec fn key_order(keys: IndexSet<String>) -> Seq<Seq<char>>;

/// `indexmap::IndexSet::new`: the set is empty.
#[verifier::external_body]
fn keys_new() -> (r: IndexSet<String>)
    ensures
        key_order(r) == Seq::<Seq<char>>::empty(),
{
    IndexSet::new()
}

/// `indexmap::IndexSet::get_index_of`: the position of the text, and `None`
/// exactly when it is not in the set. No text has two positions.
#[verifier::external_body]
fn keys_find(keys: &IndexSet<String>, key: &str) -> (r: Option<usize>)
    ensures
        r is Some == key_order(*keys).contains(key@),
        r matches Some(i) ==> i < key_order(*keys).len() && key_order(*keys)[i as int] == key@
            && (forall|j: int|
            0 <= j < key_order(*keys).len() && key_order(*keys)[j] == key@ ==> j == i),
{
    keys.get_index_of(key)
}

/// `indexmap::IndexSet::get_index`: the text at a position, `None` past the end.
#[verifier::external_body]
fn keys_at(keys: &IndexSet<String>, index: usize) -> (r: Option<&String>)
    ensures
        r is Some == (index < key_order(*keys).len()),
        r matches Some(k) ==> k@ == key_order(*keys)[index as int],
{
    keys.get_index(index)
}

/// `indexmap::IndexSet::len`: how many texts there are.
#[verifier::external_body]
fn keys_len(keys: &IndexSet<String>) -> (r: usize)
    ensures
        r == key_order(*keys).len(),
{
    keys.len()
}

/// `indexmap::IndexSet::insert`: a text that is not yet there goes to the end,
/// one that is there changes nothing.
#[verifier::external_body]
fn keys_insert(keys: &mut IndexSet<String>, key: String) -> (r: bool)
    ensures
        r == !key_order(*old(keys)).contains(key@),
        key_order(*final(keys)) == if r {
            key_order(*old(keys)).push(key@)
        } else {
            key_order(*old(keys))
        },
{
    keys.insert(key)
}

/// `indexmap::IndexSet::clone`: the same texts in the same order.
#[verifier::external_body]
fn keys_dup(keys: &IndexSet<String>) -> (r: IndexSet<String>)
    ensures
        key_order(r) == key_order(*keys),
{
    keys.clone()
}

/// A value that can be copied exactly.
pub trait Dup: View + Sized {
    /// A copy that stands for the same value.
    fn dup(&self) -> (r: Self)
        ensures
            r@ == self@,
    ;
}

impl Dup for String {
    fn dup(&self) -> (r: Self) {
        self.clone()
    }
}

impl Dup for bool {
    fn dup(&self) -> (r: Self) {
        *self
    }
}

/// The position of `k` among the keys of `e`, and -1 where it is not a key.
pub open spec fn position<V>(e: Seq<(Seq<char>, V)>, k: Seq<char>) -> int
    decreases e.len(),
{
    if e.len() == 0 {
        -1
    } else if e.last().0 == k {
        e.len() - 1
    } else {
        position(e.drop_last(), k)
    }
}

pub open spec fn has_key<V>(e: Seq<(Seq<char>, V)>, k: Seq<char>) -> bool {
    position(e, k) >= 0
}

/// The value under `k`, if there is one.
pub open spec fn lookup<V>(e: Seq<(Seq<char>, V)>, k: Seq<char>) -> Option<V> {
    if has_key(e, k) {
        Some(e[position(e, k)].1)
    } else {
        None
    }
}

/// `e` with `v` under `k`: in place where `k` is a key already, else at the end.
pub open spec fn put<V>(e: Seq<(Seq<char>, V)>, k: Seq<char>, v: V) -> Seq<(Seq<char>, V)> {
    if has_key(e, k) {
        e.update(position(e, k), (k, v))
    } else {
        e.push((k, v))
    }
}

/// `e` with `v` under `k` unless `k` is a key already.
pub open spec fn put_new<V>(e: Seq<(Seq<char>, V)>, k: Seq<char>, v: V) -> Seq<(Seq<char>, V)> {
    if has_key(e, k) {
        e
    } else {
        e.push((k, v))
    }
}

/// `e` with every entry of `more` that has a new key added at the end, in order.
pub open spec fn put_all_new<V>(
    e: Seq<(Seq<char>, V)>,
    more: Seq<(Seq<char>, V)>,
) -> Seq<(Seq<char>, V)>
    decreases more.len(),
{
    if more.len() == 0 {
        e
    } else {
        put_new(put_all_new(e, more.drop_last()), more.last().0, more.last().1)
    }
}

/// `e` with every entry of `more` put into it, in order.
pub open spec fn put_all<V>(
    e: Seq<(Seq<char>, V)>,
    more: Seq<(Seq<char>, V)>,
) -> Seq<(Seq<char>, V)>
    decreases more.len(),
{
    if more.len() == 0 {
        e
    } else {
        put(put_all(e, more.drop_last()), more.last().0, more.last().1)
    }
}

/// The keys of `e`, in order.
pub open spec fn keys_of<V>(e: Seq<(Seq<char>, V)>) -> Seq<Seq<char>> {
    e.map_values(|p: (Seq<char>, V)| p.0)
}

/// No key occurs twice.
pub open spec fn distinct<V>(e: Seq<(Seq<char>, V)>) -> bool {
    forall|i: int, j: int| 0 <= i < j < e.len() ==> e[i].0 != e[j].0
}

/// A position is that of an entry with the key, and there is one where some
/// entry has the key.
pub proof fn lemma_position<V>(e: Seq<(Seq<char>, V)>, k: Seq<char>)
    ensures
        -1 <= position(e, k) < e.len(),
        has_key(e, k) ==> e[position(e, k)].0 == k,
        forall|i: int| 0 <= i < e.len() && #[trigger] e[i].0 == k ==> position(e, k) >= i,
    decreases e.len(),
{
    if e.len() > 0 && e.last().0 != k {
        lemma_position(e.drop_last(), k);
        assert forall|i: int| 0 <= i < e.len() && #[trigger] e[i].0 == k implies position(e, k)
            >= i by {
            assert(e.drop_last()[i] == e[i]);
        }
    }
}

/// The position of a key depends on the keys alone.
pub proof fn lemma_position_keys<V, W>(e: Seq<(Seq<char>, V)>, f: Seq<(Seq<char>, W)>, k: Seq<char>)
    requires
        e.len() == f.len(),
        forall|i: int| 0 <= i < e.len() ==> (#[trigger] e[i]).0 == f[i].0,
    ensures
        position(e, k) == position(f, k),
    decreases e.len(),
{
    if e.len() > 0 {
        assert(e[e.len() - 1].0 == f[f.len() - 1].0);
        assert forall|i: int| 0 <= i < e.len() - 1 implies (#[trigger] e.drop_last()[i]).0
            == f.drop_last()[i].0 by {
            assert(e[i].0 == f[i].0);
        }
        lemma_position_keys(e.drop_last(), f.drop_last(), k);
    }
}

/// Values under distinct text keys, in the order in which the keys first came.
pub struct Table<V> {
    keys: IndexSet<String>,
    vals: Vec<V>,
}

impl<V: View> View for Table<V> {
    type V = Seq<(Seq<char>, V::V)>;

    closed spec fn view(&self) -> Seq<(Seq<char>, V::V)> {
        Seq::new(self.vals@.len(), |i: int| (key_order(self.keys)[i], self.vals@[i]@))
    }
}

impl<V> Table<V> {
    #[verifier::type_invariant]
    closed spec fn inv(self) -> bool {
        &&& key_order(self.keys).len() == self.vals@.len()
        &&& key_order(self.keys).no_duplicates()
    }
}

impl<V: View> Table<V> {
    pub fn new() -> (r: Self)
        ensures
            r@ == Seq::<(Seq<char>, V::V)>::empty(),
    {
        let r = Table { keys: keys_new(), vals: Vec::new() };
        assert(r@ =~= Seq::<(Seq<char>, V::V)>::empty());
        r
    }

    pub fn len(&self) -> (r: usize)
        ensures
            r == self@.len(),
            distinct(self@),
    {
        proof {
            use_type_invariant(self);
        }
        self.vals.len()
    }

    pub fn is_empty(&self) -> (r: bool)
        ensures
            r == (self@.len() == 0),
    {
        self.vals.len() == 0
    }

    /// The key at a position.
    pub fn key_at(&self, index: usize) -> (r: &String)
        requires
            index < self@.len(),
        ensures
            r@ == self@[index as int].0,
    {
        proof {
            use_type_invariant(self);
        }
        keys_at(&self.keys, index).unwrap()
    }

    /// The value at a position.
    pub fn value_at(&self, index: usize) -> (r: &V)
        requires
            index < self@.len(),
        ensures
            r@ == self@[index as int].1,
    {
        &self.vals[index]
    }

    /// Exchanges the value at a position for another.
    pub fn replace_at(&mut self, index: usize, value: V) -> (r: V)
        requires
            index < old(self)@.len(),
        ensures
            r@ == old(self)@[index as int].1,
            final(self)@ == old(self)@.update(index as int, (old(self)@[index as int].0, value@)),
    {
        let ghost e = self@;
        let mut t: Table<V> = Table::new();
        core::mem::swap(self, &mut t);
        proof {
            use_type_invariant(&t);
        }
        let Table { keys, mut vals } = t;
        let mut value = value;
        let ghost v = value@;
        core::mem::swap(&mut vals[index], &mut value);
        *self = Table { keys, vals };
        assert(self@ =~= e.update(index as int, (e[index as int].0, v)));
        value
    }

    /// The position of a key.
    pub fn find(&self, key: &str) -> (r: Option<usize>)
        ensures
            r is Some == has_key(self@, key@),
            r matches Some(i) ==> i == position(self@, key@) && i < self@.len()
                && self@[i as int].0 == key@,
            distinct(self@),
    {
        proof {
            use_type_invariant(self);
            lemma_position(self@, key@);
            if has_key(self@, key@) {
                assert(self@[position(self@, key@)].0 == key@);
                assert(key_order(self.keys)[position(self@, key@)] == key@);
            }
        }
        let r = keys_find(&self.keys, key);
        proof {
            if r is Some {
                assert(self@[r->0 as int].0 == key@);
            }
        }
        r
    }

    pub fn contains_key(&self, key: &str) -> (r: bool)
        ensures
            r == has_key(self@, key@),
    {
        self.find(key).is_some()
    }

    pub fn get(&self, key: &str) -> (r: Option<&V>)
        ensures
            r is Some == has_key(self@, key@),
            r matches Some(v) ==> v@ == self@[position(self@, key@)].1,
    {
        match self.find(key) {
            Some(i) => Some(&self.vals[i]),
            None => None,
        }
    }

    /// Puts `value` under `key`: a key that is there keeps its place.
    pub fn insert(&mut self, key: String, value: V)
        ensures
            final(self)@ == put(old(self)@, key@, value@),
    {
        let found = self.find(key.as_str());
        let ghost e = self@;
        let ghost k = key@;
        let ghost v = value@;
        match found {
            Some(i) => {
                self.replace_at(i, value);
            },
            None => {
                let mut t: Table<V> = Table::new();
                core::mem::swap(self, &mut t);
                proof {
                    use_type_invariant(&t);
                    lemma_position(e, k);
                    assert forall|i: int| 0 <= i < key_order(t.keys).len() implies key_order(
                        t.keys,
                    )[i] != k by {
                        assert(e[i].0 == key_order(t.keys)[i]);
                    }
                }
                let Table { mut keys, mut vals } = t;
                keys_insert(&mut keys, key);
                vals.push(value);
                *self = Table { keys, vals };
                assert(self@ =~= e.push((k, v)));
            },
        }
    }

    /// Puts `value` under `key` unless the key is there already.
    pub fn insert_new(&mut self, key: String, value: V)
        ensures
            final(self)@ == put_new(old(self)@, key@, value@),
    {
        if !self.contains_key(key.as_str()) {
            self.insert(key, value);
        }
    }
}

impl<V: View> Table<V> {
    /// Gives up the entries, in order.
    pub fn into_entries(self) -> (r: Vec<(String, V)>)
        ensures
            r@.len() == self@.len(),
            forall|i: int|
                0 <= i < r@.len() ==> (#[trigger] r@[i]).0@ == self@[i].0 && r@[i].1@ == self@[i].1,
            distinct(self@),
    {
        proof {
            use_type_invariant(&self);
        }
        let ghost e = self@;
        let Table { keys, vals } = self;
        let ghost vs = vals@;
        let mut out: Vec<(String, V)> = Vec::new();
        for v in it: vals
            invariant
                it.seq() == vs,
                out@.len() == it.index(),
                e == Seq::new(vs.len(), |i: int| (key_order(keys)[i], vs[i]@)),
                key_order(keys).len() == vs.len(),
                forall|i: int|
                    0 <= i < out@.len() ==> (#[trigger] out@[i]).0@ == e[i].0 && out@[i].1@ == e[i].1,
        {
            let n: usize = out.len();
            let k = keys_at(&keys, n).unwrap().clone();
            out.push((k, v));
        }
        out
    }
}

impl<V: Dup> Table<V> {
    pub fn dup_table(&self) -> (r: Self)
        ensures
            r@ == self@,
    {
        let mut r = Table::new();
        let n: usize = self.len();
        for i in 0..n
            invariant
                n == self@.len(),
                distinct(self@),
                r@ =~= self@.take(i as int),
        {
            proof {
                lemma_position(r@, self@[i as int].0);
            }
            r.insert(self.key_at(i).clone(), self.value_at(i).dup());
        }
        r
    }

    /// Adds every entry of `more` whose key is new, in order.
    pub fn extend_new(&mut self, more: &Table<V>)
        ensures
            final(self)@ == put_all_new(old(self)@, more@),
    {
        let n: usize = more.len();
        for i in 0..n
            invariant
                n == more@.len(),
                self@ == put_all_new(old(self)@, more@.take(i as int)),
        {
            proof {
                assert(more@.take(i + 1).drop_last() =~= more@.take(i as int));
            }
            if !self.contains_key(more.key_at(i).as_str()) {
                self.insert(more.key_at(i).clone(), more.value_at(i).dup());
            }
        }
        assert(more@.take(n as int) =~= more@);
    }

    /// Puts every entry of `more`, in order.
    pub fn extend(&mut self, more: &Table<V>)
        ensures
            final(self)@ == put_all(old(self)@, more@),
    {
        let n: usize = more.len();
        for i in 0..n
            invariant
                n == more@.len(),
                self@ == put_all(old(self)@, more@.take(i as int)),
        {
            proof {
                assert(more@.take(i + 1).drop_last() =~= more@.take(i as int));
            }
            self.insert(more.key_at(i).clone(), more.value_at(i).dup());
        }
        assert(more@.take(n as int) =~= more@);
    }
}

impl<V: Dup> Dup for Table<V> {
    fn dup(&self) -> (r: Self) {
        self.dup_table()
    }
}

/// `s` with `x` at the end unless it is there already.
pub open spec fn push_new(s: Seq<Seq<char>>, x: Seq<char>) -> Seq<Seq<char>> {
    if s.contains(x) {
        s
    } else {
        s.push(x)
    }
}

/// `s` with each of `more` that is new added at the end, in order.
pub open spec fn push_all_new(s: Seq<Seq<char>>, more: Seq<Seq<char>>) -> Seq<Seq<char>>
    decreases more.len(),
{
    if more.len() == 0 {
        s
    } else {
        push_new(push_all_new(s, more.drop_last()), more.last())
    }
}

/// Adding texts keeps those that were there, adds the new ones and repeats none.
pub proof fn lemma_push_all_new(s: Seq<Seq<char>>, more: Seq<Seq<char>>)
    ensures
        s.no_duplicates() ==> push_all_new(s, more).no_duplicates(),
        forall|x: Seq<char>|
            push_all_new(s, more).contains(x) <==> (s.contains(x) || more.contains(x)),
        s.len() <= push_all_new(s, more).len(),
        push_all_new(s, more).take(s.len() as int) == s,
    decreases more.len(),
{
    if more.len() == 0 {
        assert(s.take(s.len() as int) =~= s);
    } else {
        lemma_push_all_new(s, more.drop_last());
        let p = push_all_new(s, more.drop_last());
        let q = push_all_new(s, more);
        assert(q.take(s.len() as int) =~= p.take(s.len() as int));
        assert forall|x: Seq<char>| q.contains(x) <==> (s.contains(x) || more.contains(x)) by {
            assert(p.push(more.last()).contains(x) <==> (p.contains(x) || x == more.last())) by {
                if p.contains(x) {
                    let i = choose|i: int| 0 <= i < p.len() && p[i] == x;
                    assert(p.push(more.last())[i] == x);
                }
                if x == more.last() {
                    assert(p.push(more.last())[p.len() as int] == x);
                }
            }
            assert(more.contains(x) <==> (more.drop_last().contains(x) || x == more.last())) by {
                if more.contains(x) {
                    let i = choose|i: int| 0 <= i < more.len() && more[i] == x;
                    if i < more.len() - 1 {
                        assert(more.drop_last()[i] == x);
                    }
                }
                if more.drop_last().contains(x) {
                    let i = choose|i: int|
                        0 <= i < more.drop_last().len() && more.drop_last()[i] == x;
                    assert(more[i] == x);
                }
                if x == more.last() {
                    assert(more[more.len() - 1] == x);
                }
            }
        }
    }
}

/// Distinct texts in the order in which they first came.
pub struct NameSet {
    keys: IndexSet<String>,
}

impl View for NameSet {
    type V = Seq<Seq<char>>;

    closed spec fn view(&self) -> Seq<Seq<char>> {
        key_order(self.keys)
    }
}

impl NameSet {
    pub fn new() -> (r: Self)
        ensures
            r@ == Seq::<Seq<char>>::empty(),
    {
        NameSet { keys: keys_new() }
    }

    pub fn len(&self) -> (r: usize)
        ensures
            r == self@.len(),
    {
        keys_len(&self.keys)
    }

    pub fn is_empty(&self) -> (r: bool)
        ensures
            r == (self@.len() == 0),
    {
        keys_len(&self.keys) == 0
    }

    pub fn contains(&self, name: &str) -> (r: bool)
        ensures
            r == self@.contains(name@),
    {
        keys_find(&self.keys, name).is_some()
    }

    /// The text at a position.
    pub fn at(&self, index: usize) -> (r: &String)
        requires
            index < self@.len(),
        ensures
            r@ == self@[index as int],
    {
        keys_at(&self.keys, index).unwrap()
    }

    /// Adds `name` at the end unless it is there; says whether it was new.
    pub fn insert(&mut self, name: String) -> (r: bool)
        ensures
            r == !old(self)@.contains(name@),
            final(self)@ == push_new(old(self)@, name@),
    {
        keys_insert(&mut self.keys, name)
    }

    /// Adds each of `names`, in order.
    pub fn insert_all(&mut self, names: &[String])
        ensures
            final(self)@ == push_all_new(old(self)@, texts(names@)),
    {
        for i in 0..names.len()
            invariant
                self@ == push_all_new(old(self)@, texts(names@).take(i as int)),
        {
            proof {
                assert(texts(names@).take(i + 1).drop_last() =~= texts(names@).take(i as int));
            }
            self.insert(names[i].clone());
        }
        assert(texts(names@).take(names@.len() as int) =~= texts(names@));
    }

    /// Adds each text of another set, in order.
    pub fn extend(&mut self, more: &NameSet)
        ensures
            final(self)@ == push_all_new(old(self)@, more@),
    {
        let n: usize = more.len();
        for i in 0..n
            invariant
                n == more@.len(),
                self@ == push_all_new(old(self)@, more@.take(i as int)),
        {
            proof {
                assert(more@.take(i + 1).drop_last() =~= more@.take(i as int));
            }
            self.insert(more.at(i).clone());
        }
        assert(more@.take(n as int) =~= more@);
    }

    /// The set of the texts in `names`.
    pub fn of(names: &[String]) -> (r: Self)
        ensures
            r@ == push_all_new(seq![], texts(names@)),
    {
        let mut r = NameSet::new();
        r.insert_all(names);
        r
    }

    /// The texts, in order.
    pub fn to_list(&self) -> (r: Vec<String>)
        ensures
            texts(r@) == self@,
    {
        let mut out: Vec<String> = Vec::new();
        let n: usize = self.len();
        for i in 0..n
            invariant
                n == self@.len(),
                texts(out@) =~= self@.take(i as int),
        {
            out.push(self.at(i).clone());
        }
        assert(texts(out@) =~= self@);
        out
    }
}

impl Dup for NameSet {
    fn dup(&self) -> (r: Self) {
        NameSet { keys: keys_dup(&self.keys) }
    }
}

/// A copy of an optional value.
pub fn dup_option<T: Dup>(o: &Option<T>) -> (r: Option<T>)
    ensures
        opt_view(r) == opt_view(*o),
{
    match o {
        Some(x) => Some(x.dup()),
        None => None,
    }
}

/// A copy of a list.
pub fn dup_vec<T: Dup>(v: &Vec<T>) -> (r: Vec<T>)
    ensures
        views(r@) == views(v@),
{
    let mut out: Vec<T> = Vec::new();
    for i in 0..v.len()
        invariant
            views(out@) =~= views(v@).take(i as int),
    {
        out.push(v[i].dup());
    }
    assert(views(out@) =~= views(v@));
    out
}

/// A copy of an optional list.
pub fn dup_opt_vec<T: Dup>(o: &Option<Vec<T>>) -> (r: Option<Vec<T>>)
    ensures
        opt_views(r) == opt_views(*o),
{
    match o {
        Some(v) => Some(dup_vec(v)),
        None => None,
    }
}

/// Putting a value under a key forgets what was there before.
pub proof fn lemma_put_over<V>(e: Seq<(Seq<char>, V)>, k: Seq<char>, v: V, w: V)
    requires
        has_key(e, k),
    ensures
        put(e.update(position(e, k), (k, v)), k, w) == put(e, k, w),
{
    lemma_position(e, k);
    let f = e.update(position(e, k), (k, v));
    lemma_position_keys(e, f, k);
    assert(put(f, k, w) =~= put(e, k, w));
}

/// What is under a key after putting a value under some key.
pub proof fn lemma_lookup_put<V>(e: Seq<(Seq<char>, V)>, k: Seq<char>, v: V, x: Seq<char>)
    ensures
        lookup(put(e, k, v), x) == if x == k {
            Some(v)
        } else {
            lookup(e, x)
        },
        has_key(put(e, k, v), x) <==> (x == k || has_key(e, x)),
        distinct(e) ==> distinct(put(e, k, v)),
{
    lemma_position(e, k);
    lemma_position(e, x);
    if has_key(e, k) {
        let f = put(e, k, v);
        lemma_position_keys(e, f, x);
        lemma_position(f, x);
    } else {
        assert(e.push((k, v)).drop_last() =~= e);
    }
}

/// Adding an entry under a free key leaves every other key as it was.
pub proof fn lemma_lookup_push<V>(e: Seq<(Seq<char>, V)>, k: Seq<char>, v: V, x: Seq<char>)
    requires
        !has_key(e, k),
    ensures
        lookup(e.push((k, v)), x) == if x == k {
            Some(v)
        } else {
            lookup(e, x)
        },
{
    lemma_lookup_put(e, k, v, x);
}

/// What is under a key after adding entries under free keys: what was there,
/// else what was added.
pub proof fn lemma_lookup_put_all_new<V>(
    e: Seq<(Seq<char>, V)>,
    more: Seq<(Seq<char>, V)>,
    x: Seq<char>,
)
    requires
        distinct(more),
    ensures
        lookup(put_all_new(e, more), x) == (if has_key(e, x) {
            lookup(e, x)
        } else {
            lookup(more, x)
        }),
        has_key(put_all_new(e, more), x) <==> (has_key(e, x) || has_key(more, x)),
        distinct(e) ==> distinct(put_all_new(e, more)),
    decreases more.len(),
{
    if more.len() > 0 {
        let init = more.drop_last();
        let (k, v) = more.last();
        assert(distinct(init)) by {
            assert forall|i: int, j: int| 0 <= i < j < init.len() implies init[i].0 != init[j].0 by {
                assert(more[i].0 != more[j].0);
            }
        }
        lemma_lookup_put_all_new(e, init, x);
        lemma_position(init, x);
        lemma_lookup_put(put_all_new(e, init), k, v, x);
        if x == k && has_key(init, x) {
            assert(init[position(init, x)] == more[position(init, x)]);
            assert(more[position(init, x)].0 == more[more.len() - 1].0);
        }
    }
}

/// What is under a key after putting entries one after the other: what was
/// put there, else what was there.
pub proof fn lemma_lookup_put_all<V>(
    e: Seq<(Seq<char>, V)>,
    more: Seq<(Seq<char>, V)>,
    x: Seq<char>,
)
    ensures
        lookup(put_all(e, more), x) == (if has_key(more, x) {
            lookup(more, x)
        } else {
            lookup(e, x)
        }),
        has_key(put_all(e, more), x) <==> (has_key(e, x) || has_key(more, x)),
        distinct(e) ==> distinct(put_all(e, more)),
    decreases more.len(),
{
    if more.len() > 0 {
        let init = more.drop_last();
        let (k, v) = more.last();
        lemma_lookup_put_all(e, init, x);
        lemma_position(init, x);
        lemma_lookup_put(put_all(e, init), k, v, x);
    }
}

} // verus!
