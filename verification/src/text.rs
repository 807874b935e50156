//! Text primitives: strings are sequences of characters, and every operation
//! says exactly which sequence it returns.

use vstd::prelude::*;
use vstd::string::*;
use crate::seqs::{group_text, opt_text, opt_texts, texts};

verus! {

broadcast use group_text;

/// `parts` written one after the other with `sep` between neighbours.
pub open spec fn joined(parts: Seq<Seq<char>>, sep: Seq<char>) -> Seq<char>
    decreases parts.len(),
{
    if parts.len() == 0 {
        seq![]
    } else if parts.len() == 1 {
        parts[0]
    } else {
        joined(parts.drop_last(), sep) + sep + parts.last()
    }
}

/// `pat` stands in `s` at position `i`.
pub open spec fn occurs_at(s: Seq<char>, pat: Seq<char>, i: int) -> bool {
    0 <= i && i + pat.len() <= s.len() && s.subrange(i, i + pat.len()) == pat
}

/// `pat` stands somewhere in `s`.
pub open spec fn has_text(s: Seq<char>, pat: Seq<char>) -> bool {
    exists|i: int| occurs_at(s, pat, i)
}

/// Some character of `s` is `c`.
pub open spec fn has_char(s: Seq<char>, c: char) -> bool {
    s.contains(c)
}

pub open spec fn starts(s: Seq<char>, pat: Seq<char>) -> bool {
    pat.len() <= s.len() && s.subrange(0, pat.len() as int) == pat
}

pub open spec fn ends(s: Seq<char>, pat: Seq<char>) -> bool {
    pat.len() <= s.len() && s.subrange(s.len() - pat.len(), s.len() as int) == pat
}

/// What remains of `s` behind the first `n` characters.
pub open spec fn after(s: Seq<char>, n: int) -> Seq<char> {
    s.subrange(n, s.len() as int)
}

/// The pieces of `s` between the occurrences of `c`: one more than there are occurrences.
pub open spec fn split_on(s: Seq<char>, c: char) -> Seq<Seq<char>>
    decreases s.len(),
{
    if s.len() == 0 {
        seq![seq![]]
    } else {
        let before = split_on(s.drop_last(), c);
        if s.last() == c {
            before.push(seq![])
        } else {
            before.update(before.len() - 1, before.last().push(s.last()))
        }
    }
}

/// The Unicode property White_Space.
pub open spec fn white_space(c: char) -> bool {
    ||| '\u{9}' <= c <= '\u{d}'
    ||| c == ' '
    ||| c == '\u{85}'
    ||| c == '\u{a0}'
    ||| c == '\u{1680}'
    ||| '\u{2000}' <= c <= '\u{200a}'
    ||| c == '\u{2028}'
    ||| c == '\u{2029}'
    ||| c == '\u{202f}'
    ||| c == '\u{205f}'
    ||| c == '\u{3000}'
}

/// `s` without its leading white space.
pub open spec fn trimmed_start(s: Seq<char>) -> Seq<char>
    decreases s.len(),
{
    if s.len() > 0 && white_space(s[0]) {
        trimmed_start(s.drop_first())
    } else {
        s
    }
}

/// `s` without its trailing white space.
pub open spec fn trimmed_end(s: Seq<char>) -> Seq<char>
    decreases s.len(),
{
    if s.len() > 0 && white_space(s.last()) {
        trimmed_end(s.drop_last())
    } else {
        s
    }
}

/// `s` without white space at either end.
pub open spec fn trimmed(s: Seq<char>) -> Seq<char> {
    trimmed_end(trimmed_start(s))
}

/// `s` without the occurrences of `c` at its end.
pub open spec fn stripped_end(s: Seq<char>, c: char) -> Seq<char>
    decreases s.len(),
{
    if s.len() > 0 && s.last() == c {
        stripped_end(s.drop_last(), c)
    } else {
        s
    }
}

/// `s` with every `c` replaced by `by`.
pub open spec fn replaced_char(s: Seq<char>, c: char, by: Seq<char>) -> Seq<char>
    decreases s.len(),
{
    if s.len() == 0 {
        seq![]
    } else {
        replaced_char(s.drop_last(), c, by) + (if s.last() == c {
            by
        } else {
            seq![s.last()]
        })
    }
}

/// The decimal digit of `d`.
pub open spec fn digit(d: nat) -> char {
    if d == 0 { '0' } else if d == 1 { '1' } else if d == 2 { '2' } else if d == 3 { '3' }
    else if d == 4 { '4' } else if d == 5 { '5' } else if d == 6 { '6' } else if d == 7 { '7' }
    else if d == 8 { '8' } else { '9' }
}

/// `n` in decimal, without leading zeros.
pub open spec fn decimal(n: nat) -> Seq<char>
    decreases n,
{
    if n < 10 {
        seq![digit(n)]
    } else {
        decimal(n / 10).push(digit(n % 10))
    }
}

/// `String::push`: one character is added at the end.
#[verifier::external_body]
pub(crate) fn push_char(s: &mut String, c: char)
    ensures
        final(s)@ == old(s)@.push(c),
{
    s.push(c)
}

/// `str::eq`: two texts are equal when they hold the same characters.
#[verifier::external_body]
pub(crate) fn str_eq(a: &str, b: &str) -> (r: bool)
    ensures
        r == (a@ == b@),
{
    a == b
}

/// Whether two texts hold the same characters.
pub fn same(a: &str, b: &str) -> (r: bool)
    ensures
        r == (a@ == b@),
{
    str_eq(a, b)
}

/// The characters of `s`.
pub fn to_chars(s: &str) -> (r: Vec<char>)
    ensures
        r@ == s@,
{
    let mut out: Vec<char> = Vec::new();
    for c in it: s.chars()
        invariant
            it.seq() == s@,
            out@ =~= s@.take(it.index()),
    {
        out.push(c);
    }
    out
}

/// The text made of `chars[from..to]`.
pub fn from_chars(chars: &[char], from: usize, to: usize) -> (r: String)
    requires
        from <= to <= chars@.len(),
    ensures
        r@ == chars@.subrange(from as int, to as int),
{
    let mut out = String::new();
    for i in from..to
        invariant
            from <= to <= chars@.len(),
            out@ =~= chars@.subrange(from as int, i as int),
    {
        push_char(&mut out, chars[i]);
    }
    out
}

/// Whether `pat` stands in `s` at position `at`.
pub fn chars_at(s: &[char], pat: &[char], at: usize) -> (r: bool)
    requires
        at <= s@.len(),
    ensures
        r == occurs_at(s@, pat@, at as int),
{
    if s.len() - at < pat.len() {
        return false;
    }
    for i in 0..pat.len()
        invariant
            at + pat.len() <= s.len(),
            forall|k: int| 0 <= k < i ==> s@[at + k] == pat@[k],
    {
        if s[at + i] != pat[i] {
            proof {
                assert(s@.subrange(at as int, at + pat@.len())[i as int] != pat@[i as int]);
            }
            return false;
        }
    }
    assert(s@.subrange(at as int, at + pat@.len()) =~= pat@);
    true
}

/// Whether `pat` stands somewhere in `s`.
pub fn contains(s: &str, pat: &str) -> (r: bool)
    ensures
        r == has_text(s@, pat@),
{
    let sc = to_chars(s);
    let pc = to_chars(pat);
    let mut i: usize = 0;
    while i < sc.len()
        invariant
            sc@ == s@,
            pc@ == pat@,
            i <= sc@.len(),
            forall|k: int| 0 <= k < i ==> !occurs_at(s@, pat@, k),
        decreases sc.len() - i,
    {
        if chars_at(&sc, &pc, i) {
            return true;
        }
        i += 1;
    }
    let r = chars_at(&sc, &pc, i);
    assert(forall|k: int| k > i ==> !occurs_at(s@, pat@, k));
    r
}

/// Whether `c` is a character of `s`.
pub fn contains_char(s: &str, c: char) -> (r: bool)
    ensures
        r == has_char(s@, c),
{
    let sc = to_chars(s);
    for i in 0..sc.len()
        invariant
            sc@ == s@,
            forall|k: int| 0 <= k < i ==> s@[k] != c,
    {
        if sc[i] == c {
            return true;
        }
    }
    false
}

pub fn starts_with(s: &str, pat: &str) -> (r: bool)
    ensures
        r == starts(s@, pat@),
{
    let sc = to_chars(s);
    let pc = to_chars(pat);
    chars_at(&sc, &pc, 0)
}

pub fn ends_with(s: &str, pat: &str) -> (r: bool)
    ensures
        r == ends(s@, pat@),
{
    let sc = to_chars(s);
    let pc = to_chars(pat);
    if pc.len() > sc.len() {
        return false;
    }
    chars_at(&sc, &pc, sc.len() - pc.len())
}

/// What stands in `s` behind `pat`, if `s` begins with `pat`.
pub fn strip_prefix(s: &str, pat: &str) -> (r: Option<String>)
    ensures
        r is Some == starts(s@, pat@),
        r matches Some(t) ==> t@ == after(s@, pat@.len() as int),
{
    let sc = to_chars(s);
    let pc = to_chars(pat);
    if chars_at(&sc, &pc, 0) {
        Some(from_chars(&sc, pc.len(), sc.len()))
    } else {
        None
    }
}

pub fn is_white_space(c: char) -> (r: bool)
    ensures
        r == white_space(c),
{
    ('\u{9}' <= c && c <= '\u{d}') || c == ' ' || c == '\u{85}' || c == '\u{a0}' || c == '\u{1680}'
        || ('\u{2000}' <= c && c <= '\u{200a}') || c == '\u{2028}' || c == '\u{2029}'
        || c == '\u{202f}' || c == '\u{205f}' || c == '\u{3000}'
}

pub fn trim_start(s: &str) -> (r: String)
    ensures
        r@ == trimmed_start(s@),
{
    let sc = to_chars(s);
    let mut i: usize = 0;
    assert(after(s@, 0) =~= s@);
    while i < sc.len() && is_white_space(sc[i])
        invariant
            sc@ == s@,
            i <= sc@.len(),
            trimmed_start(after(s@, i as int)) == trimmed_start(s@),
        decreases sc.len() - i,
    {
        assert(after(s@, i as int).drop_first() =~= after(s@, i + 1));
        i += 1;
    }
    from_chars(&sc, i, sc.len())
}

pub fn trim_end(s: &str) -> (r: String)
    ensures
        r@ == trimmed_end(s@),
{
    let sc = to_chars(s);
    let mut i: usize = sc.len();
    assert(s@.take(i as int) =~= s@);
    while i > 0 && is_white_space(sc[i - 1])
        invariant
            sc@ == s@,
            i <= sc@.len(),
            trimmed_end(s@.take(i as int)) == trimmed_end(s@),
        decreases i,
    {
        assert(s@.take(i as int).drop_last() =~= s@.take(i - 1));
        i -= 1;
    }
    let r = from_chars(&sc, 0, i);
    assert(r@ =~= s@.take(i as int));
    r
}

pub fn trim(s: &str) -> (r: String)
    ensures
        r@ == trimmed(s@),
{
    let t = trim_start(s);
    trim_end(t.as_str())
}

pub fn strip_end(s: &str, c: char) -> (r: String)
    ensures
        r@ == stripped_end(s@, c),
{
    let sc = to_chars(s);
    let mut i: usize = sc.len();
    assert(s@.take(i as int) =~= s@);
    while i > 0 && sc[i - 1] == c
        invariant
            sc@ == s@,
            i <= sc@.len(),
            stripped_end(s@.take(i as int), c) == stripped_end(s@, c),
        decreases i,
    {
        assert(s@.take(i as int).drop_last() =~= s@.take(i - 1));
        i -= 1;
    }
    let r = from_chars(&sc, 0, i);
    assert(r@ =~= s@.take(i as int));
    r
}

/// A text has at least one piece.
pub proof fn lemma_split_on(s: Seq<char>, c: char)
    ensures
        split_on(s, c).len() >= 1,
    decreases s.len(),
{
    if s.len() > 0 {
        lemma_split_on(s.drop_last(), c);
    }
}

pub fn split(s: &str, c: char) -> (r: Vec<String>)
    ensures
        r@.len() > 0,
        texts(r@) == split_on(s@, c),
{
    let sc = to_chars(s);
    let mut done: Vec<String> = Vec::new();
    let mut cur = String::new();
    assert(texts(done@).push(cur@) =~= split_on(s@.take(0), c));
    for i in 0..sc.len()
        invariant
            sc@ == s@,
            texts(done@).push(cur@) == split_on(s@.take(i as int), c),
    {
        let ghost before = texts(done@).push(cur@);
        proof {
            assert(s@.take(i + 1).drop_last() =~= s@.take(i as int));
        }
        if sc[i] == c {
            let ghost d = done@;
            let ghost last = cur@;
            done.push(cur);
            cur = String::new();
            assert(texts(done@) =~= texts(d).push(last));
        } else {
            let ghost last = cur@;
            push_char(&mut cur, sc[i]);
            assert(texts(done@).push(cur@) =~= before.update(before.len() - 1, last.push(s@[i as int])));
        }
    }
    assert(s@.take(s@.len() as int) =~= s@);
    let ghost d = done@;
    let ghost last = cur@;
    done.push(cur);
    assert(texts(done@) =~= texts(d).push(last));
    done
}

pub fn replace_char(s: &str, c: char, by: &str) -> (r: String)
    ensures
        r@ == replaced_char(s@, c, by@),
{
    let sc = to_chars(s);
    let mut out = String::new();
    for i in 0..sc.len()
        invariant
            sc@ == s@,
            out@ == replaced_char(s@.take(i as int), c, by@),
    {
        proof {
            assert(s@.take(i + 1).drop_last() =~= s@.take(i as int));
        }
        let ghost o = out@;
        if sc[i] == c {
            out.append(by);
        } else {
            push_char(&mut out, sc[i]);
            assert(out@ =~= o + seq![s@[i as int]]);
        }
    }
    assert(s@.take(s@.len() as int) =~= s@);
    out
}

pub fn join(parts: &[String], sep: &str) -> (r: String)
    ensures
        r@ == joined(texts(parts@), sep@),
{
    let mut out = String::new();
    for i in 0..parts.len()
        invariant
            out@ == joined(texts(parts@.take(i as int)), sep@),
    {
        proof {
            let t = texts(parts@.take(i + 1));
            assert(t.drop_last() =~= texts(parts@.take(i as int)));
            assert(t.last() == parts@[i as int]@);
        }
        if i > 0 {
            out.append(sep);
        }
        out.append(parts[i].as_str());
        proof {
            if i == 0 {
                assert(out@ =~= parts@[0]@);
            }
        }
    }
    assert(parts@.take(parts@.len() as int) =~= parts@);
    out
}

fn digit_char(d: usize) -> (c: char)
    requires
        d < 10,
    ensures
        c == digit(d as nat),
{
    if d == 0 { '0' } else if d == 1 { '1' } else if d == 2 { '2' } else if d == 3 { '3' }
    else if d == 4 { '4' } else if d == 5 { '5' } else if d == 6 { '6' } else if d == 7 { '7' }
    else if d == 8 { '8' } else { '9' }
}

/// `n` in decimal.
pub fn show_usize(n: usize) -> (r: String)
    ensures
        r@ == decimal(n as nat),
    decreases n,
{
    let mut out = if n < 10 {
        String::new()
    } else {
        show_usize(n / 10)
    };
    push_char(&mut out, digit_char(n % 10));
    assert(n < 10 ==> out@ =~= seq![digit(n as nat)]);
    out
}

/// A copy of an optional text.
pub fn dup_opt(o: &Option<String>) -> (r: Option<String>)
    ensures
        opt_text(r) == opt_text(*o),
{
    match o {
        Some(s) => Some(s.clone()),
        None => None,
    }
}

/// A copy of a list of texts.
pub fn dup_list(v: &Vec<String>) -> (r: Vec<String>)
    ensures
        texts(r@) == texts(v@),
{
    let mut out: Vec<String> = Vec::new();
    for i in 0..v.len()
        invariant
            texts(out@) =~= texts(v@).take(i as int),
    {
        out.push(v[i].clone());
    }
    assert(texts(out@) =~= texts(v@));
    out
}

/// A copy of an optional list of texts.
pub fn dup_opt_list(o: &Option<Vec<String>>) -> (r: Option<Vec<String>>)
    ensures
        opt_texts(r) == opt_texts(*o),
{
    match o {
        Some(v) => Some(dup_list(v)),
        None => None,
    }
}

/// Whether `s` is one of `list`.
pub fn list_has(list: &[String], s: &str) -> (r: bool)
    ensures
        r == texts(list@).contains(s@),
{
    for i in 0..list.len()
        invariant
            forall|k: int| 0 <= k < i ==> texts(list@)[k] != s@,
    {
        if same(list[i].as_str(), s) {
            assert(texts(list@)[i as int] == s@);
            return true;
        }
    }
    false
}

/// The number that a decimal digit stands for.
pub open spec fn digit_value(c: char) -> Option<nat> {
    if '0' <= c <= '9' {
        Some((c as u32 - '0' as u32) as nat)
    } else {
        None
    }
}

/// The number that a non-empty run of decimal digits stands for.
pub open spec fn digits_value(s: Seq<char>) -> Option<nat>
    decreases s.len(),
{
    if s.len() == 0 {
        None
    } else {
        match digit_value(s.last()) {
            None => None,
            Some(d) => if s.len() == 1 {
                Some(d)
            } else {
                match digits_value(s.drop_last()) {
                    Some(n) => Some(n * 10 + d),
                    None => None,
                }
            },
        }
    }
}

/// The number that decimal digits with an optional plus sign in front stand for.
pub open spec fn unsigned_value(s: Seq<char>) -> Option<nat> {
    if s.len() > 0 && s[0] == '+' {
        digits_value(after(s, 1))
    } else {
        digits_value(s)
    }
}

/// The number that `s` stands for, if it is one and is at most `max`.
pub fn parse_unsigned(s: &str, max: usize) -> (r: Option<usize>)
    ensures
        r matches Some(n) ==> unsigned_value(s@) == Some(n as nat) && n <= max,
        r is None ==> (unsigned_value(s@) matches Some(n) ==> n > max),
{
    let sc = to_chars(s);
    let start: usize = if sc.len() > 0 && sc[0] == '+' { 1 } else { 0 };
    let ghost t = if start == 1 { after(s@, 1) } else { s@ };
    assert(t =~= s@.subrange(start as int, s@.len() as int));
    if start == sc.len() {
        return None;
    }
    let mut value: usize = 0;
    let mut i: usize = start;
    while i < sc.len()
        invariant
            sc@ == s@,
            start <= i <= sc@.len(),
            start < sc@.len(),
            start <= 1,
            t == s@.subrange(start as int, s@.len() as int),
            unsigned_value(s@) == digits_value(t),
            i == start ==> value == 0,
            i > start ==> digits_value(t.take(i - start)) == Some(value as nat),
            value <= max,
        decreases sc.len() - i,
    {
        let c = sc[i];
        proof {
            assert(t[i - start] == c);
            assert(t.take(i - start + 1).drop_last() =~= t.take(i - start));
            assert(t.take(i - start + 1).last() == c);
        }
        if !('0' <= c && c <= '9') {
            proof {
                lemma_digits_prefix(t, i - start + 1);
            }
            return None;
        }
        let d: usize = (c as u32 - '0' as u32) as usize;
        let next: Option<usize> = match value.checked_mul(10) {
            Some(v) => v.checked_add(d),
            None => None,
        };
        match next {
            Some(v) => {
                if v > max {
                    proof {
                        lemma_digits_prefix(t, i - start + 1);
                    }
                    return None;
                }
                value = v;
            },
            None => {
                proof {
                    lemma_digits_prefix(t, i - start + 1);
                    assert(value * 10 + d > usize::MAX);
                }
                return None;
            },
        }
        i += 1;
    }
    assert(t.take(t.len() as int) =~= t);
    Some(value)
}

/// A number is at least what a prefix of its digits stands for.
proof fn lemma_digits_prefix(s: Seq<char>, n: int)
    requires
        0 < n <= s.len(),
    ensures
        digits_value(s) is Some ==> digits_value(s.take(n)) is Some,
        digits_value(s) matches Some(v) ==> v >= digits_value(s.take(n))->0,
    decreases s.len() - n,
{
    if n < s.len() {
        lemma_digits_prefix(s, n + 1);
        assert(s.take(n + 1).drop_last() =~= s.take(n));
    } else {
        assert(s.take(n) =~= s);
    }
}

/// `a` stands before `b` in the order of their characters.
pub open spec fn text_before(a: Seq<char>, b: Seq<char>) -> bool
    decreases a.len(),
{
    if b.len() == 0 {
        false
    } else if a.len() == 0 {
        true
    } else if a[0] != b[0] {
        a[0] < b[0]
    } else {
        text_before(a.drop_first(), b.drop_first())
    }
}

/// Whether `a` stands before `b` in the order of their characters.
pub fn is_before(a: &str, b: &str) -> (r: bool)
    ensures
        r == text_before(a@, b@),
{
    let ac = to_chars(a);
    let bc = to_chars(b);
    let mut i: usize = 0;
    assert(after(a@, 0) =~= a@);
    assert(after(b@, 0) =~= b@);
    while i < ac.len() && i < bc.len() && ac[i] == bc[i]
        invariant
            ac@ == a@,
            bc@ == b@,
            i <= ac@.len(),
            i <= bc@.len(),
            text_before(a@, b@) == text_before(after(a@, i as int), after(b@, i as int)),
        decreases ac.len() - i,
    {
        assert(after(a@, i as int).drop_first() =~= after(a@, i + 1));
        assert(after(b@, i as int).drop_first() =~= after(b@, i + 1));
        i += 1;
    }
    if i == bc.len() {
        false
    } else if i == ac.len() {
        true
    } else {
        ac[i] < bc[i]
    }
}

/// `s`, which is in order, with `x` at its place unless it is there already.
pub open spec fn with_sorted(s: Seq<Seq<char>>, x: Seq<char>) -> Seq<Seq<char>>
    decreases s.len(),
{
    if s.len() == 0 {
        seq![x]
    } else if s.last() == x {
        s
    } else if text_before(s.last(), x) {
        s.push(x)
    } else {
        with_sorted(s.drop_last(), x).push(s.last())
    }
}

/// The texts of `s` in order, each once.
pub open spec fn sorted(s: Seq<Seq<char>>) -> Seq<Seq<char>>
    decreases s.len(),
{
    if s.len() == 0 {
        seq![]
    } else {
        with_sorted(sorted(s.drop_last()), s.last())
    }
}

/// Puts `x` at its place in a list that is in order, unless it is there already.
fn insert_sorted(list: &mut Vec<String>, x: String)
    ensures
        texts(final(list)@) == with_sorted(texts(old(list)@), x@),
{
    let ghost s = texts(list@);
    let mut i: usize = list.len();
    assert(s.take(i as int) =~= s);
    assert(with_sorted(s, x@) =~= with_sorted(s.take(i as int), x@) + s.skip(i as int));
    while i > 0 && !is_before(list[i - 1].as_str(), x.as_str())
        invariant
            i <= list@.len(),
            list@ == old(list)@,
            s == texts(list@),
            with_sorted(s, x@) == with_sorted(s.take(i as int), x@) + s.skip(i as int),
        decreases i,
    {
        assert(s.take(i as int).last() == list@[i - 1]@);
        if same(list[i - 1].as_str(), x.as_str()) {
            assert(s.take(i as int) + s.skip(i as int) =~= s);
            return;
        }
        assert(s.take(i as int).drop_last() =~= s.take(i - 1));
        assert(with_sorted(s.take(i as int), x@) + s.skip(i as int) =~= with_sorted(s.take(i - 1), x@)
            + s.skip(i - 1));
        i -= 1;
    }
    proof {
        if i > 0 {
            assert(s.take(i as int).last() == list@[i - 1]@);
            lemma_before_is_strict(x@);
        }
        assert(with_sorted(s.take(i as int), x@) =~= s.take(i as int).push(x@));
        assert(s.take(i as int).push(x@) + s.skip(i as int) =~= s.insert(i as int, x@));
    }
    list.insert(i, x);
    assert(texts(list@) =~= s.insert(i as int, x@));
}

/// No text stands before itself.
proof fn lemma_before_is_strict(a: Seq<char>)
    ensures
        !text_before(a, a),
    decreases a.len(),
{
    if a.len() > 0 {
        lemma_before_is_strict(a.drop_first());
    }
}

/// Of two different texts, one stands before the other.
proof fn lemma_before_is_total(a: Seq<char>, b: Seq<char>)
    requires
        a != b,
    ensures
        text_before(a, b) || text_before(b, a),
    decreases a.len(),
{
    if a.len() == 0 {
        if b.len() == 0 {
            assert(a =~= b);
        }
    } else if b.len() > 0 && a[0] == b[0] {
        if a.drop_first() == b.drop_first() {
            assert(a =~= seq![a[0]] + a.drop_first());
            assert(b =~= seq![b[0]] + b.drop_first());
        }
        lemma_before_is_total(a.drop_first(), b.drop_first());
    }
}

/// What stands before a text stands before all that this stands before.
proof fn lemma_before_is_transitive(a: Seq<char>, b: Seq<char>, c: Seq<char>)
    requires
        text_before(a, b),
        text_before(b, c),
    ensures
        text_before(a, c),
    decreases a.len(),
{
    if a.len() > 0 && a[0] == b[0] && b[0] == c[0] {
        lemma_before_is_transitive(a.drop_first(), b.drop_first(), c.drop_first());
    }
}

/// Every text stands before those behind it.
pub open spec fn in_order(s: Seq<Seq<char>>) -> bool {
    forall|i: int, j: int| 0 <= i < j < s.len() ==> text_before(#[trigger] s[i], #[trigger] s[j])
}

proof fn lemma_with_sorted_in_order(s: Seq<Seq<char>>, x: Seq<char>)
    requires
        in_order(s),
    ensures
        in_order(with_sorted(s, x)),
    decreases s.len(),
{
    let w = with_sorted(s, x);
    if s.len() > 0 && s.last() != x {
        let last = s.last();
        let init = s.drop_last();
        if text_before(last, x) {
            assert forall|i: int, j: int| 0 <= i < j < w.len() implies text_before(
                #[trigger] w[i],
                #[trigger] w[j],
            ) by {
                if j < s.len() {
                    assert(text_before(s[i], s[j]));
                } else if i < s.len() - 1 {
                    assert(text_before(s[i], s[s.len() - 1]));
                    lemma_before_is_transitive(s[i], last, x);
                }
            }
        } else {
            lemma_before_is_total(last, x);
            assert forall|i: int, j: int| 0 <= i < j < init.len() implies text_before(
                #[trigger] init[i],
                #[trigger] init[j],
            ) by {
                assert(text_before(s[i], s[j]));
            }
            lemma_with_sorted_in_order(init, x);
            let inner = with_sorted(init, x);
            assert forall|i: int, j: int| 0 <= i < j < w.len() implies text_before(
                #[trigger] w[i],
                #[trigger] w[j],
            ) by {
                if j < inner.len() {
                    assert(text_before(inner[i], inner[j]));
                } else {
                    lemma_with_sorted(init, x, inner[i]);
                    assert(inner.contains(inner[i]));
                    if inner[i] != x {
                        let k = choose|k: int| 0 <= k < init.len() && init[k] == inner[i];
                        assert(text_before(s[k], s[s.len() - 1]));
                    }
                }
            }
        }
    }
}

/// Sorted texts are in order, so that each stands once.
pub proof fn law_sorted_is_in_order(s: Seq<Seq<char>>)
    ensures
        in_order(sorted(s)),
    decreases s.len(),
{
    if s.len() > 0 {
        law_sorted_is_in_order(s.drop_last());
        lemma_with_sorted_in_order(sorted(s.drop_last()), s.last());
    }
}

/// The texts of `list` in order, each once.
pub fn sort(list: &[String]) -> (r: Vec<String>)
    ensures
        texts(r@) == sorted(texts(list@)),
{
    let mut out: Vec<String> = Vec::new();
    assert(texts(out@) =~= sorted(texts(list@).take(0)));
    for i in 0..list.len()
        invariant
            texts(out@) == sorted(texts(list@).take(i as int)),
    {
        insert_sorted(&mut out, list[i].clone());
    }
    assert(texts(list@).take(list@.len() as int) =~= texts(list@));
    out
}

/// Sorting keeps exactly the texts that are there.
pub proof fn law_sorted_keeps_texts(s: Seq<Seq<char>>, x: Seq<char>)
    ensures
        sorted(s).contains(x) <==> s.contains(x),
    decreases s.len(),
{
    if s.len() > 0 {
        law_sorted_keeps_texts(s.drop_last(), x);
        lemma_with_sorted(sorted(s.drop_last()), s.last(), x);
        if s.contains(x) && x != s.last() {
            let i = choose|i: int| 0 <= i < s.len() && s[i] == x;
            assert(s.drop_last()[i] == x);
        }
        if s.drop_last().contains(x) {
            let i = choose|i: int| 0 <= i < s.drop_last().len() && s.drop_last()[i] == x;
            assert(s[i] == x);
        }
        assert(s[s.len() - 1] == s.last());
    }
}

proof fn lemma_with_sorted(s: Seq<Seq<char>>, y: Seq<char>, x: Seq<char>)
    ensures
        with_sorted(s, y).contains(x) <==> (s.contains(x) || x == y),
    decreases s.len(),
{
    let w = with_sorted(s, y);
    if s.len() == 0 {
        assert(w[0] == y);
    } else {
        assert(s[s.len() - 1] == s.last());
        if s.last() != y && !text_before(s.last(), y) {
            lemma_with_sorted(s.drop_last(), y, x);
            let inner = with_sorted(s.drop_last(), y);
            assert(w.contains(x) <==> (inner.contains(x) || x == s.last())) by {
                if inner.contains(x) {
                    let i = choose|i: int| 0 <= i < inner.len() && inner[i] == x;
                    assert(w[i] == x);
                }
                assert(w[w.len() - 1] == s.last());
                if w.contains(x) {
                    let i = choose|i: int| 0 <= i < w.len() && w[i] == x;
                    if i < inner.len() {
                        assert(inner[i] == x);
                    }
                }
            }
            assert(s.contains(x) <==> (s.drop_last().contains(x) || x == s.last())) by {
                if s.contains(x) {
                    let i = choose|i: int| 0 <= i < s.len() && s[i] == x;
                    if i < s.len() - 1 {
                        assert(s.drop_last()[i] == x);
                    }
                }
                if s.drop_last().contains(x) {
                    let i = choose|i: int| 0 <= i < s.drop_last().len() && s.drop_last()[i] == x;
                    assert(s[i] == x);
                }
            }
        } else if s.last() != y {
            assert(w[w.len() - 1] == y);
            if s.contains(x) {
                let i = choose|i: int| 0 <= i < s.len() && s[i] == x;
                assert(w[i] == x);
            }
            if w.contains(x) {
                let i = choose|i: int| 0 <= i < w.len() && w[i] == x;
                if i < s.len() {
                    assert(s[i] == x);
                }
            }
        }
    }
}

/// `s` in lower case.
pub uninterp spec fn lower_case(s: Seq<char>) -> Seq<char>;

/// `str::to_lowercase`: the text in lower case, by the tables of Unicode.
#[verifier::external_body]
pub(crate) fn to_lower(s: &str) -> (r: String)
    ensures
        r@ == lower_case(s@),
{
    s.to_lowercase()
}

/// The trimmed pieces of `s` between commas that are not empty.
pub open spec fn comma_items(s: Seq<char>) -> Seq<Seq<char>> {
    full_items(split_on(s, ','))
}

/// The trimmed texts that are not empty.
pub open spec fn full_items(parts: Seq<Seq<char>>) -> Seq<Seq<char>>
    decreases parts.len(),
{
    if parts.len() == 0 {
        seq![]
    } else {
        let before = full_items(parts.drop_last());
        let item = trimmed(parts.last());
        if item.len() == 0 {
            before
        } else {
            before.push(item)
        }
    }
}

/// The trimmed pieces of `s` between commas that are not empty.
pub fn split_commas(s: &str) -> (r: Vec<String>)
    ensures
        texts(r@) == comma_items(s@),
{
    let parts = split(s, ',');
    let mut out: Vec<String> = Vec::new();
    assert(texts(out@) =~= full_items(texts(parts@).take(0)));
    for i in 0..parts.len()
        invariant
            texts(out@) == full_items(texts(parts@).take(i as int)),
    {
        let item = trim(parts[i].as_str());
        if !item.as_str().is_empty() {
            out.push(item);
        }
    }
    assert(texts(parts@).take(parts@.len() as int) =~= texts(parts@));
    out
}

/// How `s` is shown between quotes, with its special characters escaped.
pub uninterp spec fn quoted_debug(s: Seq<char>) -> Seq<char>;

/// `format!` with `{:?}` on a `str`: the text between double quotes, with its
/// special characters escaped.
#[verifier::external_body]
pub(crate) fn debug_text(s: &str) -> (r: String)
    ensures
        r@ == quoted_debug(s@),
{
    format!("{:?}", s)
}

/// `s` without a carriage return at its end.
pub open spec fn without_cr(s: Seq<char>) -> Seq<char> {
    if s.len() > 0 && s.last() == '\r' {
        s.drop_last()
    } else {
        s
    }
}

/// The lines of `s`, without their ends. What follows the last line end is a
/// line only where it is not empty.
pub open spec fn lines_of(s: Seq<char>) -> Seq<Seq<char>> {
    let pieces = split_on(s, '\n');
    let full = pieces.drop_last().map_values(|p: Seq<char>| without_cr(p));
    if pieces.last().len() == 0 {
        full
    } else {
        full.push(pieces.last())
    }
}

fn strip_cr(s: &str) -> (r: String)
    ensures
        r@ == without_cr(s@),
{
    let sc = to_chars(s);
    if sc.len() > 0 && sc[sc.len() - 1] == '\r' {
        let r = from_chars(&sc, 0, sc.len() - 1);
        assert(r@ =~= s@.drop_last());
        r
    } else {
        s.to_owned()
    }
}

pub fn lines(s: &str) -> (r: Vec<String>)
    ensures
        texts(r@) == lines_of(s@),
{
    let pieces = split(s, '\n');
    proof {
        lemma_split_on(s@, '\n');
    }
    let ghost p = texts(pieces@);
    let n: usize = pieces.len();
    assert(p.len() == n);
    let mut out: Vec<String> = Vec::new();
    let ghost full = p.drop_last().map_values(|p: Seq<char>| without_cr(p));
    for i in 0..n - 1
        invariant
            n == pieces@.len(),
            n >= 1,
            p == texts(pieces@),
            full == p.drop_last().map_values(|p: Seq<char>| without_cr(p)),
            texts(out@) =~= full.take(i as int),
    {
        out.push(strip_cr(pieces[i].as_str()));
    }
    assert(texts(out@) =~= full);
    if !pieces[n - 1].as_str().is_empty() {
        out.push(pieces[n - 1].clone());
    }
    out
}

/// The first position from `i` on at which `pat` stands in `s`, -1 where there is none.
pub open spec fn find_from(s: Seq<char>, pat: Seq<char>, i: int) -> int
    decreases s.len() + 1 - i,
{
    if i < 0 || i > s.len() {
        -1
    } else if occurs_at(s, pat, i) {
        i
    } else {
        find_from(s, pat, i + 1)
    }
}

proof fn lemma_find_from(s: Seq<char>, pat: Seq<char>, i: int)
    requires
        0 <= i <= s.len() + 1,
    ensures
        -1 <= find_from(s, pat, i) <= s.len(),
        find_from(s, pat, i) >= 0 ==> find_from(s, pat, i) >= i && occurs_at(
            s,
            pat,
            find_from(s, pat, i),
        ),
    decreases s.len() + 1 - i,
{
    if i <= s.len() && !occurs_at(s, pat, i) {
        lemma_find_from(s, pat, i + 1);
    }
}

fn find_chars(s: &[char], pat: &[char], from: usize) -> (r: Option<usize>)
    requires
        from <= s@.len(),
    ensures
        match r {
            Some(i) => i == find_from(s@, pat@, from as int) && from <= i && i + pat@.len()
                <= s@.len() && occurs_at(s@, pat@, i as int),
            None => find_from(s@, pat@, from as int) == -1,
        },
{
    let mut i: usize = from;
    while i < s.len()
        invariant
            from <= i <= s@.len(),
            find_from(s@, pat@, i as int) == find_from(s@, pat@, from as int),
        decreases s.len() - i,
    {
        if chars_at(s, pat, i) {
            return Some(i);
        }
        i += 1;
    }
    if chars_at(s, pat, i) {
        return Some(i);
    }
    assert(find_from(s@, pat@, i + 1) == -1);
    None
}

/// `s` up to the first `pat`, and what stands behind it.
pub open spec fn cut_at(s: Seq<char>, pat: Seq<char>) -> Option<(Seq<char>, Seq<char>)> {
    let i = find_from(s, pat, 0);
    if i >= 0 {
        Some((s.take(i), after(s, i + pat.len())))
    } else {
        None
    }
}

/// What a pair of texts stands for.
pub open spec fn opt_pair(o: Option<(String, String)>) -> Option<(Seq<char>, Seq<char>)> {
    match o {
        Some(p) => Some((p.0@, p.1@)),
        None => None,
    }
}

/// `s` up to the first `pat`, and what stands behind it.
pub fn split_once(s: &str, pat: &str) -> (r: Option<(String, String)>)
    ensures
        opt_pair(r) == cut_at(s@, pat@),
{
    let sc = to_chars(s);
    let pc = to_chars(pat);
    let n: usize = sc.len();
    match find_chars(&sc, &pc, 0) {
        Some(i) => {
            let head = from_chars(&sc, 0, i);
            assert(head@ =~= s@.take(i as int));
            Some((head, from_chars(&sc, i + pc.len(), n)))
        },
        None => None,
    }
}

/// `s` with every `pat`, from the left and without overlap, replaced by `by`.
pub open spec fn replaced_text(s: Seq<char>, pat: Seq<char>, by: Seq<char>) -> Seq<char>
    decreases s.len(),
{
    let i = find_from(s, pat, 0);
    if pat.len() == 0 || i < 0 || i + pat.len() > s.len() {
        s
    } else {
        s.take(i) + by + replaced_text(after(s, i + pat.len()), pat, by)
    }
}

proof fn lemma_find_shift(s: Seq<char>, pat: Seq<char>, n: int, i: int)
    requires
        0 <= n <= s.len(),
        0 <= i <= s.len() - n + 1,
    ensures
        find_from(after(s, n), pat, i) == -1 ==> find_from(s, pat, n + i) == -1,
        find_from(after(s, n), pat, i) >= 0 ==> find_from(s, pat, n + i) == n + find_from(
            after(s, n),
            pat,
            i,
        ),
    decreases s.len() - n + 1 - i,
{
    let t = after(s, n);
    if i <= t.len() {
        assert(occurs_at(t, pat, i) == occurs_at(s, pat, n + i)) by {
            if i + pat.len() <= t.len() {
                assert(t.subrange(i, i + pat.len()) =~= s.subrange(n + i, n + i + pat.len()));
            }
        }
        if !occurs_at(t, pat, i) {
            lemma_find_shift(s, pat, n, i + 1);
        }
        lemma_find_from(t, pat, i);
    }
}

/// `s` with every `pat` replaced by `by`.
pub fn replace(s: &str, pat: &str, by: &str) -> (r: String)
    requires
        pat@.len() > 0,
    ensures
        r@ == replaced_text(s@, pat@, by@),
{
    let sc = to_chars(s);
    let pc = to_chars(pat);
    let mut out = String::new();
    let mut pos: usize = 0;
    assert(after(s@, 0) =~= s@);
    assert(Seq::<char>::empty() + replaced_text(s@, pat@, by@) =~= replaced_text(s@, pat@, by@));
    while pos <= sc.len()
        invariant
            sc@ == s@,
            pc@ == pat@,
            pat@.len() > 0,
            pos <= sc@.len(),
            out@ + replaced_text(after(s@, pos as int), pat@, by@) == replaced_text(s@, pat@, by@),
        decreases sc.len() - pos,
    {
        let ghost rest = after(s@, pos as int);
        proof {
            lemma_find_shift(s@, pat@, pos as int, 0);
            lemma_find_from(rest, pat@, 0);
        }
        match find_chars(&sc, &pc, pos) {
            Some(i) => {
                let piece = from_chars(&sc, pos, i);
                let ghost before = out@;
                out.append(piece.as_str());
                out.append(by);
                let next: usize = i + pc.len();
                proof {
                    let k = find_from(rest, pat@, 0);
                    assert(i == pos + k);
                    assert(rest.take(k) =~= s@.subrange(pos as int, i as int));
                    assert(after(rest, k + pat@.len()) =~= after(s@, next as int));
                    assert(out@ + replaced_text(after(s@, next as int), pat@, by@) =~= before + (
                    rest.take(k) + by@ + replaced_text(after(rest, k + pat@.len()), pat@, by@)));
                }
                pos = next;
            },
            None => {
                let piece = from_chars(&sc, pos, sc.len());
                out.append(piece.as_str());
                assert(piece@ =~= rest);
                return out;
            },
        }
    }
    out
}

/// The runs of characters between white space so far, and the run that may still grow.
pub open spec fn word_runs(s: Seq<char>) -> (Seq<Seq<char>>, Seq<char>)
    decreases s.len(),
{
    if s.len() == 0 {
        (seq![], seq![])
    } else {
        let (done, open) = word_runs(s.drop_last());
        if white_space(s.last()) {
            (
                if open.len() == 0 {
                    done
                } else {
                    done.push(open)
                },
                seq![],
            )
        } else {
            (done, open.push(s.last()))
        }
    }
}

/// The runs of characters between white space.
pub open spec fn words_of(s: Seq<char>) -> Seq<Seq<char>> {
    let (done, open) = word_runs(s);
    if open.len() == 0 {
        done
    } else {
        done.push(open)
    }
}

/// The runs of characters between white space.
pub fn words(s: &str) -> (r: Vec<String>)
    ensures
        texts(r@) == words_of(s@),
{
    let sc = to_chars(s);
    let mut done: Vec<String> = Vec::new();
    let mut open = String::new();
    assert(texts(done@) =~= word_runs(s@.take(0)).0);
    assert(open@ =~= word_runs(s@.take(0)).1);
    for i in 0..sc.len()
        invariant
            sc@ == s@,
            (texts(done@), open@) == word_runs(s@.take(i as int)),
    {
        if is_white_space(sc[i]) {
            if !open.as_str().is_empty() {
                done.push(open);
                open = String::new();
            }
            assert(open@ =~= Seq::<char>::empty());
        } else {
            push_char(&mut open, sc[i]);
        }
    }
    assert(s@.take(s@.len() as int) =~= s@);
    if !open.as_str().is_empty() {
        done.push(open);
    }
    done
}

proof fn lemma_decimal_len(n: nat)
    ensures
        decimal(n).len() >= 1,
        n >= 10 ==> decimal(n).len() >= 2,
    decreases n,
{
    if n >= 10 {
        lemma_decimal_len(n / 10);
    }
}

/// Different numbers are written differently.
pub proof fn lemma_decimal_injective(a: nat, b: nat)
    requires
        decimal(a) == decimal(b),
    ensures
        a == b,
    decreases a,
{
    lemma_decimal_len(a);
    lemma_decimal_len(b);
    if a >= 10 && b >= 10 {
        assert(decimal(a).drop_last() =~= decimal(a / 10));
        assert(decimal(b).drop_last() =~= decimal(b / 10));
        assert(decimal(a).last() == digit(a % 10));
        assert(decimal(b).last() == digit(b % 10));
        lemma_decimal_injective(a / 10, b / 10);
    } else if a < 10 && b < 10 {
        assert(decimal(a)[0] == digit(a));
        assert(decimal(b)[0] == digit(b));
    } else {
        if a < 10 {
            assert(decimal(a).len() == 1);
        } else {
            assert(decimal(b).len() == 1);
        }
    }
}

/// A whole number in decimal, with a sign where it is below zero.
pub open spec fn signed_decimal(n: int) -> Seq<char> {
    if n < 0 {
        "-"@ + decimal((-n) as nat)
    } else {
        decimal(n as nat)
    }
}

/// A whole number in decimal.
pub fn show_i32(n: i32) -> (r: String)
    ensures
        r@ == signed_decimal(n as int),
{
    if n < 0 {
        let positive: i64 = -(n as i64);
        let mut s = "-".to_owned();
        s.append(show_usize(positive as usize).as_str());
        s
    } else {
        show_usize(n as usize)
    }
}

proof fn lemma_joined_push(parts: Seq<Seq<char>>, sep: Seq<char>, x: Seq<char>)
    requires
        parts.len() > 0,
    ensures
        joined(parts.push(x), sep) == joined(parts, sep) + sep + x,
{
    assert(parts.push(x).drop_last() =~= parts);
}

proof fn lemma_joined_grow(parts: Seq<Seq<char>>, sep: Seq<char>, c: char)
    requires
        parts.len() > 0,
    ensures
        joined(parts.update(parts.len() - 1, parts.last().push(c)), sep) == joined(parts, sep).push(c),
{
    let more = parts.update(parts.len() - 1, parts.last().push(c));
    assert(more.drop_last() =~= parts.drop_last());
    assert(joined(more, sep) =~= joined(parts, sep).push(c));
}

/// The pieces of a text hold none of the characters that it is split at, and give the text
/// again with that character between them.
pub proof fn law_pieces_join_to_the_text(s: Seq<char>, c: char)
    ensures
        split_on(s, c).len() > 0,
        joined(split_on(s, c), seq![c]) == s,
        forall|i: int| 0 <= i < split_on(s, c).len() ==> !(#[trigger] split_on(s, c)[i]).contains(c),
    decreases s.len(),
{
    let all = split_on(s, c);
    if s.len() == 0 {
        assert(joined(all, seq![c]) =~= s);
    } else {
        law_pieces_join_to_the_text(s.drop_last(), c);
        let before = split_on(s.drop_last(), c);
        if s.last() == c {
            lemma_joined_push(before, seq![c], seq![]);
            assert(joined(all, seq![c]) =~= s.drop_last().push(c));
            assert forall|i: int| 0 <= i < all.len() implies !(#[trigger] all[i]).contains(c) by {
                if i < before.len() {
                    assert(all[i] == before[i]);
                }
            }
        } else {
            lemma_joined_grow(before, seq![c], s.last());
            assert forall|i: int| 0 <= i < all.len() implies !(#[trigger] all[i]).contains(c) by {
                assert(!before[i].contains(c));
                if i == before.len() - 1 {
                    crate::seqs::lemma_pushed(before[i], s.last(), c);
                }
            }
        }
        assert(s.drop_last().push(s.last()) =~= s);
    }
}

/// Trimming takes white space off both ends, all of it and nothing else.
pub proof fn law_trimming_takes_white_space(s: Seq<char>)
    ensures
        exists|a: Seq<char>, b: Seq<char>|
            s == #[trigger] (a + trimmed(s) + b) && all_white(a) && all_white(b),
        trimmed(s).len() > 0 ==> !white_space(trimmed(s)[0]) && !white_space(trimmed(s).last()),
{
    lemma_trimmed_start(s);
    let t = trimmed_start(s);
    lemma_trimmed_end(t);
    let a = choose|a: Seq<char>| s == #[trigger] (a + t) && all_white(a);
    let b = choose|b: Seq<char>| t == #[trigger] (trimmed_end(t) + b) && all_white(b);
    assert(s =~= a + trimmed(s) + b);
    if trimmed(s).len() > 0 {
        assert(trimmed(s)[0] == t[0]);
    }
}

/// Nothing but white space.
pub open spec fn all_white(s: Seq<char>) -> bool {
    forall|i: int| 0 <= i < s.len() ==> white_space(#[trigger] s[i])
}

proof fn lemma_trimmed_start(s: Seq<char>)
    ensures
        exists|a: Seq<char>| s == #[trigger] (a + trimmed_start(s)) && all_white(a),
        trimmed_start(s).len() > 0 ==> !white_space(trimmed_start(s)[0]),
    decreases s.len(),
{
    if s.len() > 0 && white_space(s[0]) {
        let rest = s.drop_first();
        lemma_trimmed_start(rest);
        let a = choose|a: Seq<char>| rest == #[trigger] (a + trimmed_start(rest)) && all_white(a);
        let b = seq![s[0]] + a;
        assert(s =~= seq![s[0]] + rest);
        assert(trimmed_start(s) == trimmed_start(rest));
        assert(b + trimmed_start(rest) =~= seq![s[0]] + (a + trimmed_start(rest)));
        assert(all_white(b));
    } else {
        let none = Seq::<char>::empty();
        assert(s =~= none + trimmed_start(s));
        assert(all_white(none));
    }
}

proof fn lemma_trimmed_end(s: Seq<char>)
    ensures
        exists|b: Seq<char>| s == #[trigger] (trimmed_end(s) + b) && all_white(b),
        trimmed_end(s).len() > 0 ==> !white_space(trimmed_end(s).last()),
    decreases s.len(),
{
    if s.len() > 0 && white_space(s.last()) {
        let rest = s.drop_last();
        lemma_trimmed_end(rest);
        let a = choose|a: Seq<char>| rest == #[trigger] (trimmed_end(rest) + a) && all_white(a);
        let b = a.push(s.last());
        assert(s =~= rest.push(s.last()));
        assert(trimmed_end(s) == trimmed_end(rest));
        assert(trimmed_end(rest) + b =~= (trimmed_end(rest) + a).push(s.last()));
        assert(s == trimmed_end(s) + b);
        assert(all_white(b));
    } else {
        let none = Seq::<char>::empty();
        assert(s =~= trimmed_end(s) + none);
        assert(all_white(none));
    }
}

/// Stripping a character takes it off the end, however often it stands there.
pub proof fn law_stripping_takes_the_end(s: Seq<char>, c: char)
    ensures
        exists|b: Seq<char>|
            s == #[trigger] (stripped_end(s, c) + b) && forall|i: int|
                0 <= i < b.len() ==> b[i] == c,
        stripped_end(s, c).len() > 0 ==> stripped_end(s, c).last() != c,
    decreases s.len(),
{
    if s.len() > 0 && s.last() == c {
        let rest = s.drop_last();
        law_stripping_takes_the_end(rest, c);
        let a = choose|a: Seq<char>|
            rest == #[trigger] (stripped_end(rest, c) + a) && forall|i: int|
                0 <= i < a.len() ==> a[i] == c;
        let b = a.push(c);
        assert(s =~= rest.push(c));
        assert(stripped_end(s, c) == stripped_end(rest, c));
        assert(stripped_end(rest, c) + b =~= (stripped_end(rest, c) + a).push(c));
        assert(s == stripped_end(s, c) + b);
    } else {
        let none = Seq::<char>::empty();
        assert(s =~= stripped_end(s, c) + none);
    }
}

/// Replacing a character replaces it wherever it stands and leaves all others.
pub proof fn law_characters_are_replaced_one_by_one(
    a: Seq<char>,
    b: Seq<char>,
    x: char,
    c: char,
    by: Seq<char>,
)
    ensures
        replaced_char(a + b, c, by) == replaced_char(a, c, by) + replaced_char(b, c, by),
        replaced_char(seq![x], c, by) == if x == c {
            by
        } else {
            seq![x]
        },
    decreases b.len(),
{
    let one = seq![x];
    assert(one.drop_last() =~= Seq::<char>::empty());
    assert(replaced_char(one.drop_last(), c, by) =~= Seq::<char>::empty());
    assert(replaced_char(one, c, by) =~= if x == c {
        by
    } else {
        one
    });
    if b.len() == 0 {
        assert(a + b =~= a);
        assert(replaced_char(a, c, by) + replaced_char(b, c, by) =~= replaced_char(a, c, by));
    } else {
        assert((a + b).drop_last() =~= a + b.drop_last());
        law_characters_are_replaced_one_by_one(a, b.drop_last(), x, c, by);
        assert(replaced_char(a + b, c, by) =~= replaced_char(a, c, by) + replaced_char(b, c, by));
    }
}

/// A text is found at the first place where it stands.
pub proof fn law_texts_are_found_first(s: Seq<char>, pat: Seq<char>, i: int)
    requires
        0 <= i <= s.len(),
    ensures
        find_from(s, pat, i) == -1 <==> forall|k: int| i <= k ==> !#[trigger] occurs_at(s, pat, k),
        find_from(s, pat, i) != -1 ==> i <= find_from(s, pat, i) && occurs_at(
            s,
            pat,
            find_from(s, pat, i),
        ) && forall|k: int| i <= k < find_from(s, pat, i) ==> !#[trigger] occurs_at(s, pat, k),
    decreases s.len() - i,
{
    if !occurs_at(s, pat, i) {
        if i < s.len() {
            law_texts_are_found_first(s, pat, i + 1);
            assert forall|k: int| i <= k && find_from(s, pat, i + 1) == -1 implies !#[trigger] occurs_at(
                s,
                pat,
                k,
            ) by {
                if k > i {
                    assert(!occurs_at(s, pat, k));
                }
            }
        } else {
            reveal_with_fuel(find_from, 2);
        }
    }
}

/// A text is cut in two at the first place where a sign stands, and not where it stands
/// nowhere.
pub proof fn law_texts_are_cut_at_the_first(s: Seq<char>, sign: Seq<char>)
    ensures
        match cut_at(s, sign) {
            Some((a, b)) => s == a + sign + b && forall|k: int|
                k < a.len() ==> !#[trigger] occurs_at(s, sign, k),
            None => !has_text(s, sign),
        },
{
    law_texts_are_found_first(s, sign, 0);
    let i = find_from(s, sign, 0);
    if i >= 0 {
        assert(s =~= s.take(i) + sign + after(s, i + sign.len())) by {
            assert(s.subrange(i, i + sign.len()) == sign);
            assert forall|k: int| 0 <= k < s.len() implies s[k] == (s.take(i) + sign + after(
                s,
                i + sign.len(),
            ))[k] by {
                if i <= k < i + sign.len() {
                    assert(s.subrange(i, i + sign.len())[k - i] == sign[k - i]);
                }
            }
        }
        assert forall|k: int| k < i implies !#[trigger] occurs_at(s, sign, k) by {}
    }
}

/// Replacing a text replaces its first occurrence and goes on behind it; a text that does
/// not stand there changes nothing.
pub proof fn law_texts_are_replaced_from_the_left(s: Seq<char>, pat: Seq<char>, by: Seq<char>)
    requires
        pat.len() > 0,
    ensures
        match cut_at(s, pat) {
            Some((a, b)) => replaced_text(s, pat, by) == a + by + replaced_text(b, pat, by),
            None => replaced_text(s, pat, by) == s,
        },
{
    law_texts_are_found_first(s, pat, 0);
}

/// The words of a text hold no white space and are not empty, and with all white space
/// taken out the text and its words are the same.
pub proof fn law_words_are_what_is_not_white(s: Seq<char>)
    ensures
        forall|i: int|
            0 <= i < words_of(s).len() ==> (#[trigger] words_of(s)[i]).len() > 0 && no_white(
                words_of(s)[i],
            ),
        joined(words_of(s), seq![]) == s.filter(|c: char| !white_space(c)),
{
    lemma_word_runs(s);
    let (done, open) = word_runs(s);
    let all = words_of(s);
    assert forall|i: int| 0 <= i < all.len() implies (#[trigger] all[i]).len() > 0 && no_white(
        all[i],
    ) by {
        if i < done.len() {
            assert(all[i] == done[i]);
        }
    }
    if open.len() == 0 {
        assert(joined(done, seq![]) + open =~= joined(done, seq![]));
    } else {
        lemma_joined_all(done, open);
    }
}

pub open spec fn no_white(s: Seq<char>) -> bool {
    forall|i: int| 0 <= i < s.len() ==> !white_space(#[trigger] s[i])
}

proof fn lemma_joined_all(parts: Seq<Seq<char>>, x: Seq<char>)
    ensures
        joined(parts.push(x), seq![]) == joined(parts, seq![]) + x,
{
    if parts.len() == 0 {
        assert(joined(parts, seq![]) + x =~= x);
    } else {
        lemma_joined_push(parts, seq![], x);
        assert(joined(parts, seq![]) + seq![] + x =~= joined(parts, seq![]) + x);
    }
}

proof fn lemma_word_runs(s: Seq<char>)
    ensures
        ({
            let (done, open) = word_runs(s);
            &&& no_white(open)
            &&& forall|i: int|
                0 <= i < done.len() ==> (#[trigger] done[i]).len() > 0 && no_white(done[i])
            &&& joined(done, seq![]) + open == s.filter(|c: char| !white_space(c))
        }),
    decreases s.len(),
{
    reveal(Seq::filter);
    if s.len() == 0 {
        let (done, open) = word_runs(s);
        assert(joined(done, seq![]) + open =~= s.filter(|c: char| !white_space(c)));
    } else {
        let init = s.drop_last();
        lemma_word_runs(init);
        let (done, open) = word_runs(init);
        let (done2, open2) = word_runs(s);
        let kept = init.filter(|c: char| !white_space(c));
        if white_space(s.last()) {
            if open.len() > 0 {
                lemma_joined_all(done, open);
                assert forall|i: int| 0 <= i < done2.len() implies (#[trigger] done2[i]).len() > 0
                    && no_white(done2[i]) by {
                    if i < done.len() {
                        assert(done2[i] == done[i]);
                    }
                }
            }
            assert(joined(done2, seq![]) + open2 =~= joined(done, seq![]) + open);
        } else {
            assert(joined(done2, seq![]) + open2 =~= (joined(done, seq![]) + open).push(s.last()));
        }
    }
}

/// Of two texts, the one whose first different character comes first in Unicode stands
/// before the other, and a text stands before all that it begins.
pub proof fn law_texts_are_ordered_by_characters(p: Seq<char>, x: char, y: char, a: Seq<char>, b: Seq<char>)
    ensures
        x < y ==> text_before(p.push(x) + a, p.push(y) + b),
        text_before(p, p.push(x) + a),
        !text_before(p, p),
    decreases p.len(),
{
    lemma_before_is_strict(p);
    if p.len() > 0 {
        let q = p.drop_first();
        law_texts_are_ordered_by_characters(q, x, y, a, b);
        assert((p.push(x) + a).drop_first() =~= q.push(x) + a);
        assert((p.push(y) + b).drop_first() =~= q.push(y) + b);
    }
}

/// The lines of a text that ends its lines are the lines that were written.
pub proof fn law_lines_end_at_line_breaks(s: Seq<char>, line: Seq<char>)
    requires
        !line.contains('\n'),
        line.len() > 0 ==> line.last() != '\r',
        s.len() == 0 || s.last() == '\n',
    ensures
        lines_of(s + line.push('\n')) == lines_of(s).push(line),
        line.len() > 0 ==> lines_of(s + line) == lines_of(s).push(line),
{
    let before = split_on(s, '\n');
    law_pieces_join_to_the_text(s, '\n');
    if s.len() > 0 {
        assert(before.last().len() == 0);
    }
    lemma_split_grow(s, line, '\n');
    let t = s + line;
    let pieces = split_on(t, '\n');
    assert(before.last() + line =~= line);
    assert(pieces == before.update(before.len() - 1, line));
    assert(pieces.drop_last() =~= before.drop_last());
    let u = s + line.push('\n');
    assert(u =~= t.push('\n'));
    assert(u.drop_last() =~= t);
    let more = split_on(u, '\n');
    assert(more == pieces.push(seq![]));
    assert(more.drop_last() =~= pieces);
    let f = |p: Seq<char>| without_cr(p);
    assert(pieces.map_values(f) =~= before.drop_last().map_values(f).push(line));
    assert(lines_of(s) =~= before.drop_last().map_values(f));
}

proof fn lemma_split_grow(s: Seq<char>, line: Seq<char>, c: char)
    requires
        !line.contains(c),
    ensures
        split_on(s + line, c) == split_on(s, c).update(
            split_on(s, c).len() - 1,
            split_on(s, c).last() + line,
        ),
    decreases line.len(),
{
    law_pieces_join_to_the_text(s, c);
    let before = split_on(s, c);
    if line.len() == 0 {
        assert(s + line =~= s);
        assert(before.last() + line =~= before.last());
        assert(before.update(before.len() - 1, before.last()) =~= before);
    } else {
        let init = line.drop_last();
        crate::seqs::lemma_last_or_before(line, c);
        lemma_split_grow(s, init, c);
        assert((s + line).drop_last() =~= s + init);
        assert((s + line).last() == line.last());
        let mid = split_on(s + init, c);
        assert(mid.last().push(line.last()) =~= before.last() + line);
        assert(split_on(s + line, c) =~= before.update(before.len() - 1, before.last() + line));
    }
}

/// A list between commas holds what stands between them, trimmed, where that is not empty.
pub proof fn law_comma_lists_hold_their_items(s: Seq<char>, x: Seq<char>)
    ensures
        comma_items(s).contains(x) <==> x.len() > 0 && exists|i: int|
            0 <= i < split_on(s, ',').len() && trimmed(#[trigger] split_on(s, ',')[i]) == x,
{
    lemma_full_items(split_on(s, ','), x);
}

proof fn lemma_full_items(parts: Seq<Seq<char>>, x: Seq<char>)
    ensures
        full_items(parts).contains(x) <==> x.len() > 0 && exists|i: int|
            0 <= i < parts.len() && trimmed(#[trigger] parts[i]) == x,
    decreases parts.len(),
{
    if parts.len() > 0 {
        let init = parts.drop_last();
        lemma_full_items(init, x);
        crate::seqs::lemma_pushed(full_items(init), trimmed(parts.last()), x);
        assert(parts[parts.len() - 1] == parts.last());
        if exists|i: int| 0 <= i < init.len() && trimmed(#[trigger] init[i]) == x {
            let i = choose|i: int| 0 <= i < init.len() && trimmed(#[trigger] init[i]) == x;
            assert(trimmed(parts[i]) == x);
        }
        if exists|i: int| 0 <= i < parts.len() && trimmed(#[trigger] parts[i]) == x {
            let i = choose|i: int| 0 <= i < parts.len() && trimmed(#[trigger] parts[i]) == x;
            if i < init.len() {
                assert(trimmed(init[i]) == x);
            }
        }
    }
}

/// A number reads back from its decimal digits.
pub proof fn law_numbers_read_back(n: nat)
    ensures
        digits_value(decimal(n)) == Some(n),
    decreases n,
{
    if n >= 10 {
        law_numbers_read_back(n / 10);
        let d = decimal(n);
        assert(d.drop_last() =~= decimal(n / 10));
        assert(d.last() == digit(n % 10));
    } else {
        let d = decimal(n);
        reveal_with_fuel(digits_value, 3);
    }
}

/// A text between others stands in the whole.
pub proof fn lemma_stands_between(a: Seq<char>, x: Seq<char>, b: Seq<char>)
    ensures
        has_text(a + x + b, x),
{
    let s = a + x + b;
    assert(s.subrange(a.len() as int, (a.len() + x.len()) as int) =~= x);
    assert(occurs_at(s, x, a.len() as int));
}

/// What stands in a part stands in the whole.
pub proof fn lemma_stands_in_part(a: Seq<char>, t: Seq<char>, b: Seq<char>, x: Seq<char>)
    requires
        has_text(t, x),
    ensures
        has_text(a + t + b, x),
{
    let i = choose|i: int| occurs_at(t, x, i);
    let s = a + t + b;
    assert(s.subrange(a.len() + i, a.len() + i + x.len()) =~= t.subrange(i, i + x.len()));
    assert(occurs_at(s, x, a.len() + i));
}

/// Each part stands in the text that they are joined to.
pub proof fn lemma_part_stands_in_joined(parts: Seq<Seq<char>>, sep: Seq<char>, i: int)
    requires
        0 <= i < parts.len(),
    ensures
        has_text(joined(parts, sep), parts[i]),
    decreases parts.len(),
{
    let all = joined(parts, sep);
    if parts.len() == 1 {
        lemma_stands_between(seq![], parts[0], seq![]);
        assert(seq![] + parts[0] + seq![] =~= all);
    } else {
        let init = parts.drop_last();
        let before = joined(init, sep);
        if i < init.len() {
            lemma_part_stands_in_joined(init, sep, i);
            lemma_stands_in_part(seq![], before, sep + parts.last(), parts[i]);
            assert(seq![] + before + (sep + parts.last()) =~= all);
        } else {
            lemma_stands_between(before + sep, parts.last(), seq![]);
            assert((before + sep) + parts.last() + seq![] =~= all);
        }
    }
}

/// What stands in a text that stands in another stands in the other.
pub proof fn lemma_stands_within(t: Seq<char>, mid: Seq<char>, x: Seq<char>)
    requires
        has_text(t, mid),
        has_text(mid, x),
    ensures
        has_text(t, x),
{
    let i = choose|i: int| occurs_at(t, mid, i);
    let j = choose|j: int| occurs_at(mid, x, j);
    assert(t.subrange(i + j, i + j + x.len()) =~= t.subrange(i, i + mid.len()).subrange(
        j,
        j + x.len(),
    ));
    assert(occurs_at(t, x, i + j));
}

/// Each of two texts stands in both together.
pub proof fn lemma_two_stand(a: Seq<char>, b: Seq<char>)
    ensures
        has_text(a + b, a),
        has_text(a + b, b),
{
    lemma_stands_between(seq![], a, b);
    lemma_stands_between(a, b, seq![]);
    assert(seq![] + a + b =~= a + b);
    assert(a + b + seq![] =~= a + b);
}

/// Each of three texts stands in all together.
pub proof fn lemma_three_stand(a: Seq<char>, b: Seq<char>, c: Seq<char>)
    ensures
        has_text(a + b + c, a + b),
        has_text(a + b + c, a),
        has_text(a + b + c, b),
        has_text(a + b + c, c),
{
    lemma_two_stand(a, b);
    lemma_two_stand(a + b, c);
    lemma_stands_within(a + b + c, a + b, a);
    lemma_stands_within(a + b + c, a + b, b);
}

/// Each of five texts stands in all together.
pub proof fn lemma_five_stand(a: Seq<char>, b: Seq<char>, c: Seq<char>, d: Seq<char>, e: Seq<char>)
    ensures
        has_text(a + b + c + d + e, a),
        has_text(a + b + c + d + e, b),
        has_text(a + b + c + d + e, c),
        has_text(a + b + c + d + e, d),
        has_text(a + b + c + d + e, e),
{
    let mid = a + b + c;
    let all = mid + d + e;
    lemma_three_stand(a, b, c);
    lemma_three_stand(mid, d, e);
    lemma_stands_within(all, mid, a);
    lemma_stands_within(all, mid, b);
    lemma_stands_within(all, mid, c);
}

/// Each of seven texts stands in all together.
pub proof fn lemma_seven_stand(
    a: Seq<char>,
    b: Seq<char>,
    c: Seq<char>,
    d: Seq<char>,
    e: Seq<char>,
    f: Seq<char>,
    g: Seq<char>,
)
    ensures
        has_text(a + b + c + d + e + f + g, a),
        has_text(a + b + c + d + e + f + g, b),
        has_text(a + b + c + d + e + f + g, c),
        has_text(a + b + c + d + e + f + g, d),
        has_text(a + b + c + d + e + f + g, e),
        has_text(a + b + c + d + e + f + g, f),
        has_text(a + b + c + d + e + f + g, g),
{
    let mid = a + b + c + d + e;
    let all = mid + f + g;
    lemma_five_stand(a, b, c, d, e);
    lemma_three_stand(mid, f, g);
    lemma_stands_within(all, mid, a);
    lemma_stands_within(all, mid, b);
    lemma_stands_within(all, mid, c);
    lemma_stands_within(all, mid, d);
    lemma_stands_within(all, mid, e);
}

/// Three texts behind another are the same one by one or at once.
pub proof fn lemma_three_at_once(p: Seq<char>, a: Seq<char>, b: Seq<char>, c: Seq<char>)
    ensures
        p + a + b + c == p + (a + b + c),
{
    assert(p + a + b + c =~= p + (a + b + c));
}

/// A text stands in itself.
pub proof fn lemma_stands_alone(x: Seq<char>)
    ensures
        has_text(x, x),
{
    lemma_stands_between(seq![], x, seq![]);
    assert(seq![] + x + seq![] =~= x);
}

/// Texts stand in one order: of two different ones exactly one stands before the other.
pub proof fn law_texts_stand_in_one_order(a: Seq<char>, b: Seq<char>)
    ensures
        a != b ==> text_before(a, b) || text_before(b, a),
        !(text_before(a, b) && text_before(b, a)),
    decreases a.len(),
{
    if a.len() > 0 && b.len() > 0 && a[0] == b[0] {
        law_texts_stand_in_one_order(a.drop_first(), b.drop_first());
        if a.drop_first() == b.drop_first() {
            assert(a =~= seq![a[0]] + a.drop_first());
            assert(b =~= seq![b[0]] + b.drop_first());
        }
    } else if a.len() == 0 && b.len() == 0 {
        assert(a =~= b);
    }
}

/// A text before one that stands before a third stands before the third.
pub proof fn law_order_of_texts_carries_over(a: Seq<char>, b: Seq<char>, c: Seq<char>)
    requires
        text_before(a, b),
        text_before(b, c),
    ensures
        text_before(a, c),
    decreases a.len(),
{
    if a.len() > 0 && a[0] == b[0] && b[0] == c[0] {
        law_order_of_texts_carries_over(a.drop_first(), b.drop_first(), c.drop_first());
    }
}

} // verus!
