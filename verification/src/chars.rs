//! Text as sequences of characters: conversion, search, trimming.

use vstd::prelude::*;

verus! {

/// `String::push` appends one character.
pub assume_specification[ String::push ](s: &mut String, c: char)
    ensures
        final(s)@ == old(s)@.push(c),
;

/// The Unicode `White_Space` property.
pub open spec fn white_space(c: char) -> bool {
    let u = c as u32;
    ||| 0x9 <= u <= 0xD
    ||| u == 0x20
    ||| u == 0x85
    ||| u == 0xA0
    ||| u == 0x1680
    ||| 0x2000 <= u <= 0x200A
    ||| u == 0x2028
    ||| u == 0x2029
    ||| u == 0x202F
    ||| u == 0x205F
    ||| u == 0x3000
}

pub fn is_whitespace(c: char) -> (r: bool)
    ensures
        r == white_space(c),
{
    let u: u32 = c as u32;
    (0x9 <= u && u <= 0xD) || u == 0x20 || u == 0x85 || u == 0xA0 || u == 0x1680 || (0x2000 <= u
        && u <= 0x200A) || u == 0x2028 || u == 0x2029 || u == 0x202F || u == 0x205F || u == 0x3000
}

/// The characters of `text`, in order.
pub fn to_chars(text: &str) -> (r: Vec<char>)
    ensures
        r@ == text@,
{
    let mut out: Vec<char> = Vec::new();
    for c in it: text.chars()
        invariant
            out@ == it.seq().take(it.index()),
            it.seq() == text@,
    {
        out.push(c);
    }
    assert(text@.take(text@.len() as int) =~= text@);
    out
}

/// The string made of `chars`, in order.
pub fn to_text(chars: &[char]) -> (r: String)
    ensures
        r@ == chars@,
{
    let mut out = String::new();
    for i in 0..chars.len()
        invariant
            out@ == chars@.take(i as int),
    {
        out.push(chars[i]);
        assert(chars@.take(i + 1) =~= chars@.take(i as int).push(chars@[i as int]));
    }
    assert(chars@.take(chars@.len() as int) =~= chars@);
    out
}

/// Whether two texts are the same.
pub fn same_chars(a: &Vec<char>, b: &Vec<char>) -> (r: bool)
    ensures
        r == (a@ == b@),
{
    if a.len() != b.len() {
        return false;
    }
    for i in 0..a.len()
        invariant
            a@.len() == b@.len(),
            forall|k: int| 0 <= k < i ==> a@[k] == b@[k],
    {
        if a[i] != b[i] {
            return false;
        }
    }
    assert(a@ =~= b@);
    true
}

/// `pat` stands in `s` at position `at`.
pub open spec fn occurs_at(s: Seq<char>, pat: Seq<char>, at: int) -> bool {
    &&& 0 <= at
    &&& at + pat.len() <= s.len()
    &&& s.subrange(at, at + pat.len()) == pat
}

/// `pat` stands somewhere in `s`.
pub open spec fn occurs(s: Seq<char>, pat: Seq<char>) -> bool {
    exists|at: int| occurs_at(s, pat, at)
}

/// `at` is the first position at which `pat` stands in `s`.
pub open spec fn first_at(s: Seq<char>, pat: Seq<char>, at: int) -> bool {
    &&& occurs_at(s, pat, at)
    &&& forall|k: int| 0 <= k < at ==> !#[trigger] occurs_at(s, pat, k)
}

/// The first position of `pat` in `s`, if there is one.
pub open spec fn position(s: Seq<char>, pat: Seq<char>) -> Option<int> {
    if exists|at: int| first_at(s, pat, at) {
        Some(choose|at: int| first_at(s, pat, at))
    } else {
        None
    }
}

/// There is one first position at most, and there is one wherever `pat`
/// occurs.
pub proof fn lemma_position(s: Seq<char>, pat: Seq<char>)
    ensures
        forall|at: int| first_at(s, pat, at) <==> position(s, pat) == Some(at),
        position(s, pat) is Some <==> occurs(s, pat),
{
    assert forall|a: int, b: int| first_at(s, pat, a) && first_at(s, pat, b) implies a == b by {
        assert(a < b ==> !occurs_at(s, pat, a));
        assert(b < a ==> !occurs_at(s, pat, b));
    }
    if occurs(s, pat) {
        let at = choose|at: int| occurs_at(s, pat, at);
        lemma_first_exists(s, pat, at);
    }
}

proof fn lemma_first_exists(s: Seq<char>, pat: Seq<char>, at: int)
    requires
        occurs_at(s, pat, at),
    ensures
        exists|k: int| first_at(s, pat, k),
    decreases at,
{
    if exists|k: int| 0 <= k < at && occurs_at(s, pat, k) {
        let k = choose|k: int| 0 <= k < at && occurs_at(s, pat, k);
        lemma_first_exists(s, pat, k);
    } else {
        assert(first_at(s, pat, at));
    }
}

/// Whether `pat` stands in `s` at position `at`.
fn stands_at(s: &[char], pat: &[char], at: usize) -> (r: bool)
    requires
        at + pat@.len() <= s@.len(),
    ensures
        r == occurs_at(s@, pat@, at as int),
{
    let n: usize = s.len();
    for i in 0..pat.len()
        invariant
            n == s@.len(),
            at + pat@.len() <= n,
            forall|k: int| 0 <= k < i ==> s@[at + k] == pat@[k],
    {
        if s[at + i] != pat[i] {
            assert(s@.subrange(at as int, at + pat@.len())[i as int] == s@[at + i]);
            return false;
        }
    }
    assert(s@.subrange(at as int, at + pat@.len()) =~= pat@);
    true
}

/// The first position of `pat` in `s`, if there is one.
pub fn find(s: &[char], pat: &[char]) -> (r: Option<usize>)
    ensures
        match r {
            Some(at) => position(s@, pat@) == Some(at as int) && first_at(s@, pat@, at as int),
            None => position(s@, pat@) is None && !occurs(s@, pat@),
        },
{
    proof {
        lemma_position(s@, pat@);
    }
    if s.len() < pat.len() {
        return None;
    }
    let last: usize = s.len() - pat.len();
    let mut at: usize = 0;
    while at <= last
        invariant
            last + pat@.len() == s@.len(),
            at <= last + 1,
            forall|k: int| first_at(s@, pat@, k) <==> position(s@, pat@) == Some(k),
            position(s@, pat@) is Some <==> occurs(s@, pat@),
            forall|k: int| 0 <= k < at ==> !#[trigger] occurs_at(s@, pat@, k),
        decreases last + 1 - at,
    {
        if stands_at(s, pat, at) {
            assert(first_at(s@, pat@, at as int));
            return Some(at);
        }
        if at == last {
            assert forall|k: int| !occurs_at(s@, pat@, k) by {
                if occurs_at(s@, pat@, k) {
                    assert(k <= last);
                }
            }
            return None;
        }
        at = at + 1;
    }
    None
}

/// `s` without its leading white space.
pub open spec fn trim_front(s: Seq<char>) -> Seq<char>
    decreases s.len(),
{
    if s.len() > 0 && white_space(s[0]) {
        trim_front(s.drop_first())
    } else {
        s
    }
}

/// `s` without its trailing white space.
pub open spec fn trim_back(s: Seq<char>) -> Seq<char>
    decreases s.len(),
{
    if s.len() > 0 && white_space(s.last()) {
        trim_back(s.drop_last())
    } else {
        s
    }
}

/// `s` without the white space at its two ends.
pub open spec fn trimmed(s: Seq<char>) -> Seq<char> {
    trim_back(trim_front(s))
}

/// The bounds of `trimmed(chars@)` in `chars`.
pub fn trim_bounds(chars: &[char]) -> (r: (usize, usize))
    ensures
        r.0 <= r.1 <= chars@.len(),
        chars@.subrange(r.0 as int, r.1 as int) == trimmed(chars@),
{
    let mut from: usize = 0;
    let n: usize = chars.len();
    assert(chars@.subrange(0, n as int) =~= chars@);
    while from < n && is_whitespace(chars[from])
        invariant
            n == chars@.len(),
            from <= n,
            trim_front(chars@.subrange(from as int, n as int)) == trim_front(chars@),
        decreases n - from,
    {
        assert(chars@.subrange(from as int, n as int).drop_first() =~= chars@.subrange(
            from + 1,
            n as int,
        ));
        from = from + 1;
    }
    let ghost front = chars@.subrange(from as int, n as int);
    assert(trim_front(chars@) == front);
    let mut to: usize = n;
    while to > from && is_whitespace(chars[to - 1])
        invariant
            n == chars@.len(),
            from <= to <= n,
            front == chars@.subrange(from as int, n as int),
            trim_back(chars@.subrange(from as int, to as int)) == trim_back(front),
        decreases to - from,
    {
        assert(chars@.subrange(from as int, to as int).drop_last() =~= chars@.subrange(
            from as int,
            to - 1,
        ));
        to = to - 1;
    }
    assert(trim_back(front) == chars@.subrange(from as int, to as int));
    (from, to)
}

/// The elements `from..to` of `items`.
pub fn copy_range<T: Copy>(items: &[T], from: usize, to: usize) -> (r: Vec<T>)
    requires
        from <= to <= items@.len(),
    ensures
        r@ == items@.subrange(from as int, to as int),
{
    let mut out: Vec<T> = Vec::new();
    for i in from..to
        invariant
            from <= to <= items@.len(),
            out@ =~= items@.subrange(from as int, i as int),
    {
        out.push(items[i]);
    }
    out
}

/// One text behind the other.
pub fn joined(front: &str, back: &str) -> (r: String)
    ensures
        r@ == front@ + back@,
{
    let mut chars = to_chars(front);
    let more = to_chars(back);
    for i in 0..more.len()
        invariant
            chars@ == front@ + more@.take(i as int),
    {
        chars.push(more[i]);
        assert(chars@ =~= front@ + more@.take(i + 1));
    }
    assert(more@.take(more@.len() as int) =~= more@);
    to_text(&chars)
}

/// A pattern is found where it stands first: it stands there, and at no earlier
/// place; where it stands nowhere, it is not found.
pub proof fn law_patterns_are_found_where_they_stand_first(
    s: &[char],
    pat: &[char],
    r: Option<usize>,
    k: int,
)
    requires
        call_ensures(find, (s, pat), r),
        0 <= k,
        k + pat@.len() <= s@.len(),
        s@.subrange(k, k + pat@.len()) == pat@,
    ensures
        r is Some,
        r->Some_0 <= k,
        r->Some_0 + pat@.len() <= s@.len(),
        s@.subrange(r->Some_0 as int, r->Some_0 + pat@.len()) == pat@,
{
    lemma_position(s@, pat@);
    assert(occurs_at(s@, pat@, k));
    let at = position(s@, pat@).unwrap();
    assert(first_at(s@, pat@, at));
}

/// What is found is there.
pub proof fn law_found_patterns_are_there(s: &[char], pat: &[char], r: Option<usize>)
    requires
        call_ensures(find, (s, pat), r),
    ensures
        r matches Some(k) ==> k + pat@.len() <= s@.len() && s@.subrange(k as int, k + pat@.len())
            == pat@,
{
    lemma_position(s@, pat@);
    if r is Some {
        assert(first_at(s@, pat@, r->Some_0 as int));
    }
}

/// Trimming takes white space from the two ends, all of it and nothing else.
pub proof fn law_trimming_takes_the_outer_white_space(w: Seq<char>, s: Seq<char>, v: Seq<char>)
    requires
        forall|i: int| 0 <= i < w.len() ==> white_space(#[trigger] w[i]),
        forall|i: int| 0 <= i < v.len() ==> white_space(#[trigger] v[i]),
        s.len() > 0 ==> !white_space(s[0]) && !white_space(s.last()),
    ensures
        s.len() > 0 ==> trimmed(w + s + v) == s,
        trimmed(w) == Seq::<char>::empty(),
{
    lemma_trimmed_front(w, s + v);
    lemma_trimmed_front(w, Seq::empty());
    assert(w + Seq::<char>::empty() =~= w);
    assert(w + s + v =~= w + (s + v));
    if s.len() > 0 {
        assert((s + v)[0] == s[0]);
        lemma_trimmed_back(s, v);
    }
}

proof fn lemma_trimmed_front(w: Seq<char>, s: Seq<char>)
    requires
        forall|i: int| 0 <= i < w.len() ==> white_space(#[trigger] w[i]),
    ensures
        trim_front(w + s) == trim_front(s),
    decreases w.len(),
{
    if w.len() == 0 {
        assert(w + s =~= s);
    } else {
        assert((w + s)[0] == w[0]);
        assert((w + s).drop_first() =~= w.drop_first() + s);
        lemma_trimmed_front(w.drop_first(), s);
    }
}

proof fn lemma_trimmed_back(s: Seq<char>, v: Seq<char>)
    requires
        forall|i: int| 0 <= i < v.len() ==> white_space(#[trigger] v[i]),
    ensures
        trim_back(s + v) == trim_back(s),
    decreases v.len(),
{
    if v.len() == 0 {
        assert(s + v =~= s);
    } else {
        assert((s + v).last() == v.last());
        assert((s + v).drop_last() =~= s + v.drop_last());
        lemma_trimmed_back(s, v.drop_last());
    }
}

/// A pattern stands at a place where the characters from there on are its own,
/// and it stands somewhere where there is such a place.
pub proof fn law_patterns_stand_where_they_are_written(a: Seq<char>, pat: Seq<char>, b: Seq<char>, at: int)
    ensures
        occurs_at(a + pat + b, pat, a.len() as int),
        occurs(a + pat + b, pat),
        occurs_at(a, pat, at) ==> 0 <= at && at + pat.len() <= a.len() && a.subrange(
            at,
            at + pat.len(),
        ) == pat,
{
    let n = a.len() as int;
    assert((a + pat + b).subrange(n, n + pat.len()) =~= pat);
    assert(occurs_at(a + pat + b, pat, n));
}

} // verus!
