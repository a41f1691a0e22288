//! Character-level helpers shared by the output parsers: conversion between
//! `str` and character vectors, searching, line splitting and trimming.
use vstd::prelude::*;
use vstd::std_specs::iter::IteratorSpec;

verus! {

/// Position of the first `c` at or after `i`; `s.len()` when there is none.
pub open spec fn find_from(s: Seq<char>, c: char, i: int) -> int
    decreases s.len() - i,
{
    if i < 0 || i >= s.len() {
        s.len() as int
    } else if s[i] == c {
        i
    } else {
        find_from(s, c, i + 1)
    }
}

pub proof fn lemma_find_from_bounds(s: Seq<char>, c: char, i: int)
    requires
        0 <= i <= s.len(),
    ensures
        i <= find_from(s, c, i) <= s.len(),
        find_from(s, c, i) < s.len() ==> s[find_from(s, c, i)] == c,
        forall|k: int| i <= k < find_from(s, c, i) ==> s[k] != c,
    decreases s.len() - i,
{
    if i < s.len() && s[i] != c {
        lemma_find_from_bounds(s, c, i + 1);
    }
}

/// The characters of `s`, as a vector.
pub fn chars_of(s: &str) -> (r: Vec<char>)
    ensures
        r@ == s@,
{
    broadcast use vstd::string::group_string_axioms;

    let mut out: Vec<char> = Vec::new();
    let mut it = s.chars();
    loop
        invariant
            out@ + it.remaining() == s@,
        ensures
            out@ == s@,
        decreases s@.len() - out@.len(),
    {
        let ghost prev = it;
        match it.next() {
            Some(c) => {
                out.push(c);
            },
            None => {
                assert(out@ + prev.remaining() =~= out@);
                break;
            },
        }
    }
    out
}


/// Relies on `String: FromIterator<&char>`: the string holds exactly the given
/// characters, in order.
#[verifier::external_body]
pub(crate) fn string_of(v: &Vec<char>) -> (r: String)
    ensures
        r@ == v@,
{
    v.iter().collect()
}

/// The views of a sequence of character vectors.
pub open spec fn views(v: Seq<Vec<char>>) -> Seq<Seq<char>> {
    v.map_values(|x: Vec<char>| x@)
}

/// A copy of `v[a..b]`.
pub fn copy_range(v: &Vec<char>, a: usize, b: usize) -> (r: Vec<char>)
    requires
        a <= b <= v@.len(),
    ensures
        r@ == v@.subrange(a as int, b as int),
{
    let mut out: Vec<char> = Vec::new();
    let mut i: usize = a;
    while i < b
        invariant
            a <= i <= b <= v@.len(),
            out@ == v@.subrange(a as int, i as int),
        decreases b - i,
    {
        out.push(v[i]);
        i = i + 1;
        assert(out@ =~= v@.subrange(a as int, i as int));
    }
    out
}

/// Index of the first `c` in `v` at or after `from`, or `v.len()`.
pub fn find_char(v: &Vec<char>, c: char, from: usize) -> (r: usize)
    requires
        from <= v@.len(),
    ensures
        r == find_from(v@, c, from as int),
{
    let mut i: usize = from;
    while i < v.len() && v[i] != c
        invariant
            from <= i <= v@.len(),
            find_from(v@, c, from as int) == find_from(v@, c, i as int),
        decreases v@.len() - i,
    {
        i = i + 1;
    }
    i
}

/// A line without the carriage return that ends it, if any.
pub open spec fn strip_cr(s: Seq<char>) -> Seq<char> {
    if s.len() > 0 && s.last() == '\r' {
        s.drop_last()
    } else {
        s
    }
}

/// The lines of `s` from position `i` on: pieces separated by line feeds, a
/// carriage return before a line feed dropped, and no empty piece after a
/// final line feed.
pub open spec fn lines_from(s: Seq<char>, i: int) -> Seq<Seq<char>>
    decreases s.len() - i,
{
    if i < 0 || i >= s.len() {
        seq![]
    } else {
        let j = find_from(s, '\n', i);
        if j >= s.len() || j < i {
            seq![s.subrange(i, s.len() as int)]
        } else {
            seq![strip_cr(s.subrange(i, j))] + lines_from(s, j + 1)
        }
    }
}

/// The lines of a text.
pub open spec fn lines(s: Seq<char>) -> Seq<Seq<char>> {
    lines_from(s, 0)
}

fn strip_cr_vec(v: Vec<char>) -> (r: Vec<char>)
    ensures
        r@ == strip_cr(v@),
{
    let ghost orig = v@;
    let mut v = v;
    if v.len() > 0 && v[v.len() - 1] == '\r' {
        v.pop();
        assert(v@ =~= strip_cr(orig));
    }
    v
}

/// The lines of `v`, one vector each.
pub fn split_lines(v: &Vec<char>) -> (r: Vec<Vec<char>>)
    ensures
        views(r@) == lines(v@),
{
    let mut out: Vec<Vec<char>> = Vec::new();
    let mut i: usize = 0;
    while i < v.len()
        invariant
            i <= v@.len(),
            lines(v@) == views(out@) + lines_from(v@, i as int),
        decreases v@.len() - i,
    {
        let j = find_char(v, '\n', i);
        proof {
            lemma_find_from_bounds(v@, '\n', i as int);
        }
        let line = copy_range(v, i, j);
        if j == v.len() {
            out.push(line);
            i = j;
        } else {
            out.push(strip_cr_vec(line));
            i = j + 1;
        }
    }
    out
}


/// Unicode White_Space, the characters that `char::is_whitespace` accepts.
pub open spec fn is_space(c: char) -> bool {
    ('\u{9}' <= c && c <= '\u{d}') || c == ' ' || c == '\u{85}' || c == '\u{a0}'
        || c == '\u{1680}' || ('\u{2000}' <= c && c <= '\u{200a}') || c == '\u{2028}'
        || c == '\u{2029}' || c == '\u{202f}' || c == '\u{205f}' || c == '\u{3000}'
}

pub fn is_space_char(c: char) -> (r: bool)
    ensures
        r == is_space(c),
{
    ('\u{9}' <= c && c <= '\u{d}') || c == ' ' || c == '\u{85}' || c == '\u{a0}'
        || c == '\u{1680}' || ('\u{2000}' <= c && c <= '\u{200a}') || c == '\u{2028}'
        || c == '\u{2029}' || c == '\u{202f}' || c == '\u{205f}' || c == '\u{3000}'
}

/// First position at or after `i` that holds no white space (or `s.len()`).
pub open spec fn skip_space(s: Seq<char>, i: int) -> int
    decreases s.len() - i,
{
    if i < 0 || i >= s.len() {
        s.len() as int
    } else if is_space(s[i]) {
        skip_space(s, i + 1)
    } else {
        i
    }
}

/// End of `s[lo..j]` once white space at its end is dropped.
pub open spec fn back_space(s: Seq<char>, lo: int, j: int) -> int
    decreases j - lo,
{
    if j <= lo || j > s.len() {
        j
    } else if is_space(s[j - 1]) {
        back_space(s, lo, j - 1)
    } else {
        j
    }
}

/// `s` without leading and trailing white space.
pub open spec fn trim(s: Seq<char>) -> Seq<char> {
    let a = skip_space(s, 0);
    s.subrange(a, back_space(s, a, s.len() as int))
}

/// `s` without trailing white space.
pub open spec fn trim_end(s: Seq<char>) -> Seq<char> {
    s.subrange(0, back_space(s, 0, s.len() as int))
}

/// Bounds of `v[lo..hi]` without white space at either end.
fn trim_bounds(v: &Vec<char>, lo: usize, hi: usize) -> (r: (usize, usize))
    requires
        lo <= hi == v@.len(),
    ensures
        r.0 == skip_space(v@, lo as int),
        r.1 == back_space(v@, r.0 as int, hi as int),
        lo <= r.0 <= r.1 <= hi,
{
    let mut a: usize = lo;
    while a < hi && is_space_char(v[a])
        invariant
            lo <= a <= hi == v@.len(),
            skip_space(v@, lo as int) == skip_space(v@, a as int),
        decreases hi - a,
    {
        a = a + 1;
    }
    let mut b: usize = hi;
    while b > a && is_space_char(v[b - 1])
        invariant
            a <= b <= hi == v@.len(),
            back_space(v@, a as int, hi as int) == back_space(v@, a as int, b as int),
        decreases b - a,
    {
        b = b - 1;
    }
    (a, b)
}

/// `v` without leading and trailing white space.
pub fn trim_vec(v: &Vec<char>) -> (r: Vec<char>)
    ensures
        r@ == trim(v@),
{
    let (a, b) = trim_bounds(v, 0, v.len());
    copy_range(v, a, b)
}

/// `v` without trailing white space.
pub fn trim_end_vec(v: &Vec<char>) -> (r: Vec<char>)
    ensures
        r@ == trim_end(v@),
{
    let mut b: usize = v.len();
    while b > 0 && is_space_char(v[b - 1])
        invariant
            b <= v@.len(),
            back_space(v@, 0, v@.len() as int) == back_space(v@, 0, b as int),
        decreases b,
    {
        b = b - 1;
    }
    copy_range(v, 0, b)
}

/// Whether `p` occurs in `s` at position `i`.
pub open spec fn occurs_at(s: Seq<char>, p: Seq<char>, i: int) -> bool {
    0 <= i && i + p.len() <= s.len() && s.subrange(i, i + p.len()) == p
}

/// Whether `s` begins with `p`.
pub open spec fn starts_with(s: Seq<char>, p: Seq<char>) -> bool {
    occurs_at(s, p, 0)
}

/// Whether `p` occurs anywhere in `s`.
pub open spec fn contains(s: Seq<char>, p: Seq<char>) -> bool {
    exists|i: int| occurs_at(s, p, i)
}

/// Whether `p` occurs in `v` at position `at`.
pub fn occurs_at_exec(v: &Vec<char>, p: &str, at: usize) -> (r: bool)
    ensures
        r == occurs_at(v@, p@, at as int),
{
    let n = p.unicode_len();
    if n > v.len() || at > v.len() - n {
        return false;
    }
    let vl = v.len();
    let mut k: usize = 0;
    while k < n
        invariant
            vl == v@.len(),
            n == p@.len(),
            at + n <= v@.len(),
            k <= n,
            forall|t: int| 0 <= t < k ==> v@[at + t] == p@[t],
        decreases n - k,
    {
        if v[at + k] != p.get_char(k) {
            assert(v@.subrange(at as int, at + n)[k as int] != p@[k as int]);
            return false;
        }
        k = k + 1;
    }
    assert(v@.subrange(at as int, at + n) =~= p@);
    true
}

/// Whether `p` occurs anywhere in `v`.
pub fn contains_exec(v: &Vec<char>, p: &str) -> (r: bool)
    ensures
        r == contains(v@, p@),
{
    let mut i: usize = 0;
    loop
        invariant
            i <= v@.len(),
            forall|t: int| 0 <= t < i ==> !occurs_at(v@, p@, t),
        ensures
            i == v@.len(),
            forall|t: int| 0 <= t <= i ==> !occurs_at(v@, p@, t),
        decreases v@.len() - i,
    {
        if occurs_at_exec(v, p, i) {
            return true;
        }
        if i == v.len() {
            break;
        }
        i = i + 1;
    }
    assert forall|t: int| !occurs_at(v@, p@, t) by {
        if 0 <= t && t <= i {
        }
    }
    false
}


/// First position at or after `i` where `p` occurs in `s`.
pub open spec fn find_str_from(s: Seq<char>, p: Seq<char>, i: int) -> Option<int>
    decreases s.len() + 1 - i,
{
    if i < 0 || i + p.len() > s.len() {
        None
    } else if occurs_at(s, p, i) {
        Some(i)
    } else {
        find_str_from(s, p, i + 1)
    }
}

/// First position where `p` occurs in `s`.
pub open spec fn find_str(s: Seq<char>, p: Seq<char>) -> Option<int> {
    find_str_from(s, p, 0)
}

/// `find_str_from` lands on `k` when `p` occurs there and nowhere in `[i, k)`.
pub proof fn lemma_find_str_first(s: Seq<char>, p: Seq<char>, i: int, k: int)
    requires
        0 <= i <= k,
        occurs_at(s, p, k),
        forall|t: int| i <= t < k ==> !occurs_at(s, p, t),
    ensures
        find_str_from(s, p, i) == Some(k),
    decreases k - i,
{
    if i < k {
        lemma_find_str_first(s, p, i + 1, k);
    }
}

/// `find_str_from` finds nothing when `p` occurs nowhere from `i` on.
pub proof fn lemma_find_str_none(s: Seq<char>, p: Seq<char>, i: int)
    requires
        0 <= i,
        forall|t: int| i <= t ==> !occurs_at(s, p, t),
    ensures
        find_str_from(s, p, i) is None,
    decreases s.len() + 1 - i,
{
    if i + p.len() <= s.len() {
        lemma_find_str_none(s, p, i + 1);
    }
}

pub proof fn lemma_find_str_found(s: Seq<char>, p: Seq<char>, i: int)
    requires
        0 <= i,
    ensures
        find_str_from(s, p, i) matches Some(k) ==> i <= k && occurs_at(s, p, k),
    decreases s.len() + 1 - i,
{
    if i + p.len() <= s.len() && !occurs_at(s, p, i) {
        lemma_find_str_found(s, p, i + 1);
    }
}

/// First position where `p` occurs in `v`.
pub fn find_str_exec(v: &Vec<char>, p: &str) -> (r: Option<usize>)
    ensures
        r matches Some(k) ==> find_str(v@, p@) == Some(k as int),
        r is None ==> find_str(v@, p@) is None,
{
    let n = p.unicode_len();
    if n > v.len() {
        return None;
    }
    let last = v.len() - n;
    let mut i: usize = 0;
    loop
        invariant
            n == p@.len() <= v@.len(),
            last == v@.len() - n,
            i <= last,
            find_str(v@, p@) == find_str_from(v@, p@, i as int),
        decreases last - i,
    {
        if occurs_at_exec(v, p, i) {
            return Some(i);
        }
        if i == last {
            assert(find_str_from(v@, p@, i + 1) is None);
            return None;
        }
        i = i + 1;
    }
}

/// The pieces of `s[i..]` split at `c`, at most `n` of them: the last one
/// keeps the rest of the text, separators included.
pub open spec fn splitn_from(s: Seq<char>, c: char, i: int, n: nat) -> Seq<Seq<char>>
    decreases n,
{
    if n <= 1 {
        seq![s.subrange(i, s.len() as int)]
    } else {
        let j = find_from(s, c, i);
        if j >= s.len() || j < i {
            seq![s.subrange(i, s.len() as int)]
        } else {
            seq![s.subrange(i, j)] + splitn_from(s, c, j + 1, (n - 1) as nat)
        }
    }
}

/// `s` split at `c` into at most `n` pieces.
pub open spec fn splitn(s: Seq<char>, n: nat, c: char) -> Seq<Seq<char>> {
    splitn_from(s, c, 0, n)
}

/// `v` split at `c` into at most `n` pieces.
pub fn splitn_vec(v: &Vec<char>, n: usize, c: char) -> (r: Vec<Vec<char>>)
    requires
        n >= 1,
    ensures
        views(r@) == splitn(v@, n as nat, c),
        r@.len() >= 1,
{
    let mut out: Vec<Vec<char>> = Vec::new();
    let mut i: usize = 0;
    let mut left: usize = n;
    while left > 1
        invariant
            i <= v@.len(),
            1 <= left <= n,
            splitn(v@, n as nat, c) == views(out@) + splitn_from(v@, c, i as int, left as nat),
        decreases left,
    {
        let j = find_char(v, c, i);
        proof {
            lemma_find_from_bounds(v@, c, i as int);
        }
        if j == v.len() {
            left = 1;
        } else {
            let ghost prev = out@;
            out.push(copy_range(v, i, j));
            proof {
                assert(views(out@) =~= views(prev).push(v@.subrange(i as int, j as int)));
            }
            i = j + 1;
            left = left - 1;
        }
    }
    let ghost prev = out@;
    out.push(copy_range(v, i, v.len()));
    assert(views(out@) =~= views(prev).push(v@.subrange(i as int, v@.len() as int)));
    out
}


/// `s` without the prefix `p`, when it begins with it.
pub open spec fn strip_prefix(s: Seq<char>, p: Seq<char>) -> Option<Seq<char>> {
    if starts_with(s, p) {
        Some(s.subrange(p.len() as int, s.len() as int))
    } else {
        None
    }
}

pub open spec fn opt_chars(o: Option<Vec<char>>) -> Option<Seq<char>> {
    match o {
        Some(v) => Some(v@),
        None => None,
    }
}

/// `v` without the prefix `p`, when it begins with it.
pub fn strip_prefix_vec(v: &Vec<char>, p: &str) -> (r: Option<Vec<char>>)
    ensures
        opt_chars(r) == strip_prefix(v@, p@),
{
    if occurs_at_exec(v, p, 0) {
        Some(copy_range(v, p.unicode_len(), v.len()))
    } else {
        None
    }
}

/// Whether `v` holds exactly the characters of `p`.
pub fn equals_str(v: &Vec<char>, p: &str) -> (r: bool)
    ensures
        r == (v@ == p@),
{
    assert(v@.subrange(0, v@.len() as int) =~= v@);
    if v.len() == p.unicode_len() && occurs_at_exec(v, p, 0) {
        true
    } else {
        false
    }
}

/// At most the first `n` characters of `s`.
pub open spec fn prefix_upto(s: Seq<char>, n: nat) -> Seq<char> {
    if s.len() <= n {
        s
    } else {
        s.subrange(0, n as int)
    }
}

pub fn prefix_upto_vec(v: &Vec<char>, n: usize) -> (r: Vec<char>)
    ensures
        r@ == prefix_upto(v@, n as nat),
{
    if v.len() <= n {
        assert(v@ =~= v@.subrange(0, v@.len() as int));
        copy_range(v, 0, v.len())
    } else {
        copy_range(v, 0, n)
    }
}


/// Whether two character vectors are equal.
pub fn same_chars(a: &Vec<char>, b: &Vec<char>) -> (r: bool)
    ensures
        r == (a@ == b@),
{
    if a.len() != b.len() {
        return false;
    }
    let mut i: usize = 0;
    while i < a.len()
        invariant
            a@.len() == b@.len(),
            i <= a@.len(),
            forall|k: int| 0 <= k < i ==> a@[k] == b@[k],
        decreases a@.len() - i,
    {
        if a[i] != b[i] {
            return false;
        }
        i = i + 1;
    }
    assert(a@ =~= b@);
    true
}


/// First position at or after `i` that holds white space (or `s.len()`).
pub open spec fn next_space(s: Seq<char>, i: int) -> int
    decreases s.len() - i,
{
    if i < 0 || i >= s.len() {
        s.len() as int
    } else if is_space(s[i]) {
        i
    } else {
        next_space(s, i + 1)
    }
}

/// The first white-space-separated word of `s`, or nothing.
pub open spec fn first_word(s: Seq<char>) -> Seq<char> {
    let a = skip_space(s, 0);
    s.subrange(a, next_space(s, a))
}

/// The first white-space-separated word of `v`, or nothing.
pub fn first_word_vec(v: &Vec<char>) -> (r: Vec<char>)
    ensures
        r@ == first_word(v@),
{
    let (a, _) = trim_bounds(v, 0, v.len());
    let mut b: usize = a;
    while b < v.len() && !is_space_char(v[b])
        invariant
            a <= b <= v@.len(),
            next_space(v@, a as int) == next_space(v@, b as int),
        decreases v@.len() - b,
    {
        b = b + 1;
    }
    copy_range(v, a, b)
}


/// Appends the characters of `p`.
pub fn push_str(v: &mut Vec<char>, p: &str)
    ensures
        final(v)@ == old(v)@ + p@,
{
    let n = p.unicode_len();
    let mut k: usize = 0;
    while k < n
        invariant
            n == p@.len(),
            k <= n,
            v@ == old(v)@ + p@.subrange(0, k as int),
        decreases n - k,
    {
        v.push(p.get_char(k));
        k = k + 1;
        assert(v@ =~= old(v)@ + p@.subrange(0, k as int));
    }
    assert(p@.subrange(0, n as int) =~= p@);
}

} // verus!
