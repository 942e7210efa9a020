//! Verified text helpers: conversion between strings and character vectors,
//! splitting on a separator, joining with a separator, and decimal numbers.

use vstd::prelude::*;
use crate::errors::LibError;

verus! {

/// Relies on `String::from_iter` over `char`: collecting the characters of a
/// vector yields the string whose character sequence is exactly the vector.
#[verifier::external_body]
pub fn chars_to_string(v: &Vec<char>) -> (s: String)
    ensures
        s@ == v@,
{
    v.iter().collect()
}

/// The characters of a string slice, as a vector.
pub fn str_to_chars(s: &str) -> (v: Vec<char>)
    ensures
        v@ == s@,
{
    let n: usize = s.unicode_len();
    let mut v: Vec<char> = Vec::new();
    let mut i: usize = 0;
    while i < n
        invariant
            i <= n,
            n == s@.len(),
            v@ == s@.subrange(0, i as int),
        decreases n - i,
    {
        let c: char = s.get_char(i);
        v.push(c);
        i = i + 1;
        proof {
            assert(v@ =~= s@.subrange(0, i as int));
        }
    }
    proof {
        assert(v@ =~= s@);
    }
    v
}

/// A copy of `v[from..to]` as a fresh vector.
pub fn subvec(v: &Vec<char>, from: usize, to: usize) -> (r: Vec<char>)
    requires
        from <= to <= v@.len(),
    ensures
        r@ == v@.subrange(from as int, to as int),
{
    let mut r: Vec<char> = Vec::new();
    let mut i: usize = from;
    while i < to
        invariant
            from <= i <= to <= v@.len(),
            r@ == v@.subrange(from as int, i as int),
        decreases to - i,
    {
        r.push(v[i]);
        i = i + 1;
        proof {
            assert(r@ =~= v@.subrange(from as int, i as int));
        }
    }
    r
}

/// The fields of `s` split on every occurrence of `sep`.  There is always at
/// least one field; an empty string has one empty field.
pub open spec fn split_seq(s: Seq<char>, sep: char) -> Seq<Seq<char>>
    decreases s.len(),
{
    if s.len() == 0 {
        seq![s]
    } else if s[0] == sep {
        seq![Seq::<char>::empty()] + split_seq(s.drop_first(), sep)
    } else {
        let rest = split_seq(s.drop_first(), sep);
        seq![seq![s[0]] + rest[0]] + rest.drop_first()
    }
}

/// The fields joined back with `sep` between each pair.
pub open spec fn join_seq(parts: Seq<Seq<char>>, sep: char) -> Seq<char>
    decreases parts.len(),
{
    if parts.len() == 0 {
        Seq::<char>::empty()
    } else if parts.len() == 1 {
        parts[0]
    } else {
        parts[0] + seq![sep] + join_seq(parts.drop_first(), sep)
    }
}

pub proof fn lemma_split_len_pos(s: Seq<char>, sep: char)
    ensures
        split_seq(s, sep).len() >= 1,
    decreases s.len(),
{
    if s.len() != 0 && s[0] != sep {
        lemma_split_len_pos(s.drop_first(), sep);
    }
}

/// Joining the fields of a split gives back the original string.
pub proof fn lemma_join_split(s: Seq<char>, sep: char)
    ensures
        join_seq(split_seq(s, sep), sep) == s,
    decreases s.len(),
{
    if s.len() == 0 {
    } else if s[0] == sep {
        let tail = s.drop_first();
        lemma_join_split(tail, sep);
        lemma_split_len_pos(tail, sep);
        let w = split_seq(s, sep);
        assert(w == seq![Seq::<char>::empty()] + split_seq(tail, sep));
        assert(w.len() >= 2);
        assert(w[0] == Seq::<char>::empty());
        assert(w.drop_first() =~= split_seq(tail, sep));
        assert(join_seq(w, sep) == w[0] + seq![sep] + join_seq(w.drop_first(), sep));
        assert(join_seq(w, sep) =~= s);
    } else {
        let tail = s.drop_first();
        lemma_join_split(tail, sep);
        lemma_split_len_pos(tail, sep);
        let rest = split_seq(tail, sep);
        let w = split_seq(s, sep);
        assert(w == seq![seq![s[0]] + rest[0]] + rest.drop_first());
        if rest.len() == 1 {
            assert(w.len() == 1);
            assert(join_seq(w, sep) == w[0]);
            assert(join_seq(rest, sep) == rest[0]);
            assert(w[0] =~= seq![s[0]] + join_seq(rest, sep));
            assert(join_seq(w, sep) =~= s);
        } else {
            assert(w.len() >= 2);
            assert(w[0] == seq![s[0]] + rest[0]);
            assert(w.drop_first() =~= rest.drop_first());
            assert(join_seq(w, sep) == w[0] + seq![sep] + join_seq(w.drop_first(), sep));
            assert(join_seq(rest, sep) == rest[0] + seq![sep] + join_seq(rest.drop_first(), sep));
            assert(join_seq(w, sep) =~= seq![s[0]] + join_seq(rest, sep));
            assert(seq![s[0]] + tail =~= s);
            assert(join_seq(w, sep) =~= s);
        }
    }
}

/// A prefix without the separator, a separator, then a remainder split as the
/// first field, then the remainder's fields.
proof fn lemma_split_step(p: Seq<char>, rest: Seq<char>, sep: char)
    requires
        forall|k: int| 0 <= k < p.len() ==> p[k] != sep,
    ensures
        split_seq(p + seq![sep] + rest, sep) == seq![p] + split_seq(rest, sep),
    decreases p.len(),
{
    let s = p + seq![sep] + rest;
    assert(s.len() > 0);
    if p.len() == 0 {
        assert(s[0] == sep);
        assert(s.drop_first() =~= rest);
        assert(split_seq(s, sep) == seq![Seq::<char>::empty()] + split_seq(rest, sep));
        assert(p =~= Seq::<char>::empty());
        assert(split_seq(s, sep) =~~= seq![p] + split_seq(rest, sep));
    } else {
        assert(s[0] == p[0]);
        assert(s[0] != sep);
        assert(s.drop_first() =~= p.drop_first() + seq![sep] + rest);
        lemma_split_step(p.drop_first(), rest, sep);
        let r = split_seq(s.drop_first(), sep);
        lemma_split_len_pos(rest, sep);
        assert(r == seq![p.drop_first()] + split_seq(rest, sep));
        assert(r[0] == p.drop_first());
        assert(seq![s[0]] + r[0] =~= p);
        assert(r.drop_first() =~~= split_seq(rest, sep));
        assert(split_seq(s, sep) == seq![seq![s[0]] + r[0]] + r.drop_first());
        assert(split_seq(s, sep) =~~= seq![p] + split_seq(rest, sep));
    }
}

/// A string without the separator is a single field.
proof fn lemma_split_whole(p: Seq<char>, sep: char)
    requires
        forall|k: int| 0 <= k < p.len() ==> p[k] != sep,
    ensures
        split_seq(p, sep) == seq![p],
    decreases p.len(),
{
    if p.len() != 0 {
        assert(p[0] != sep);
        lemma_split_whole(p.drop_first(), sep);
        let r = split_seq(p.drop_first(), sep);
        assert(r == seq![p.drop_first()]);
        assert(seq![p[0]] + r[0] =~= p);
        assert(r.drop_first() =~~= Seq::<Seq<char>>::empty());
        assert(split_seq(p, sep) =~~= seq![p]);
    }
}

/// The views of a vector of strings.
pub open spec fn views_of(parts: Seq<String>) -> Seq<Seq<char>> {
    parts.map_values(|p: String| p@)
}

/// Splits `s` on every occurrence of `sep`.
pub fn split_char(s: &str, sep: char) -> (parts: Vec<String>)
    ensures
        views_of(parts@) == split_seq(s@, sep),
{
    let v: Vec<char> = str_to_chars(s);
    let n: usize = v.len();
    let mut parts: Vec<String> = Vec::new();
    let mut start: usize = 0;
    let mut i: usize = 0;
    proof {
        assert(s@.subrange(0, n as int) =~= s@);
        assert(views_of(parts@) =~~= Seq::<Seq<char>>::empty());
        assert(split_seq(s@, sep) =~~= views_of(parts@) + split_seq(
            s@.subrange(0, n as int),
            sep,
        ));
    }
    while i < n
        invariant
            start <= i <= n,
            n == v@.len(),
            v@ == s@,
            forall|k: int| start <= k < i ==> v@[k] != sep,
            split_seq(s@, sep) == views_of(parts@) + split_seq(
                s@.subrange(start as int, n as int),
                sep,
            ),
        decreases n - i,
    {
        if v[i] == sep {
            let field: Vec<char> = subvec(&v, start, i);
            let fs: String = chars_to_string(&field);
            proof {
                let p = v@.subrange(start as int, i as int);
                let rest = v@.subrange(i as int + 1, n as int);
                assert(v@.subrange(start as int, n as int) =~= p + seq![sep] + rest);
                lemma_split_step(p, rest, sep);
                assert(views_of(parts@.push(fs)) =~~= views_of(parts@) + seq![fs@]);
                assert(split_seq(s@, sep) =~~= views_of(parts@.push(fs)) + split_seq(rest, sep));
            }
            parts.push(fs);
            start = i + 1;
        }
        i = i + 1;
    }
    let field: Vec<char> = subvec(&v, start, n);
    let fs: String = chars_to_string(&field);
    proof {
        let p = v@.subrange(start as int, n as int);
        lemma_split_whole(p, sep);
        assert(views_of(parts@.push(fs)) =~~= views_of(parts@) + seq![fs@]);
        assert(split_seq(s@, sep) =~~= views_of(parts@.push(fs)));
    }
    parts.push(fs);
    parts
}

/// Joins `parts` with `sep` between each neighbouring pair.
pub fn join_char(parts: &Vec<String>, sep: char) -> (r: String)
    ensures
        r@ == join_seq(views_of(parts@), sep),
    decreases parts@.len(),
{
    let mut chars: Vec<char> = Vec::new();
    let n: usize = parts.len();
    let mut i: usize = 0;
    while i < n
        invariant
            i <= n,
            n == parts@.len(),
            chars@ == join_prefix(views_of(parts@), sep, i as int),
        decreases n - i,
    {
        if i > 0 {
            chars.push(sep);
        }
        let field: Vec<char> = str_to_chars(parts[i].as_str());
        let mut j: usize = 0;
        let m: usize = field.len();
        while j < m
            invariant
                j <= m,
                m == field@.len(),
                field@ == parts@[i as int]@,
                i < n == parts@.len(),
                chars@ == join_prefix(views_of(parts@), sep, i as int) + (if i > 0 {
                    seq![sep]
                } else {
                    Seq::<char>::empty()
                }) + field@.subrange(0, j as int),
            decreases m - j,
        {
            chars.push(field[j]);
            j = j + 1;
            proof {
                assert(chars@ =~= join_prefix(views_of(parts@), sep, i as int) + (if i > 0 {
                    seq![sep]
                } else {
                    Seq::<char>::empty()
                }) + field@.subrange(0, j as int));
            }
        }
        proof {
            assert(field@.subrange(0, m as int) =~= field@);
            lemma_join_prefix_step(views_of(parts@), sep, i as int);
            assert(chars@ =~= join_prefix(views_of(parts@), sep, i as int + 1));
        }
        i = i + 1;
    }
    proof {
        lemma_join_prefix_full(views_of(parts@), sep);
    }
    chars_to_string(&chars)
}

/// The join of the first `k` fields, with a separator after each field but
/// the last of the whole sequence.
pub open spec fn join_prefix(parts: Seq<Seq<char>>, sep: char, k: int) -> Seq<char>
    decreases k,
{
    if k <= 0 {
        Seq::<char>::empty()
    } else if k == 1 {
        parts[0]
    } else {
        join_prefix(parts, sep, k - 1) + seq![sep] + parts[k - 1]
    }
}

/// The number of occurrences of `c` in `s`.
pub open spec fn count_char(s: Seq<char>, c: char) -> int
    decreases s.len(),
{
    if s.len() == 0 {
        0
    } else {
        count_char(s.drop_last(), c) + (if s.last() == c {
            1int
        } else {
            0int
        })
    }
}

pub proof fn lemma_count_char_bounds(s: Seq<char>, c: char)
    ensures
        0 <= count_char(s, c) <= s.len(),
    decreases s.len(),
{
    if s.len() > 0 {
        lemma_count_char_bounds(s.drop_last(), c);
    }
}

/// Counts the occurrences of `c` in `v[lo..hi]`.
pub fn count_char_range(v: &Vec<char>, lo: usize, hi: usize, c: char) -> (n: usize)
    requires
        lo <= hi <= v@.len(),
    ensures
        n == count_char(v@.subrange(lo as int, hi as int), c),
{
    let mut n: usize = 0;
    let mut i: usize = lo;
    while i < hi
        invariant
            lo <= i <= hi <= v@.len(),
            n == count_char(v@.subrange(lo as int, i as int), c),
        decreases hi - i,
    {
        proof {
            lemma_count_char_bounds(v@.subrange(lo as int, i as int), c);
            assert(v@.subrange(lo as int, i as int + 1).drop_last() =~= v@.subrange(
                lo as int,
                i as int,
            ));
            assert(v@.subrange(lo as int, i as int + 1).last() == v@[i as int]);
        }
        if v[i] == c {
            n = n + 1;
        }
        i = i + 1;
    }
    n
}

/// The index of the first occurrence of `c` in `s`, or `-1`.
pub open spec fn find_char(s: Seq<char>, c: char) -> int
    decreases s.len(),
{
    if s.len() == 0 {
        -1
    } else if s[0] == c {
        0
    } else if find_char(s.drop_first(), c) == -1 {
        -1
    } else {
        find_char(s.drop_first(), c) + 1
    }
}

/// A position holding `c` with none before it is where `find_char` points.
pub proof fn lemma_find_char_at(s: Seq<char>, c: char, k: int)
    requires
        0 <= k < s.len(),
        s[k] == c,
        forall|j: int| 0 <= j < k ==> s[j] != c,
    ensures
        find_char(s, c) == k,
    decreases s.len(),
{
    if s[0] != c {
        lemma_find_char_at(s.drop_first(), c, k - 1);
    }
}

/// Without any occurrence, `find_char` reports `-1`.
pub proof fn lemma_find_char_none(s: Seq<char>, c: char)
    requires
        forall|j: int| 0 <= j < s.len() ==> s[j] != c,
    ensures
        find_char(s, c) == -1,
    decreases s.len(),
{
    if s.len() > 0 {
        lemma_find_char_none(s.drop_first(), c);
    }
}

/// Finds the first occurrence of `c` in `v[lo..hi]`.
pub fn find_char_range(v: &Vec<char>, lo: usize, hi: usize, c: char) -> (r: Option<usize>)
    requires
        lo <= hi <= v@.len(),
    ensures
        (match r {
            Option::Some(k) => lo <= k < hi && find_char(v@.subrange(lo as int, hi as int), c) == k
                - lo,
            Option::None => find_char(v@.subrange(lo as int, hi as int), c) == -1,
        }),
{
    let mut i: usize = lo;
    while i < hi
        invariant
            lo <= i <= hi <= v@.len(),
            forall|j: int| lo <= j < i ==> v@[j] != c,
        decreases hi - i,
    {
        if v[i] == c {
            proof {
                lemma_find_char_at(v@.subrange(lo as int, hi as int), c, i - lo);
            }
            return Some(i);
        }
        i = i + 1;
    }
    proof {
        lemma_find_char_none(v@.subrange(lo as int, hi as int), c);
    }
    None
}

/// Whether `c` counts as whitespace for trimming.
pub open spec fn is_ws(c: char) -> bool {
    c == ' ' || c == '\t' || c == '\r' || c == '\n'
}

fn is_ws_exec(c: char) -> (r: bool)
    ensures
        r == is_ws(c),
{
    c == ' ' || c == '\t' || c == '\r' || c == '\n'
}

/// How many characters at the front of `s` satisfy `eq_c` (whitespace when
/// `c` is `None`, equality with the char otherwise).
pub open spec fn edge_matches(c: Option<char>, x: char) -> bool {
    match c {
        Option::None => is_ws(x),
        Option::Some(cc) => x == cc,
    }
}

pub open spec fn leading_len(s: Seq<char>, c: Option<char>) -> int
    decreases s.len(),
{
    if s.len() == 0 || !edge_matches(c, s[0]) {
        0
    } else {
        1 + leading_len(s.drop_first(), c)
    }
}

pub open spec fn trailing_len(s: Seq<char>, c: Option<char>) -> int
    decreases s.len(),
{
    if s.len() == 0 || !edge_matches(c, s.last()) {
        0
    } else {
        1 + trailing_len(s.drop_last(), c)
    }
}

/// `s` with matching characters removed from both edges; empty when every
/// character matches.
pub open spec fn strip_edges(s: Seq<char>, c: Option<char>) -> Seq<char> {
    if leading_len(s, c) == s.len() {
        Seq::<char>::empty()
    } else {
        s.subrange(leading_len(s, c), s.len() - trailing_len(s, c))
    }
}

pub proof fn lemma_leading_len(s: Seq<char>, c: Option<char>)
    ensures
        0 <= leading_len(s, c) <= s.len(),
        forall|j: int| 0 <= j < leading_len(s, c) ==> edge_matches(c, s[j]),
        leading_len(s, c) < s.len() ==> !edge_matches(c, s[leading_len(s, c)]),
    decreases s.len(),
{
    if s.len() > 0 && edge_matches(c, s[0]) {
        lemma_leading_len(s.drop_first(), c);
        assert forall|j: int| 0 <= j < leading_len(s, c) implies edge_matches(c, s[j]) by {
            if j > 0 {
                assert(s.drop_first()[j - 1] == s[j]);
            }
        }
        if leading_len(s, c) < s.len() {
            assert(s.drop_first()[leading_len(s, c) - 1] == s[leading_len(s, c)]);
        }
    }
}

pub proof fn lemma_trailing_len(s: Seq<char>, c: Option<char>)
    ensures
        0 <= trailing_len(s, c) <= s.len(),
        forall|j: int| s.len() - trailing_len(s, c) <= j < s.len() ==> edge_matches(c, s[j]),
        trailing_len(s, c) < s.len() ==> !edge_matches(c, s[s.len() - trailing_len(s, c) - 1]),
    decreases s.len(),
{
    if s.len() > 0 && edge_matches(c, s.last()) {
        lemma_trailing_len(s.drop_last(), c);
        assert forall|j: int| s.len() - trailing_len(s, c) <= j < s.len() implies edge_matches(
            c,
            s[j],
        ) by {
            if j < s.len() - 1 {
                assert(s.drop_last()[j] == s[j]);
            }
        }
        if trailing_len(s, c) < s.len() {
            let t = trailing_len(s, c);
            assert(trailing_len(s.drop_last(), c) == t - 1);
            assert(t - 1 < s.drop_last().len());
            assert(s.drop_last()[s.drop_last().len() - (t - 1) - 1] == s[s.len() - t - 1]);
        }
    }
}

/// The leading count is pinned by its characteristic properties.
pub proof fn lemma_leading_len_eq(s: Seq<char>, c: Option<char>, k: int)
    requires
        0 <= k <= s.len(),
        forall|j: int| 0 <= j < k ==> edge_matches(c, s[j]),
        k < s.len() ==> !edge_matches(c, s[k]),
    ensures
        leading_len(s, c) == k,
    decreases s.len(),
{
    if s.len() > 0 && edge_matches(c, s[0]) {
        assert(k > 0);
        lemma_leading_len_eq(s.drop_first(), c, k - 1);
    }
}

pub proof fn lemma_trailing_len_eq(s: Seq<char>, c: Option<char>, k: int)
    requires
        0 <= k <= s.len(),
        forall|j: int| s.len() - k <= j < s.len() ==> edge_matches(c, s[j]),
        k < s.len() ==> !edge_matches(c, s[s.len() - k - 1]),
    ensures
        trailing_len(s, c) == k,
    decreases s.len(),
{
    if s.len() > 0 && edge_matches(c, s.last()) {
        assert(k > 0);
        assert forall|j: int| s.drop_last().len() - (k - 1) <= j < s.drop_last().len()
            implies edge_matches(c, s.drop_last()[j]) by {
            assert(s.drop_last()[j] == s[j]);
        }
        if k - 1 < s.drop_last().len() {
            assert(s.drop_last()[s.drop_last().len() - (k - 1) - 1] == s[s.len() - k - 1]);
        }
        lemma_trailing_len_eq(s.drop_last(), c, k - 1);
    }
}

fn edge_matches_exec(c: Option<char>, x: char) -> (r: bool)
    ensures
        r == edge_matches(c, x),
{
    match c {
        None => is_ws_exec(x),
        Some(cc) => x == cc,
    }
}

/// The first position in `[lo, hi)` whose character stops matching.
fn scan_leading(v: &Vec<char>, lo: usize, hi: usize, c: Option<char>) -> (a: usize)
    requires
        lo <= hi <= v@.len(),
    ensures
        lo <= a <= hi,
        a - lo == leading_len(v@.subrange(lo as int, hi as int), c),
{
    let ghost s = v@.subrange(lo as int, hi as int);
    let mut a: usize = lo;
    while a < hi
        invariant
            lo <= a <= hi <= v@.len(),
            s == v@.subrange(lo as int, hi as int),
            forall|j: int| 0 <= j < a - lo ==> edge_matches(c, #[trigger] s[j]),
        decreases hi - a,
    {
        proof {
            assert(s[a - lo] == v@[a as int]);
        }
        if !edge_matches_exec(c, v[a]) {
            proof {
                lemma_leading_len_eq(s, c, a - lo);
            }
            return a;
        }
        a = a + 1;
    }
    proof {
        lemma_leading_len_eq(s, c, hi - lo);
    }
    hi
}

/// The last position in `[a, hi)` before the trailing matching run.
fn scan_trailing(v: &Vec<char>, a: usize, hi: usize, c: Option<char>) -> (b: usize)
    requires
        a <= hi <= v@.len(),
    ensures
        a <= b <= hi,
        hi - b == trailing_len(v@.subrange(a as int, hi as int), c),
{
    let ghost s = v@.subrange(a as int, hi as int);
    let mut b: usize = hi;
    while b > a
        invariant
            a <= b <= hi <= v@.len(),
            s == v@.subrange(a as int, hi as int),
            forall|j: int| b - a <= j < hi - a ==> edge_matches(c, #[trigger] s[j]),
        decreases b,
    {
        proof {
            assert(s[b - a - 1] == v@[b - 1]);
        }
        if !edge_matches_exec(c, v[b - 1]) {
            proof {
                lemma_trailing_len_eq(s, c, hi - b);
            }
            return b;
        }
        b = b - 1;
    }
    proof {
        lemma_trailing_len_eq(s, c, (hi - a) as int);
    }
    a
}

/// Narrows `[lo, hi)` to the subrange that remains of `v[lo..hi]` after
/// stripping matching characters from both edges.
pub fn strip_range(v: &Vec<char>, lo: usize, hi: usize, c: Option<char>) -> (r: (usize, usize))
    requires
        lo <= hi <= v@.len(),
    ensures
        lo <= r.0 <= r.1 <= hi,
        v@.subrange(r.0 as int, r.1 as int) == strip_edges(v@.subrange(lo as int, hi as int), c),
{
    let ghost s = v@.subrange(lo as int, hi as int);
    let a: usize = scan_leading(v, lo, hi, c);
    if a == hi {
        proof {
            assert(leading_len(s, c) == s.len());
            assert(v@.subrange(hi as int, hi as int) =~= Seq::<char>::empty());
        }
        return (hi, hi);
    }
    proof {
        lemma_leading_len(s, c);
        assert(!edge_matches(c, s[a - lo]));
    }
    let b: usize = scan_trailing(v, a, hi, c);
    proof {
        let t = v@.subrange(a as int, hi as int);
        assert(t[0] == s[a - lo]);
        if b == a {
            lemma_trailing_len(t, c);
            assert(edge_matches(c, t[0]));
            assert(false);
        }
        lemma_trailing_len(t, c);
        assert forall|j: int| s.len() - (hi - b) <= j < s.len() implies edge_matches(
            c,
            #[trigger] s[j],
        ) by {
            assert(s[j] == t[j - (a - lo)]);
        }
        if hi - b < s.len() {
            if b - lo - 1 >= a - lo {
                assert(s[b - lo - 1] == t[b - a - 1]);
                assert(!edge_matches(c, t[t.len() - (hi - b) - 1]));
            }
            assert(!edge_matches(c, s[s.len() - (hi - b) - 1]));
        }
        lemma_trailing_len_eq(s, c, hi - b);
        assert(v@.subrange(a as int, b as int) =~= s.subrange(a - lo, b - lo));
        assert(s.subrange(leading_len(s, c), s.len() - trailing_len(s, c)) =~= s.subrange(
            a - lo,
            b - lo,
        ));
    }
    (a, b)
}

/// A copy of a vector of strings, character for character.
pub fn clone_lines(v: &Vec<String>) -> (r: Vec<String>)
    ensures
        views_of(r@) == views_of(v@),
{
    let mut r: Vec<String> = Vec::new();
    let mut i: usize = 0;
    while i < v.len()
        invariant
            i <= v@.len(),
            views_of(r@) == views_of(v@.subrange(0, i as int)),
        decreases v@.len() - i,
    {
        let s: String = v[i].clone();
        proof {
            assert(views_of(r@.push(s)) =~~= views_of(r@) + seq![s@]);
            assert(views_of(v@.subrange(0, i as int + 1)) =~~= views_of(v@.subrange(0, i as int))
                + seq![v@[i as int]@]);
            assert(views_of(r@.push(s)) =~~= views_of(v@.subrange(0, i as int + 1)));
        }
        r.push(s);
        i = i + 1;
    }
    proof {
        assert(v@.subrange(0, v@.len() as int) =~= v@);
        assert(views_of(r@) =~~= views_of(v@));
    }
    r
}

/// `find_char` yields `-1` or a valid index.
pub proof fn lemma_find_char_range(s: Seq<char>, c: char)
    ensures
        -1 <= find_char(s, c) < s.len(),
    decreases s.len(),
{
    if s.len() > 0 && s[0] != c {
        lemma_find_char_range(s.drop_first(), c);
    }
}

/// Stripping edges never lengthens a string.
pub proof fn lemma_strip_len(s: Seq<char>, c: Option<char>)
    ensures
        strip_edges(s, c).len() <= s.len(),
        leading_len(s, c) < s.len() ==> strip_edges(s, c).len() == s.len() - leading_len(s, c)
            - trailing_len(s, c),
{
    lemma_leading_len(s, c);
    lemma_trailing_len(s, c);
    if leading_len(s, c) < s.len() {
        let k = leading_len(s, c);
        if k >= s.len() - trailing_len(s, c) {
            assert(edge_matches(c, s[k]));
            assert(false);
        }
    }
}

/// A position holding `c` forces `find_char` to find something.
pub proof fn lemma_find_char_exists(s: Seq<char>, c: char, k: int)
    requires
        0 <= k < s.len(),
        s[k] == c,
    ensures
        find_char(s, c) >= 0,
    decreases s.len(),
{
    if s[0] != c {
        lemma_find_char_exists(s.drop_first(), c, k - 1);
    }
}

/// Whether `c` is a decimal digit.
pub open spec fn is_digit(c: char) -> bool {
    c == '0' || c == '1' || c == '2' || c == '3' || c == '4' || c == '5' || c == '6' || c == '7'
        || c == '8' || c == '9'
}

/// The value of a decimal digit.
pub open spec fn digit_val(c: char) -> int {
    if c == '0' {
        0
    } else if c == '1' {
        1
    } else if c == '2' {
        2
    } else if c == '3' {
        3
    } else if c == '4' {
        4
    } else if c == '5' {
        5
    } else if c == '6' {
        6
    } else if c == '7' {
        7
    } else if c == '8' {
        8
    } else {
        9
    }
}

/// The decimal digit for a value below ten.
pub open spec fn digit_char(d: int) -> char {
    if d == 0 {
        '0'
    } else if d == 1 {
        '1'
    } else if d == 2 {
        '2'
    } else if d == 3 {
        '3'
    } else if d == 4 {
        '4'
    } else if d == 5 {
        '5'
    } else if d == 6 {
        '6'
    } else if d == 7 {
        '7'
    } else if d == 8 {
        '8'
    } else {
        '9'
    }
}

/// Whether `s` is a non-empty string of decimal digits.
pub open spec fn all_digits(s: Seq<char>) -> bool {
    s.len() > 0 && forall|i: int| 0 <= i < s.len() ==> is_digit(s[i])
}

/// The numeric value of a digit string, most significant digit first.
pub open spec fn dec_value(s: Seq<char>) -> int
    decreases s.len(),
{
    if s.len() == 0 {
        0
    } else {
        dec_value(s.drop_last()) * 10 + digit_val(s.last())
    }
}

/// The canonical decimal rendering of a non-negative number.
pub open spec fn render_dec(n: int) -> Seq<char>
    decreases n,
{
    if n < 10 {
        seq![digit_char(n)]
    } else {
        render_dec(n / 10).push(digit_char(n % 10))
    }
}

/// A digit string is canonical when rendering its value gives it back;
/// this rules out redundant leading zeros.
pub open spec fn canonical_dec(s: Seq<char>) -> bool {
    all_digits(s) && s == render_dec(dec_value(s))
}

fn digit_of_char(c: char) -> (r: Option<usize>)
    ensures
        r is Some <==> is_digit(c),
        r is Some ==> r->0 == digit_val(c),
{
    match c {
        '0' => Some(0),
        '1' => Some(1),
        '2' => Some(2),
        '3' => Some(3),
        '4' => Some(4),
        '5' => Some(5),
        '6' => Some(6),
        '7' => Some(7),
        '8' => Some(8),
        '9' => Some(9),
        _ => None,
    }
}

fn char_of_digit(d: usize) -> (r: char)
    requires
        d < 10,
    ensures
        r == digit_char(d as int),
{
    match d {
        0 => '0',
        1 => '1',
        2 => '2',
        3 => '3',
        4 => '4',
        5 => '5',
        6 => '6',
        7 => '7',
        8 => '8',
        _ => '9',
    }
}

/// Parses a non-empty decimal digit string into a number.  Fails exactly
/// when the string is empty, holds a non-digit, or exceeds the machine range.
pub fn parse_dec(s: &str) -> (r: Result<usize, LibError>)
    ensures
        r is Ok <==> all_digits(s@) && dec_value(s@) <= usize::MAX,
        r is Ok ==> r->Ok_0 == dec_value(s@),
        r is Err ==> r->Err_0 == LibError::BadNumber,
{
    let v: Vec<char> = str_to_chars(s);
    let n: usize = v.len();
    if n == 0 {
        return Err(LibError::BadNumber);
    }
    let mut acc: usize = 0;
    let mut i: usize = 0;
    while i < n
        invariant
            i <= n,
            n == v@.len(),
            v@ == s@,
            n > 0,
            forall|k: int| 0 <= k < i ==> is_digit(v@[k]),
            acc == dec_value(v@.subrange(0, i as int)),
        decreases n - i,
    {
        let d: usize = match digit_of_char(v[i]) {
            Some(d) => d,
            None => {
                return Err(LibError::BadNumber);
            },
        };
        proof {
            assert(v@.subrange(0, i as int + 1).drop_last() =~= v@.subrange(0, i as int));
            assert(v@.subrange(0, i as int + 1).last() == v@[i as int]);
            assert(dec_value(v@.subrange(0, i as int + 1)) == acc * 10 + digit_val(v@[i as int]));
            if i as int + 1 == v@.len() {
                assert(v@.subrange(0, i as int + 1) =~= v@);
            } else {
                lemma_dec_value_grows(v@, i as int + 1);
            }
        }
        let shifted: usize = match acc.checked_mul(10) {
            Some(x) => x,
            None => {
                return Err(LibError::BadNumber);
            },
        };
        let next: usize = match shifted.checked_add(d) {
            Some(x) => x,
            None => {
                return Err(LibError::BadNumber);
            },
        };
        proof {
            assert(v@.subrange(0, i as int + 1).drop_last() =~= v@.subrange(0, i as int));
            assert(v@.subrange(0, i as int + 1).last() == v@[i as int]);
        }
        acc = next;
        i = i + 1;
    }
    proof {
        assert(v@.subrange(0, n as int) =~= v@);
    }
    Ok(acc)
}

/// A digit string whose strict prefix already exceeds what a machine word
/// holds keeps exceeding it: the value never shrinks as digits are appended.
proof fn lemma_dec_value_grows(s: Seq<char>, i: int)
    requires
        0 <= i < s.len(),
        forall|k: int| 0 <= k < i ==> is_digit(s[k]),
    ensures
        dec_value(s) >= dec_value(s.subrange(0, i)),
    decreases s.len() - i,
{
    if i == s.len() - 1 {
        assert(s.drop_last() =~= s.subrange(0, i));
        assert(dec_value(s) == dec_value(s.subrange(0, i)) * 10 + digit_val(s.last()));
        lemma_dec_nonneg(s.subrange(0, i));
    } else {
        lemma_dec_value_grows(s.drop_last(), i);
        assert(s.drop_last().subrange(0, i) =~= s.subrange(0, i));
        lemma_dec_nonneg(s.drop_last());
    }
}

/// The value of a digit string is never negative.
proof fn lemma_dec_nonneg(s: Seq<char>)
    ensures
        dec_value(s) >= 0,
    decreases s.len(),
{
    if s.len() > 0 {
        lemma_dec_nonneg(s.drop_last());
    }
}

/// Renders a number as its canonical decimal digit string.
pub fn render_dec_exec(n: usize) -> (r: String)
    ensures
        r@ == render_dec(n as int),
        canonical_dec(r@),
{
    let mut rev: Vec<char> = Vec::new();
    let mut m: usize = n;
    while m >= 10
        invariant
            render_dec(n as int) == render_dec(m as int) + rev@.reverse(),
        decreases m,
    {
        let d: usize = m % 10;
        let next: usize = m / 10;
        proof {
            assert(render_dec(m as int) == render_dec(m as int / 10).push(
                digit_char(m as int % 10),
            ));
            assert(rev@.push(digit_char(m as int % 10)).reverse() =~= seq![
                digit_char(m as int % 10),
            ] + rev@.reverse());
            assert(render_dec(next as int) + rev@.push(digit_char(m as int % 10)).reverse()
                =~= render_dec(m as int) + rev@.reverse());
        }
        rev.push(char_of_digit(d));
        m = next;
    }
    proof {
        assert(render_dec(m as int) == seq![digit_char(m as int)]);
    }
    let mut out: Vec<char> = Vec::new();
    out.push(char_of_digit(m));
    let mut i: usize = rev.len();
    while i > 0
        invariant
            i <= rev@.len(),
            out@ == seq![digit_char(m as int)] + rev@.reverse().subrange(
                0,
                rev@.len() - i as int,
            ),
        decreases i,
    {
        i = i - 1;
        proof {
            assert(rev@.reverse()[rev@.len() - i as int - 1] == rev@[i as int]);
            assert(out@.push(rev@[i as int]) =~= seq![digit_char(m as int)]
                + rev@.reverse().subrange(0, rev@.len() - i as int));
        }
        out.push(rev[i]);
    }
    proof {
        assert(rev@.reverse().subrange(0, rev@.len() as int) =~= rev@.reverse());
        assert(out@ =~= render_dec(n as int));
        lemma_render_digits(n as int);
        lemma_render_value(n as int);
    }
    chars_to_string(&out)
}

/// Every rendered string is made of digits.
proof fn lemma_render_digits(n: int)
    requires
        n >= 0,
    ensures
        all_digits(render_dec(n)),
    decreases n,
{
    if n >= 10 {
        lemma_render_digits(n / 10);
    }
}

/// Reading a rendered string back gives the number: rendering is canonical.
proof fn lemma_render_value(n: int)
    requires
        n >= 0,
    ensures
        dec_value(render_dec(n)) == n,
    decreases n,
{
    let r = render_dec(n);
    assert(r.len() > 0);
    assert(dec_value(r) == dec_value(r.drop_last()) * 10 + digit_val(r.last()));
    if n < 10 {
        assert(r.drop_last() =~= Seq::<char>::empty());
        assert(dec_value(r.drop_last()) == 0);
        assert(r.last() == digit_char(n));
        assert(digit_val(digit_char(n)) == n);
    } else {
        lemma_render_value(n / 10);
        assert(r.drop_last() =~= render_dec(n / 10));
        assert(dec_value(r.drop_last()) == n / 10);
        assert(r.last() == digit_char(n % 10));
        assert(0 <= n % 10 < 10);
        assert(digit_val(digit_char(n % 10)) == n % 10);
        vstd::arithmetic::div_mod::lemma_fundamental_div_mod(n, 10);
    }
}

proof fn lemma_join_prefix_step(parts: Seq<Seq<char>>, sep: char, i: int)
    requires
        0 <= i < parts.len(),
    ensures
        join_prefix(parts, sep, i + 1) == join_prefix(parts, sep, i) + (if i > 0 {
            seq![sep]
        } else {
            Seq::<char>::empty()
        }) + parts[i],
{
    if i == 0 {
        assert(join_prefix(parts, sep, 1) =~= join_prefix(parts, sep, 0) + Seq::<char>::empty()
            + parts[0]);
    }
}

proof fn lemma_join_prefix_full(parts: Seq<Seq<char>>, sep: char)
    ensures
        join_prefix(parts, sep, parts.len() as int) == join_seq(parts, sep),
    decreases parts.len(),
{
    let n = parts.len() as int;
    if n == 0 {
    } else if n == 1 {
    } else {
        lemma_join_prefix_full(parts.drop_first(), sep);
        lemma_join_prefix_shift(parts, sep, n);
        assert(join_seq(parts, sep) =~= parts[0] + seq![sep] + join_seq(parts.drop_first(), sep));
        assert(join_prefix(parts, sep, n) =~= join_seq(parts, sep));
    }
}

/// Dropping the first field shifts a prefix join by one separator and field.
proof fn lemma_join_prefix_shift(parts: Seq<Seq<char>>, sep: char, k: int)
    requires
        2 <= k <= parts.len(),
    ensures
        join_prefix(parts, sep, k) == parts[0] + seq![sep] + join_prefix(
            parts.drop_first(),
            sep,
            k - 1,
        ),
    decreases k,
{
    if k == 2 {
        assert(join_prefix(parts, sep, 2) == join_prefix(parts, sep, 1) + seq![sep] + parts[1]);
        assert(join_prefix(parts, sep, 1) == parts[0]);
        assert(join_prefix(parts.drop_first(), sep, 1) == parts.drop_first()[0]);
        assert(parts.drop_first()[0] == parts[1]);
        assert(join_prefix(parts, sep, 2) =~= parts[0] + seq![sep] + join_prefix(
            parts.drop_first(),
            sep,
            1,
        ));
    } else {
        lemma_join_prefix_shift(parts, sep, k - 1);
        assert(parts.drop_first()[k - 2] == parts[k - 1]);
        assert(join_prefix(parts, sep, k) =~= parts[0] + seq![sep] + join_prefix(
            parts.drop_first(),
            sep,
            k - 1,
        ));
    }
}

/// Counting distributes over concatenation.
pub proof fn lemma_count_char_concat(a: Seq<char>, b: Seq<char>, c: char)
    ensures
        count_char(a + b, c) == count_char(a, c) + count_char(b, c),
    decreases b.len(),
{
    if b.len() == 0 {
        assert(a + b =~= a);
    } else {
        lemma_count_char_concat(a, b.drop_last(), c);
        assert((a + b).drop_last() =~= a + b.drop_last());
        assert((a + b).last() == b.last());
    }
}

/// A string without the character counts zero of it.
pub proof fn lemma_count_char_zero(s: Seq<char>, c: char)
    requires
        forall|k: int| 0 <= k < s.len() ==> s[k] != c,
    ensures
        count_char(s, c) == 0,
    decreases s.len(),
{
    if s.len() > 0 {
        lemma_count_char_zero(s.drop_last(), c);
    }
}

} // verus!
