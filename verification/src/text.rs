//! Text primitives: conversion between strings and characters, searching,
//! trimming, splitting, letter case and quoting.
use vstd::prelude::*;
use vstd::slice::slice_subrange;

verus! {

/// `String::push` appends one character to the end of the string.
pub assume_specification[ String::push ](s: &mut String, c: char)
    ensures
        final(s)@ == old(s)@.push(c),
;

/// The text of each string of a list.
pub open spec fn texts(v: Seq<String>) -> Seq<Seq<char>> {
    v.map_values(|s: String| s@)
}

/// The text of each character vector of a list.
pub open spec fn char_lists(v: Seq<Vec<char>>) -> Seq<Seq<char>> {
    v.map_values(|s: Vec<char>| s@)
}

/// The texts of a list of string pairs.
pub open spec fn text_pairs(v: Seq<(String, String)>) -> Seq<(Seq<char>, Seq<char>)> {
    v.map_values(|p: (String, String)| (p.0@, p.1@))
}

/// The text of an optional string.
pub open spec fn opt_text(s: Option<String>) -> Option<Seq<char>> {
    match s {
        Some(t) => Some(t@),
        None => None,
    }
}

/// The characters of a string.
pub fn chars_of(s: &str) -> (r: Vec<char>)
    ensures
        r@ == s@,
{
    let mut r: Vec<char> = Vec::new();
    for c in it: s.chars()
        invariant
            r@ == s@.take(it.index() as int),
            it.seq() == s@,
    {
        r.push(c);
        proof {
            let i = it.index() as int;
            assert(s@.take(i + 1) =~= s@.take(i).push(s@[i]));
        }
    }
    proof {
        assert(s@.take(s@.len() as int) =~= s@);
    }
    r
}

/// The string made of the given characters.
pub fn string_of(c: &[char]) -> (r: String)
    ensures
        r@ == c@,
{
    let mut r = String::new();
    let mut i: usize = 0;
    while i < c.len()
        invariant
            i <= c@.len(),
            r@ == c@.take(i as int),
        decreases c@.len() - i,
    {
        r.push(c[i]);
        proof {
            assert(c@.take(i as int + 1) =~= c@.take(i as int).push(c@[i as int]));
        }
        i = i + 1;
    }
    proof {
        assert(c@.take(c@.len() as int) =~= c@);
    }
    r
}

/// Appends `more` to `out`.
pub fn extend(out: &mut Vec<char>, more: &[char])
    ensures
        final(out)@ == old(out)@ + more@,
{
    let ghost before = out@;
    let mut i: usize = 0;
    while i < more.len()
        invariant
            i <= more@.len(),
            out@ == before + more@.take(i as int),
        decreases more@.len() - i,
    {
        out.push(more[i]);
        proof {
            assert(more@.take(i as int + 1) =~= more@.take(i as int).push(more@[i as int]));
            assert(out@ =~= before + more@.take(i as int + 1));
        }
        i = i + 1;
    }
    proof {
        assert(more@.take(more@.len() as int) =~= more@);
    }
}

/// Appends the text of `s` to `out`.
pub fn push_text(out: &mut Vec<char>, s: &str)
    ensures
        final(out)@ == old(out)@ + s@,
{
    let v = chars_of(s);
    extend(out, v.as_slice());
}

/// A vector holding the given characters.
pub fn to_vec(c: &[char]) -> (r: Vec<char>)
    ensures
        r@ == c@,
{
    let mut r: Vec<char> = Vec::new();
    extend(&mut r, c);
    proof {
        assert(Seq::<char>::empty() + c@ =~= c@);
    }
    r
}

/// A copy of an optional string.
pub fn copy_opt(s: &Option<String>) -> (r: Option<String>)
    ensures
        opt_text(r) == opt_text(*s),
{
    match s {
        Some(t) => Some(t.clone()),
        None => None,
    }
}

/// A copy of a list of strings.
pub fn copy_texts(v: &Vec<String>) -> (r: Vec<String>)
    ensures
        texts(r@) == texts(v@),
{
    let mut r: Vec<String> = Vec::new();
    let mut i: usize = 0;
    while i < v.len()
        invariant
            i <= v@.len(),
            r@.len() == i,
            forall|k: int| 0 <= k < i ==> (#[trigger] r@[k])@ == v@[k]@,
        decreases v@.len() - i,
    {
        r.push(v[i].clone());
        i = i + 1;
    }
    proof {
        assert(texts(r@) =~= texts(v@));
    }
    r
}

/// A copy of a list of string pairs.
pub fn copy_pairs(v: &Vec<(String, String)>) -> (r: Vec<(String, String)>)
    ensures
        text_pairs(r@) == text_pairs(v@),
{
    let mut r: Vec<(String, String)> = Vec::new();
    let mut i: usize = 0;
    while i < v.len()
        invariant
            i <= v@.len(),
            r@.len() == i,
            forall|k: int|
                0 <= k < i ==> (#[trigger] r@[k]).0@ == v@[k].0@ && r@[k].1@ == v@[k].1@,
        decreases v@.len() - i,
    {
        let p = &v[i];
        r.push((p.0.clone(), p.1.clone()));
        i = i + 1;
    }
    proof {
        assert(text_pairs(r@) =~= text_pairs(v@));
    }
    r
}

/// Whether two character slices are equal.
pub fn same_chars(a: &[char], b: &[char]) -> (r: bool)
    ensures
        r == (a@ == b@),
{
    if a.len() != b.len() {
        return false;
    }
    let mut i: usize = 0;
    while i < a.len()
        invariant
            i <= a@.len(),
            a@.len() == b@.len(),
            forall|j: int| 0 <= j < i ==> a@[j] == b@[j],
        decreases a@.len() - i,
    {
        if a[i] != b[i] {
            return false;
        }
        i = i + 1;
    }
    proof {
        assert(a@ =~= b@);
    }
    true
}

/// Whether the characters spell `b`.
pub fn spells(a: &[char], b: &str) -> (r: bool)
    ensures
        r == (a@ == b@),
{
    let bv = chars_of(b);
    same_chars(a, bv.as_slice())
}

/// Whether two strings hold the same text.
pub fn same(a: &str, b: &str) -> (r: bool)
    ensures
        r == (a@ == b@),
{
    let av = chars_of(a);
    spells(av.as_slice(), b)
}

// ---------------------------------------------------------------------------
// Prefixes and searching
// ---------------------------------------------------------------------------

/// Whether `s` begins with `p`.
pub open spec fn has_prefix<T>(s: Seq<T>, p: Seq<T>) -> bool {
    p.len() <= s.len() && s.take(p.len() as int) == p
}

/// Whether `s` ends with `p`.
pub open spec fn has_suffix<T>(s: Seq<T>, p: Seq<T>) -> bool {
    p.len() <= s.len() && s.skip(s.len() - p.len()) == p
}

/// Whether two optional strings are the same.
pub fn same_opt(a: &Option<String>, b: &Option<String>) -> (r: bool)
    ensures
        r == (opt_text(*a) == opt_text(*b)),
{
    match (a, b) {
        (Some(x), Some(y)) => same(x.as_str(), y.as_str()),
        (None, None) => true,
        _ => false,
    }
}

/// Whether two lists of strings are the same.
pub fn same_texts(a: &Vec<String>, b: &Vec<String>) -> (r: bool)
    ensures
        r == (texts(a@) == texts(b@)),
{
    let ghost x = texts(a@);
    let ghost y = texts(b@);
    if a.len() != b.len() {
        proof {
            assert(x.len() != y.len());
        }
        return false;
    }
    let mut i: usize = 0;
    while i < a.len()
        invariant
            i <= a@.len(),
            a@.len() == b@.len(),
            x == texts(a@),
            y == texts(b@),
            forall|k: int| 0 <= k < i ==> #[trigger] x[k] == y[k],
        decreases a@.len() - i,
    {
        proof {
            assert(x[i as int] == a@[i as int]@);
            assert(y[i as int] == b@[i as int]@);
        }
        if !same(a[i].as_str(), b[i].as_str()) {
            return false;
        }
        i = i + 1;
    }
    proof {
        assert(x =~= y);
    }
    true
}

/// Whether two lists of pairs are the same.
pub fn same_pairs(a: &Vec<(String, String)>, b: &Vec<(String, String)>) -> (r: bool)
    ensures
        r == (text_pairs(a@) == text_pairs(b@)),
{
    let ghost x = text_pairs(a@);
    let ghost y = text_pairs(b@);
    if a.len() != b.len() {
        proof {
            assert(x.len() != y.len());
        }
        return false;
    }
    let mut i: usize = 0;
    while i < a.len()
        invariant
            i <= a@.len(),
            a@.len() == b@.len(),
            x == text_pairs(a@),
            y == text_pairs(b@),
            forall|k: int| 0 <= k < i ==> #[trigger] x[k] == y[k],
        decreases a@.len() - i,
    {
        proof {
            assert(x[i as int] == (a@[i as int].0@, a@[i as int].1@));
            assert(y[i as int] == (b@[i as int].0@, b@[i as int].1@));
        }
        if !same(a[i].0.as_str(), b[i].0.as_str()) || !same(a[i].1.as_str(), b[i].1.as_str()) {
            return false;
        }
        i = i + 1;
    }
    proof {
        assert(x =~= y);
    }
    true
}

/// Whether `s` begins with `p`.
pub fn starts_with(s: &[char], p: &str) -> (r: bool)
    ensures
        r == has_prefix(s@, p@),
{
    let pv = chars_of(p);
    if pv.len() > s.len() {
        return false;
    }
    let head = slice_subrange(s, 0, pv.len());
    proof {
        assert(head@ =~= s@.take(p@.len() as int));
    }
    same_chars(head, pv.as_slice())
}

/// Whether `s` ends with `p`.
pub fn ends_with(s: &[char], p: &str) -> (r: bool)
    ensures
        r == has_suffix(s@, p@),
{
    let pv = chars_of(p);
    if pv.len() > s.len() {
        return false;
    }
    let tail = slice_subrange(s, s.len() - pv.len(), s.len());
    proof {
        assert(tail@ =~= s@.skip(s@.len() - p@.len()));
    }
    same_chars(tail, pv.as_slice())
}

/// The position of the first `c` in `s`, or the length of `s` when there is none.
pub open spec fn first_index(s: Seq<char>, c: char) -> int
    decreases s.len(),
{
    if s.len() == 0 || s[0] == c {
        0
    } else {
        1 + first_index(s.skip(1), c)
    }
}

/// What `first_index` returns: the least position that holds `c`.
pub proof fn lemma_first_index(s: Seq<char>, c: char)
    ensures
        0 <= first_index(s, c) <= s.len(),
        forall|j: int| 0 <= j < first_index(s, c) ==> s[j] != c,
        first_index(s, c) < s.len() ==> s[first_index(s, c)] == c,
    decreases s.len(),
{
    if s.len() == 0 || s[0] == c {
    } else {
        let t = s.skip(1);
        lemma_first_index(t, c);
        assert forall|j: int| 0 <= j < first_index(s, c) implies s[j] != c by {
            if j > 0 {
                assert(t[j - 1] == s[j]);
            }
        }
    }
}

/// A position with no `c` before it and a `c` at it, or the end, is the first index.
pub proof fn lemma_first_index_is(s: Seq<char>, c: char, i: int)
    requires
        0 <= i <= s.len(),
        forall|j: int| 0 <= j < i ==> s[j] != c,
        i < s.len() ==> s[i] == c,
    ensures
        first_index(s, c) == i,
{
    lemma_first_index(s, c);
}

/// The position of the first `c`, or the length when there is none.
pub fn find_char(s: &[char], c: char) -> (r: usize)
    ensures
        r as int == first_index(s@, c),
        r <= s@.len(),
        r < s@.len() ==> s@[r as int] == c,
        forall|j: int| 0 <= j < r ==> s@[j] != c,
{
    let mut i: usize = 0;
    while i < s.len() && s[i] != c
        invariant
            i <= s@.len(),
            forall|j: int| 0 <= j < i ==> s@[j] != c,
        decreases s@.len() - i,
    {
        i = i + 1;
    }
    proof {
        lemma_first_index_is(s@, c, i as int);
    }
    i
}

/// Whether `n` occurs in `h` at position `i`.
pub open spec fn occurs_at<T>(h: Seq<T>, n: Seq<T>, i: int) -> bool {
    0 <= i && i + n.len() <= h.len() && h.subrange(i, i + n.len()) == n
}

/// The least position at or after `from` where `n` occurs in `h`.
pub open spec fn occurrence_from<T>(h: Seq<T>, n: Seq<T>, from: int) -> Option<int>
    decreases h.len() + 1 - from,
{
    if from + n.len() > h.len() {
        None
    } else if occurs_at(h, n, from) {
        Some(from)
    } else {
        occurrence_from(h, n, from + 1)
    }
}

/// The position of the first occurrence of `n` in `h`.
pub open spec fn first_occurrence<T>(h: Seq<T>, n: Seq<T>) -> Option<int> {
    occurrence_from(h, n, 0)
}

/// The first occurrence is where `n` occurs and does not occur before.
pub proof fn lemma_first_occurrence_is<T>(h: Seq<T>, n: Seq<T>, k: int, from: int)
    requires
        0 <= from <= k,
        occurs_at(h, n, k),
        forall|j: int| from <= j < k ==> !#[trigger] occurs_at(h, n, j),
    ensures
        occurrence_from(h, n, from) == Some(k),
    decreases k - from,
{
    if from < k {
        assert(!occurs_at(h, n, from));
        lemma_first_occurrence_is(h, n, k, from + 1);
    }
}

/// What `occurrence_from` returns: the least position that `occurs_at` accepts.
pub proof fn lemma_occurrence_from<T>(h: Seq<T>, n: Seq<T>, from: int)
    requires
        0 <= from,
    ensures
        match occurrence_from(h, n, from) {
            Some(i) => from <= i && occurs_at(h, n, i) && (forall|j: int|
                from <= j < i ==> !#[trigger] occurs_at(h, n, j)),
            None => forall|j: int| from <= j ==> !#[trigger] occurs_at(h, n, j),
        },
    decreases h.len() + 1 - from,
{
    if from + n.len() > h.len() {
    } else if occurs_at(h, n, from) {
    } else {
        lemma_occurrence_from(h, n, from + 1);
        match occurrence_from(h, n, from + 1) {
            Some(i) => {
                assert forall|j: int| from <= j < i implies !#[trigger] occurs_at(h, n, j) by {
                    if j > from {
                    }
                }
            },
            None => {
                assert forall|j: int| from <= j implies !#[trigger] occurs_at(h, n, j) by {
                    if j > from {
                    }
                }
            },
        }
    }
}

/// The position of the first occurrence of `n` in `h`.
pub fn find_text(h: &[char], n: &str) -> (r: Option<usize>)
    ensures
        match r {
            Some(i) => first_occurrence(h@, n@) == Some(i as int) && occurs_at(h@, n@, i as int),
            None => first_occurrence(h@, n@) is None,
        },
{
    let nv = chars_of(n);
    if nv.len() > h.len() {
        return None;
    }
    let hl: usize = h.len();
    let last: usize = hl - nv.len();
    let mut i: usize = 0;
    loop
        invariant
            nv@ == n@,
            hl == h@.len(),
            last == h@.len() - n@.len(),
            i <= last,
            first_occurrence(h@, n@) == occurrence_from(h@, n@, i as int),
        decreases last + 1 - i,
    {
        let window = slice_subrange(h, i, i + nv.len());
        if same_chars(window, nv.as_slice()) {
            return Some(i);
        }
        proof {
            assert(occurrence_from(h@, n@, i as int) == occurrence_from(h@, n@, i as int + 1));
        }
        if i == last {
            return None;
        }
        i = i + 1;
    }
}

/// `s` with every occurrence of `from` replaced by `to`, from left to right.
pub open spec fn replaced(s: Seq<char>, from: Seq<char>, to: Seq<char>) -> Seq<char>
    decreases s.len(),
{
    match first_occurrence(s, from) {
        Some(i) => if 0 <= i && 0 < from.len() && i + from.len() <= s.len() {
            s.take(i) + to + replaced(s.skip(i + from.len()), from, to)
        } else {
            s
        },
        None => s,
    }
}

/// The characters with every occurrence of `from` replaced by `to`.
pub fn replace(s: &[char], from: &str, to: &str) -> (r: Vec<char>)
    requires
        from@.len() > 0,
    ensures
        r@ == replaced(s@, from@, to@),
{
    let n: usize = chars_of(from).len();
    let mut r: Vec<char> = Vec::new();
    let mut i: usize = 0;
    proof {
        assert(s@.skip(0) =~= s@);
        assert(r@ + replaced(s@, from@, to@) =~= replaced(s@, from@, to@));
    }
    loop
        invariant
            i <= s@.len(),
            n == from@.len(),
            n > 0,
            r@ + replaced(s@.skip(i as int), from@, to@) == replaced(s@, from@, to@),
        decreases s@.len() - i,
    {
        let rest = slice_subrange(s, i, s.len());
        let ghost before = r@;
        proof {
            assert(rest@ =~= s@.skip(i as int));
        }
        match find_text(rest, from) {
            Some(k) => {
                let head = slice_subrange(rest, 0, k);
                extend(&mut r, head);
                push_text(&mut r, to);
                proof {
                    assert(head@ =~= rest@.take(k as int));
                    assert(rest@.skip(k + n) =~= s@.skip(i + k + n));
                    let tail = replaced(s@.skip(i + k + n), from@, to@);
                    assert(before + (head@ + to@ + tail) =~= r@ + tail);
                }
                i = i + k + n;
            },
            None => {
                extend(&mut r, rest);
                return r;
            },
        }
    }
}

// ---------------------------------------------------------------------------
// White space
// ---------------------------------------------------------------------------

/// The characters with the Unicode `White_Space` property.
pub open spec fn is_white(c: char) -> bool {
    let n = c as u32;
    ||| 0x09 <= n <= 0x0d
    ||| n == 0x20
    ||| n == 0x85
    ||| n == 0xa0
    ||| n == 0x1680
    ||| 0x2000 <= n <= 0x200a
    ||| n == 0x2028
    ||| n == 0x2029
    ||| n == 0x202f
    ||| n == 0x205f
    ||| n == 0x3000
}

/// Whether `c` is a white-space character.
pub fn white(c: char) -> (r: bool)
    ensures
        r == is_white(c),
{
    let n: u32 = c as u32;
    (0x09 <= n && n <= 0x0d) || n == 0x20 || n == 0x85 || n == 0xa0 || n == 0x1680 || (0x2000 <= n
        && n <= 0x200a) || n == 0x2028 || n == 0x2029 || n == 0x202f || n == 0x205f || n == 0x3000
}

/// `s` without its leading white space.
pub open spec fn trimmed_start(s: Seq<char>) -> Seq<char>
    decreases s.len(),
{
    if s.len() > 0 && is_white(s[0]) {
        trimmed_start(s.skip(1))
    } else {
        s
    }
}

/// `s` without its trailing white space.
pub open spec fn trimmed_end(s: Seq<char>) -> Seq<char>
    decreases s.len(),
{
    if s.len() > 0 && is_white(s.last()) {
        trimmed_end(s.drop_last())
    } else {
        s
    }
}

/// `s` without its leading and trailing white space.
pub open spec fn trimmed(s: Seq<char>) -> Seq<char> {
    trimmed_end(trimmed_start(s))
}

/// `s` without its leading and trailing white space.
pub fn trim(s: &[char]) -> (r: &[char])
    ensures
        r@ == trimmed(s@),
{
    let mut i: usize = 0;
    proof {
        assert(s@.skip(0) =~= s@);
    }
    while i < s.len() && white(s[i])
        invariant
            i <= s@.len(),
            trimmed_start(s@) == trimmed_start(s@.skip(i as int)),
        decreases s@.len() - i,
    {
        proof {
            assert(s@.skip(i as int).skip(1) =~= s@.skip(i as int + 1));
        }
        i = i + 1;
    }
    let ghost t = s@.skip(i as int);
    let mut j: usize = s.len();
    proof {
        assert(s@.subrange(i as int, j as int) =~= t);
    }
    while i < j && white(s[j - 1])
        invariant
            i <= j <= s@.len(),
            trimmed_end(t) == trimmed_end(s@.subrange(i as int, j as int)),
        decreases j - i,
    {
        proof {
            assert(s@.subrange(i as int, j as int).drop_last() =~= s@.subrange(
                i as int,
                j as int - 1,
            ));
        }
        j = j - 1;
    }
    slice_subrange(s, i, j)
}

/// The maximal runs of non-white characters of `s`, in order.
pub open spec fn words(s: Seq<char>) -> Seq<Seq<char>>
    decreases s.len(),
{
    if s.len() == 0 {
        Seq::empty()
    } else if is_white(s[0]) {
        words(s.skip(1))
    } else {
        let n = word_len(s);
        if 0 < n <= s.len() {
            seq![s.take(n)] + words(s.skip(n))
        } else {
            Seq::empty()
        }
    }
}

/// The number of leading non-white characters of `s`.
pub open spec fn word_len(s: Seq<char>) -> int
    decreases s.len(),
{
    if s.len() == 0 || is_white(s[0]) {
        0
    } else {
        1 + word_len(s.skip(1))
    }
}

/// What `word_len` returns: the length of the leading run of non-white characters.
pub proof fn lemma_word_len(s: Seq<char>)
    ensures
        0 <= word_len(s) <= s.len(),
        forall|j: int| 0 <= j < word_len(s) ==> !is_white(#[trigger] s[j]),
        word_len(s) < s.len() ==> is_white(s[word_len(s)]),
    decreases s.len(),
{
    if s.len() == 0 || is_white(s[0]) {
    } else {
        let t = s.skip(1);
        lemma_word_len(t);
        assert forall|j: int| 0 <= j < word_len(s) implies !is_white(#[trigger] s[j]) by {
            if j > 0 {
                assert(t[j - 1] == s[j]);
            }
        }
    }
}

/// The maximal runs of non-white characters, in order.
pub fn split_words(s: &[char]) -> (r: Vec<Vec<char>>)
    ensures
        char_lists(r@) == words(s@),
{
    let mut r: Vec<Vec<char>> = Vec::new();
    let mut i: usize = 0;
    proof {
        assert(s@.skip(0) =~= s@);
        assert(char_lists(r@) + words(s@) =~= words(s@));
    }
    while i < s.len()
        invariant
            i <= s@.len(),
            char_lists(r@) + words(s@.skip(i as int)) == words(s@),
        decreases s@.len() - i,
    {
        let ghost t = s@.skip(i as int);
        if white(s[i]) {
            proof {
                assert(t.skip(1) =~= s@.skip(i as int + 1));
            }
            i = i + 1;
        } else {
            let start: usize = i;
            i = i + 1;
            while i < s.len() && !white(s[i])
                invariant
                    start < i <= s@.len(),
                    t == s@.skip(start as int),
                    forall|j: int| start <= j < i ==> !is_white(#[trigger] s@[j]),
                decreases s@.len() - i,
            {
                i = i + 1;
            }
            let w = to_vec(slice_subrange(s, start, i));
            proof {
                lemma_word_len(t);
                let n = word_len(t);
                if n < i - start {
                    assert(t[n] == s@[start + n]);
                }
                if n > i - start {
                    assert(t[i - start] == s@[i as int]);
                }
                assert(n == i - start);
                assert(t.take(n) =~= w@);
                assert(t.skip(n) =~= s@.skip(i as int));
                assert(words(t) =~= seq![w@] + words(s@.skip(i as int)));
            }
            let ghost before = r@;
            r.push(w);
            proof {
                assert(char_lists(r@) =~= char_lists(before) + seq![w@]);
                assert(char_lists(before) + (seq![w@] + words(s@.skip(i as int))) =~= (char_lists(
                    before,
                ) + seq![w@]) + words(s@.skip(i as int)));
            }
        }
    }
    proof {
        assert(s@.skip(s@.len() as int) =~= Seq::<char>::empty());
        assert(char_lists(r@) + Seq::<Seq<char>>::empty() =~= char_lists(r@));
    }
    r
}

// ---------------------------------------------------------------------------
// Splitting
// ---------------------------------------------------------------------------

/// The pieces of `s` between the occurrences of `c`; always at least one.
pub open spec fn pieces(s: Seq<char>, c: char) -> Seq<Seq<char>>
    decreases s.len(),
{
    let i = first_index(s, c);
    if 0 <= i < s.len() {
        seq![s.take(i)] + pieces(s.skip(i + 1), c)
    } else {
        seq![s]
    }
}

/// The pieces between the occurrences of `c`.
pub fn split(s: &[char], c: char) -> (r: Vec<Vec<char>>)
    ensures
        char_lists(r@) == pieces(s@, c),
{
    let mut r: Vec<Vec<char>> = Vec::new();
    let mut from: usize = 0;
    proof {
        assert(s@.skip(0) =~= s@);
        assert(char_lists(r@) + pieces(s@, c) =~= pieces(s@, c));
    }
    loop
        invariant
            from <= s@.len(),
            char_lists(r@) + pieces(s@.skip(from as int), c) == pieces(s@, c),
        decreases s@.len() - from,
    {
        let rest = slice_subrange(s, from, s.len());
        proof {
            assert(rest@ =~= s@.skip(from as int));
        }
        let i = find_char(rest, c);
        let ghost before = r@;
        if i < rest.len() {
            let w = to_vec(slice_subrange(rest, 0, i));
            proof {
                assert(w@ =~= rest@.take(i as int));
                assert(rest@.skip(i as int + 1) =~= s@.skip(from as int + i as int + 1));
            }
            r.push(w);
            proof {
                assert(char_lists(r@) =~= char_lists(before) + seq![w@]);
                let tail = pieces(s@.skip(from as int + i as int + 1), c);
                assert(char_lists(before) + (seq![w@] + tail) =~= (char_lists(before) + seq![w@])
                    + tail);
            }
            from = from + i + 1;
        } else {
            r.push(to_vec(rest));
            proof {
                assert(char_lists(r@) =~= char_lists(before) + seq![rest@]);
            }
            return r;
        }
    }
}

/// The pieces of `s` between the occurrences of `sep`; always at least one.
pub open spec fn parts(s: Seq<char>, sep: Seq<char>) -> Seq<Seq<char>>
    decreases s.len(),
{
    match first_occurrence(s, sep) {
        Some(i) => if 0 <= i && 0 < sep.len() && i + sep.len() <= s.len() {
            seq![s.take(i)] + parts(s.skip(i + sep.len()), sep)
        } else {
            seq![s]
        },
        None => seq![s],
    }
}

/// The pieces between the occurrences of `sep`.
pub fn split_text(s: &[char], sep: &str) -> (r: Vec<Vec<char>>)
    requires
        sep@.len() > 0,
    ensures
        char_lists(r@) == parts(s@, sep@),
{
    let n: usize = chars_of(sep).len();
    let mut r: Vec<Vec<char>> = Vec::new();
    let mut from: usize = 0;
    proof {
        assert(s@.skip(0) =~= s@);
        assert(char_lists(r@) + parts(s@, sep@) =~= parts(s@, sep@));
    }
    loop
        invariant
            from <= s@.len(),
            n == sep@.len(),
            n > 0,
            char_lists(r@) + parts(s@.skip(from as int), sep@) == parts(s@, sep@),
        decreases s@.len() - from,
    {
        let rest = slice_subrange(s, from, s.len());
        let ghost before = r@;
        proof {
            assert(rest@ =~= s@.skip(from as int));
        }
        match find_text(rest, sep) {
            Some(i) => {
                let w = to_vec(slice_subrange(rest, 0, i));
                proof {
                    assert(w@ =~= rest@.take(i as int));
                    assert(rest@.skip(i + n) =~= s@.skip(from + i + n));
                }
                r.push(w);
                proof {
                    assert(char_lists(r@) =~= char_lists(before) + seq![w@]);
                    let tail = parts(s@.skip(from + i + n), sep@);
                    assert(char_lists(before) + (seq![w@] + tail) =~= char_lists(r@) + tail);
                }
                from = from + i + n;
            },
            None => {
                r.push(to_vec(rest));
                proof {
                    assert(char_lists(r@) =~= char_lists(before) + seq![rest@]);
                }
                return r;
            },
        }
    }
}

// ---------------------------------------------------------------------------
// Letter case
// ---------------------------------------------------------------------------

/// `c` with an ASCII upper-case letter made lower-case.
pub open spec fn lower_char(c: char) -> char {
    if 'A' <= c && c <= 'Z' {
        ((c as u8) + 32) as char
    } else {
        c
    }
}

/// `c` with an ASCII lower-case letter made upper-case.
pub open spec fn upper_char(c: char) -> char {
    if 'a' <= c && c <= 'z' {
        ((c as u8) - 32) as char
    } else {
        c
    }
}

/// `s` with its ASCII letters in lower case.
pub open spec fn lowered(s: Seq<char>) -> Seq<char> {
    s.map_values(|c: char| lower_char(c))
}

/// `s` with its ASCII letters in upper case.
pub open spec fn uppered(s: Seq<char>) -> Seq<char> {
    s.map_values(|c: char| upper_char(c))
}

/// The characters with ASCII letters in lower case.
pub fn to_lower(s: &[char]) -> (r: Vec<char>)
    ensures
        r@ == lowered(s@),
{
    let mut r: Vec<char> = Vec::new();
    let mut i: usize = 0;
    while i < s.len()
        invariant
            i <= s@.len(),
            r@.len() == i,
            forall|j: int| 0 <= j < i ==> r@[j] == lower_char(s@[j]),
        decreases s@.len() - i,
    {
        let c = s[i];
        if 'A' <= c && c <= 'Z' {
            r.push(((c as u8) + 32) as char);
        } else {
            r.push(c);
        }
        i = i + 1;
    }
    proof {
        assert(r@ =~= lowered(s@));
    }
    r
}

/// The characters with ASCII letters in upper case.
pub fn to_upper(s: &[char]) -> (r: Vec<char>)
    ensures
        r@ == uppered(s@),
{
    let mut r: Vec<char> = Vec::new();
    let mut i: usize = 0;
    while i < s.len()
        invariant
            i <= s@.len(),
            r@.len() == i,
            forall|j: int| 0 <= j < i ==> r@[j] == upper_char(s@[j]),
        decreases s@.len() - i,
    {
        let c = s[i];
        if 'a' <= c && c <= 'z' {
            r.push(((c as u8) - 32) as char);
        } else {
            r.push(c);
        }
        i = i + 1;
    }
    proof {
        assert(r@ =~= uppered(s@));
    }
    r
}

// ---------------------------------------------------------------------------
// Quoted text
// ---------------------------------------------------------------------------

/// The quoted and escaped form of a text that `{:?}` writes.
pub uninterp spec fn debug_text(s: Seq<char>) -> Seq<char>;

/// The `Debug` form of a string: the text in double quotes with special
/// characters escaped, as `core::fmt::Debug for str` writes it. Which
/// characters are escaped is left to that implementation; the result is only
/// said to depend on nothing but the text.
#[verifier::external_body]
pub(crate) fn debug_string(s: &str) -> (r: String)
    ensures
        r@ == debug_text(s@),
{
    format!("{:?}", s)
}

// ---------------------------------------------------------------------------
// Laws
// ---------------------------------------------------------------------------

/// Whether a text is nothing but white space.
pub open spec fn all_white(s: Seq<char>) -> bool {
    forall|i: int| 0 <= i < s.len() ==> is_white(#[trigger] s[i])
}

proof fn lemma_trim_front(a: Seq<char>, s: Seq<char>)
    requires
        all_white(a),
    ensures
        trimmed_start(a + s) == trimmed_start(s),
    decreases a.len(),
{
    if a.len() == 0 {
        assert(a + s =~= s);
    } else {
        let t = a.skip(1);
        assert(is_white(a[0]));
        assert((a + s)[0] == a[0]);
        assert((a + s).skip(1) =~= t + s);
        assert forall|i: int| 0 <= i < t.len() implies is_white(#[trigger] t[i]) by {
            assert(t[i] == a[i + 1]);
        }
        lemma_trim_front(t, s);
    }
}

proof fn lemma_trim_back(s: Seq<char>, b: Seq<char>)
    requires
        all_white(b),
    ensures
        trimmed_end(s + b) == trimmed_end(s),
    decreases b.len(),
{
    if b.len() == 0 {
        assert(s + b =~= s);
    } else {
        let t = b.drop_last();
        assert(is_white(b[b.len() - 1]));
        assert((s + b).last() == b.last());
        assert((s + b).drop_last() =~= s + t);
        assert forall|i: int| 0 <= i < t.len() implies is_white(#[trigger] t[i]) by {
            assert(t[i] == b[i]);
        }
        lemma_trim_back(s, t);
    }
}

/// Trimming takes off the white space around a text, all of it, and nothing
/// else.
pub proof fn law_trimmed(a: Seq<char>, s: Seq<char>, b: Seq<char>)
    requires
        all_white(a),
        all_white(b),
        s.len() > 0,
        !is_white(s[0]),
        !is_white(s.last()),
    ensures
        trimmed(a + s + b) == s,
        trimmed(a).len() == 0,
{
    assert(a + s + b =~= a + (s + b));
    lemma_trim_front(a, s + b);
    assert((s + b)[0] == s[0]);
    assert(trimmed_start(s + b) == s + b);
    lemma_trim_back(s, b);
    let none = Seq::<char>::empty();
    lemma_trim_front(a, none);
    assert(a + none =~= a);
}

/// White space is what separates words in every script: among others blanks,
/// tabs and line ends, and no letter, digit or sign of ASCII.
pub proof fn law_white_space(c: char)
    ensures
        is_white(' ') && is_white('\t') && is_white('\n') && is_white('\r'),
        '!' <= c <= '~' ==> !is_white(c),
{
}

/// Pieces with a character between them.
pub open spec fn between(items: Seq<Seq<char>>, c: char) -> Seq<char>
    decreases items.len(),
{
    if items.len() == 0 {
        Seq::empty()
    } else if items.len() == 1 {
        items[0]
    } else {
        items[0] + seq![c] + between(items.skip(1), c)
    }
}

/// Splitting gives the pieces, empty ones too.
pub proof fn law_pieces(items: Seq<Seq<char>>, c: char)
    requires
        items.len() > 0,
        forall|k: int, i: int|
            0 <= k < items.len() && 0 <= i < items[k].len() ==> #[trigger] items[k][i] != c,
    ensures
        pieces(between(items, c), c) == items,
    decreases items.len(),
{
    let s = between(items, c);
    let a = items[0];
    let n = a.len() as int;
    assert forall|j: int| 0 <= j < n implies a[j] != c by {
        assert(items[0][j] != c);
    }
    if items.len() == 1 {
        lemma_first_index_is(s, c, n);
        assert(seq![s] =~= items);
    } else {
        let t = items.skip(1);
        assert forall|k: int, i: int| 0 <= k < t.len() && 0 <= i < t[k].len() implies #[trigger] t[k][i]
            != c by {
            assert(items[k + 1][i] != c);
        }
        law_pieces(t, c);
        assert forall|j: int| 0 <= j < n implies s[j] != c by {
            assert(s[j] == a[j]);
        }
        assert(s[n] == c);
        lemma_first_index_is(s, c, n);
        assert(s.take(n) =~= a);
        assert(s.skip(n + 1) =~= between(t, c));
        assert(seq![a] + t =~= items);
    }
}

/// Words are split at white space, however much of it there is.
pub proof fn law_words(a: Seq<char>, w: Seq<char>, gap: char, rest: Seq<char>)
    requires
        all_white(a),
        w.len() > 0,
        forall|i: int| 0 <= i < w.len() ==> !is_white(#[trigger] w[i]),
        is_white(gap),
    ensures
        words(a + w + seq![gap] + rest) == seq![w] + words(rest),
        words(a + w) == seq![w],
        words(a).len() == 0,
    decreases a.len(),
{
    if a.len() > 0 {
        let t = a.skip(1);
        assert(is_white(a[0]));
        assert forall|i: int| 0 <= i < t.len() implies is_white(#[trigger] t[i]) by {
            assert(t[i] == a[i + 1]);
        }
        law_words(t, w, gap, rest);
        assert((a + w + seq![gap] + rest).skip(1) =~= t + w + seq![gap] + rest);
        assert((a + w).skip(1) =~= t + w);
    } else {
        let s = a + w + seq![gap] + rest;
        let u = a + w;
        let tail = seq![gap] + rest;
        assert(s =~= w + tail);
        assert(u =~= w);
        assert(!is_white(w[0]));
        assert(s[0] == w[0] && u[0] == w[0]);
        lemma_word_len_is(s, w.len() as int);
        lemma_word_len_is(u, w.len() as int);
        assert(s.take(w.len() as int) =~= w);
        assert(s.skip(w.len() as int) =~= tail);
        assert(tail[0] == gap);
        assert(tail.skip(1) =~= rest);
        assert(words(tail) == words(rest));
        assert(u.take(w.len() as int) =~= w);
        assert(u.skip(w.len() as int) =~= Seq::<char>::empty());
        assert(words(Seq::<char>::empty()) =~= Seq::<Seq<char>>::empty());
        assert(seq![w] + Seq::<Seq<char>>::empty() =~= seq![w]);
    }
}

proof fn lemma_word_len_is(s: Seq<char>, n: int)
    requires
        0 <= n <= s.len(),
        forall|i: int| 0 <= i < n ==> !is_white(#[trigger] s[i]),
        n < s.len() ==> is_white(s[n]),
    ensures
        word_len(s) == n,
    decreases n,
{
    if n > 0 {
        let t = s.skip(1);
        assert(!is_white(s[0]));
        assert forall|i: int| 0 <= i < n - 1 implies !is_white(#[trigger] t[i]) by {
            assert(t[i] == s[i + 1]);
        }
        lemma_word_len_is(t, n - 1);
    }
}

/// Changing the case of letters changes nothing else, and one undoes the other.
pub proof fn law_letter_case(c: char, s: Seq<char>)
    ensures
        'a' <= c <= 'z' ==> lower_char(c) == c && lower_char(upper_char(c)) == c && upper_char(c) != c,
        'A' <= c <= 'Z' ==> upper_char(c) == c && upper_char(lower_char(c)) == c && lower_char(c) != c,
        !('a' <= c <= 'z' || 'A' <= c <= 'Z') ==> lower_char(c) == c && upper_char(c) == c,
        lowered(s).len() == s.len() && uppered(s).len() == s.len(),
{
}

/// What a text begins and ends with.
pub proof fn law_prefix_and_suffix(a: Seq<char>, b: Seq<char>)
    ensures
        has_prefix(a + b, a),
        has_suffix(a + b, b),
        has_prefix(a, b) ==> a == b + a.skip(b.len() as int),
        has_suffix(a, b) ==> a == a.take(a.len() - b.len()) + b,
{
    assert((a + b).take(a.len() as int) =~= a);
    assert((a + b).skip((a + b).len() - b.len()) =~= b);
    if has_prefix(a, b) {
        assert(a =~= b + a.skip(b.len() as int));
    }
    if has_suffix(a, b) {
        assert(a =~= a.take(a.len() - b.len()) + b);
    }
}

} // verus!
