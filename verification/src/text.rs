//! Character-sequence helpers shared by the parsers: conversion between
//! `str`/`String` and `Vec<char>`, whitespace trimming, substring search,
//! ASCII case folding.
use vstd::prelude::*;

verus! {

broadcast use vstd::string::group_string_axioms;

// ---------------------------------------------------------------------------
// Specifications
// ---------------------------------------------------------------------------
/// Unicode `White_Space` (the set `char::is_whitespace` accepts).
pub open spec fn is_ws(c: char) -> bool {
    let u = c as u32;
    (0x9 <= u && u <= 0xD) || u == 0x20 || u == 0x85 || u == 0xA0 || u == 0x1680 || (0x2000 <= u
        && u <= 0x200A) || u == 0x2028 || u == 0x2029 || u == 0x202F || u == 0x205F || u == 0x3000
}

/// `s` with leading whitespace removed.
pub open spec fn trim_start(s: Seq<char>) -> Seq<char>
    decreases s.len(),
{
    if s.len() > 0 && is_ws(s[0]) {
        trim_start(s.drop_first())
    } else {
        s
    }
}

/// `s` with trailing whitespace removed.
pub open spec fn trim_end(s: Seq<char>) -> Seq<char>
    decreases s.len(),
{
    if s.len() > 0 && is_ws(s.last()) {
        trim_end(s.drop_last())
    } else {
        s
    }
}

/// `s` with leading and trailing whitespace removed (`str::trim`).
pub open spec fn trim(s: Seq<char>) -> Seq<char> {
    trim_end(trim_start(s))
}

/// `needle` occurs in `hay` starting at position `i`.
pub open spec fn occurs_at(hay: Seq<char>, needle: Seq<char>, i: int) -> bool {
    0 <= i && i + needle.len() <= hay.len() && hay.subrange(i, i + needle.len()) == needle
}

/// `needle` occurs somewhere in `hay` (`str::contains`; the empty needle always occurs).
pub open spec fn contains(hay: Seq<char>, needle: Seq<char>) -> bool {
    exists|i: int| occurs_at(hay, needle, i)
}

/// `hay` starts with `pre`.
pub open spec fn starts_with(hay: Seq<char>, pre: Seq<char>) -> bool {
    occurs_at(hay, pre, 0)
}

/// `hay` ends with `suf`.
pub open spec fn ends_with(hay: Seq<char>, suf: Seq<char>) -> bool {
    occurs_at(hay, suf, hay.len() - suf.len())
}

/// ASCII upper-case letters mapped to lower case, everything else unchanged.
pub open spec fn ascii_lower_char(c: char) -> char {
    if 'A' <= c && c <= 'Z' {
        ((c as u32) + 32) as char
    } else {
        c
    }
}

/// ASCII lower-case letters mapped to upper case, everything else unchanged.
pub open spec fn ascii_upper_char(c: char) -> char {
    if 'a' <= c && c <= 'z' {
        ((c as u32) - 32) as char
    } else {
        c
    }
}

/// `str::to_ascii_lowercase` on a character sequence.
pub open spec fn ascii_lower(s: Seq<char>) -> Seq<char> {
    s.map_values(|c: char| ascii_lower_char(c))
}

/// `str::to_ascii_uppercase` on a character sequence.
pub open spec fn ascii_upper(s: Seq<char>) -> Seq<char> {
    s.map_values(|c: char| ascii_upper_char(c))
}

/// Name for what `str::to_lowercase` returns (full Unicode case mapping).
pub uninterp spec fn unicode_lower(s: Seq<char>) -> Seq<char>;

/// `c` is one of `'0'..='9'`.
pub open spec fn is_digit(c: char) -> bool {
    '0' <= c && c <= '9'
}

/// Some character of `s` satisfies `is_digit`.
pub open spec fn has_digit(s: Seq<char>) -> bool {
    exists|i: int| 0 <= i < s.len() && is_digit(s[i])
}

/// Some needle of `needles` occurs in `hay`.
pub open spec fn contains_any(hay: Seq<char>, needles: Seq<Seq<char>>) -> bool {
    exists|k: int| 0 <= k < needles.len() && contains(hay, needles[k])
}

/// The view of an optional string.
pub open spec fn opt_view(o: Option<String>) -> Option<Seq<char>> {
    match o {
        Some(s) => Some(s@),
        None => None,
    }
}

/// Pushing an element adds it to the set of elements.
pub proof fn lemma_push_to_set<A>(v: Seq<A>, x: A)
    ensures
        v.push(x).to_set() == v.to_set().insert(x),
{
    assert forall|e: A| v.push(x).to_set().contains(e) implies v.to_set().insert(x).contains(e) by {
        let k = choose|k: int| 0 <= k < v.push(x).len() && v.push(x)[k] == e;
        if k < v.len() {
            assert(v[k] == e);
        }
    }
    assert forall|e: A| v.to_set().insert(x).contains(e) implies v.push(x).to_set().contains(e) by {
        if e == x {
            assert(v.push(x)[v.len() as int] == e);
        } else {
            let k = choose|k: int| 0 <= k < v.len() && v[k] == e;
            assert(v.push(x)[k] == e);
        }
    }
    assert(v.push(x).to_set() =~= v.to_set().insert(x));
}

/// The views of a vector of strings.
pub open spec fn views(v: Seq<String>) -> Seq<Seq<char>> {
    v.map_values(|s: String| s@)
}

// ---------------------------------------------------------------------------
// Conversions
// ---------------------------------------------------------------------------
/// Decodes a string slice into its characters.
pub fn chars_of(s: &str) -> (v: Vec<char>)
    ensures
        v@ == s@,
{
    let mut out: Vec<char> = Vec::new();
    for c in it: s.chars()
        invariant
            out@ == it.seq().take(it.index() as int),
    {
        out.push(c);
    }
    out
}

/// Appends one character to a `String` (`String::push`).
#[verifier::external_body]
fn push_char(s: &mut String, c: char)
    ensures
        final(s)@ == old(s)@.push(c),
{
    s.push(c);
}

/// Builds a `String` holding exactly the given characters.
pub fn string_of(v: &[char]) -> (s: String)
    ensures
        s@ == v@,
{
    let mut out = String::new();
    let mut i: usize = 0;
    while i < v.len()
        invariant
            i <= v@.len(),
            out@ == v@.take(i as int),
        decreases v@.len() - i,
    {
        push_char(&mut out, v[i]);
        assert(v@.take(i as int).push(v@[i as int]) =~= v@.take(i + 1));
        i = i + 1;
    }
    assert(v@.take(v@.len() as int) =~= v@);
    out
}

/// An owned copy of a string slice.
pub fn owned(s: &str) -> (r: String)
    ensures
        r@ == s@,
{
    s.to_owned()
}

/// A copy of an optional string.
pub fn clone_opt(s: &Option<String>) -> (r: Option<String>)
    ensures
        r == *s,
{
    match s {
        Some(x) => Some(x.clone()),
        None => None,
    }
}

/// A copy of a vector of strings.
pub fn clone_strings(v: &Vec<String>) -> (r: Vec<String>)
    ensures
        views(r@) == views(v@),
        r@.len() == v@.len(),
{
    let mut out: Vec<String> = Vec::new();
    let mut i: usize = 0;
    while i < v.len()
        invariant
            i <= v@.len(),
            out@.len() == i,
            forall|j: int| 0 <= j < i ==> #[trigger] out@[j]@ == v@[j]@,
        decreases v@.len() - i,
    {
        out.push(v[i].clone());
        i = i + 1;
    }
    assert(views(out@) =~= views(v@));
    out
}

// ---------------------------------------------------------------------------
// Character classes
// ---------------------------------------------------------------------------
/// `char::is_whitespace`.
pub fn is_whitespace(c: char) -> (r: bool)
    ensures
        r == is_ws(c),
{
    let u = c as u32;
    (0x9 <= u && u <= 0xD) || u == 0x20 || u == 0x85 || u == 0xA0 || u == 0x1680 || (0x2000 <= u
        && u <= 0x200A) || u == 0x2028 || u == 0x2029 || u == 0x202F || u == 0x205F || u == 0x3000
}

/// `char::is_ascii_digit`.
pub fn is_ascii_digit(c: char) -> (r: bool)
    ensures
        r == is_digit(c),
{
    '0' <= c && c <= '9'
}

/// `char::to_ascii_lowercase`.
pub fn lower_char(c: char) -> (r: char)
    ensures
        r == ascii_lower_char(c),
{
    if 'A' <= c && c <= 'Z' {
        let u = (c as u32) + 32;
        assert(0x61 <= u <= 0x7A);
        char_from_ascii(u)
    } else {
        c
    }
}

/// `char::to_ascii_uppercase`.
pub fn upper_char(c: char) -> (r: char)
    ensures
        r == ascii_upper_char(c),
{
    if 'a' <= c && c <= 'z' {
        let u = (c as u32) - 32;
        char_from_ascii(u)
    } else {
        c
    }
}

/// The character with the given code point, for ASCII code points.
pub(crate) fn char_from_ascii(u: u32) -> (r: char)
    requires
        u < 0x80,
    ensures
        r == u as char,
{
    let b = u as u8;
    b as char
}

/// `str::to_ascii_lowercase` on characters.
pub fn lower_ascii(s: &[char]) -> (r: Vec<char>)
    ensures
        r@ == ascii_lower(s@),
{
    let mut out: Vec<char> = Vec::new();
    let mut i: usize = 0;
    while i < s.len()
        invariant
            i <= s@.len(),
            out@ == ascii_lower(s@.take(i as int)),
        decreases s@.len() - i,
    {
        out.push(lower_char(s[i]));
        assert(ascii_lower(s@.take(i + 1)) =~= ascii_lower(s@.take(i as int)).push(
            ascii_lower_char(s@[i as int]),
        ));
        i = i + 1;
    }
    assert(s@.take(s@.len() as int) =~= s@);
    out
}

/// `str::to_ascii_uppercase` on characters.
pub fn upper_ascii(s: &[char]) -> (r: Vec<char>)
    ensures
        r@ == ascii_upper(s@),
{
    let mut out: Vec<char> = Vec::new();
    let mut i: usize = 0;
    while i < s.len()
        invariant
            i <= s@.len(),
            out@ == ascii_upper(s@.take(i as int)),
        decreases s@.len() - i,
    {
        out.push(upper_char(s[i]));
        assert(ascii_upper(s@.take(i + 1)) =~= ascii_upper(s@.take(i as int)).push(
            ascii_upper_char(s@[i as int]),
        ));
        i = i + 1;
    }
    assert(s@.take(s@.len() as int) =~= s@);
    out
}

/// `str::to_lowercase` (full Unicode case mapping).
pub fn unicode_lowercase(s: &str) -> (r: String)
    ensures
        r@ == unicode_lower(s@),
{
    lowercase_of(s)
}

/// Calls `str::to_lowercase`.
#[verifier::external_body]
fn lowercase_of(s: &str) -> (r: String)
    ensures
        r@ == unicode_lower(s@),
{
    s.to_lowercase()
}


// ---------------------------------------------------------------------------
// Trimming
// ---------------------------------------------------------------------------
proof fn lemma_trim_start_at(s: Seq<char>, k: int)
    requires
        0 <= k <= s.len(),
        forall|j: int| 0 <= j < k ==> is_ws(#[trigger] s[j]),
        k == s.len() || !is_ws(s[k]),
    ensures
        trim_start(s) == s.subrange(k, s.len() as int),
    decreases k,
{
    if k == 0 {
        assert(s.subrange(0, s.len() as int) =~= s);
    } else {
        let t = s.drop_first();
        assert forall|j: int| 0 <= j < k - 1 implies is_ws(#[trigger] t[j]) by {
            assert(t[j] == s[j + 1]);
        }
        lemma_trim_start_at(t, k - 1);
        assert(t.subrange(k - 1, t.len() as int) =~= s.subrange(k, s.len() as int));
    }
}

proof fn lemma_trim_end_at(s: Seq<char>, k: int)
    requires
        0 <= k <= s.len(),
        forall|j: int| k <= j < s.len() ==> is_ws(#[trigger] s[j]),
        k == 0 || !is_ws(s[k - 1]),
    ensures
        trim_end(s) == s.subrange(0, k),
    decreases s.len() - k,
{
    if k == s.len() {
        assert(s.subrange(0, k) =~= s);
    } else {
        let t = s.drop_last();
        assert forall|j: int| k <= j < t.len() implies is_ws(#[trigger] t[j]) by {
            assert(t[j] == s[j]);
        }
        lemma_trim_end_at(t, k);
        assert(t.subrange(0, k) =~= s.subrange(0, k));
    }
}

/// `str::trim_end` on characters.
pub fn trim_end_chars(s: &[char]) -> (r: Vec<char>)
    ensures
        r@ == trim_end(s@),
{
    let n = s.len();
    let mut b: usize = n;
    while b > 0 && is_whitespace(s[b - 1])
        invariant
            b <= n == s@.len(),
            forall|j: int| b <= j < n ==> is_ws(#[trigger] s@[j]),
        decreases b,
    {
        b = b - 1;
    }
    proof {
        lemma_trim_end_at(s@, b as int);
    }
    slice_chars(s, 0, b)
}

/// `str::trim` on characters.
pub fn trim_chars(s: &[char]) -> (r: Vec<char>)
    ensures
        r@ == trim(s@),
{
    let n = s.len();
    let mut a: usize = 0;
    while a < n && is_whitespace(s[a])
        invariant
            a <= n == s@.len(),
            forall|j: int| 0 <= j < a ==> is_ws(#[trigger] s@[j]),
        decreases n - a,
    {
        a = a + 1;
    }
    proof {
        lemma_trim_start_at(s@, a as int);
    }
    let ghost t = s@.subrange(a as int, n as int);
    let mut b: usize = n;
    while b > a && is_whitespace(s[b - 1])
        invariant
            a <= b <= n == s@.len(),
            t == s@.subrange(a as int, n as int),
            forall|j: int| b <= j < n ==> is_ws(#[trigger] s@[j]),
        decreases b - a,
    {
        b = b - 1;
    }
    proof {
        assert forall|j: int| b - a <= j < t.len() implies is_ws(#[trigger] t[j]) by {
            assert(t[j] == s@[j + a]);
        }
        if b > a {
            assert(t[b - a - 1] == s@[b - 1]);
        }
        lemma_trim_end_at(t, b - a);
    }
    let mut out: Vec<char> = Vec::new();
    let mut i: usize = a;
    while i < b
        invariant
            a <= i <= b <= n == s@.len(),
            out@ == s@.subrange(a as int, i as int),
        decreases b - i,
    {
        out.push(s[i]);
        assert(s@.subrange(a as int, i + 1) =~= s@.subrange(a as int, i as int).push(s@[i as int]));
        i = i + 1;
    }
    assert(t.subrange(0, b - a) =~= s@.subrange(a as int, b as int));
    out
}

/// `str::trim` on a string slice, as characters.
pub fn trimmed(s: &str) -> (r: Vec<char>)
    ensures
        r@ == trim(s@),
{
    let v = chars_of(s);
    trim_chars(&v)
}

/// The trimmed string is empty.
pub fn is_blank(s: &str) -> (r: bool)
    ensures
        r == (trim(s@).len() == 0),
{
    let v = trimmed(s);
    v.len() == 0
}

// ---------------------------------------------------------------------------
// Search
// ---------------------------------------------------------------------------
/// Whether `needle` occurs in `hay` at position `i`.
pub fn matches_at(hay: &[char], needle: &[char], i: usize) -> (r: bool)
    ensures
        r == occurs_at(hay@, needle@, i as int),
{
    if i > hay.len() || needle.len() > hay.len() - i {
        return false;
    }
    let mut k: usize = 0;
    while k < needle.len()
        invariant
            i + needle@.len() <= hay@.len() <= usize::MAX,
            k <= needle@.len(),
            forall|j: int| 0 <= j < k ==> hay@[i + j] == needle@[j],
        decreases needle@.len() - k,
    {
        if hay[i + k] != needle[k] {
            assert(hay@.subrange(i as int, i + needle@.len())[k as int] != needle@[k as int]);
            return false;
        }
        k = k + 1;
    }
    assert(hay@.subrange(i as int, i + needle@.len()) =~= needle@);
    true
}

/// The first position at or after `from` where `needle` occurs in `hay`.
pub fn find_from(hay: &[char], needle: &[char], from: usize) -> (r: Option<usize>)
    ensures
        match r {
            Some(i) => from <= i && occurs_at(hay@, needle@, i as int) && forall|j: int|
                from <= j < i ==> !occurs_at(hay@, needle@, j),
            None => forall|j: int| from <= j ==> !occurs_at(hay@, needle@, j),
        },
{
    let mut i: usize = from;
    if i > hay.len() {
        return None;
    }
    loop
        invariant
            from <= i <= hay@.len(),
            forall|j: int| from <= j < i ==> !occurs_at(hay@, needle@, j),
        decreases hay@.len() - i,
    {
        if matches_at(hay, needle, i) {
            return Some(i);
        }
        if i == hay.len() {
            return None;
        }
        i = i + 1;
    }
}

/// `needle` occurs in `hay` (`str::contains` on characters).
pub fn contains_chars(hay: &[char], needle: &[char]) -> (r: bool)
    ensures
        r == contains(hay@, needle@),
{
    match find_from(hay, needle, 0) {
        Some(_) => true,
        None => {
            assert forall|j: int| !occurs_at(hay@, needle@, j) by {
                if j < 0 {
                }
            }
            false
        },
    }
}

/// `needle` occurs in `hay` (`str::contains` with a string-slice needle).
pub fn contains_str(hay: &[char], needle: &str) -> (r: bool)
    ensures
        r == contains(hay@, needle@),
{
    let n = chars_of(needle);
    contains_chars(hay, &n)
}

/// The character `c` occurs in `hay`.
pub fn contains_char(hay: &[char], c: char) -> (r: bool)
    ensures
        r == hay@.contains(c),
{
    let mut i: usize = 0;
    while i < hay.len()
        invariant
            i <= hay@.len(),
            forall|j: int| 0 <= j < i ==> hay@[j] != c,
        decreases hay@.len() - i,
    {
        if hay[i] == c {
            return true;
        }
        i = i + 1;
    }
    false
}

/// Two character sequences are equal.
pub fn chars_eq(a: &[char], b: &[char]) -> (r: bool)
    ensures
        r == (a@ == b@),
{
    if a.len() != b.len() {
        return false;
    }
    let r = matches_at(a, b, 0);
    assert(a@.subrange(0, b@.len() as int) =~= a@);
    r
}

/// A string slice equals the given characters.
pub fn str_eq_chars(a: &str, b: &[char]) -> (r: bool)
    ensures
        r == (a@ == b@),
{
    let v = chars_of(a);
    chars_eq(&v, b)
}

/// Two string slices are equal.
pub fn str_eq(a: &str, b: &str) -> (r: bool)
    ensures
        r == (a@ == b@),
{
    let v = chars_of(a);
    let w = chars_of(b);
    chars_eq(&v, &w)
}

/// Some character of `s` is an ASCII digit.
pub fn any_digit(s: &[char]) -> (r: bool)
    ensures
        r == has_digit(s@),
{
    let mut i: usize = 0;
    while i < s.len()
        invariant
            i <= s@.len(),
            forall|j: int| 0 <= j < i ==> !is_digit(#[trigger] s@[j]),
        decreases s@.len() - i,
    {
        if is_ascii_digit(s[i]) {
            return true;
        }
        i = i + 1;
    }
    false
}

/// Copies the characters `s[from..to]`.
pub fn slice_chars(s: &[char], from: usize, to: usize) -> (r: Vec<char>)
    requires
        from <= to <= s@.len(),
    ensures
        r@ == s@.subrange(from as int, to as int),
{
    let mut out: Vec<char> = Vec::new();
    let mut i: usize = from;
    while i < to
        invariant
            from <= i <= to <= s@.len(),
            out@ == s@.subrange(from as int, i as int),
        decreases to - i,
    {
        out.push(s[i]);
        assert(s@.subrange(from as int, i + 1) =~= s@.subrange(from as int, i as int).push(s@[i as int]));
        i = i + 1;
    }
    out
}


// ---------------------------------------------------------------------------
// Ordering and sorted sets of strings
// ---------------------------------------------------------------------------
/// Lexicographic order on characters by code point (the order of `String`).
pub open spec fn seq_lt(a: Seq<char>, b: Seq<char>) -> bool
    decreases a.len(),
{
    if a.len() == 0 {
        b.len() > 0
    } else if b.len() == 0 {
        false
    } else if a[0] != b[0] {
        (a[0] as int) < (b[0] as int)
    } else {
        seq_lt(a.drop_first(), b.drop_first())
    }
}

pub proof fn lemma_seq_lt_irreflexive(a: Seq<char>)
    ensures
        !seq_lt(a, a),
    decreases a.len(),
{
    if a.len() > 0 {
        lemma_seq_lt_irreflexive(a.drop_first());
    }
}

pub proof fn lemma_seq_lt_total(a: Seq<char>, b: Seq<char>)
    ensures
        a != b ==> (seq_lt(a, b) || seq_lt(b, a)),
        !(seq_lt(a, b) && seq_lt(b, a)),
    decreases a.len(),
{
    if a.len() > 0 && b.len() > 0 {
        lemma_seq_lt_total(a.drop_first(), b.drop_first());
        if a[0] == b[0] && a != b {
            assert(a =~= seq![a[0]] + a.drop_first());
            assert(b =~= seq![b[0]] + b.drop_first());
        }
    } else if a.len() == 0 && b.len() == 0 {
        assert(a =~= b);
    }
}

pub proof fn lemma_seq_lt_transitive(a: Seq<char>, b: Seq<char>, c: Seq<char>)
    requires
        seq_lt(a, b),
        seq_lt(b, c),
    ensures
        seq_lt(a, c),
    decreases a.len(),
{
    if a.len() > 0 && b.len() > 0 && c.len() > 0 {
        if a[0] == b[0] && b[0] == c[0] {
            lemma_seq_lt_transitive(a.drop_first(), b.drop_first(), c.drop_first());
        }
    }
}

/// `a` precedes `b` in the order of `String`.
pub fn chars_lt(a: &[char], b: &[char]) -> (r: bool)
    ensures
        r == seq_lt(a@, b@),
{
    let mut i: usize = 0;
    assert(a@.skip(0) =~= a@);
    assert(b@.skip(0) =~= b@);
    while i < a.len() && i < b.len() && a[i] == b[i]
        invariant
            i <= a@.len(),
            i <= b@.len(),
            seq_lt(a@, b@) == seq_lt(a@.skip(i as int), b@.skip(i as int)),
        decreases a@.len() - i,
    {
        assert(a@.skip(i as int).drop_first() =~= a@.skip(i + 1));
        assert(b@.skip(i as int).drop_first() =~= b@.skip(i + 1));
        i = i + 1;
    }
    proof {
        if i < a@.len() {
            assert(a@.skip(i as int)[0] == a@[i as int]);
        }
        if i < b@.len() {
            assert(b@.skip(i as int)[0] == b@[i as int]);
        }
    }
    if i == a.len() {
        i < b.len()
    } else if i == b.len() {
        false
    } else {
        a[i] < b[i]
    }
}

/// The views of `v` are strictly increasing.
pub open spec fn strictly_sorted(v: Seq<Seq<char>>) -> bool {
    forall|i: int, j: int| 0 <= i < j < v.len() ==> seq_lt(v[i], v[j])
}

/// Inserts `x` into a strictly sorted vector unless an equal string is already there.
pub fn insert_sorted_unique(v: &mut Vec<String>, x: String)
    requires
        strictly_sorted(views(old(v)@)),
    ensures
        strictly_sorted(views(final(v)@)),
        views(final(v)@).to_set() == views(old(v)@).to_set().insert(x@),
{
    let ghost old_views = views(v@);
    let xv = chars_of(x.as_str());
    let mut i: usize = 0;
    while i < v.len()
        invariant
            i <= v@.len(),
            old_views == views(v@),
            xv@ == x@,
            strictly_sorted(old_views),
            forall|j: int| 0 <= j < i ==> seq_lt(#[trigger] old_views[j], x@),
        ensures
            i <= v@.len(),
            i < v@.len() ==> !seq_lt(old_views[i as int], x@),
        decreases v@.len() - i,
    {
        let cur = chars_of(v[i].as_str());
        assert(cur@ == old_views[i as int]);
        if !chars_lt(&cur, &xv) {
            break;
        }
        i = i + 1;
    }
    proof {
        if i < v@.len() {
            lemma_seq_lt_total(old_views[i as int], x@);
        }
    }
    if i < v.len() {
        let cur = chars_of(v[i].as_str());
        if chars_eq(&cur, &xv) {
            assert(views(v@).to_set().insert(x@) =~= views(v@).to_set()) by {
                assert(views(v@)[i as int] == x@);
            }
            return;
        }
    }
    proof {
        if i < old_views.len() {
            lemma_seq_lt_total(old_views[i as int], x@);
            assert(seq_lt(x@, old_views[i as int]));
        }
    }
    v.insert(i, x);
    proof {
        let nv = views(v@);
        assert(nv =~= old_views.insert(i as int, x@));
        assert forall|k: int| i < k < nv.len() implies seq_lt(x@, #[trigger] nv[k]) by {
            if k > i + 1 {
                lemma_seq_lt_transitive(x@, old_views[i as int], old_views[k - 1]);
            }
        }
        assert forall|a: int, b: int| 0 <= a < b < nv.len() implies seq_lt(nv[a], nv[b]) by {
            if b < i {
            } else if b == i {
            } else if a < i {
                assert(seq_lt(x@, nv[b]));
                lemma_seq_lt_transitive(nv[a], x@, nv[b]);
            } else if a == i {
            } else {
            }
        }
        assert(nv.to_set() =~= old_views.to_set().insert(x@)) by {
            assert forall|e: Seq<char>| nv.to_set().contains(e) implies old_views.to_set().insert(
                x@,
            ).contains(e) by {
                let k = choose|k: int| 0 <= k < nv.len() && nv[k] == e;
                if k < i {
                    assert(old_views[k] == e);
                } else if k > i {
                    assert(old_views[k - 1] == e);
                }
            }
            assert forall|e: Seq<char>| old_views.to_set().insert(x@).contains(e) implies nv.to_set().contains(
                e,
            ) by {
                if e == x@ {
                    assert(nv[i as int] == e);
                } else {
                    let k = choose|k: int| 0 <= k < old_views.len() && old_views[k] == e;
                    if k < i {
                        assert(nv[k] == e);
                    } else {
                        assert(nv[k + 1] == e);
                    }
                }
            }
        }
    }
}


// ---------------------------------------------------------------------------
// Building text
// ---------------------------------------------------------------------------
/// `parts` joined with `sep` between consecutive parts (`[T]::join`).
pub open spec fn join(parts: Seq<Seq<char>>, sep: Seq<char>) -> Seq<char>
    decreases parts.len(),
{
    if parts.len() == 0 {
        Seq::empty()
    } else if parts.len() == 1 {
        parts[0]
    } else {
        join(parts.drop_last(), sep) + sep + parts.last()
    }
}

/// Appends characters.
pub fn append_chars(v: &mut Vec<char>, s: &[char])
    ensures
        final(v)@ == old(v)@ + s@,
{
    let ghost start = v@;
    let mut i: usize = 0;
    while i < s.len()
        invariant
            i <= s@.len(),
            v@ == start + s@.take(i as int),
        decreases s@.len() - i,
    {
        v.push(s[i]);
        assert(s@.take(i + 1) =~= s@.take(i as int).push(s@[i as int]));
        assert(v@ =~= start + s@.take(i + 1));
        i = i + 1;
    }
    assert(s@.take(s@.len() as int) =~= s@);
}

/// Appends the characters of a string slice.
pub fn append_str(v: &mut Vec<char>, s: &str)
    ensures
        final(v)@ == old(v)@ + s@,
{
    let c = chars_of(s);
    append_chars(v, &c);
}

/// Appends `parts` joined with `sep`.
pub fn append_joined(out: &mut Vec<char>, parts: &[String], sep: &str)
    ensures
        final(out)@ == old(out)@ + join(views(parts@), sep@),
{
    let ghost start = out@;
    let mut i: usize = 0;
    while i < parts.len()
        invariant
            i <= parts@.len(),
            out@ == start + join(views(parts@).take(i as int), sep@),
        decreases parts@.len() - i,
    {
        assert(views(parts@).take(i + 1).drop_last() =~= views(parts@).take(i as int));
        if i > 0 {
            append_str(out, sep);
        } else {
            assert(join(views(parts@).take(0), sep@) =~= Seq::<char>::empty());
        }
        append_str(out, parts[i].as_str());
        proof {
            if i == 0 {
                assert(out@ =~= start + views(parts@).take(1)[0]);
            } else {
                assert(out@ =~= start + join(views(parts@).take(i + 1), sep@));
            }
        }
        i = i + 1;
    }
    assert(views(parts@).take(parts@.len() as int) =~= views(parts@));
}

/// Joins character sequences with a separator.
pub fn join_chars(parts: &Vec<Vec<char>>, sep: &str) -> (r: Vec<char>)
    ensures
        r@ == join(parts@.map_values(|p: Vec<char>| p@), sep@),
{
    let ghost ps = parts@.map_values(|p: Vec<char>| p@);
    let mut out: Vec<char> = Vec::new();
    let mut i: usize = 0;
    while i < parts.len()
        invariant
            i <= parts@.len(),
            ps == parts@.map_values(|p: Vec<char>| p@),
            out@ == join(ps.take(i as int), sep@),
        decreases parts@.len() - i,
    {
        assert(ps.take(i + 1).drop_last() =~= ps.take(i as int));
        if i > 0 {
            append_str(&mut out, sep);
        } else {
            assert(out@ =~= Seq::<char>::empty());
        }
        append_chars(&mut out, &parts[i]);
        proof {
            if i == 0 {
                assert(out@ =~= ps.take(1)[0]);
            }
        }
        i = i + 1;
    }
    assert(ps.take(ps.len() as int) =~= ps);
    out
}


// ---------------------------------------------------------------------------
// Numbers as text
// ---------------------------------------------------------------------------
/// The decimal digit character for `d` (0..9).
pub open spec fn digit_char(d: nat) -> char {
    (48 + d) as char
}

/// Decimal representation of a natural number (no leading zeros).
pub open spec fn dec_text(n: nat) -> Seq<char>
    decreases n,
{
    if n < 10 {
        seq![digit_char(n)]
    } else {
        dec_text(n / 10).push(digit_char(n % 10))
    }
}

/// Decimal representation of an integer (`-` before negative numbers), as `Display` prints it.
pub open spec fn int_text(i: int) -> Seq<char> {
    if i < 0 {
        seq!['-'] + dec_text((-i) as nat)
    } else {
        dec_text(i as nat)
    }
}

/// Appends the decimal digits of `n`.
pub fn push_u64(out: &mut Vec<char>, n: u64)
    ensures
        final(out)@ == old(out)@ + dec_text(n as nat),
    decreases n,
{
    if n >= 10 {
        push_u64(out, n / 10);
    }
    let d = (n % 10) as u32;
    let c = char_from_ascii(48 + d);
    out.push(c);
    proof {
        if n < 10 {
            assert(old(out)@ + dec_text(n as nat) =~= old(out)@.push(digit_char(n as nat)));
        }
    }
}

/// Appends the decimal text of `i` (as `Display` prints an `i64`).
pub fn push_i64(out: &mut Vec<char>, i: i64)
    ensures
        final(out)@ == old(out)@ + int_text(i as int),
{
    if i < 0 {
        out.push('-');
        let m = (0i128 - (i as i128)) as u64;
        let ghost mid = out@;
        push_u64(out, m);
        assert(out@ =~= old(out)@ + int_text(i as int));
    } else {
        push_u64(out, i as u64);
    }
}

// ---------------------------------------------------------------------------
// Paths
// ---------------------------------------------------------------------------
/// Joining a path to a directory (`Path::join` on Unix): an absolute path
/// replaces the directory; a relative one stands alone under an empty
/// directory, and follows it with one `/` between them otherwise (none
/// added after a trailing `/`).
pub open spec fn joined(dir: Seq<char>, rel: Seq<char>) -> Seq<char> {
    if rel.len() > 0 && rel[0] == '/' {
        rel
    } else if dir.len() == 0 {
        rel
    } else if dir.last() == '/' {
        dir + rel
    } else {
        dir + seq!['/'] + rel
    }
}

/// `dir` joined with `rel` (see `joined`).
pub fn join_path(dir: &str, rel: &str) -> (r: String)
    ensures
        r@ == joined(dir@, rel@),
{
    let r = chars_of(rel);
    if r.len() > 0 && r[0] == '/' {
        return string_of(&r);
    }
    let mut v = chars_of(dir);
    if v.len() > 0 && v[v.len() - 1] != '/' {
        v.push('/');
    }
    append_str(&mut v, rel);
    string_of(&v)
}

} // verus!
