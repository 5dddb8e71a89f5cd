//! The message pipeline around the language model: prompts for the parser
//! and clarifier, the handling of the model's raw text (the JSON body it
//! carries, text shortened for messages), the pipeline's decisions, and the
//! board views it serves.
pub mod board;
pub mod clarify;
pub mod pipeline;
pub mod prompt;
pub mod state;

use vstd::prelude::*;

use crate::parser::rule_parser::{byte_at, byte_len, utf8_len};
use crate::text::{chars_of, ends_with, occurs_at, matches_at, slice_chars, starts_with, string_of, trim, trim_chars};

verus! {

// ---------------------------------------------------------------------------
// The JSON body of a reply
// ---------------------------------------------------------------------------
/// `s` with every leading copy of `p` removed (`str::trim_start_matches`).
pub open spec fn strip_prefixes(s: Seq<char>, p: Seq<char>) -> Seq<char>
    decreases s.len(),
{
    if p.len() > 0 && starts_with(s, p) {
        strip_prefixes(s.skip(p.len() as int), p)
    } else {
        s
    }
}

/// `s` with every trailing copy of `p` removed (`str::trim_end_matches`).
pub open spec fn strip_suffixes(s: Seq<char>, p: Seq<char>) -> Seq<char>
    decreases s.len(),
{
    if p.len() > 0 && ends_with(s, p) {
        strip_suffixes(s.take(s.len() - p.len()), p)
    } else {
        s
    }
}

/// Index of the first `c` in `s`, or -1.
pub open spec fn first_index(s: Seq<char>, c: char) -> int
    decreases s.len(),
{
    if s.len() == 0 {
        -1
    } else if s[0] == c {
        0
    } else if first_index(s.drop_first(), c) >= 0 {
        first_index(s.drop_first(), c) + 1
    } else {
        -1
    }
}

/// Index of the last `c` in `s`, or -1.
pub open spec fn last_index(s: Seq<char>, c: char) -> int
    decreases s.len(),
{
    if s.len() == 0 {
        -1
    } else if s.last() == c {
        s.len() - 1
    } else {
        last_index(s.drop_last(), c)
    }
}

/// The reply without surrounding whitespace and Markdown code fences.
pub open spec fn unfenced(raw: Seq<char>) -> Seq<char> {
    trim(
        strip_suffixes(
            strip_prefixes(strip_prefixes(trim(raw), "```json"@), "```"@),
            "```"@,
        ),
    )
}

/// The JSON body of a reply: from the first `{` to the last `}` of the
/// unfenced text when the last comes after the first, else the unfenced text.
pub open spec fn json_body(raw: Seq<char>) -> Seq<char> {
    let t = unfenced(raw);
    let a = first_index(t, '{');
    let b = last_index(t, '}');
    if a >= 0 && b >= 0 && b > a {
        t.subrange(a, b + 1)
    } else {
        t
    }
}

/// `strip_prefixes` on characters.
pub(crate) fn strip_prefix_chars(s: Vec<char>, p: &[char]) -> (r: Vec<char>)
    ensures
        r@ == strip_prefixes(s@, p@),
{
    if p.len() == 0 {
        return s;
    }
    let mut i: usize = 0;
    assert(s@.skip(0) =~= s@);
    while matches_at(&s, p, i)
        invariant
            p@.len() > 0,
            i <= s@.len(),
            strip_prefixes(s@, p@) == strip_prefixes(s@.skip(i as int), p@),
        decreases s@.len() - i,
    {
        assert(occurs_at(s@, p@, i as int));
        assert(i + p@.len() <= s.len());
        proof {
            let t = s@.skip(i as int);
            assert(t.subrange(0, p@.len() as int) =~= s@.subrange(i as int, i + p@.len()));
            assert(t.skip(p@.len() as int) =~= s@.skip(i + p@.len()));
        }
        i = i + p.len();
    }
    proof {
        let t = s@.skip(i as int);
        if starts_with(t, p@) {
            assert(s@.subrange(i as int, i + p@.len()) =~= t.subrange(0, p@.len() as int));
        }
    }
    slice_chars(&s, i, s.len())
}

/// `strip_suffixes` on characters.
fn strip_suffix_chars(s: Vec<char>, p: &[char]) -> (r: Vec<char>)
    ensures
        r@ == strip_suffixes(s@, p@),
{
    if p.len() == 0 {
        return s;
    }
    let mut e: usize = s.len();
    assert(s@.take(e as int) =~= s@);
    while e >= p.len() && matches_at(&s, p, e - p.len())
        invariant
            p@.len() > 0,
            e <= s@.len(),
            strip_suffixes(s@, p@) == strip_suffixes(s@.take(e as int), p@),
        decreases e,
    {
        proof {
            let t = s@.take(e as int);
            assert(t.subrange(t.len() - p@.len(), t.len() as int) =~= s@.subrange(
                e - p@.len(),
                e as int,
            ));
            assert(t.take(t.len() - p@.len()) =~= s@.take(e - p@.len()));
        }
        e = e - p.len();
    }
    proof {
        let t = s@.take(e as int);
        if ends_with(t, p@) {
            assert(s@.subrange(e - p@.len(), e as int) =~= t.subrange(
                t.len() - p@.len(),
                t.len() as int,
            ));
        }
    }
    slice_chars(&s, 0, e)
}

proof fn lemma_first_index(s: Seq<char>, c: char, i: int)
    requires
        0 <= i <= s.len(),
        forall|j: int| 0 <= j < i ==> s[j] != c,
    ensures
        i < s.len() && s[i] == c ==> first_index(s, c) == i,
        i == s.len() ==> first_index(s, c) == -1,
    decreases i,
{
    if i > 0 {
        lemma_first_index(s.drop_first(), c, i - 1);
    } else if s.len() > 0 {
        let _ = first_index(s.drop_first(), c);
    }
}

proof fn lemma_last_index(s: Seq<char>, c: char, e: int)
    requires
        0 <= e <= s.len(),
        forall|j: int| e <= j < s.len() ==> s[j] != c,
    ensures
        last_index(s, c) == last_index(s.take(e), c),
    decreases s.len() - e,
{
    if e < s.len() {
        assert(s.drop_last().take(e) =~= s.take(e));
        lemma_last_index(s.drop_last(), c, e);
    } else {
        assert(s.take(e) =~= s);
    }
}

/// Index of the first `c`.
pub(crate) fn find_char(s: &[char], c: char) -> (r: Option<usize>)
    ensures
        match r {
            Some(i) => first_index(s@, c) == i && i < s@.len(),
            None => first_index(s@, c) == -1,
        },
{
    let mut i: usize = 0;
    while i < s.len()
        invariant
            i <= s@.len(),
            forall|j: int| 0 <= j < i ==> s@[j] != c,
        decreases s@.len() - i,
    {
        if s[i] == c {
            proof {
                lemma_first_index(s@, c, i as int);
            }
            return Some(i);
        }
        i = i + 1;
    }
    proof {
        lemma_first_index(s@, c, i as int);
    }
    None
}

/// Index of the last `c`.
fn rfind_char(s: &[char], c: char) -> (r: Option<usize>)
    ensures
        match r {
            Some(i) => last_index(s@, c) == i && i < s@.len(),
            None => last_index(s@, c) == -1,
        },
{
    let mut e: usize = s.len();
    while e > 0
        invariant
            e <= s@.len(),
            forall|j: int| e <= j < s@.len() ==> s@[j] != c,
        decreases e,
    {
        if s[e - 1] == c {
            proof {
                lemma_last_index(s@, c, e as int);
                assert(s@.take(e as int).last() == c);
            }
            return Some(e - 1);
        }
        e = e - 1;
    }
    proof {
        lemma_last_index(s@, c, 0);
    }
    None
}

/// The JSON body of a model reply: surrounding whitespace and Markdown code
/// fences removed, then the text from the first `{` to the last `}`.
pub fn extract_json(raw: &str) -> (r: String)
    ensures
        r@ == json_body(raw@),
{
    let fence_json = chars_of("```json");
    let fence = chars_of("```");
    let t = trim_chars(&chars_of(raw));
    let t = strip_prefix_chars(t, &fence_json);
    let t = strip_prefix_chars(t, &fence);
    let t = strip_suffix_chars(t, &fence);
    let t = trim_chars(&t);
    match (find_char(&t, '{'), rfind_char(&t, '}')) {
        (Some(a), Some(b)) => if b > a {
            assert(b < t.len());
            string_of(&slice_chars(&t, a, b + 1))
        } else {
            string_of(&t)
        },
        _ => string_of(&t),
    }
}

// ---------------------------------------------------------------------------
// Shortened text
// ---------------------------------------------------------------------------
/// `text` cut to at most `max` UTF-8 bytes at a character boundary, followed
/// by `…`; unchanged when it already fits.
pub open spec fn shortened(text: Seq<char>, max: nat, r: Seq<char>) -> bool {
    if byte_len(text) <= max {
        r == text
    } else {
        exists|k: int|
            0 <= k < text.len() && byte_at(text, k) <= max && byte_at(text, k + 1) > max && r
                == text.take(k) + "…"@
    }
}

proof fn lemma_byte_at_step(t: Seq<char>, k: int)
    requires
        0 <= k < t.len(),
    ensures
        byte_at(t, k + 1) == byte_at(t, k) + utf8_len(t[k]),
{
    assert(t.take(k + 1).drop_last() =~= t.take(k));
}

/// The text cut to at most `max` bytes at a character boundary, with `…`
/// appended when anything was cut.
pub fn truncate(text: &str, max: usize) -> (r: String)
    ensures
        shortened(text@, max as nat, r@),
{
    let t = chars_of(text);
    let mut k: usize = 0;
    let mut acc: u128 = 0;
    assert(t@.take(0) =~= Seq::<char>::empty());
    while k < t.len() && acc + char_width(t[k]) <= max as u128
        invariant
            k <= t@.len(),
            acc == byte_at(t@, k as int),
            acc <= max,
        decreases t@.len() - k,
    {
        proof {
            lemma_byte_at_step(t@, k as int);
        }
        acc = acc + char_width(t[k]);
        k = k + 1;
    }
    if k == t.len() {
        assert(t@.take(k as int) =~= t@);
        return string_of(&t);
    }
    proof {
        lemma_byte_at_step(t@, k as int);
        lemma_byte_at_prefix(t@, k as int + 1);
    }
    let mut out = slice_chars(&t, 0, k);
    out.push('…');
    proof {
        assert(out@ =~= t@.take(k as int) + "…"@) by {
            reveal_strlit("…");
        }
    }
    string_of(&out)
}

/// UTF-8 width of a character.
fn char_width(c: char) -> (r: u128)
    ensures
        r == utf8_len(c),
{
    let u = c as u32;
    if u < 0x80 {
        1
    } else if u < 0x800 {
        2
    } else if u < 0x10000 {
        3
    } else {
        4
    }
}

/// The bytes of a prefix are at most those of the whole.
proof fn lemma_byte_at_prefix(t: Seq<char>, k: int)
    requires
        0 <= k <= t.len(),
    ensures
        byte_at(t, k) <= byte_len(t),
    decreases t.len() - k,
{
    if k < t.len() {
        lemma_byte_at_step(t, k);
        lemma_byte_at_prefix(t, k + 1);
    } else {
        assert(t.take(k) =~= t);
    }
}

} // verus!
