//! The rule-based message parser: finds mentions of catalogue items and
//! variants in a message, splits the message into one segment per mention,
//! and reads quantity, slot policy and claim type from each segment.
//!
//! Positions are character indices; where the rules measure distances or
//! lengths they do so in UTF-8 bytes, as `str` offsets would.
use vstd::prelude::*;

use crate::domain::{Item, ItemKind, ItemVariant};
use crate::parser::parsed_event::{ParsedClaimItem, ParsedIntent, ParsedMessage};
use crate::text::{
    chars_eq, chars_of, contains, contains_any, contains_chars, contains_str, find_from,
    has_digit, is_digit, is_ws, occurs_at, opt_view, views, slice_chars, string_of, trim, trim_chars, trim_end,
};

verus! {

// ---------------------------------------------------------------------------
// Text normalization and byte lengths
// ---------------------------------------------------------------------------
/// Full-width digits and Latin letters, `＋ ， ： （ ）` and the ideographic
/// space folded to ASCII; everything else unchanged.
pub open spec fn rule_char(c: char) -> char {
    let u = c as u32;
    if 0xFF10 <= u <= 0xFF19 || 0xFF21 <= u <= 0xFF3A || 0xFF41 <= u <= 0xFF5A {
        ((u - 0xFEE0) as u32) as char
    } else if c == '＋' {
        '+'
    } else if c == '，' {
        ','
    } else if c == '：' {
        ':'
    } else if c == '（' {
        '('
    } else if c == '）' {
        ')'
    } else if c == '　' {
        ' '
    } else {
        c
    }
}

/// `rule_char` applied to every character.
pub open spec fn rule_norm(s: Seq<char>) -> Seq<char> {
    s.map_values(|c: char| rule_char(c))
}

/// Number of bytes of `c` in UTF-8.
pub open spec fn utf8_len(c: char) -> nat {
    let u = c as u32;
    if u < 0x80 {
        1
    } else if u < 0x800 {
        2
    } else if u < 0x10000 {
        3
    } else {
        4
    }
}

/// Number of bytes of `s` in UTF-8.
pub open spec fn byte_len(s: Seq<char>) -> nat
    decreases s.len(),
{
    if s.len() == 0 {
        0
    } else {
        byte_len(s.drop_last()) + utf8_len(s.last())
    }
}

/// Byte offset of character position `k` of `t`.
pub open spec fn byte_at(t: Seq<char>, k: int) -> nat {
    byte_len(t.take(k))
}

proof fn lemma_byte_len_bounds(s: Seq<char>)
    ensures
        s.len() <= byte_len(s) <= 4 * s.len(),
    decreases s.len(),
{
    if s.len() > 0 {
        lemma_byte_len_bounds(s.drop_last());
    }
}

/// Byte offsets grow strictly with character positions.
proof fn lemma_byte_at_mono(t: Seq<char>, j: int, k: int)
    requires
        0 <= j <= k <= t.len(),
    ensures
        byte_at(t, j) + (k - j) <= byte_at(t, k),
    decreases k - j,
{
    if j < k {
        lemma_byte_at_mono(t, j, k - 1);
        assert(t.take(k).drop_last() =~= t.take(k - 1));
    }
}

/// The byte length of `t[a..b]` is the difference of the byte offsets.
proof fn lemma_byte_len_sub(t: Seq<char>, a: int, b: int)
    requires
        0 <= a <= b <= t.len(),
    ensures
        byte_len(t.subrange(a, b)) == byte_at(t, b) - byte_at(t, a),
    decreases b - a,
{
    if a < b {
        lemma_byte_len_sub(t, a, b - 1);
        assert(t.subrange(a, b).drop_last() =~= t.subrange(a, b - 1));
        assert(t.take(b).drop_last() =~= t.take(b - 1));
    } else {
        assert(t.subrange(a, b) =~= Seq::<char>::empty());
    }
}

/// Folds one character.
fn fold_char(c: char) -> (r: char)
    ensures
        r == rule_char(c),
{
    let u = c as u32;
    if (0xFF10 <= u && u <= 0xFF19) || (0xFF21 <= u && u <= 0xFF3A) || (0xFF41 <= u && u
        <= 0xFF5A) {
        crate::text::char_from_ascii(u - 0xFEE0)
    } else if c == '＋' {
        '+'
    } else if c == '，' {
        ','
    } else if c == '：' {
        ':'
    } else if c == '（' {
        '('
    } else if c == '）' {
        ')'
    } else if c == '　' {
        ' '
    } else {
        c
    }
}

/// `rule_norm` on characters.
fn normalize_chars(v: &[char]) -> (r: Vec<char>)
    ensures
        r@ == rule_norm(v@),
{
    let mut out: Vec<char> = Vec::new();
    let mut i: usize = 0;
    while i < v.len()
        invariant
            i <= v@.len(),
            out@ == rule_norm(v@.take(i as int)),
        decreases v@.len() - i,
    {
        out.push(fold_char(v[i]));
        assert(rule_norm(v@.take(i + 1)) =~= rule_norm(v@.take(i as int)).push(
            rule_char(v@[i as int]),
        ));
        i = i + 1;
    }
    assert(v@.take(v@.len() as int) =~= v@);
    out
}

/// `rule_norm` of a string slice.
fn normalize_str(s: &str) -> (r: Vec<char>)
    ensures
        r@ == rule_norm(s@),
{
    let v = chars_of(s);
    normalize_chars(&v)
}

/// UTF-8 length of one character.
fn char_bytes(c: char) -> (r: u128)
    ensures
        r == utf8_len(c),
{
    let u = c as u32;
    if u < 0x80 {
        1
    } else if u < 0x800 {
        2
    } else if u < 0x10000 {
        3
    } else {
        4
    }
}

/// `off` holds the byte offset of every character position of `t`, and of its end.
pub open spec fn offsets_of(off: Seq<u128>, t: Seq<char>) -> bool {
    off.len() == t.len() + 1 && forall|k: int|
        0 <= k <= t.len() ==> #[trigger] off[k] == byte_at(t, k) && off[k] <= 4 * k
}

/// The byte offset of every character position of `t`, and of its end.
fn byte_offsets(t: &[char]) -> (r: Vec<u128>)
    ensures
        offsets_of(r@, t@),
{
    let mut out: Vec<u128> = Vec::new();
    out.push(0);
    assert(t@.take(0) =~= Seq::<char>::empty());
    let mut i: usize = 0;
    while i < t.len()
        invariant
            i <= t@.len(),
            out@.len() == i + 1,
            forall|k: int| 0 <= k <= i ==> #[trigger] out@[k] == byte_at(t@, k) && out@[k] <= 4 * k,
        decreases t@.len() - i,
    {
        assert(t@.take(i + 1).drop_last() =~= t@.take(i as int));
        let b = out[i] + char_bytes(t[i]);
        out.push(b);
        i = i + 1;
    }
    out
}

// ---------------------------------------------------------------------------
// Mentions
// ---------------------------------------------------------------------------
/// A mention of a catalogue item (or one of its variants) in the message:
/// the item's index in the catalogue, the variant, and the character range.
pub struct Mention {
    pub item_idx: usize,
    pub variant_id: Option<String>,
    pub start: usize,
    pub end: usize,
}

/// Both mentions name the same item and variant.
pub open spec fn same_target(a: Mention, b: Mention) -> bool {
    a.item_idx == b.item_idx && opt_view(a.variant_id) == opt_view(b.variant_id)
}

/// Start positions of the non-overlapping occurrences of `tok` in `t` found
/// scanning left to right from `from`.
pub open spec fn occs(t: Seq<char>, tok: Seq<char>, from: int) -> Seq<int>
    decreases t.len() - from,
{
    if tok.len() == 0 || from < 0 || from + tok.len() > t.len() {
        Seq::empty()
    } else if occurs_at(t, tok, from) {
        seq![from] + occs(t, tok, from + tok.len())
    } else {
        occs(t, tok, from + 1)
    }
}

/// The mention of item `idx` (variant `vid`) over `[p, p + len)`.
pub open spec fn mention_at(idx: usize, vid: Option<String>, p: int, len: int) -> Mention {
    Mention { item_idx: idx, variant_id: vid, start: p as usize, end: (p + len) as usize }
}

/// The mentions of one token.
pub open spec fn tok_mentions(t: Seq<char>, idx: usize, vid: Option<String>, tok: Seq<char>) -> Seq<
    Mention,
> {
    occs(t, tok, 0).map_values(|p: int| mention_at(idx, vid, p, tok.len() as int))
}

/// The mentions of several tokens, token by token.
pub open spec fn toks_mentions(
    t: Seq<char>,
    idx: usize,
    vid: Option<String>,
    toks: Seq<Seq<char>>,
) -> Seq<Mention>
    decreases toks.len(),
{
    if toks.len() == 0 {
        Seq::empty()
    } else {
        toks_mentions(t, idx, vid, toks.drop_last()) + tok_mentions(t, idx, vid, toks.last())
    }
}

/// Normalized forms of strings.
pub open spec fn norm_all(v: Seq<String>) -> Seq<Seq<char>> {
    v.map_values(|a: String| rule_norm(a@))
}

/// The tokens that mention an item: its name, then its aliases.
pub open spec fn item_tokens(item: Item) -> Seq<Seq<char>> {
    seq![rule_norm(item.name@)] + norm_all(item.aliases@)
}

/// The tokens that mention a variant: its name, then its aliases.
pub open spec fn variant_tokens(v: ItemVariant) -> Seq<Seq<char>> {
    seq![rule_norm(v.name@)] + norm_all(v.aliases@)
}

/// Item mentions of the first `n` catalogue items.
pub open spec fn item_mentions_upto(t: Seq<char>, items: Seq<Item>, n: int) -> Seq<Mention>
    decreases n,
{
    if n <= 0 {
        Seq::empty()
    } else {
        item_mentions_upto(t, items, n - 1) + toks_mentions(
            t,
            (n - 1) as usize,
            None,
            item_tokens(items[n - 1]),
        )
    }
}

/// Variant mentions of one variant, each with the variant's normalized name.
pub open spec fn variant_pairs(t: Seq<char>, idx: usize, v: ItemVariant) -> Seq<(Mention, Seq<char>)> {
    toks_mentions(t, idx, Some(v.variant_id), variant_tokens(v)).map_values(
        |m: Mention| (m, rule_norm(v.name@)),
    )
}

/// Variant mentions of the first `n` variants of item `idx`.
pub open spec fn item_variant_pairs(t: Seq<char>, idx: usize, vs: Seq<ItemVariant>, n: int) -> Seq<
    (Mention, Seq<char>),
>
    decreases n,
{
    if n <= 0 {
        Seq::empty()
    } else {
        item_variant_pairs(t, idx, vs, n - 1) + variant_pairs(t, idx, vs[n - 1])
    }
}

/// Variant mentions of the first `n` catalogue items.
pub open spec fn variant_pairs_upto(t: Seq<char>, items: Seq<Item>, n: int) -> Seq<
    (Mention, Seq<char>),
>
    decreases n,
{
    if n <= 0 {
        Seq::empty()
    } else {
        variant_pairs_upto(t, items, n - 1) + item_variant_pairs(
            t,
            (n - 1) as usize,
            items[n - 1].variants@,
            items[n - 1].variants@.len() as int,
        )
    }
}

proof fn lemma_occs_skip(t: Seq<char>, tok: Seq<char>, from: int, p: int)
    requires
        tok.len() > 0,
        0 <= from <= p,
        forall|j: int| from <= j < p ==> !occurs_at(t, tok, j),
    ensures
        occs(t, tok, from) == occs(t, tok, p),
    decreases p - from,
{
    if from < p {
        lemma_occs_skip(t, tok, from + 1, p);
    }
}

proof fn lemma_occs_none(t: Seq<char>, tok: Seq<char>, from: int)
    requires
        tok.len() > 0,
        0 <= from,
        forall|j: int| from <= j ==> !occurs_at(t, tok, j),
    ensures
        occs(t, tok, from) == Seq::<int>::empty(),
    decreases t.len() - from,
{
    if from + tok.len() <= t.len() {
        lemma_occs_none(t, tok, from + 1);
    }
}

/// Appends the mentions of `tok` in `t`.
fn collect_token_mentions(
    all: &mut Vec<Mention>,
    text: &[char],
    item_idx: usize,
    variant_id: &Option<String>,
    tok: &[char],
)
    ensures
        final(all)@ == old(all)@ + tok_mentions(text@, item_idx, *variant_id, tok@),
{
    let ghost start = all@;
    let ghost ps = occs(text@, tok@, 0);
    let ghost mk = |p: int| mention_at(item_idx, *variant_id, p, tok@.len() as int);
    if tok.len() == 0 {
        assert(ps =~= Seq::<int>::empty());
        assert(all@ =~= start + tok_mentions(text@, item_idx, *variant_id, tok@));
        return;
    }
    let mut from: usize = 0;
    let ghost mut done: Seq<int> = Seq::empty();
    while from <= text.len()
        invariant_except_break
            from <= text@.len(),
            tok@.len() > 0,
            ps == occs(text@, tok@, 0),
            ps == done + occs(text@, tok@, from as int),
            all@ == start + done.map_values(mk),
            mk == (|p: int| mention_at(item_idx, *variant_id, p, tok@.len() as int)),
        ensures
            all@ == start + ps.map_values(mk),
        decreases text@.len() + 1 - from,
    {
        match find_from(text, tok, from) {
            Some(pos) => {
                proof {
                    lemma_occs_skip(text@, tok@, from as int, pos as int);
                }
                let end = pos + tok.len();
                all.push(
                    Mention {
                        item_idx,
                        variant_id: crate::text::clone_opt(variant_id),
                        start: pos,
                        end,
                    },
                );
                proof {
                    let old_done = done;
                    done = done.push(pos as int);
                    assert(done.map_values(mk) =~= old_done.map_values(mk).push(mk(pos as int)));
                    assert(mk(pos as int) == all@.last());
                    assert(all@ =~= start + done.map_values(mk));
                    assert(ps =~= done + occs(text@, tok@, end as int));
                }
                from = end;
                if from >= text.len() {
                    proof {
                        assert(occs(text@, tok@, end as int) =~= Seq::<int>::empty());
                        assert(ps =~= done);
                    }
                    break;
                }
            },
            None => {
                proof {
                    lemma_occs_none(text@, tok@, from as int);
                    assert(ps =~= done);
                }
                break;
            },
        }
    }
    assert(all@ =~= start + tok_mentions(text@, item_idx, *variant_id, tok@));
}

/// Appends the mentions of a name and its aliases (all normalized).
fn collect_name_mentions(
    all: &mut Vec<Mention>,
    text: &[char],
    item_idx: usize,
    variant_id: &Option<String>,
    name: &str,
    aliases: &Vec<String>,
)
    ensures
        final(all)@ == old(all)@ + toks_mentions(
            text@,
            item_idx,
            *variant_id,
            seq![rule_norm(name@)] + norm_all(aliases@),
        ),
{
    let ghost toks = seq![rule_norm(name@)] + norm_all(aliases@);
    let ghost start = all@;
    let n = normalize_str(name);
    collect_token_mentions(all, text, item_idx, variant_id, &n);
    assert(toks.take(1).drop_last() =~= Seq::<Seq<char>>::empty());
    assert(toks.take(1).last() == n@);
    assert(toks_mentions(text@, item_idx, *variant_id, Seq::<Seq<char>>::empty()) =~= Seq::<Mention>::empty());
    assert(all@ =~= start + toks_mentions(text@, item_idx, *variant_id, toks.take(1)));
    let mut k: usize = 0;
    while k < aliases.len()
        invariant
            k <= aliases@.len(),
            toks == seq![rule_norm(name@)] + norm_all(aliases@),
            all@ == start + toks_mentions(text@, item_idx, *variant_id, toks.take(k + 1)),
        decreases aliases@.len() - k,
    {
        let a = normalize_str(aliases[k].as_str());
        let ghost before = all@;
        collect_token_mentions(all, text, item_idx, variant_id, &a);
        assert(toks.take(k + 2).drop_last() =~= toks.take(k + 1));
        assert(toks.take(k + 2).last() == a@);
        assert(all@ =~= start + toks_mentions(text@, item_idx, *variant_id, toks.take(k + 2)));
        k = k + 1;
    }
    assert(toks.take(aliases@.len() + 1 as int) =~= toks);
}

/// Item mentions of every catalogue item, item by item, token by token.
fn gather_item_mentions(text: &[char], items: &[Item]) -> (r: Vec<Mention>)
    ensures
        r@ == item_mentions_upto(text@, items@, items@.len() as int),
{
    let mut out: Vec<Mention> = Vec::new();
    let mut i: usize = 0;
    while i < items.len()
        invariant
            i <= items@.len(),
            out@ == item_mentions_upto(text@, items@, i as int),
        decreases items@.len() - i,
    {
        let item = &items[i];
        collect_name_mentions(&mut out, text, i, &None, item.name.as_str(), &item.aliases);
        i = i + 1;
    }
    out
}

/// The view of variant-mention pairs.
pub open spec fn pair_views(v: Seq<(Mention, Vec<char>)>) -> Seq<(Mention, Seq<char>)> {
    v.map_values(|x: (Mention, Vec<char>)| (x.0, x.1@))
}

/// Variant mentions of every variant of every catalogue item, each with the
/// variant's normalized name.
fn gather_variant_pairs(text: &[char], items: &[Item]) -> (r: Vec<(Mention, Vec<char>)>)
    ensures
        pair_views(r@) == variant_pairs_upto(text@, items@, items@.len() as int),
{
    let mut out: Vec<(Mention, Vec<char>)> = Vec::new();
    let mut i: usize = 0;
    while i < items.len()
        invariant
            i <= items@.len(),
            pair_views(out@) == variant_pairs_upto(text@, items@, i as int),
        decreases items@.len() - i,
    {
        let vs = &items[i].variants;
        let ghost base = pair_views(out@);
        let mut j: usize = 0;
        while j < vs.len()
            invariant
                i < items@.len(),
                vs@ == items@[i as int].variants@,
                j <= vs@.len(),
                base == variant_pairs_upto(text@, items@, i as int),
                pair_views(out@) == base + item_variant_pairs(text@, i, vs@, j as int),
            decreases vs@.len() - j,
        {
            let v = &vs[j];
            let vname = normalize_str(v.name.as_str());
            let vid = Some(v.variant_id.clone());
            let mut tmp: Vec<Mention> = Vec::new();
            collect_name_mentions(&mut tmp, text, i, &vid, v.name.as_str(), &v.aliases);
            assert(tmp@ =~= toks_mentions(text@, i, Some(v.variant_id), variant_tokens(*v)));
            let ghost prev = pair_views(out@);
            let mut k: usize = 0;
            while k < tmp.len()
                invariant
                    k <= tmp@.len(),
                    vname@ == rule_norm(v.name@),
                    pair_views(out@) == prev + tmp@.take(k as int).map_values(
                        |m: Mention| (m, rule_norm(v.name@)),
                    ),
                decreases tmp@.len() - k,
            {
                let m = &tmp[k];
                let mc = Mention {
                    item_idx: m.item_idx,
                    variant_id: crate::text::clone_opt(&m.variant_id),
                    start: m.start,
                    end: m.end,
                };
                let ghost before = out@;
                out.push((mc, vname.clone()));
                assert(tmp@.take(k + 1) =~= tmp@.take(k as int).push(tmp@[k as int]));
                assert(pair_views(out@) =~= pair_views(before).push((tmp@[k as int], vname@)));
                assert(pair_views(out@) =~= prev + tmp@.take(k + 1).map_values(
                    |m: Mention| (m, rule_norm(v.name@)),
                ));
                k = k + 1;
            }
            assert(tmp@.take(tmp@.len() as int) =~= tmp@);
            assert(pair_views(out@) =~= base + item_variant_pairs(text@, i, vs@, j + 1));
            j = j + 1;
        }
        i = i + 1;
    }
    out
}

// ---------------------------------------------------------------------------
// Positions stay inside the text
// ---------------------------------------------------------------------------
/// The mention names a catalogue item and lies inside a text of length `len`.
pub open spec fn placed(m: Mention, n_items: int, len: int) -> bool {
    m.item_idx < n_items && m.start <= m.end <= len
}

/// Every mention of `ms` is `placed`.
pub open spec fn all_placed(ms: Seq<Mention>, n_items: int, len: int) -> bool {
    forall|k: int| 0 <= k < ms.len() ==> placed(#[trigger] ms[k], n_items, len)
}

proof fn lemma_occs_in_range(t: Seq<char>, tok: Seq<char>, from: int)
    requires
        0 <= from,
    ensures
        forall|k: int|
            0 <= k < occs(t, tok, from).len() ==> from <= #[trigger] occs(t, tok, from)[k] && occs(
                t,
                tok,
                from,
            )[k] + tok.len() <= t.len(),
    decreases t.len() - from,
{
    if tok.len() == 0 || from + tok.len() > t.len() {
    } else if occurs_at(t, tok, from) {
        lemma_occs_in_range(t, tok, from + tok.len());
        let rest = occs(t, tok, from + tok.len());
        assert forall|k: int| 0 <= k < occs(t, tok, from).len() implies from <= #[trigger] occs(
            t,
            tok,
            from,
        )[k] && occs(t, tok, from)[k] + tok.len() <= t.len() by {
            if k > 0 {
                assert(occs(t, tok, from)[k] == rest[k - 1]);
            }
        }
    } else {
        lemma_occs_in_range(t, tok, from + 1);
        assert(occs(t, tok, from) == occs(t, tok, from + 1));
        assert forall|k: int| 0 <= k < occs(t, tok, from).len() implies from <= #[trigger] occs(
            t,
            tok,
            from,
        )[k] && occs(t, tok, from)[k] + tok.len() <= t.len() by {
            assert(occs(t, tok, from)[k] == occs(t, tok, from + 1)[k]);
        }
    }
}

proof fn lemma_toks_placed(t: Seq<char>, idx: usize, vid: Option<String>, toks: Seq<Seq<char>>, n: int)
    requires
        idx < n,
        t.len() <= usize::MAX,
    ensures
        all_placed(toks_mentions(t, idx, vid, toks), n, t.len() as int),
    decreases toks.len(),
{
    if toks.len() > 0 {
        lemma_toks_placed(t, idx, vid, toks.drop_last(), n);
        lemma_occs_in_range(t, toks.last(), 0);
        let a = toks_mentions(t, idx, vid, toks.drop_last());
        let b = tok_mentions(t, idx, vid, toks.last());
        assert forall|k: int| 0 <= k < (a + b).len() implies placed(
            #[trigger] (a + b)[k],
            n,
            t.len() as int,
        ) by {
            if k >= a.len() {
                assert((a + b)[k] == b[k - a.len()]);
                let j = k - a.len();
                let p = occs(t, toks.last(), 0)[j];
                assert(b[j] == mention_at(idx, vid, p, toks.last().len() as int));
            }
        }
    }
}

proof fn lemma_item_mentions_placed(t: Seq<char>, items: Seq<Item>, n: int)
    requires
        n <= items.len(),
        t.len() <= usize::MAX,
    ensures
        all_placed(item_mentions_upto(t, items, n), items.len() as int, t.len() as int),
    decreases n,
{
    if n > 0 {
        lemma_item_mentions_placed(t, items, n - 1);
        lemma_toks_placed(t, (n - 1) as usize, None, item_tokens(items[n - 1]), items.len() as int);
        let a = item_mentions_upto(t, items, n - 1);
        let b = toks_mentions(t, (n - 1) as usize, None, item_tokens(items[n - 1]));
        assert forall|k: int| 0 <= k < (a + b).len() implies placed(
            #[trigger] (a + b)[k],
            items.len() as int,
            t.len() as int,
        ) by {
            if k >= a.len() {
                assert((a + b)[k] == b[k - a.len()]);
            }
        }
    }
}

/// Every variant mention of the pairs is `placed`.
pub open spec fn pairs_placed(ps: Seq<(Mention, Seq<char>)>, n_items: int, len: int) -> bool {
    forall|k: int| 0 <= k < ps.len() ==> placed(#[trigger] ps[k].0, n_items, len)
}

proof fn lemma_variant_pairs_placed(t: Seq<char>, items: Seq<Item>, n: int)
    requires
        n <= items.len(),
        t.len() <= usize::MAX,
    ensures
        pairs_placed(variant_pairs_upto(t, items, n), items.len() as int, t.len() as int),
    decreases n,
{
    if n > 0 {
        lemma_variant_pairs_placed(t, items, n - 1);
        let vs = items[n - 1].variants@;
        lemma_item_variant_pairs_placed(t, (n - 1) as usize, vs, vs.len() as int, items.len() as int);
        let a = variant_pairs_upto(t, items, n - 1);
        let b = item_variant_pairs(t, (n - 1) as usize, vs, vs.len() as int);
        assert forall|k: int| 0 <= k < (a + b).len() implies placed(
            #[trigger] (a + b)[k].0,
            items.len() as int,
            t.len() as int,
        ) by {
            if k >= a.len() {
                assert((a + b)[k] == b[k - a.len()]);
            }
        }
    }
}

proof fn lemma_item_variant_pairs_placed(
    t: Seq<char>,
    idx: usize,
    vs: Seq<ItemVariant>,
    n: int,
    n_items: int,
)
    requires
        idx < n_items,
        n <= vs.len(),
        t.len() <= usize::MAX,
    ensures
        pairs_placed(item_variant_pairs(t, idx, vs, n), n_items, t.len() as int),
    decreases n,
{
    if n > 0 {
        lemma_item_variant_pairs_placed(t, idx, vs, n - 1, n_items);
        let v = vs[n - 1];
        lemma_toks_placed(t, idx, Some(v.variant_id), variant_tokens(v), n_items);
        let a = item_variant_pairs(t, idx, vs, n - 1);
        let b = variant_pairs(t, idx, v);
        assert forall|k: int| 0 <= k < (a + b).len() implies placed(
            #[trigger] (a + b)[k].0,
            n_items,
            t.len() as int,
        ) by {
            if k >= a.len() {
                assert((a + b)[k] == b[k - a.len()]);
            }
        }
    }
}

// ---------------------------------------------------------------------------
// Binding a variant mention to the item mentioned next to it
// ---------------------------------------------------------------------------
/// Among item mentions starting at or after the variant mention ends, the
/// first with the smallest byte gap, if that gap is at most 6 bytes:
/// `(gap, item)`, or `(usize::MAX, None)`.
pub open spec fn pick_after(t: Seq<char>, ims: Seq<Mention>, vm: Mention) -> (int, Option<usize>)
    decreases ims.len(),
{
    if ims.len() == 0 {
        (usize::MAX as int, None)
    } else {
        let (best, ch) = pick_after(t, ims.drop_last(), vm);
        let im = ims.last();
        let gap = byte_at(t, im.start as int) - byte_at(t, vm.end as int);
        if byte_at(t, im.start as int) >= byte_at(t, vm.end as int) && gap <= 6 && gap < best {
            (gap, Some(im.item_idx))
        } else {
            (best, ch)
        }
    }
}

/// Among item mentions ending at or before the variant mention starts, the
/// first with the smallest byte gap, if that gap is at most 6 bytes.
pub open spec fn pick_before(t: Seq<char>, ims: Seq<Mention>, vm: Mention) -> (int, Option<usize>)
    decreases ims.len(),
{
    if ims.len() == 0 {
        (usize::MAX as int, None)
    } else {
        let (best, ch) = pick_before(t, ims.drop_last(), vm);
        let im = ims.last();
        let gap = byte_at(t, vm.start as int) - byte_at(t, im.end as int);
        if byte_at(t, im.end as int) <= byte_at(t, vm.start as int) && gap <= 6 && gap < best {
            (gap, Some(im.item_idx))
        } else {
            (best, ch)
        }
    }
}

/// Byte position of the middle of a mention (rounded down).
pub open spec fn center(t: Seq<char>, m: Mention) -> int {
    ((byte_at(t, m.start as int) + byte_at(t, m.end as int)) / 2) as int
}

/// Distance between two integers.
pub open spec fn dist(a: int, b: int) -> int {
    if a >= b {
        a - b
    } else {
        b - a
    }
}

/// The first item mention whose center is nearest the variant mention's center.
pub open spec fn pick_nearest(t: Seq<char>, ims: Seq<Mention>, vm: Mention) -> (
    Option<int>,
    Option<usize>,
)
    decreases ims.len(),
{
    if ims.len() == 0 {
        (None, None)
    } else {
        let (best, ch) = pick_nearest(t, ims.drop_last(), vm);
        let im = ims.last();
        let d = dist(center(t, im), center(t, vm));
        if best is None || d < best.unwrap() {
            (Some(d), Some(im.item_idx))
        } else {
            (best, ch)
        }
    }
}

/// The item a variant mention is bound to: the item mentioned right after
/// it, else right before it (within 6 bytes), else the nearest one.
pub open spec fn chosen_item(t: Seq<char>, ims: Seq<Mention>, vm: Mention) -> Option<usize> {
    if pick_after(t, ims, vm).1 is Some {
        pick_after(t, ims, vm).1
    } else if pick_before(t, ims, vm).1 is Some {
        pick_before(t, ims, vm).1
    } else {
        pick_nearest(t, ims, vm).1
    }
}

/// Index of the first variant whose normalized name is `vname`, or -1.
pub open spec fn variant_by_name(vs: Seq<ItemVariant>, vname: Seq<char>) -> int
    decreases vs.len(),
{
    if vs.len() == 0 {
        -1
    } else if variant_by_name(vs.drop_last(), vname) >= 0 {
        variant_by_name(vs.drop_last(), vname)
    } else if rule_norm(vs.last().name@) == vname {
        vs.len() - 1
    } else {
        -1
    }
}

/// The variant mention after binding: when some item is mentioned, it moves
/// to the chosen item's variant of the same (normalized) name, if that item
/// has one; otherwise it stays as found.
pub open spec fn bind(t: Seq<char>, items: Seq<Item>, ims: Seq<Mention>, p: (Mention, Seq<char>)) -> Mention {
    let vm = p.0;
    match chosen_item(t, ims, vm) {
        Some(ti) => {
            let vs = items[ti as int].variants@;
            let j = variant_by_name(vs, p.1);
            if j >= 0 {
                Mention {
                    item_idx: ti,
                    variant_id: Some(vs[j].variant_id),
                    start: vm.start,
                    end: vm.end,
                }
            } else {
                vm
            }
        },
        None => vm,
    }
}

proof fn lemma_pick_after_bounds(t: Seq<char>, ims: Seq<Mention>, vm: Mention, n_items: int)
    requires
        all_placed(ims, n_items, t.len() as int),
    ensures
        pick_after(t, ims, vm).1 matches Some(i) ==> i < n_items,
        pick_after(t, ims, vm).0 <= usize::MAX,
    decreases ims.len(),
{
    if ims.len() > 0 {
        lemma_pick_after_bounds(t, ims.drop_last(), vm, n_items);
        assert(placed(ims[ims.len() - 1], n_items, t.len() as int));
    }
}

proof fn lemma_pick_before_bounds(t: Seq<char>, ims: Seq<Mention>, vm: Mention, n_items: int)
    requires
        all_placed(ims, n_items, t.len() as int),
    ensures
        pick_before(t, ims, vm).1 matches Some(i) ==> i < n_items,
        pick_before(t, ims, vm).0 <= usize::MAX,
    decreases ims.len(),
{
    if ims.len() > 0 {
        lemma_pick_before_bounds(t, ims.drop_last(), vm, n_items);
        assert(placed(ims[ims.len() - 1], n_items, t.len() as int));
    }
}

proof fn lemma_pick_nearest_bounds(t: Seq<char>, ims: Seq<Mention>, vm: Mention, n_items: int)
    requires
        all_placed(ims, n_items, t.len() as int),
    ensures
        pick_nearest(t, ims, vm).1 matches Some(i) ==> i < n_items,
        ims.len() > 0 ==> pick_nearest(t, ims, vm).1 is Some,
        (pick_nearest(t, ims, vm).0 is Some) == (pick_nearest(t, ims, vm).1 is Some),
    decreases ims.len(),
{
    if ims.len() > 0 {
        lemma_pick_nearest_bounds(t, ims.drop_last(), vm, n_items);
        assert(placed(ims[ims.len() - 1], n_items, t.len() as int));
    }
}

proof fn lemma_variant_by_name_bounds(vs: Seq<ItemVariant>, vname: Seq<char>)
    ensures
        -1 <= variant_by_name(vs, vname) < vs.len(),
    decreases vs.len(),
{
    if vs.len() > 0 {
        lemma_variant_by_name_bounds(vs.drop_last(), vname);
    }
}

/// Absolute difference of two byte positions.
fn abs_diff(a: u128, b: u128) -> (r: u128)
    ensures
        r == dist(a as int, b as int),
{
    if a >= b {
        a - b
    } else {
        b - a
    }
}

/// Binds one variant mention (see `bind`).
fn bind_mention(
    off: &Vec<u128>,
    text: &[char],
    items: &[Item],
    ims: &Vec<Mention>,
    vm: &Mention,
    vname: &Vec<char>,
) -> (r: Mention)
    requires
        offsets_of(off@, text@),
        all_placed(ims@, items@.len() as int, text@.len() as int),
        placed(*vm, items@.len() as int, text@.len() as int),
    ensures
        r == bind(text@, items@, ims@, (*vm, vname@)),
        placed(r, items@.len() as int, text@.len() as int),
{
    proof {
        lemma_pick_after_bounds(text@, ims@, *vm, items@.len() as int);
        lemma_pick_before_bounds(text@, ims@, *vm, items@.len() as int);
        lemma_pick_nearest_bounds(text@, ims@, *vm, items@.len() as int);
    }
    let vs_b = off[vm.start];
    let ve_b = off[vm.end];
    // Item mentioned right after the variant.
    let mut best_gap: u128 = usize::MAX as u128;
    let mut chosen: Option<usize> = None;
    let mut i: usize = 0;
    while i < ims.len()
        invariant
            i <= ims@.len(),
            offsets_of(off@, text@),
            all_placed(ims@, items@.len() as int, text@.len() as int),
            ve_b == byte_at(text@, vm.end as int),
            (best_gap as int, chosen) == pick_after(text@, ims@.take(i as int), *vm),
        decreases ims@.len() - i,
    {
        assert(ims@.take(i + 1).drop_last() =~= ims@.take(i as int));
        let im = &ims[i];
        assert(placed(ims@[i as int], items@.len() as int, text@.len() as int));
        let s = off[im.start];
        if s >= ve_b {
            let gap = s - ve_b;
            if gap <= 6 && gap < best_gap {
                best_gap = gap;
                chosen = Some(im.item_idx);
            }
        }
        i = i + 1;
    }
    assert(ims@.take(ims@.len() as int) =~= ims@);
    if chosen.is_none() {
        let mut best_gap: u128 = usize::MAX as u128;
        let mut i: usize = 0;
        while i < ims.len()
            invariant
                i <= ims@.len(),
                offsets_of(off@, text@),
                all_placed(ims@, items@.len() as int, text@.len() as int),
                vs_b == byte_at(text@, vm.start as int),
                (best_gap as int, chosen) == pick_before(text@, ims@.take(i as int), *vm),
            decreases ims@.len() - i,
        {
            assert(ims@.take(i + 1).drop_last() =~= ims@.take(i as int));
            let im = &ims[i];
            assert(placed(ims@[i as int], items@.len() as int, text@.len() as int));
            let e = off[im.end];
            if e <= vs_b {
                let gap = vs_b - e;
                if gap <= 6 && gap < best_gap {
                    best_gap = gap;
                    chosen = Some(im.item_idx);
                }
            }
            i = i + 1;
        }
    }
    if chosen.is_none() {
        let vc = (vs_b + ve_b) / 2;
        let mut best_d: Option<u128> = None;
        let mut i: usize = 0;
        while i < ims.len()
            invariant
                i <= ims@.len(),
                offsets_of(off@, text@),
                all_placed(ims@, items@.len() as int, text@.len() as int),
                vc == center(text@, *vm),
                (match best_d {
                    Some(d) => Some(d as int),
                    None => None,
                }, chosen) == pick_nearest(text@, ims@.take(i as int), *vm),
            decreases ims@.len() - i,
        {
            assert(ims@.take(i + 1).drop_last() =~= ims@.take(i as int));
            let im = &ims[i];
            assert(placed(ims@[i as int], items@.len() as int, text@.len() as int));
            let ic = (off[im.start] + off[im.end]) / 2;
            let d = abs_diff(ic, vc);
            let better = match best_d {
                None => true,
                Some(b) => d < b,
            };
            if better {
                best_d = Some(d);
                chosen = Some(im.item_idx);
            }
            i = i + 1;
        }
    }
    let unchanged = Mention {
        item_idx: vm.item_idx,
        variant_id: crate::text::clone_opt(&vm.variant_id),
        start: vm.start,
        end: vm.end,
    };
    match chosen {
        Some(ti) => {
            let vs = &items[ti].variants;
            let mut j: usize = 0;
            let mut found: Option<usize> = None;
            while j < vs.len()
                invariant
                    j <= vs@.len(),
                    found == (if variant_by_name(vs@.take(j as int), vname@) >= 0 {
                        Some(variant_by_name(vs@.take(j as int), vname@) as usize)
                    } else {
                        None::<usize>
                    }),
                    variant_by_name(vs@.take(j as int), vname@) < j,
                decreases vs@.len() - j,
            {
                assert(vs@.take(j + 1).drop_last() =~= vs@.take(j as int));
                if found.is_none() {
                    let nm = normalize_str(vs[j].name.as_str());
                    if chars_eq(&nm, vname) {
                        found = Some(j);
                    }
                }
                j = j + 1;
            }
            assert(vs@.take(vs@.len() as int) =~= vs@);
            match found {
                Some(k) => Mention {
                    item_idx: ti,
                    variant_id: Some(vs[k].variant_id.clone()),
                    start: vm.start,
                    end: vm.end,
                },
                None => unchanged,
            }
        },
        None => unchanged,
    }
}

// ---------------------------------------------------------------------------
// From mentions found to the mentions a message claims
// ---------------------------------------------------------------------------
/// A gap that still reads as a qualifier: at most 24 bytes, no digit.
pub open spec fn gap_ok(g: Seq<char>) -> bool {
    byte_len(g) <= 24 && !has_digit(g)
}

/// Item mention `a` and variant mention `b` overlap, or the text between
/// them is a qualifier gap.
pub open spec fn sep_gap(t: Seq<char>, a: Mention, b: Mention) -> bool {
    if a.end <= b.start {
        gap_ok(t.subrange(a.end as int, b.start as int))
    } else if b.end <= a.start {
        gap_ok(t.subrange(b.end as int, a.start as int))
    } else {
        true
    }
}

/// The item mention merely qualifies an adjacent mention of one of its own variants.
pub open spec fn qualifies(t: Seq<char>, im: Mention, vms: Seq<Mention>) -> bool {
    exists|k: int| 0 <= k < vms.len() && vms[k].item_idx == im.item_idx && sep_gap(t, im, #[trigger] vms[k])
}

/// `a` comes before `b`: it starts earlier, or starts together and ends later.
pub open spec fn comes_before(a: Mention, b: Mention) -> bool {
    a.start < b.start || (a.start == b.start && a.end > b.end)
}

/// Where `x` enters a sorted list: after every entry it does not come before.
pub open spec fn mention_pos(s: Seq<Mention>, x: Mention) -> int
    decreases s.len(),
{
    if s.len() == 0 {
        0
    } else if comes_before(x, s[0]) {
        0
    } else {
        1 + mention_pos(s.drop_first(), x)
    }
}

/// Stable sort by start, longer first on equal starts.
pub open spec fn sort_mentions(s: Seq<Mention>) -> Seq<Mention>
    decreases s.len(),
{
    if s.len() == 0 {
        Seq::empty()
    } else {
        let t = sort_mentions(s.drop_last());
        t.insert(mention_pos(t, s.last()), s.last())
    }
}

/// Byte length of a mention.
pub open spec fn mention_bytes(t: Seq<char>, m: Mention) -> int {
    byte_at(t, m.end as int) - byte_at(t, m.start as int)
}

/// `m` with its end moved to `end`.
pub open spec fn with_end(m: Mention, end: usize) -> Mention {
    Mention { item_idx: m.item_idx, variant_id: m.variant_id, start: m.start, end: end }
}

/// One step of merging overlapping mentions: an overlapping mention of the
/// same target extends the last one; of another target it replaces the last
/// one when longer (in bytes); a touching mention of the same target extends
/// it; anything else is appended.
pub open spec fn merge_step(t: Seq<char>, acc: Seq<Mention>, m: Mention) -> Seq<Mention> {
    if acc.len() > 0 && m.start < acc.last().end {
        let last = acc.last();
        if same_target(m, last) {
            if m.end > last.end {
                acc.update(acc.len() - 1, with_end(last, m.end))
            } else {
                acc
            }
        } else if mention_bytes(t, m) > mention_bytes(t, last) {
            acc.update(acc.len() - 1, m)
        } else {
            acc
        }
    } else if acc.len() > 0 && same_target(m, acc.last()) && m.start == acc.last().end {
        acc.update(acc.len() - 1, with_end(acc.last(), m.end))
    } else {
        acc.push(m)
    }
}

/// Merging a sorted list of mentions.
pub open spec fn merged(t: Seq<char>, s: Seq<Mention>) -> Seq<Mention>
    decreases s.len(),
{
    if s.len() == 0 {
        Seq::empty()
    } else {
        merge_step(t, merged(t, s.drop_last()), s.last())
    }
}

/// One step of joining repeated mentions: a later mention of the same target
/// separated by text without digits extends the last one.
pub open spec fn join_step(t: Seq<char>, acc: Seq<Mention>, m: Mention) -> Seq<Mention> {
    if acc.len() > 0 && same_target(acc.last(), m) && m.start >= acc.last().end && !has_digit(
        t.subrange(acc.last().end as int, m.start as int),
    ) {
        acc.update(acc.len() - 1, with_end(acc.last(), m.end))
    } else {
        acc.push(m)
    }
}

/// Joining repeated mentions.
pub open spec fn joined(t: Seq<char>, s: Seq<Mention>) -> Seq<Mention>
    decreases s.len(),
{
    if s.len() == 0 {
        Seq::empty()
    } else {
        join_step(t, joined(t, s.drop_last()), s.last())
    }
}

/// The mentions a message makes of the catalogue, in order: item and variant
/// mentions, variants bound to the item mentioned beside them, item mentions
/// that only qualify one of their own variants dropped, then sorted, merged
/// and joined.
pub open spec fn mentions_of(t: Seq<char>, items: Seq<Item>) -> Seq<Mention> {
    let ims = item_mentions_upto(t, items, items.len() as int);
    let pairs = variant_pairs_upto(t, items, items.len() as int);
    let vms = pairs.map_values(|p: (Mention, Seq<char>)| bind(t, items, ims, p));
    let kept = ims.filter(|im: Mention| !qualifies(t, im, vms));
    joined(t, merged(t, sort_mentions(kept + vms)))
}

/// A copy of a mention.
fn copy_mention(m: &Mention) -> (r: Mention)
    ensures
        r == *m,
{
    Mention {
        item_idx: m.item_idx,
        variant_id: crate::text::clone_opt(&m.variant_id),
        start: m.start,
        end: m.end,
    }
}

/// Whether two mentions name the same item and variant.
fn same_target_of(a: &Mention, b: &Mention) -> (r: bool)
    ensures
        r == same_target(*a, *b),
{
    if a.item_idx != b.item_idx {
        return false;
    }
    match (&a.variant_id, &b.variant_id) {
        (None, None) => true,
        (Some(x), Some(y)) => crate::text::str_eq(x.as_str(), y.as_str()),
        _ => false,
    }
}

/// Whether `text[a..b]` holds a digit.
fn digit_between(text: &[char], a: usize, b: usize) -> (r: bool)
    requires
        a <= b <= text@.len(),
    ensures
        r == has_digit(text@.subrange(a as int, b as int)),
{
    let mut i: usize = a;
    while i < b
        invariant
            a <= i <= b <= text@.len(),
            forall|j: int| a <= j < i ==> !is_digit(#[trigger] text@[j]),
        decreases b - i,
    {
        if crate::text::is_ascii_digit(text[i]) {
            assert(is_digit(text@.subrange(a as int, b as int)[i - a]));
            return true;
        }
        i = i + 1;
    }
    assert forall|j: int| 0 <= j < b - a implies !is_digit(
        #[trigger] text@.subrange(a as int, b as int)[j],
    ) by {
        assert(text@.subrange(a as int, b as int)[j] == text@[a + j]);
    }
    false
}

/// Whether `text[a..b]` is a qualifier gap.
fn gap_ok_between(off: &Vec<u128>, text: &[char], a: usize, b: usize) -> (r: bool)
    requires
        offsets_of(off@, text@),
        a <= b <= text@.len(),
    ensures
        r == gap_ok(text@.subrange(a as int, b as int)),
{
    proof {
        lemma_byte_len_sub(text@, a as int, b as int);
    }
    off[b] - off[a] <= 24 && !digit_between(text, a, b)
}

/// `sep_gap` for an item mention and a variant mention.
fn sep_gap_of(off: &Vec<u128>, text: &[char], a: &Mention, b: &Mention) -> (r: bool)
    requires
        offsets_of(off@, text@),
        a.start <= a.end <= text@.len(),
        b.start <= b.end <= text@.len(),
    ensures
        r == sep_gap(text@, *a, *b),
{
    if a.end <= b.start {
        gap_ok_between(off, text, a.end, b.start)
    } else if b.end <= a.start {
        gap_ok_between(off, text, b.end, a.start)
    } else {
        true
    }
}

/// Drops the item mentions that only qualify one of their own variants.
fn drop_qualifiers(off: &Vec<u128>, text: &[char], ims: &Vec<Mention>, vms: &Vec<Mention>) -> (r:
    Vec<Mention>)
    requires
        offsets_of(off@, text@),
        all_placed(ims@, usize::MAX as int, text@.len() as int),
        all_placed(vms@, usize::MAX as int, text@.len() as int),
    ensures
        r@ == ims@.filter(|im: Mention| !qualifies(text@, im, vms@)),
{
    let mut out: Vec<Mention> = Vec::new();
    let mut i: usize = 0;
    while i < ims.len()
        invariant
            i <= ims@.len(),
            offsets_of(off@, text@),
            all_placed(ims@, usize::MAX as int, text@.len() as int),
            all_placed(vms@, usize::MAX as int, text@.len() as int),
            out@ == ims@.take(i as int).filter(|im: Mention| !qualifies(text@, im, vms@)),
        decreases ims@.len() - i,
    {
        let im = &ims[i];
        assert(placed(ims@[i as int], usize::MAX as int, text@.len() as int));
        let mut q = false;
        let mut j: usize = 0;
        while j < vms.len()
            invariant
                j <= vms@.len(),
                i < ims@.len(),
                *im == ims@[i as int],
                offsets_of(off@, text@),
                placed(*im, usize::MAX as int, text@.len() as int),
                all_placed(vms@, usize::MAX as int, text@.len() as int),
                !q ==> forall|k: int|
                    0 <= k < j ==> !(vms@[k].item_idx == im.item_idx && sep_gap(
                        text@,
                        *im,
                        #[trigger] vms@[k],
                    )),
                q ==> qualifies(text@, *im, vms@),
            decreases vms@.len() - j,
        {
            let vm = &vms[j];
            assert(placed(vms@[j as int], usize::MAX as int, text@.len() as int));
            if !q && vm.item_idx == im.item_idx && sep_gap_of(off, text, im, vm) {
                q = true;
            }
            j = j + 1;
        }
        assert(ims@.take(i + 1).drop_last() =~= ims@.take(i as int));
        proof {
            reveal_with_fuel(Seq::<_>::filter, 1);
        }
        if !q {
            out.push(copy_mention(im));
        }
        assert(out@ =~= ims@.take(i + 1).filter(|im: Mention| !qualifies(text@, im, vms@)));
        i = i + 1;
    }
    assert(ims@.take(ims@.len() as int) =~= ims@);
    out
}

/// Inserts a mention at `mention_pos`.
fn insert_mention(v: &mut Vec<Mention>, x: Mention)
    ensures
        final(v)@ == old(v)@.insert(mention_pos(old(v)@, x), x),
{
    let ghost s = v@;
    let mut i: usize = 0;
    assert(s.skip(0) =~= s);
    while i < v.len() && !(x.start < v[i].start || (x.start == v[i].start && x.end > v[i].end))
        invariant
            i <= v@.len(),
            v@ == s,
            mention_pos(s, x) == i + mention_pos(s.skip(i as int), x),
        decreases v@.len() - i,
    {
        assert(s.skip(i as int)[0] == s[i as int]);
        assert(s.skip(i as int).drop_first() =~= s.skip(i + 1));
        i = i + 1;
    }
    proof {
        if i < s.len() {
            assert(s.skip(i as int)[0] == s[i as int]);
        }
    }
    v.insert(i, x);
}

/// Stable sort of mentions (`sort_mentions`).
fn sort_mentions_exec(c: Vec<Mention>) -> (r: Vec<Mention>)
    ensures
        r@ == sort_mentions(c@),
{
    let mut out: Vec<Mention> = Vec::new();
    let mut i: usize = 0;
    while i < c.len()
        invariant
            i <= c@.len(),
            out@ == sort_mentions(c@.take(i as int)),
        decreases c@.len() - i,
    {
        assert(c@.take(i + 1).drop_last() =~= c@.take(i as int));
        assert(c@.take(i + 1).last() == c@[i as int]);
        insert_mention(&mut out, copy_mention(&c[i]));
        i = i + 1;
    }
    assert(c@.take(c@.len() as int) =~= c@);
    out
}

proof fn lemma_mention_pos_bounds(s: Seq<Mention>, x: Mention)
    ensures
        0 <= mention_pos(s, x) <= s.len(),
    decreases s.len(),
{
    if s.len() > 0 {
        lemma_mention_pos_bounds(s.drop_first(), x);
    }
}

proof fn lemma_sort_placed(s: Seq<Mention>, n: int, len: int)
    requires
        all_placed(s, n, len),
    ensures
        all_placed(sort_mentions(s), n, len),
        sort_mentions(s).len() == s.len(),
    decreases s.len(),
{
    if s.len() > 0 {
        lemma_sort_placed(s.drop_last(), n, len);
        let t = sort_mentions(s.drop_last());
        lemma_mention_pos_bounds(t, s.last());
        let p = mention_pos(t, s.last());
        assert(placed(s[s.len() - 1], n, len));
        assert forall|k: int| 0 <= k < t.insert(p, s.last()).len() implies placed(
            #[trigger] t.insert(p, s.last())[k],
            n,
            len,
        ) by {
            if k < p {
                assert(t.insert(p, s.last())[k] == t[k]);
            } else if k > p {
                assert(t.insert(p, s.last())[k] == t[k - 1]);
            }
        }
    }
}

/// Merges a sorted list of placed mentions (`merged`).
fn merge_mentions(off: &Vec<u128>, text: &[char], all: &Vec<Mention>) -> (r: Vec<Mention>)
    requires
        offsets_of(off@, text@),
        all_placed(all@, usize::MAX as int, text@.len() as int),
    ensures
        r@ == merged(text@, all@),
        all_placed(r@, usize::MAX as int, text@.len() as int),
{
    let mut out: Vec<Mention> = Vec::new();
    let mut i: usize = 0;
    while i < all.len()
        invariant
            i <= all@.len(),
            offsets_of(off@, text@),
            all_placed(all@, usize::MAX as int, text@.len() as int),
            all_placed(out@, usize::MAX as int, text@.len() as int),
            out@ == merged(text@, all@.take(i as int)),
        decreases all@.len() - i,
    {
        assert(all@.take(i + 1).drop_last() =~= all@.take(i as int));
        assert(all@.take(i + 1).last() == all@[i as int]);
        let m = &all[i];
        assert(placed(all@[i as int], usize::MAX as int, text@.len() as int));
        let n = out.len();
        if n > 0 && m.start < out[n - 1].end {
            assert(placed(out@[n - 1], usize::MAX as int, text@.len() as int));
            let last = copy_mention(&out[n - 1]);
            if same_target_of(m, &last) {
                if m.end > last.end {
                    out.set(n - 1, Mention { item_idx: last.item_idx, variant_id: last.variant_id, start: last.start, end: m.end });
                }
            } else if {
                proof {
                    lemma_byte_at_mono(text@, m.start as int, m.end as int);
                    lemma_byte_at_mono(text@, last.start as int, last.end as int);
                }
                off[m.end] - off[m.start] > off[last.end] - off[last.start]
            } {
                out.set(n - 1, copy_mention(m));
            }
        } else if n > 0 && same_target_of(m, &out[n - 1]) && m.start == out[n - 1].end {
            let last = copy_mention(&out[n - 1]);
            out.set(n - 1, Mention { item_idx: last.item_idx, variant_id: last.variant_id, start: last.start, end: m.end });
        } else {
            out.push(copy_mention(m));
        }
        assert forall|k: int| 0 <= k < out@.len() implies placed(
            #[trigger] out@[k],
            usize::MAX as int,
            text@.len() as int,
        ) by {}
        i = i + 1;
    }
    assert(all@.take(all@.len() as int) =~= all@);
    out
}

/// Joins repeated mentions of one target (`joined`).
fn join_mentions(text: &[char], all: &Vec<Mention>) -> (r: Vec<Mention>)
    requires
        all_placed(all@, usize::MAX as int, text@.len() as int),
    ensures
        r@ == joined(text@, all@),
{
    let mut out: Vec<Mention> = Vec::new();
    let mut i: usize = 0;
    while i < all.len()
        invariant
            i <= all@.len(),
            all_placed(all@, usize::MAX as int, text@.len() as int),
            all_placed(out@, usize::MAX as int, text@.len() as int),
            out@ == joined(text@, all@.take(i as int)),
        decreases all@.len() - i,
    {
        assert(all@.take(i + 1).drop_last() =~= all@.take(i as int));
        assert(all@.take(i + 1).last() == all@[i as int]);
        let m = &all[i];
        assert(placed(all@[i as int], usize::MAX as int, text@.len() as int));
        let n = out.len();
        let extend = n > 0 && same_target_of(&out[n - 1], m) && m.start >= out[n - 1].end
            && !digit_between(text, out[n - 1].end, m.start);
        if extend {
            let last = copy_mention(&out[n - 1]);
            out.set(n - 1, Mention { item_idx: last.item_idx, variant_id: last.variant_id, start: last.start, end: m.end });
        } else {
            out.push(copy_mention(m));
        }
        assert forall|k: int| 0 <= k < out@.len() implies placed(
            #[trigger] out@[k],
            usize::MAX as int,
            text@.len() as int,
        ) by {}
        i = i + 1;
    }
    assert(all@.take(all@.len() as int) =~= all@);
    out
}

proof fn lemma_merged_placed(t: Seq<char>, s: Seq<Mention>, n: int)
    requires
        all_placed(s, n, t.len() as int),
    ensures
        all_placed(merged(t, s), n, t.len() as int),
    decreases s.len(),
{
    if s.len() > 0 {
        lemma_merged_placed(t, s.drop_last(), n);
        assert(placed(s[s.len() - 1], n, t.len() as int));
        let acc = merged(t, s.drop_last());
        let r = merge_step(t, acc, s.last());
        assert forall|k: int| 0 <= k < r.len() implies placed(#[trigger] r[k], n, t.len() as int) by {
            if k < acc.len() {
                assert(placed(acc[k], n, t.len() as int));
            }
        }
    }
}

proof fn lemma_joined_placed(t: Seq<char>, s: Seq<Mention>, n: int)
    requires
        all_placed(s, n, t.len() as int),
    ensures
        all_placed(joined(t, s), n, t.len() as int),
    decreases s.len(),
{
    if s.len() > 0 {
        lemma_joined_placed(t, s.drop_last(), n);
        assert(placed(s[s.len() - 1], n, t.len() as int));
        let acc = joined(t, s.drop_last());
        let r = join_step(t, acc, s.last());
        assert forall|k: int| 0 <= k < r.len() implies placed(#[trigger] r[k], n, t.len() as int) by {
            if k < acc.len() {
                assert(placed(acc[k], n, t.len() as int));
            }
        }
    }
}

/// The mentions a message makes of the catalogue (see `mentions_of`).
fn find_mentions(text: &[char], items: &[Item]) -> (r: Vec<Mention>)
    ensures
        r@ == mentions_of(text@, items@),
        all_placed(r@, items@.len() as int, text@.len() as int),
{
    let off = byte_offsets(text);
    let ims = gather_item_mentions(text, items);
    let pairs = gather_variant_pairs(text, items);
    let ghost n = items@.len() as int;
    let ghost ps = pair_views(pairs@);
    let _tl = text.len();
    let _il = items.len();
    proof {
        lemma_item_mentions_placed(text@, items@, n);
        lemma_variant_pairs_placed(text@, items@, n);
    }
    let mut vms: Vec<Mention> = Vec::new();
    let mut k: usize = 0;
    while k < pairs.len()
        invariant
            k <= pairs@.len(),
            offsets_of(off@, text@),
            n == items@.len(),
            ps == pair_views(pairs@),
            ps == variant_pairs_upto(text@, items@, n),
            ims@ == item_mentions_upto(text@, items@, n),
            all_placed(ims@, n, text@.len() as int),
            pairs_placed(ps, n, text@.len() as int),
            all_placed(vms@, n, text@.len() as int),
            vms@ == ps.take(k as int).map_values(
                |p: (Mention, Seq<char>)| bind(text@, items@, ims@, p),
            ),
        decreases pairs@.len() - k,
    {
        assert(ps[k as int] == (pairs@[k as int].0, pairs@[k as int].1@));
        assert(placed(ps[k as int].0, n, text@.len() as int));
        let b = bind_mention(&off, text, items, &ims, &pairs[k].0, &pairs[k].1);
        let ghost before = vms@;
        vms.push(b);
        assert(ps.take(k + 1) =~= ps.take(k as int).push(ps[k as int]));
        assert(vms@ =~= ps.take(k + 1).map_values(
            |p: (Mention, Seq<char>)| bind(text@, items@, ims@, p),
        ));
        k = k + 1;
    }
    assert(ps.take(ps.len() as int) =~= ps);
    assert(all_placed(ims@, usize::MAX as int, text@.len() as int)) by {
        assert forall|q: int| 0 <= q < ims@.len() implies placed(
            #[trigger] ims@[q],
            usize::MAX as int,
            text@.len() as int,
        ) by {
            assert(placed(ims@[q], n, text@.len() as int));
        }
    }
    assert(all_placed(vms@, usize::MAX as int, text@.len() as int)) by {
        assert forall|q: int| 0 <= q < vms@.len() implies placed(
            #[trigger] vms@[q],
            usize::MAX as int,
            text@.len() as int,
        ) by {
            assert(placed(vms@[q], n, text@.len() as int));
        }
    }
    let kept = drop_qualifiers(&off, text, &ims, &vms);
    let ghost kept_s = kept@;
    proof {
        assert forall|j: int| 0 <= j < kept_s.len() implies placed(
            #[trigger] kept_s[j],
            n,
            text@.len() as int,
        ) by {
            assert(ims@.filter(|im: Mention| !qualifies(text@, im, vms@)).contains(kept_s[j]));
            ims@.lemma_filter_contains_rev(|im: Mention| !qualifies(text@, im, vms@), kept_s[j]);
            let w = choose|w: int| 0 <= w < ims@.len() && ims@[w] == kept_s[j];
            assert(placed(ims@[w], n, text@.len() as int));
        }
    }
    let mut all = kept;
    let mut j: usize = 0;
    while j < vms.len()
        invariant
            j <= vms@.len(),
            all@ == kept_s + vms@.take(j as int),
        decreases vms@.len() - j,
    {
        all.push(copy_mention(&vms[j]));
        assert(vms@.take(j + 1) =~= vms@.take(j as int).push(vms@[j as int]));
        assert(all@ =~= kept_s + vms@.take(j + 1));
        j = j + 1;
    }
    assert(vms@.take(vms@.len() as int) =~= vms@);
    assert(all_placed(all@, n, text@.len() as int)) by {
        assert forall|q: int| 0 <= q < all@.len() implies placed(
            #[trigger] all@[q],
            n,
            text@.len() as int,
        ) by {
            if q >= kept_s.len() {
                assert(all@[q] == vms@[q - kept_s.len()]);
            }
        }
    }
    let ghost all_s = all@;
    let sorted = sort_mentions_exec(all);
    proof {
        lemma_sort_placed(all_s, n, text@.len() as int);
        lemma_sort_placed(all_s, usize::MAX as int, text@.len() as int);
    }
    let m = merge_mentions(&off, text, &sorted);
    proof {
        lemma_merged_placed(text@, sorted@, n);
    }
    let r = join_mentions(text, &m);
    proof {
        lemma_joined_placed(text@, m@, n);
    }
    r
}

// ---------------------------------------------------------------------------
// Numbers in a segment
// ---------------------------------------------------------------------------
/// Decimal value of a string of ASCII digits.
pub open spec fn dec_value(s: Seq<char>) -> int
    decreases s.len(),
{
    if s.len() == 0 {
        0
    } else {
        dec_value(s.drop_last()) * 10 + (s.last() as int - '0' as int)
    }
}

/// End of the run of ASCII digits starting at `i`.
pub open spec fn digit_run_end(s: Seq<char>, i: int) -> int
    decreases s.len() - i,
{
    if 0 <= i < s.len() && is_digit(s[i]) {
        digit_run_end(s, i + 1)
    } else {
        i
    }
}

pub proof fn lemma_digit_run_end(s: Seq<char>, i: int)
    requires
        0 <= i <= s.len(),
    ensures
        i <= digit_run_end(s, i) <= s.len(),
        forall|j: int| i <= j < digit_run_end(s, i) ==> is_digit(#[trigger] s[j]),
        digit_run_end(s, i) < s.len() ==> !is_digit(s[digit_run_end(s, i)]),
        i < s.len() && is_digit(s[i]) ==> digit_run_end(s, i) > i,
    decreases s.len() - i,
{
    if i < s.len() && is_digit(s[i]) {
        lemma_digit_run_end(s, i + 1);
    }
}

/// The first `+` followed by digits whose value fits in `u32`, from `i` on.
pub open spec fn plus_number(s: Seq<char>, i: int) -> Option<u32>
    decreases s.len() - i,
{
    if i < 0 || i >= s.len() {
        None
    } else if s[i] == '+' && digit_run_end(s, i + 1) > i + 1 && dec_value(
        s.subrange(i + 1, digit_run_end(s, i + 1)),
    ) <= u32::MAX {
        Some(dec_value(s.subrange(i + 1, digit_run_end(s, i + 1))) as u32)
    } else {
        plus_number(s, i + 1)
    }
}

/// The first run of digits whose value fits in `u32`, from `i` on.
pub open spec fn arabic_number(s: Seq<char>, i: int) -> Option<u32>
    decreases s.len() - i,
{
    if i < 0 || i >= s.len() {
        None
    } else if is_digit(s[i]) {
        let j = digit_run_end(s, i);
        if dec_value(s.subrange(i, j)) <= u32::MAX {
            Some(dec_value(s.subrange(i, j)) as u32)
        } else {
            proof {
                lemma_digit_run_end(s, i);
            }
            arabic_number(s, j)
        }
    } else {
        arabic_number(s, i + 1)
    }
}

/// Value of a Chinese digit `零`..`九` (`两` is 2).
pub open spec fn cn_digit(c: char) -> Option<int> {
    if c == '零' {
        Some(0)
    } else if c == '一' {
        Some(1)
    } else if c == '二' || c == '两' {
        Some(2)
    } else if c == '三' {
        Some(3)
    } else if c == '四' {
        Some(4)
    } else if c == '五' {
        Some(5)
    } else if c == '六' {
        Some(6)
    } else if c == '七' {
        Some(7)
    } else if c == '八' {
        Some(8)
    } else if c == '九' {
        Some(9)
    } else {
        None
    }
}

/// A Chinese numeral character: a digit or `十 百 千`.
pub open spec fn is_cn_numeral(c: char) -> bool {
    cn_digit(c) is Some || c == '十' || c == '百' || c == '千'
}

/// The multiplier of `十 百 千`, 0 for other characters.
pub open spec fn cn_unit(c: char) -> int {
    if c == '十' {
        10
    } else if c == '百' {
        100
    } else if c == '千' {
        1000
    } else {
        0
    }
}

/// Reading a Chinese numeral left to right: the accumulated section and the
/// pending digit.
pub open spec fn cn_fold(s: Seq<char>) -> (int, Option<int>)
    decreases s.len(),
{
    if s.len() == 0 {
        (0, None)
    } else {
        let (sec, cur) = cn_fold(s.drop_last());
        let c = s.last();
        if cn_digit(c) is Some {
            (sec, cn_digit(c))
        } else if cn_unit(c) > 0 {
            (sec + (match cur {
                Some(d) => d,
                None => 1,
            }) * cn_unit(c), None)
        } else {
            (sec, cur)
        }
    }
}

/// Value of a Chinese numeral (`三` 3, `十二` 12, `两百` 200, `一千零五` 1005).
pub open spec fn cn_value(s: Seq<char>) -> int {
    cn_fold(s).0 + match cn_fold(s).1 {
        Some(d) => d,
        None => 0,
    }
}

/// End of the run of Chinese numerals starting at `i`.
pub open spec fn cn_run_end(s: Seq<char>, i: int) -> int
    decreases s.len() - i,
{
    if 0 <= i < s.len() && is_cn_numeral(s[i]) {
        cn_run_end(s, i + 1)
    } else {
        i
    }
}

pub proof fn lemma_cn_run_end(s: Seq<char>, i: int)
    requires
        0 <= i <= s.len(),
    ensures
        i <= cn_run_end(s, i) <= s.len(),
        forall|j: int| i <= j < cn_run_end(s, i) ==> is_cn_numeral(#[trigger] s[j]),
        i < s.len() && is_cn_numeral(s[i]) ==> cn_run_end(s, i) > i,
    decreases s.len() - i,
{
    if i < s.len() && is_cn_numeral(s[i]) {
        lemma_cn_run_end(s, i + 1);
    }
}

/// The first run of Chinese numerals whose value fits in `u32`, from `i` on.
pub open spec fn chinese_number(s: Seq<char>, i: int) -> Option<u32>
    decreases s.len() - i,
{
    if i < 0 || i >= s.len() {
        None
    } else if is_cn_numeral(s[i]) {
        let j = cn_run_end(s, i);
        if cn_value(s.subrange(i, j)) <= u32::MAX {
            Some(cn_value(s.subrange(i, j)) as u32)
        } else {
            proof {
                lemma_cn_run_end(s, i);
            }
            chinese_number(s, j)
        }
    } else {
        chinese_number(s, i + 1)
    }
}

/// Value of `s[a..b]` (ASCII digits), if it fits in `u32` (`str::parse::<u32>`).
pub(crate) fn parse_digits(s: &[char], a: usize, b: usize) -> (r: Option<u32>)
    requires
        a <= b <= s@.len(),
        forall|j: int| a <= j < b ==> is_digit(#[trigger] s@[j]),
    ensures
        match r {
            Some(v) => v == dec_value(s@.subrange(a as int, b as int)),
            None => dec_value(s@.subrange(a as int, b as int)) > u32::MAX,
        },
{
    let mut v: u32 = 0;
    let mut i: usize = a;
    while i < b
        invariant
            a <= i <= b <= s@.len(),
            forall|j: int| a <= j < b ==> is_digit(#[trigger] s@[j]),
            v == dec_value(s@.subrange(a as int, i as int)),
        decreases b - i,
    {
        assert(s@.subrange(a as int, i + 1).drop_last() =~= s@.subrange(a as int, i as int));
        assert(is_digit(s@[i as int]));
        let d = (s[i] as u32) - ('0' as u32);
        if v > 429496729 || (v == 429496729 && d > 5) {
            proof {
                lemma_dec_value_grows(s@.subrange(a as int, b as int), (i + 1 - a) as int);
                assert(s@.subrange(a as int, b as int).take(i + 1 - a) =~= s@.subrange(a as int, i + 1));
            }
            return None;
        }
        v = v * 10 + d;
        i = i + 1;
    }
    Some(v)
}

/// The value of a digit string never drops as digits are appended.
proof fn lemma_dec_value_grows(s: Seq<char>, k: int)
    requires
        0 <= k <= s.len(),
        forall|j: int| 0 <= j < s.len() ==> is_digit(#[trigger] s[j]),
    ensures
        dec_value(s.take(k)) <= dec_value(s),
    decreases s.len() - k,
{
    if k < s.len() {
        lemma_dec_value_grows(s, k + 1);
        assert(s.take(k + 1).drop_last() =~= s.take(k));
        assert(is_digit(s[k]));
        assert(dec_value(s.take(k)) >= 0) by {
            lemma_dec_value_nonneg(s.take(k));
        }
    } else {
        assert(s.take(k) =~= s);
    }
}

proof fn lemma_dec_value_nonneg(s: Seq<char>)
    requires
        forall|j: int| 0 <= j < s.len() ==> is_digit(#[trigger] s[j]),
    ensures
        dec_value(s) >= 0,
    decreases s.len(),
{
    if s.len() > 0 {
        lemma_dec_value_nonneg(s.drop_last());
        assert(is_digit(s[s.len() - 1]));
    }
}

/// End of the digit run starting at `i`.
fn digit_run(s: &[char], i: usize) -> (r: usize)
    requires
        i <= s@.len(),
    ensures
        r == digit_run_end(s@, i as int),
{
    proof {
        lemma_digit_run_end(s@, i as int);
    }
    let mut j: usize = i;
    while j < s.len() && crate::text::is_ascii_digit(s[j])
        invariant
            i <= j <= s@.len(),
            digit_run_end(s@, i as int) == digit_run_end(s@, j as int),
        decreases s@.len() - j,
    {
        j = j + 1;
    }
    j
}

/// The first `+` followed by a `u32` number (`plus_number`).
fn find_plus_number(s: &[char]) -> (r: Option<u32>)
    ensures
        r == plus_number(s@, 0),
{
    let mut i: usize = 0;
    while i < s.len()
        invariant
            i <= s@.len(),
            plus_number(s@, 0) == plus_number(s@, i as int),
        decreases s@.len() - i,
    {
        if s[i] == '+' {
            let j = digit_run(s, i + 1);
            proof {
                lemma_digit_run_end(s@, i + 1);
            }
            if j > i + 1 {
                match parse_digits(s, i + 1, j) {
                    Some(v) => {
                        return Some(v);
                    },
                    None => {},
                }
            }
        }
        i = i + 1;
    }
    None
}

/// The first `u32` run of digits (`arabic_number`).
fn find_arabic_number(s: &[char]) -> (r: Option<u32>)
    ensures
        r == arabic_number(s@, 0),
{
    let mut i: usize = 0;
    while i < s.len()
        invariant
            i <= s@.len(),
            arabic_number(s@, 0) == arabic_number(s@, i as int),
        decreases s@.len() - i,
    {
        if crate::text::is_ascii_digit(s[i]) {
            let j = digit_run(s, i);
            proof {
                lemma_digit_run_end(s@, i as int);
            }
            match parse_digits(s, i, j) {
                Some(v) => {
                    return Some(v);
                },
                None => {},
            }
            i = j;
        } else {
            i = i + 1;
        }
    }
    None
}

/// Value of a Chinese digit.
fn cn_digit_of(c: char) -> (r: Option<u32>)
    ensures
        match r {
            Some(d) => cn_digit(c) == Some(d as int),
            None => cn_digit(c) is None,
        },
{
    if c == '零' {
        Some(0)
    } else if c == '一' {
        Some(1)
    } else if c == '二' || c == '两' {
        Some(2)
    } else if c == '三' {
        Some(3)
    } else if c == '四' {
        Some(4)
    } else if c == '五' {
        Some(5)
    } else if c == '六' {
        Some(6)
    } else if c == '七' {
        Some(7)
    } else if c == '八' {
        Some(8)
    } else if c == '九' {
        Some(9)
    } else {
        None
    }
}

proof fn lemma_cn_fold_shape(s: Seq<char>)
    ensures
        cn_fold(s).0 >= 0,
        cn_fold(s).1 matches Some(d) ==> 0 <= d <= 9,
        s.len() > 0 ==> cn_fold(s.drop_last()).0 <= cn_fold(s).0,
    decreases s.len(),
{
    if s.len() > 0 {
        lemma_cn_fold_shape(s.drop_last());
    }
}

proof fn lemma_cn_fold_mono(s: Seq<char>, k: int)
    requires
        0 <= k <= s.len(),
    ensures
        cn_fold(s.take(k)).0 <= cn_fold(s).0,
        cn_fold(s).0 >= 0,
        cn_fold(s).1 matches Some(d) ==> 0 <= d <= 9,
    decreases s.len() - k,
{
    lemma_cn_fold_shape(s);
    if k < s.len() {
        lemma_cn_fold_mono(s, k + 1);
        lemma_cn_fold_shape(s.take(k + 1));
        assert(s.take(k + 1).drop_last() =~= s.take(k));
    } else {
        assert(s.take(k) =~= s);
    }
}

/// Value of a run of Chinese numerals, if it fits in `u32`.
fn eval_cn(s: &[char], a: usize, b: usize) -> (r: Option<u32>)
    requires
        a <= b <= s@.len(),
    ensures
        match r {
            Some(v) => v == cn_value(s@.subrange(a as int, b as int)),
            None => cn_value(s@.subrange(a as int, b as int)) > u32::MAX,
        },
{
    let ghost run = s@.subrange(a as int, b as int);
    proof {
        lemma_cn_fold_mono(run, run.len() as int);
    }
    let mut section: u32 = 0;
    let mut current: Option<u32> = None;
    let mut i: usize = a;
    while i < b
        invariant
            a <= i <= b <= s@.len(),
            run == s@.subrange(a as int, b as int),
            cn_fold(run).0 >= 0,
            (section as int, match current {
                Some(d) => Some(d as int),
                None => None,
            }) == cn_fold(run.take(i - a)),
        decreases b - i,
    {
        assert(run.take(i + 1 - a).drop_last() =~= run.take(i - a));
        assert(run.take(i + 1 - a).last() == s@[i as int]);
        proof {
            lemma_cn_fold_mono(run, i + 1 - a);
            lemma_cn_fold_shape(run.take(i - a));
            lemma_cn_fold_shape(run.take(i + 1 - a));
        }
        let c = s[i];
        match cn_digit_of(c) {
            Some(d) => {
                current = Some(d);
            },
            None => {
                let unit: u32 = if c == '十' {
                    10
                } else if c == '百' {
                    100
                } else if c == '千' {
                    1000
                } else {
                    0
                };
                if unit > 0 {
                    let m: u32 = match current {
                        Some(d) => d,
                        None => 1,
                    };
                    let add = m * unit;
                    if section > u32::MAX - add {
                        return None;
                    }
                    section = section + add;
                    current = None;
                }
            },
        }
        i = i + 1;
    }
    assert(run.take(b - a) =~= run);
    let d: u32 = match current {
        Some(d) => d,
        None => 0,
    };
    if section > u32::MAX - d {
        return None;
    }
    Some(section + d)
}

/// End of the run of Chinese numerals starting at `i`.
fn cn_run(s: &[char], i: usize) -> (r: usize)
    requires
        i <= s@.len(),
    ensures
        r == cn_run_end(s@, i as int),
{
    let mut j: usize = i;
    while j < s.len() && (cn_digit_of(s[j]).is_some() || s[j] == '十' || s[j] == '百' || s[j]
        == '千')
        invariant
            i <= j <= s@.len(),
            cn_run_end(s@, i as int) == cn_run_end(s@, j as int),
        decreases s@.len() - j,
    {
        j = j + 1;
    }
    j
}

/// The first Chinese numeral that fits in `u32` (`chinese_number`).
fn find_chinese_number(s: &[char]) -> (r: Option<u32>)
    ensures
        r == chinese_number(s@, 0),
{
    let mut i: usize = 0;
    while i < s.len()
        invariant
            i <= s@.len(),
            chinese_number(s@, 0) == chinese_number(s@, i as int),
        decreases s@.len() - i,
    {
        let c = s[i];
        if cn_digit_of(c).is_some() || c == '十' || c == '百' || c == '千' {
            let j = cn_run(s, i);
            proof {
                lemma_cn_run_end(s@, i as int);
            }
            match eval_cn(s, i, j) {
                Some(v) => {
                    return Some(v);
                },
                None => {},
            }
            i = j;
        } else {
            i = i + 1;
        }
    }
    None
}

// ---------------------------------------------------------------------------
// Slot policy, claim type and quantity of a segment
// ---------------------------------------------------------------------------
/// The slot policy a segment asks for: `整盒` without `包` is a whole box
/// (single-claim queue); `包盒`-style wording a full box; tail wording, or a
/// segment ending in `尾`, a locked tail; `锁列` a locked column.
pub open spec fn policy_of(s: Seq<char>) -> Seq<char> {
    if contains_any(s, seq!["整盒"@, "一整盒"@, "要整盒"@]) && !s.contains('包') {
        "WholeBox"@
    } else if contains_any(s, seq!["包盒"@, "包一盒"@, "一盒全包"@, "全包"@, "包整盒"@, "整一盒"@]) {
        "FullBox"@
    } else if contains_any(s, seq!["包尾"@, "尾巴"@, "包个尾"@, "要尾"@, "留尾"@, "端盒"@, "端了"@]) {
        "TailLocked"@
    } else if contains_any(s, seq!["锁列"@, "锁一整列"@, "锁一列"@]) {
        "ColumnLocked"@
    } else if trim_end(s).len() > 0 && trim_end(s).last() == '尾' {
        "TailLocked"@
    } else {
        "Normal"@
    }
}

/// The views of string slices.
pub open spec fn strs(v: Seq<&str>) -> Seq<Seq<char>> {
    v.map_values(|x: &str| x@)
}

/// Whether any of the given needles occurs in `s`.
fn contains_any_of(s: &[char], needles: &[&str]) -> (r: bool)
    ensures
        r == contains_any(s@, strs(needles@)),
{
    let mut k: usize = 0;
    while k < needles.len()
        invariant
            k <= needles@.len(),
            forall|j: int| 0 <= j < k ==> !contains(s@, (#[trigger] needles@[j])@),
        decreases needles@.len() - k,
    {
        if contains_str(s, needles[k]) {
            assert(contains(s@, strs(needles@)[k as int]));
            return true;
        }
        k = k + 1;
    }
    assert forall|j: int| 0 <= j < strs(needles@).len() implies !contains(s@, strs(needles@)[j]) by {
        assert(!contains(s@, needles@[j]@));
    }
    false
}

/// The slot policy of a segment (see `policy_of`).
fn policy_chars(s: &[char]) -> (r: &'static str)
    ensures
        r@ == policy_of(s@),
{
    proof {
        reveal_strlit("整盒");
        reveal_strlit("一整盒");
        reveal_strlit("要整盒");
        reveal_strlit("包盒");
        reveal_strlit("包一盒");
        reveal_strlit("一盒全包");
        reveal_strlit("全包");
        reveal_strlit("包整盒");
        reveal_strlit("整一盒");
        reveal_strlit("包尾");
        reveal_strlit("尾巴");
        reveal_strlit("包个尾");
        reveal_strlit("要尾");
        reveal_strlit("留尾");
        reveal_strlit("端盒");
        reveal_strlit("端了");
        reveal_strlit("锁列");
        reveal_strlit("锁一整列");
        reveal_strlit("锁一列");
    }
    let whole = ["整盒", "一整盒", "要整盒"];
    assert(strs(whole@) =~= seq!["整盒"@, "一整盒"@, "要整盒"@]);
    if contains_any_of(s, &whole) && !crate::text::contains_char(s, '包') {
        return "WholeBox";
    }
    let full = ["包盒", "包一盒", "一盒全包", "全包", "包整盒", "整一盒"];
    assert(strs(full@) =~= seq!["包盒"@, "包一盒"@, "一盒全包"@, "全包"@, "包整盒"@, "整一盒"@]);
    if contains_any_of(s, &full) {
        return "FullBox";
    }
    let tail = ["包尾", "尾巴", "包个尾", "要尾", "留尾", "端盒", "端了"];
    assert(strs(tail@) =~= seq!["包尾"@, "尾巴"@, "包个尾"@, "要尾"@, "留尾"@, "端盒"@, "端了"@]);
    if contains_any_of(s, &tail) {
        return "TailLocked";
    }
    let column = ["锁列", "锁一整列", "锁一列"];
    assert(strs(column@) =~= seq!["锁列"@, "锁一整列"@, "锁一列"@]);
    if contains_any_of(s, &column) {
        return "ColumnLocked";
    }
    let te = crate::text::trim_end_chars(s);
    if te.len() > 0 && te[te.len() - 1] == '尾' {
        return "TailLocked";
    }
    "Normal"
}

/// The slot policy a message segment asks for (see `policy_of`).
pub fn detect_policy(text: &str) -> (r: String)
    ensures
        r@ == policy_of(text@),
{
    let v = chars_of(text);
    crate::text::owned(policy_chars(&v))
}

/// The claim type of a segment: single for a whole box or `单领`, otherwise
/// by the item kind (single items single, gifts gift claims, else split).
pub open spec fn claim_type_of(s: Seq<char>, kind: ItemKind, policy: Seq<char>) -> Seq<char> {
    if policy == "WholeBox"@ || contains(s, "单领"@) {
        "Single"@
    } else {
        match kind {
            ItemKind::Single => "Single"@,
            ItemKind::Gift => "GiftClaim"@,
            _ => "Split"@,
        }
    }
}

/// A segment that says `单领` is a single claim, and so is any segment under
/// the whole-box policy, whatever the item's kind; otherwise a single item
/// is claimed singly, a gift as a gift claim, anything else split.
pub proof fn single_word_means_single_claim(s: Seq<char>, kind: ItemKind, policy: Seq<char>)
    ensures
        contains(s, "单领"@) ==> claim_type_of(s, kind, policy) == "Single"@,
        policy == "WholeBox"@ ==> claim_type_of(s, kind, policy) == "Single"@,
        !contains(s, "单领"@) && policy != "WholeBox"@ ==> claim_type_of(s, kind, policy) == match kind {
            ItemKind::Single => "Single"@,
            ItemKind::Gift => "GiftClaim"@,
            _ => "Split"@,
        },
{
}

/// The claim type of a segment (see `claim_type_of`).
fn detect_claim_type(s: &[char], kind: ItemKind, policy: &str) -> (r: &'static str)
    ensures
        r@ == claim_type_of(s@, kind, policy@),
{
    if crate::text::str_eq(policy, "WholeBox") || contains_str(s, "单领") {
        return "Single";
    }
    match kind {
        ItemKind::Single => "Single",
        ItemKind::Gift => "GiftClaim",
        _ => "Split",
    }
}

/// `s[i..]` with every non-overlapping occurrence of `pat`, left to right,
/// replaced by `rep` (`str::replace`).
pub open spec fn replaced(s: Seq<char>, pat: Seq<char>, rep: Seq<char>, i: int) -> Seq<char>
    decreases s.len() - i,
{
    if i < 0 || i >= s.len() {
        Seq::empty()
    } else if pat.len() > 0 && occurs_at(s, pat, i) {
        rep + replaced(s, pat, rep, i + pat.len())
    } else {
        seq![s[i]] + replaced(s, pat, rep, i + 1)
    }
}

/// Where a token enters a list sorted by descending byte length: after
/// every token at least as long.
pub open spec fn len_pos(s: Seq<Seq<char>>, x: Seq<char>) -> int
    decreases s.len(),
{
    if s.len() == 0 {
        0
    } else if byte_len(s[0]) < byte_len(x) {
        0
    } else {
        1 + len_pos(s.drop_first(), x)
    }
}

/// Stable sort by descending byte length.
pub open spec fn sort_by_len(s: Seq<Seq<char>>) -> Seq<Seq<char>>
    decreases s.len(),
{
    if s.len() == 0 {
        Seq::empty()
    } else {
        let t = sort_by_len(s.drop_last());
        t.insert(len_pos(t, s.last()), s.last())
    }
}

/// The tokens removed from a segment before reading its quantity: the
/// item's name and aliases and the variant's name (normalized, non-empty),
/// longest first.
pub open spec fn strip_tokens(item: Item, variant: Option<ItemVariant>) -> Seq<Seq<char>> {
    let raw = seq![rule_norm(item.name@)] + norm_all(item.aliases@) + match variant {
        Some(v) => seq![rule_norm(v.name@)],
        None => Seq::empty(),
    };
    sort_by_len(raw.filter(|t: Seq<char>| t.len() > 0))
}

/// The text with each token, in turn, replaced by a space.
pub open spec fn stripped(s: Seq<char>, toks: Seq<Seq<char>>) -> Seq<char>
    decreases toks.len(),
{
    if toks.len() == 0 {
        s
    } else {
        replaced(stripped(s, toks.drop_last()), toks.last(), " "@, 0)
    }
}

/// The quantity a segment claims: a `+N`, else a number, else for a full box
/// the variant's capacity or the item's box size (else 1), else a Chinese
/// numeral, else 1 — read after the item and variant names are removed.
pub open spec fn quantity_of(s: Seq<char>, item: Item, variant: Option<ItemVariant>, policy: Seq<char>) -> int {
    let c = stripped(s, strip_tokens(item, variant));
    match plus_number(c, 0) {
        Some(n) => n as int,
        None => match arabic_number(c, 0) {
            Some(n) => n as int,
            None => if policy == "FullBox"@ {
                match (match variant {
                    Some(v) => v.capacity,
                    None => None,
                }) {
                    Some(cap) => cap as int,
                    None => match item.box_size {
                        Some(b) => b as int,
                        None => 1,
                    },
                }
            } else {
                match chinese_number(c, 0) {
                    Some(n) => n as int,
                    None => 1,
                }
            },
        },
    }
}

/// `str::replace(pat, rep)` on characters, for a non-empty pattern.
fn replace_all(s: &[char], pat: &[char], rep: &str) -> (r: Vec<char>)
    ensures
        r@ == replaced(s@, pat@, rep@, 0),
{
    let mut out: Vec<char> = Vec::new();
    let mut i: usize = 0;
    while i < s.len()
        invariant
            i <= s@.len(),
            replaced(s@, pat@, rep@, 0) == out@ + replaced(s@, pat@, rep@, i as int),
        decreases s@.len() - i,
    {
        if pat.len() > 0 && crate::text::matches_at(s, pat, i) {
            crate::text::append_str(&mut out, rep);
            assert(replaced(s@, pat@, rep@, 0) =~= out@ + replaced(s@, pat@, rep@, i + pat@.len()));
            i = i + pat.len();
        } else {
            let ghost before = out@;
            out.push(s[i]);
            assert(replaced(s@, pat@, rep@, 0) =~= out@ + replaced(s@, pat@, rep@, i + 1));
            i = i + 1;
        }
    }
    assert(replaced(s@, pat@, rep@, i as int) =~= Seq::<char>::empty());
    out
}

/// Byte length of a character sequence.
fn bytes_of(v: &[char]) -> (r: u128)
    ensures
        r == byte_len(v@),
{
    let off = byte_offsets(v);
    assert(v@.take(v@.len() as int) =~= v@);
    off[v.len()]
}

/// Inserts a token at `len_pos`.
fn insert_by_len(v: &mut Vec<Vec<char>>, x: Vec<char>)
    ensures
        final(v)@.map_values(|t: Vec<char>| t@) == old(v)@.map_values(|t: Vec<char>| t@).insert(
            len_pos(old(v)@.map_values(|t: Vec<char>| t@), x@),
            x@,
        ),
{
    let ghost s = v@.map_values(|t: Vec<char>| t@);
    let xb = bytes_of(&x);
    let mut i: usize = 0;
    assert(s.skip(0) =~= s);
    while i < v.len() && !(bytes_of(&v[i]) < xb)
        invariant
            i <= v@.len(),
            s == v@.map_values(|t: Vec<char>| t@),
            xb == byte_len(x@),
            len_pos(s, x@) == i + len_pos(s.skip(i as int), x@),
        decreases v@.len() - i,
    {
        assert(s.skip(i as int)[0] == s[i as int]);
        assert(s.skip(i as int).drop_first() =~= s.skip(i + 1));
        i = i + 1;
    }
    proof {
        if i < s.len() {
            assert(s.skip(i as int)[0] == s[i as int]);
        }
    }
    v.insert(i, x);
    assert(v@.map_values(|t: Vec<char>| t@) =~= s.insert(len_pos(s, x@), x@));
}

/// The tokens of `strip_tokens`.
fn strip_token_list(item: &Item, variant: Option<&ItemVariant>) -> (r: Vec<Vec<char>>)
    ensures
        r@.map_values(|t: Vec<char>| t@) == strip_tokens(
            *item,
            match variant {
                Some(v) => Some(*v),
                None => None,
            },
        ),
{
    let ghost var = match variant {
        Some(v) => Some(*v),
        None => None::<ItemVariant>,
    };
    let ghost raw = seq![rule_norm(item.name@)] + norm_all(item.aliases@) + match var {
        Some(v) => seq![rule_norm(v.name@)],
        None => Seq::<Seq<char>>::empty(),
    };
    let mut toks: Vec<Vec<char>> = Vec::new();
    toks.push(normalize_str(item.name.as_str()));
    let mut k: usize = 0;
    while k < item.aliases.len()
        invariant
            k <= item.aliases@.len(),
            toks@.map_values(|t: Vec<char>| t@) == seq![rule_norm(item.name@)] + norm_all(
                item.aliases@,
            ).take(k as int),
        decreases item.aliases@.len() - k,
    {
        let ghost before = toks@.map_values(|t: Vec<char>| t@);
        let a = normalize_str(item.aliases[k].as_str());
        toks.push(a);
        assert(norm_all(item.aliases@).take(k + 1) =~= norm_all(item.aliases@).take(k as int).push(
            rule_norm(item.aliases@[k as int]@),
        ));
        assert(toks@.map_values(|t: Vec<char>| t@) =~= before.push(a@));
        assert(toks@.map_values(|t: Vec<char>| t@) =~= seq![rule_norm(item.name@)] + norm_all(
            item.aliases@,
        ).take(k + 1));
        k = k + 1;
    }
    assert(norm_all(item.aliases@).take(item.aliases@.len() as int) =~= norm_all(item.aliases@));
    match variant {
        Some(v) => {
            toks.push(normalize_str(v.name.as_str()));
        },
        None => {},
    }
    assert(toks@.map_values(|t: Vec<char>| t@) =~= raw);
    // Keep the non-empty tokens, then sort them longest first.
    let ghost keep = raw.filter(|t: Seq<char>| t.len() > 0);
    let mut sorted: Vec<Vec<char>> = Vec::new();
    let ghost mut kept: Seq<Seq<char>> = Seq::empty();
    let mut i: usize = 0;
    while i < toks.len()
        invariant
            i <= toks@.len(),
            raw == toks@.map_values(|t: Vec<char>| t@),
            kept == raw.take(i as int).filter(|t: Seq<char>| t.len() > 0),
            sorted@.map_values(|t: Vec<char>| t@) == sort_by_len(kept),
        decreases toks@.len() - i,
    {
        assert(raw.take(i + 1).drop_last() =~= raw.take(i as int));
        assert(raw.take(i + 1).last() == toks@[i as int]@);
        proof {
            reveal_with_fuel(Seq::<_>::filter, 1);
        }
        if toks[i].len() > 0 {
            let t = toks[i].clone();
            insert_by_len(&mut sorted, t);
            proof {
                let old_kept = kept;
                kept = kept.push(toks@[i as int]@);
                assert(kept.drop_last() =~= old_kept);
            }
        }
        assert(kept =~= raw.take(i + 1).filter(|t: Seq<char>| t.len() > 0));
        i = i + 1;
    }
    assert(raw.take(raw.len() as int) =~= raw);
    sorted
}

/// Index of the first variant with id `vid`, or -1.
pub open spec fn variant_by_id(vs: Seq<ItemVariant>, vid: Seq<char>) -> int
    decreases vs.len(),
{
    if vs.len() == 0 {
        -1
    } else if variant_by_id(vs.drop_last(), vid) >= 0 {
        variant_by_id(vs.drop_last(), vid)
    } else if vs.last().variant_id@ == vid {
        vs.len() - 1
    } else {
        -1
    }
}

/// The variant with id `vid`, if the item has one.
pub open spec fn variant_with_id(item: Item, vid: Option<String>) -> Option<ItemVariant> {
    match vid {
        Some(v) => if variant_by_id(item.variants@, v@) >= 0 {
            Some(item.variants@[variant_by_id(item.variants@, v@)])
        } else {
            None
        },
        None => None,
    }
}

proof fn lemma_variant_by_id_bounds(vs: Seq<ItemVariant>, vid: Seq<char>)
    ensures
        -1 <= variant_by_id(vs, vid) < vs.len(),
    decreases vs.len(),
{
    if vs.len() > 0 {
        lemma_variant_by_id_bounds(vs.drop_last(), vid);
    }
}

/// Index of the first variant with the given id.
fn find_variant_by_id(vs: &Vec<ItemVariant>, vid: &String) -> (r: Option<usize>)
    ensures
        match r {
            Some(k) => k == variant_by_id(vs@, vid@) && k < vs@.len(),
            None => variant_by_id(vs@, vid@) == -1,
        },
{
    proof {
        lemma_variant_by_id_bounds(vs@, vid@);
    }
    let mut j: usize = 0;
    let mut found: Option<usize> = None;
    while j < vs.len()
        invariant
            j <= vs@.len(),
            found == (if variant_by_id(vs@.take(j as int), vid@) >= 0 {
                Some(variant_by_id(vs@.take(j as int), vid@) as usize)
            } else {
                None::<usize>
            }),
            variant_by_id(vs@.take(j as int), vid@) < j,
        decreases vs@.len() - j,
    {
        assert(vs@.take(j + 1).drop_last() =~= vs@.take(j as int));
        if found.is_none() && crate::text::str_eq(vs[j].variant_id.as_str(), vid.as_str()) {
            found = Some(j);
        }
        j = j + 1;
    }
    assert(vs@.take(vs@.len() as int) =~= vs@);
    found
}

/// The quantity a segment claims (see `quantity_of`).
fn parse_quantity(seg: &[char], item: &Item, variant: Option<&ItemVariant>, policy: &str) -> (r: u32)
    ensures
        r == quantity_of(
            seg@,
            *item,
            match variant {
                Some(v) => Some(*v),
                None => None,
            },
            policy@,
        ),
{
    let toks = strip_token_list(item, variant);
    let ghost tv = toks@.map_values(|t: Vec<char>| t@);
    let mut cleaned: Vec<char> = slice_chars(seg, 0, seg.len());
    assert(seg@.subrange(0, seg@.len() as int) =~= seg@);
    let mut i: usize = 0;
    while i < toks.len()
        invariant
            i <= toks@.len(),
            tv == toks@.map_values(|t: Vec<char>| t@),
            cleaned@ == stripped(seg@, tv.take(i as int)),
        decreases toks@.len() - i,
    {
        assert(tv.take(i + 1).drop_last() =~= tv.take(i as int));
        cleaned = replace_all(&cleaned, &toks[i], " ");
        i = i + 1;
    }
    assert(tv.take(tv.len() as int) =~= tv);
    if let Some(n) = find_plus_number(&cleaned) {
        return n;
    }
    if let Some(n) = find_arabic_number(&cleaned) {
        return n;
    }
    if crate::text::str_eq(policy, "FullBox") {
        let cap = match variant {
            Some(v) => v.capacity,
            None => None,
        };
        return match cap {
            Some(c) => c,
            None => match item.box_size {
                Some(b) => b,
                None => 1,
            },
        };
    }
    if let Some(n) = find_chinese_number(&cleaned) {
        return n;
    }
    1
}

// ---------------------------------------------------------------------------
// Segments and the parsed message
// ---------------------------------------------------------------------------
/// Start of segment `k`: the start of its mention, the first from the
/// beginning of the text.
pub open spec fn seg_start(ms: Seq<Mention>, k: int) -> int {
    if k == 0 {
        0
    } else {
        ms[k].start as int
    }
}

/// End of segment `k`: the start of the next mention, the last to the end of the text.
pub open spec fn seg_end(ms: Seq<Mention>, k: int, len: int) -> int {
    if k + 1 < ms.len() {
        ms[k + 1].start as int
    } else {
        len
    }
}

/// The segments of the first `n` mentions: each mention with the text from
/// its start to the next mention.
pub open spec fn segments(t: Seq<char>, ms: Seq<Mention>, n: int) -> Seq<(Mention, Seq<char>)>
    decreases n,
{
    if n <= 0 {
        Seq::empty()
    } else {
        let prev = segments(t, ms, n - 1);
        let s = seg_start(ms, n - 1);
        let e = seg_end(ms, n - 1, t.len() as int);
        if s <= e && e <= t.len() {
            prev.push((ms[n - 1], t.subrange(s, e)))
        } else {
            prev
        }
    }
}

/// The claim line read from one segment.
pub open spec fn line_of(p: ParsedClaimItem, items: Seq<Item>, seg: (Mention, Seq<char>)) -> bool {
    let m = seg.0;
    let text = seg.1;
    let item = items[m.item_idx as int];
    let variant = variant_with_id(item, m.variant_id);
    let policy = policy_of(text);
    &&& p.name@ == match variant {
        Some(v) => v.name@,
        None => item.name@,
    }
    &&& p.category_hint is None
    &&& p.quantity == quantity_of(text, item, variant, policy)
    &&& opt_view(p.claim_type) == Some(claim_type_of(text, item.kind, policy))
    &&& p.is_proxy_card == Some(contains(text, "代牌"@))
    &&& opt_view(p.slot_policy) == Some(policy)
    &&& p.notes is None
    &&& opt_view(p.resolved_item_id) == Some(item.item_id.0@)
    &&& opt_view(p.resolved_variant_id) == opt_view(m.variant_id)
    &&& opt_view(p.resolved_round_id) == Some(item.round_id.0@)
}

/// Words that ask to cancel.
pub open spec fn cancel_words() -> Seq<Seq<char>> {
    seq!["撤"@, "取消"@, "退了"@, "不要了"@, "退"@]
}

/// Words that ask to modify.
pub open spec fn modify_words() -> Seq<Seq<char>> {
    seq!["改"@, "改成"@, "改为"@]
}

/// What the rule parser makes of a message: an empty message is unknown; a
/// message that mentions nothing is a cancellation or modification if it
/// says so, else unknown; otherwise one claim line per segment, with the
/// intent from the cancel/modify words and a warning when a cancellation
/// also says `排` or `claim`. Confidence: 10, 90, 60, 20, 95 (40 with the
/// warning) percent.
pub open spec fn rule_parse(raw: Seq<char>, items: Seq<Item>, r: ParsedMessage) -> bool {
    let t = trim(rule_norm(raw));
    let cancel = contains_any(t, cancel_words());
    let modify = contains_any(t, modify_words());
    let ms = mentions_of(t, items);
    &&& r.round_hint is None
    &&& r.admin_command is None
    &&& if t.len() == 0 {
        &&& r.intent == ParsedIntent::Unknown
        &&& r.items@.len() == 0
        &&& r.cancel_target_hint is None
        &&& r.confidence_pct == 10
        &&& views(r.ambiguous_parts@) == seq!["空消息"@]
    } else if ms.len() == 0 {
        &&& r.items@.len() == 0
        &&& r.ambiguous_parts@.len() == 0
        &&& if cancel {
            r.intent == ParsedIntent::Cancel && opt_view(r.cancel_target_hint) == Some(t)
                && r.confidence_pct == 90
        } else if modify {
            r.intent == ParsedIntent::Modify && opt_view(r.cancel_target_hint) == Some(t)
                && r.confidence_pct == 60
        } else {
            r.intent == ParsedIntent::Unknown && r.cancel_target_hint is None && r.confidence_pct
                == 20
        }
    } else {
        let segs = segments(t, ms, ms.len() as int);
        let warn = cancel && (t.contains('排') || contains(t, "claim"@));
        &&& r.items@.len() == segs.len()
        &&& forall|k: int| 0 <= k < segs.len() ==> line_of(#[trigger] r.items@[k], items, segs[k])
        &&& r.intent == if cancel {
            ParsedIntent::Cancel
        } else if modify {
            ParsedIntent::Modify
        } else {
            ParsedIntent::Claim
        }
        &&& opt_view(r.cancel_target_hint) == if cancel {
            Some(t)
        } else {
            None
        }
        &&& views(r.ambiguous_parts@) == if warn {
            seq!["同一消息同时包含排谷与撤销意图"@]
        } else {
            Seq::<Seq<char>>::empty()
        }
        &&& r.confidence_pct == if warn {
            40u32
        } else {
            95u32
        }
    }
}

/// The claim line of one segment.
fn line_for(items: &[Item], m: &Mention, seg: &[char]) -> (r: ParsedClaimItem)
    requires
        m.item_idx < items@.len(),
    ensures
        line_of(r, items@, (*m, seg@)),
{
    let item = &items[m.item_idx];
    let variant: Option<&ItemVariant> = match &m.variant_id {
        Some(vid) => match find_variant_by_id(&item.variants, vid) {
            Some(k) => Some(&item.variants[k]),
            None => None,
        },
        None => None,
    };
    let policy = policy_chars(seg);
    let quantity = parse_quantity(seg, item, variant, policy);
    let claim_type = detect_claim_type(seg, item.kind, policy);
    let is_proxy = contains_str(seg, "代牌");
    let name = match variant {
        Some(v) => v.name.clone(),
        None => item.name.clone(),
    };
    ParsedClaimItem {
        name,
        category_hint: None,
        quantity,
        claim_type: Some(crate::text::owned(claim_type)),
        is_proxy_card: Some(is_proxy),
        slot_policy: Some(crate::text::owned(policy)),
        notes: None,
        resolved_item_id: Some(item.item_id.0.clone()),
        resolved_variant_id: crate::text::clone_opt(&m.variant_id),
        resolved_round_id: Some(item.round_id.0.clone()),
    }
}

/// The rule-based parser of claim messages.
pub struct RuleParser;

impl RuleParser {
    /// Parses a message against the catalogue items (see `rule_parse`).
    pub fn parse(raw: &str, items: &[Item], _is_admin: bool) -> (r: ParsedMessage)
        ensures
            rule_parse(raw@, items@, r),
    {
        let v = chars_of(raw);
        let nt = normalize_chars(&v);
        let t = trim_chars(&nt);
        if t.len() == 0 {
            let mut amb: Vec<String> = Vec::new();
            amb.push(crate::text::owned("空消息"));
            assert(views(amb@) =~= seq!["空消息"@]);
            return ParsedMessage {
                intent: ParsedIntent::Unknown,
                round_hint: None,
                items: Vec::new(),
                cancel_target_hint: None,
                admin_command: None,
                confidence_pct: 10,
                ambiguous_parts: amb,
            };
        }
        let ms = find_mentions(&t, items);
        let cancel_list = ["撤", "取消", "退了", "不要了", "退"];
        assert(strs(cancel_list@) =~= cancel_words());
        let has_cancel = contains_any_of(&t, &cancel_list);
        let modify_list = ["改", "改成", "改为"];
        assert(strs(modify_list@) =~= modify_words());
        let has_modify = contains_any_of(&t, &modify_list);
        if ms.len() == 0 {
            if has_cancel {
                return ParsedMessage {
                    intent: ParsedIntent::Cancel,
                    round_hint: None,
                    items: Vec::new(),
                    cancel_target_hint: Some(string_of(&t)),
                    admin_command: None,
                    confidence_pct: 90,
                    ambiguous_parts: Vec::new(),
                };
            }
            if has_modify {
                return ParsedMessage {
                    intent: ParsedIntent::Modify,
                    round_hint: None,
                    items: Vec::new(),
                    cancel_target_hint: Some(string_of(&t)),
                    admin_command: None,
                    confidence_pct: 60,
                    ambiguous_parts: Vec::new(),
                };
            }
            return ParsedMessage {
                intent: ParsedIntent::Unknown,
                round_hint: None,
                items: Vec::new(),
                cancel_target_hint: None,
                admin_command: None,
                confidence_pct: 20,
                ambiguous_parts: Vec::new(),
            };
        }
        let n = ms.len();
        let mut lines: Vec<ParsedClaimItem> = Vec::new();
        let mut k: usize = 0;
        while k < n
            invariant
                k <= n == ms@.len(),
                all_placed(ms@, items@.len() as int, t@.len() as int),
                lines@.len() == segments(t@, ms@, k as int).len(),
                forall|j: int|
                    0 <= j < lines@.len() ==> line_of(
                        #[trigger] lines@[j],
                        items@,
                        segments(t@, ms@, k as int)[j],
                    ),
            decreases n - k,
        {
            let start = if k == 0 {
                0
            } else {
                ms[k].start
            };
            let end = if k + 1 < n {
                ms[k + 1].start
            } else {
                t.len()
            };
            if start <= end && end <= t.len() {
                let seg = slice_chars(&t, start, end);
                assert(placed(ms@[k as int], items@.len() as int, t@.len() as int));
                let line = line_for(items, &ms[k], &seg);
                lines.push(line);
            }
            k = k + 1;
        }
        let warn = has_cancel && (crate::text::contains_char(&t, '排') || contains_str(&t, "claim"));
        let mut amb: Vec<String> = Vec::new();
        if warn {
            amb.push(crate::text::owned("同一消息同时包含排谷与撤销意图"));
        }
        assert(views(amb@) =~= (if warn {
            seq!["同一消息同时包含排谷与撤销意图"@]
        } else {
            Seq::<Seq<char>>::empty()
        }));
        let intent = if has_cancel {
            ParsedIntent::Cancel
        } else if has_modify {
            ParsedIntent::Modify
        } else {
            ParsedIntent::Claim
        };
        let cancel_target_hint = if has_cancel {
            Some(string_of(&t))
        } else {
            None
        };
        ParsedMessage {
            intent,
            round_hint: None,
            items: lines,
            cancel_target_hint,
            admin_command: None,
            confidence_pct: if warn {
                40
            } else {
                95
            },
            ambiguous_parts: amb,
        }
    }
}

} // verus!
