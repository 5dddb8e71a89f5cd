//! Text normalization for nicknames and claim lines: full-width folding,
//! remark stripping, proxy notation `A(代B)`, and canonical claim-type /
//! slot-policy names.
use vstd::prelude::*;

use crate::parser::parsed_event::ParsedClaimItem;
use crate::text::{
    chars_of, clone_opt, opt_view, contains, contains_char, contains_str, owned, string_of,
    trim, trim_chars, unicode_lower, unicode_lowercase,
};

verus! {

// ---------------------------------------------------------------------------
// Specifications
// ---------------------------------------------------------------------------
/// Full-width `！`..`～` shifted to ASCII, the ideographic space to a space.
pub open spec fn fullwidth_char(c: char) -> char {
    let u = c as u32;
    if 0xFF01 <= u && u <= 0xFF5E {
        ((u - 0xFEE0) as u32) as char
    } else if u == 0x3000 {
        ' '
    } else {
        c
    }
}

/// `normalize_fullwidth` on a character sequence.
pub open spec fn fullwidth(s: Seq<char>) -> Seq<char> {
    s.map_values(|c: char| fullwidth_char(c))
}

/// Index of the last `c` in `s`, or -1.
pub open spec fn rfind_char(s: Seq<char>, c: char) -> int
    decreases s.len(),
{
    if s.len() == 0 {
        -1
    } else if s.last() == c {
        s.len() - 1
    } else {
        rfind_char(s.drop_last(), c)
    }
}

/// `c` opens a remark: an ASCII or full-width opening parenthesis.
pub open spec fn is_open_paren(c: char) -> bool {
    c == '(' || c == '（'
}

/// Index of the first opening parenthesis (ASCII or full-width) in `s`, or -1.
pub open spec fn first_paren(s: Seq<char>) -> int
    decreases s.len(),
{
    if s.len() == 0 {
        -1
    } else if first_paren(s.drop_last()) >= 0 {
        first_paren(s.drop_last())
    } else if is_open_paren(s.last()) {
        s.len() - 1
    } else {
        -1
    }
}

/// Proxy notation `A(代B)` at the end of `s`: the trimmed `A` and `B`, both non-empty.
pub open spec fn proxy_parts(s: Seq<char>) -> Option<(Seq<char>, Seq<char>)> {
    if s.len() == 0 || s.last() != ')' {
        None
    } else {
        let open = rfind_char(s, '(');
        if open < 0 {
            None
        } else {
            let inner = s.subrange(open + 1, s.len() - 1);
            if inner.len() == 0 || inner[0] != '代' {
                None
            } else {
                let a = trim(s.subrange(0, open));
                let b = trim(inner.drop_first());
                if a.len() == 0 || b.len() == 0 {
                    None
                } else {
                    Some((a, b))
                }
            }
        }
    }
}

/// `s` without its trailing remark (from the first opening parenthesis on), trimmed.
pub open spec fn without_remark(s: Seq<char>) -> Seq<char> {
    let i = first_paren(s);
    if i >= 0 {
        trim(s.subrange(0, i))
    } else {
        trim(s)
    }
}

/// The `(identity, display)` pair of a raw nickname.
pub open spec fn nickname_parts(raw: Seq<char>) -> (Seq<char>, Seq<char>) {
    let t = trim(fullwidth(raw));
    match proxy_parts(t) {
        Some((a, b)) => (a, a + "("@ + b + ")"@),
        None => (without_remark(t), without_remark(t)),
    }
}

/// A slot-policy token that means "whole sealed box" (整盒), not "take the whole
/// box of a split" (包盒 / fullbox).
pub open spec fn whole_box_token(t: Seq<char>) -> bool {
    let l = unicode_lower(t);
    if contains(l, "full"@) || t.contains('包') {
        false
    } else {
        contains(l, "wholebox"@) || contains(l, "whole_box"@) || contains(t, "整盒"@)
    }
}

/// Canonical claim type for a free-form claim-type string.
pub open spec fn claim_type_class(ct: Seq<char>) -> Seq<char> {
    let l = unicode_lower(ct);
    if contains(l, "single"@) || contains(l, "单领"@) || contains(l, "单"@) {
        "Single"@
    } else if contains(l, "gift"@) || contains(l, "赠"@) || contains(l, "特典"@) {
        "GiftClaim"@
    } else {
        "Split"@
    }
}

/// Canonical slot policy for a free-form slot-policy string.
pub open spec fn slot_policy_class(sp: Seq<char>) -> Seq<char> {
    let l = unicode_lower(sp);
    if whole_box_token(sp) {
        "Normal"@
    } else if contains(l, "fullbox"@) || contains(l, "full_box"@) || contains(l, "包盒"@)
        || contains(l, "全包"@) || contains(l, "包一盒"@) || contains(l, "一盒全包"@) || contains(
        l,
        "包整盒"@,
    ) || contains(l, "整一盒"@) {
        "FullBox"@
    } else if contains(l, "tail"@) || contains(l, "包尾"@) || contains(l, "端盒"@) {
        "TailLocked"@
    } else if contains(l, "column"@) || contains(l, "锁列"@) {
        "ColumnLocked"@
    } else if contains(l, "admin"@) || contains(l, "管理"@) {
        "AdminFixed"@
    } else {
        "Normal"@
    }
}

/// The view of an optional string, `None` read as the empty string.
pub open spec fn or_empty(s: Option<Seq<char>>) -> Seq<char> {
    match s {
        Some(x) => x,
        None => Seq::empty(),
    }
}

// ---------------------------------------------------------------------------
// Implementation
// ---------------------------------------------------------------------------
/// Full-width characters folded to half-width (`！`–`～` shifted, the
/// ideographic space becomes a plain space).
pub fn normalize_fullwidth(s: &str) -> (r: String)
    ensures
        r@ == fullwidth(s@),
{
    let v = chars_of(s);
    let w = fullwidth_chars(&v);
    string_of(&w)
}

/// `normalize_fullwidth` on characters.
pub fn fullwidth_chars(v: &[char]) -> (r: Vec<char>)
    ensures
        r@ == fullwidth(v@),
{
    let mut out: Vec<char> = Vec::new();
    let mut i: usize = 0;
    while i < v.len()
        invariant
            i <= v@.len(),
            out@ == fullwidth(v@.take(i as int)),
        decreases v@.len() - i,
    {
        let c = v[i];
        let u = c as u32;
        let d = if 0xFF01 <= u && u <= 0xFF5E {
            crate::text::char_from_ascii(u - 0xFEE0)
        } else if u == 0x3000 {
            ' '
        } else {
            c
        };
        out.push(d);
        assert(fullwidth(v@.take(i + 1)) =~= fullwidth(v@.take(i as int)).push(
            fullwidth_char(v@[i as int]),
        ));
        i = i + 1;
    }
    assert(v@.take(v@.len() as int) =~= v@);
    out
}

/// Folding full-width characters is idempotent: a folded text has nothing
/// left to fold.
pub proof fn fullwidth_is_idempotent(s: Seq<char>)
    ensures
        fullwidth(fullwidth(s)) == fullwidth(s),
{
    assert forall|i: int| 0 <= i < s.len() implies #[trigger] fullwidth_char(fullwidth_char(s[i]))
        == fullwidth_char(s[i]) by {
        let u = s[i] as u32;
        if 0xFF01 <= u && u <= 0xFF5E {
            let x = (u - 0xFEE0) as u32;
            assert(0x21 <= x && x <= 0x7E);
            assert((x as char) as u32 == x);
        }
    }
    assert(fullwidth(fullwidth(s)) =~= fullwidth(s));
}

/// Index of the last `c` in `s`.
fn rfind(s: &[char], c: char) -> (r: Option<usize>)
    ensures
        match r {
            Some(i) => rfind_char(s@, c) == i && i < s@.len() && s@[i as int] == c,
            None => rfind_char(s@, c) == -1,
        },
{
    proof {
        lemma_take_full(s@);
    }
    let mut k: usize = s.len();
    while k > 0
        invariant
            k <= s@.len(),
            rfind_char(s@, c) == rfind_char(s@.take(k as int), c),
        decreases k,
    {
        assert(s@.take(k as int).drop_last() =~= s@.take(k - 1));
        if s[k - 1] == c {
            return Some(k - 1);
        }
        k = k - 1;
    }
    None
}

proof fn lemma_take_full(s: Seq<char>)
    ensures
        s.take(s.len() as int) == s,
{
    assert(s.take(s.len() as int) =~= s);
}

/// `A(代B)` split into its trimmed parts.
fn split_proxy(s: &[char]) -> (r: Option<(Vec<char>, Vec<char>)>)
    ensures
        match r {
            Some((a, b)) => proxy_parts(s@) == Some((a@, b@)),
            None => proxy_parts(s@) is None,
        },
{
    proof {
        lemma_take_full(s@);
    }
    let n = s.len();
    if n == 0 || s[n - 1] != ')' {
        return None;
    }
    let open = match rfind(s, '(') {
        Some(i) => i,
        None => return None,
    };
    // the last character is ')' so the last '(' sits before it
    assert(open < n - 1);
    let inner = crate::text::slice_chars(s, open + 1, n - 1);
    if inner.len() == 0 || inner[0] != '代' {
        return None;
    }
    let rest = crate::text::slice_chars(&inner, 1, inner.len());
    assert(rest@ =~= inner@.drop_first());
    let head = crate::text::slice_chars(s, 0, open);
    let a = trim_chars(&head);
    let b = trim_chars(&rest);
    if a.len() == 0 || b.len() == 0 {
        return None;
    }
    Some((a, b))
}

/// Index of the first opening parenthesis.
fn first_open_paren(s: &[char]) -> (r: Option<usize>)
    ensures
        match r {
            Some(i) => first_paren(s@) == i && i < s@.len(),
            None => first_paren(s@) == -1,
        },
{
    let mut i: usize = 0;
    while i < s.len()
        invariant
            i <= s@.len(),
            first_paren(s@.take(i as int)) == -1,
        decreases s@.len() - i,
    {
        assert(s@.take(i + 1).drop_last() =~= s@.take(i as int));
        if s[i] == '(' || s[i] == '（' {
            proof {
                lemma_first_paren_prefix(s@, i as int);
            }
            return Some(i);
        }
        i = i + 1;
    }
    proof {
        lemma_take_full(s@);
    }
    None
}

proof fn lemma_first_paren_prefix(s: Seq<char>, i: int)
    requires
        0 <= i < s.len(),
        first_paren(s.take(i)) == -1,
        is_open_paren(s[i]),
    ensures
        first_paren(s) == i,
    decreases s.len() - i,
{
    if i + 1 == s.len() {
        assert(s.drop_last() =~= s.take(i));
    } else {
        assert(s.drop_last().take(i) =~= s.take(i));
        lemma_first_paren_prefix(s.drop_last(), i);
    }
}

/// The nickname without its remark, trimmed.
fn strip_remark(s: &[char]) -> (r: Vec<char>)
    ensures
        r@ == without_remark(s@),
{
    match first_open_paren(s) {
        Some(i) => {
            let head = crate::text::slice_chars(s, 0, i);
            trim_chars(&head)
        },
        None => trim_chars(s),
    }
}

/// Nickname cleaning: full-width folding, remark removal and proxy notation
/// `A(代B)`. Returns `(identity, display)`: the identity is matched against
/// whitelists and priority lists, the display is shown.
pub fn clean_nickname(raw: &str) -> (r: (String, String))
    ensures
        r.0@ == nickname_parts(raw@).0,
        r.1@ == nickname_parts(raw@).1,
{
    let v = chars_of(raw);
    let w = fullwidth_chars(&v);
    let t = trim_chars(&w);
    match split_proxy(&t) {
        Some((a, b)) => {
            let mut d: Vec<char> = a.clone();
            d.push('(');
            let mut i: usize = 0;
            while i < b.len()
                invariant
                    i <= b@.len(),
                    d@ == a@ + seq!['('] + b@.take(i as int),
                decreases b@.len() - i,
            {
                d.push(b[i]);
                assert(b@.take(i + 1) =~= b@.take(i as int).push(b@[i as int]));
                i = i + 1;
            }
            d.push(')');
            proof {
                lemma_take_full(b@);
                reveal_strlit("(");
                reveal_strlit(")");
                assert(d@ =~= a@ + "("@ + b@ + ")"@);
            }
            (string_of(&a), string_of(&d))
        },
        None => {
            let id = strip_remark(&t);
            (string_of(&id), string_of(&id))
        },
    }
}

/// Whether a slot-policy token means a whole sealed box (整盒).
fn is_whole_box_token(token: &str) -> (r: bool)
    ensures
        r == whole_box_token(token@),
{
    let lower = chars_of(unicode_lowercase(token).as_str());
    let t = chars_of(token);
    if contains_str(&lower, "full") || contains_char(&t, '包') {
        return false;
    }
    contains_str(&lower, "wholebox") || contains_str(&lower, "whole_box") || contains_str(
        &t,
        "整盒",
    )
}

/// Canonical claim type name.
fn classify_claim_type(ct: &str) -> (r: String)
    ensures
        r@ == claim_type_class(ct@),
{
    let l = chars_of(unicode_lowercase(ct).as_str());
    if contains_str(&l, "single") || contains_str(&l, "单领") || contains_str(&l, "单") {
        owned("Single")
    } else if contains_str(&l, "gift") || contains_str(&l, "赠") || contains_str(&l, "特典") {
        owned("GiftClaim")
    } else {
        owned("Split")
    }
}

/// Canonical slot policy name.
fn classify_slot_policy(sp: &str) -> (r: String)
    ensures
        r@ == slot_policy_class(sp@),
{
    let l = chars_of(unicode_lowercase(sp).as_str());
    if is_whole_box_token(sp) {
        owned("Normal")
    } else if contains_str(&l, "fullbox") || contains_str(&l, "full_box") || contains_str(
        &l,
        "包盒",
    ) || contains_str(&l, "全包") || contains_str(&l, "包一盒") || contains_str(&l, "一盒全包")
        || contains_str(&l, "包整盒") || contains_str(&l, "整一盒") {
        owned("FullBox")
    } else if contains_str(&l, "tail") || contains_str(&l, "包尾") || contains_str(&l, "端盒") {
        owned("TailLocked")
    } else if contains_str(&l, "column") || contains_str(&l, "锁列") {
        owned("ColumnLocked")
    } else if contains_str(&l, "admin") || contains_str(&l, "管理") {
        owned("AdminFixed")
    } else {
        owned("Normal")
    }
}

/// A claim line with canonical claim type and slot policy. `整盒` (whole
/// sealed box) becomes a `Single` claim with `Normal` policy; the other
/// fields are kept.
pub fn normalize_claim_item(item: &ParsedClaimItem) -> (r: ParsedClaimItem)
    ensures
        opt_view(r.claim_type) == (if whole_box_token(or_empty(opt_view(item.slot_policy))) {
            Some("Single"@)
        } else {
            match opt_view(item.claim_type) {
                Some(ct) => Some(claim_type_class(ct)),
                None => None::<Seq<char>>,
            }
        }),
        opt_view(r.slot_policy) == (match opt_view(item.slot_policy) {
            Some(sp) => Some(slot_policy_class(sp)),
            None => None::<Seq<char>>,
        }),
        r.name == item.name,
        r.category_hint == item.category_hint,
        r.quantity == item.quantity,
        r.is_proxy_card == item.is_proxy_card,
        r.notes == item.notes,
        r.resolved_item_id == item.resolved_item_id,
        r.resolved_variant_id == item.resolved_variant_id,
        r.resolved_round_id == item.resolved_round_id,
{
    proof {
        reveal_strlit("");
        assert(""@ =~= Seq::<char>::empty());
    }
    let is_whole_box = match &item.slot_policy {
        Some(sp) => is_whole_box_token(sp.as_str()),
        None => is_whole_box_token(""),
    };
    let claim_type = if is_whole_box {
        Some(owned("Single"))
    } else {
        match &item.claim_type {
            Some(ct) => Some(classify_claim_type(ct.as_str())),
            None => None,
        }
    };
    let slot_policy = match &item.slot_policy {
        Some(sp) => Some(classify_slot_policy(sp.as_str())),
        None => None,
    };
    ParsedClaimItem {
        name: item.name.clone(),
        category_hint: clone_opt(&item.category_hint),
        quantity: item.quantity,
        claim_type,
        is_proxy_card: item.is_proxy_card,
        slot_policy,
        notes: clone_opt(&item.notes),
        resolved_item_id: clone_opt(&item.resolved_item_id),
        resolved_variant_id: clone_opt(&item.resolved_variant_id),
        resolved_round_id: clone_opt(&item.resolved_round_id),
    }
}

} // verus!
