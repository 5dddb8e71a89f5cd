//! Structural checks of a round's catalogue: blank or duplicate ids,
//! missing prices, kind/variant mismatches, and names or aliases that
//! collide across items.
use vstd::prelude::*;

use crate::round::{class_named, ItemClass};
use crate::settings::{
    category_key, category_named, derived_class_of, ItemCategory, ItemConfig, RoundSettings,
    VariantConfig,
};
use crate::services::ServiceError;
use crate::settings::rounds::{is_valid_round_id, valid_round_id};
use crate::settings::AppConfig;
use crate::text::{
    ascii_lower, lower_ascii, owned, str_eq,
    append_chars, append_str, chars_eq, chars_of, dec_text, insert_sorted_unique,
    lemma_seq_lt_irreflexive, lemma_seq_lt_total, lemma_seq_lt_transitive, join, seq_lt,
    strictly_sorted, string_of, trim, trim_chars, views,
};

verus! {

/// One finding of the check: level (`error`/`warn`), code, message and location.
pub struct Issue {
    pub level: String,
    pub code: String,
    pub message: String,
    pub where_: String,
}

/// An issue as four character sequences.
pub type IssueV = (Seq<char>, Seq<char>, Seq<char>, Seq<char>);

/// The view of an issue.
pub open spec fn issue_view(i: Issue) -> IssueV {
    (i.level@, i.code@, i.message@, i.where_@)
}

/// `x` as a one-element list when `cond` holds, else nothing.
pub open spec fn opt_issue(cond: bool, x: IssueV) -> Seq<IssueV> {
    if cond {
        seq![x]
    } else {
        Seq::empty()
    }
}

// ---------------------------------------------------------------------------
// Issues of one item
// ---------------------------------------------------------------------------
/// An earlier variant (before `k`) has the same non-blank id as variant `k`.
pub open spec fn id_seen_before(vs: Seq<VariantConfig>, k: int) -> bool {
    exists|j: int|
        0 <= j < k && trim(vs[j].variant_id@).len() > 0 && vs[j].variant_id@ == vs[k].variant_id@
}

/// Issues of variant `k` of an item.
pub open spec fn variant_issues(id: Seq<char>, vs: Seq<VariantConfig>, k: int) -> Seq<IssueV> {
    let v = vs[k];
    let vid = v.variant_id@;
    let w = "item:"@ + id;
    let vw = "variant:"@ + id + "/"@ + vid;
    (if trim(vid).len() == 0 {
        seq![("error"@, "empty_variant_id"@, "商品 "@ + id + " 存在空 variant_id"@, w)]
    } else if id_seen_before(vs, k) {
        seq![
            ("error"@, "duplicate_variant_id"@, "variant_id 在同一商品内重复："@ + vid + "（商品 "@ + id + "）"@, vw),
        ]
    } else {
        Seq::empty()
    }) + opt_issue(
        trim(v.name@).len() == 0,
        ("error"@, "empty_variant_name"@, "变体 "@ + vid + " 的 name 为空"@, vw),
    ) + opt_issue(
        v.unit_price_cents == 0,
        ("warn"@, "missing_variant_price"@, "变体 "@ + vid + " 缺少标价（0）"@, vw),
    )
}

/// Issues of the first `n` variants of an item.
pub open spec fn variants_issues(id: Seq<char>, vs: Seq<VariantConfig>, n: int) -> Seq<IssueV>
    decreases n,
{
    if n <= 0 {
        Seq::empty()
    } else {
        variants_issues(id, vs, n - 1) + variant_issues(id, vs, n - 1)
    }
}

/// The item-level issues of one item: blank id or name, missing price,
/// kind not matching the variants, explicit class not matching the derived one.
pub open spec fn item_head_issues(it: ItemConfig) -> Seq<IssueV> {
    let id = it.item_id@;
    let w = "item:"@ + id;
    opt_issue(trim(id).len() == 0, ("error"@, "empty_item_id"@, "商品 item_id 为空"@, "item:(empty)"@))
        + opt_issue(
        trim(it.name@).len() == 0,
        ("error"@, "empty_name"@, "商品 "@ + id + " 的 name 为空"@, w),
    ) + opt_issue(
        it.variants@.len() == 0 && it.unit_price_cents == 0,
        ("warn"@, "missing_price"@, "商品 "@ + id + " 缺少标价（0）"@, w),
    ) + kind_issues(it)
}

/// Kind and class consistency issues of one item.
pub open spec fn kind_issues(it: ItemConfig) -> Seq<IssueV> {
    let id = it.item_id@;
    let w = "item:"@ + id;
    (match category_named(it.kind@) {
        Some(cat) => opt_issue(
            (cat == ItemCategory::Group || cat == ItemCategory::Gift) != (it.variants@.len() > 0),
            (
                "error"@,
                "category_variant_mismatch"@,
                "商品 "@ + id + " 种类 "@ + category_key(cat)
                    + " 与变体不一致（有变体必须是拼团/特典，无变体必须是单领/整盒）"@,
                w,
            ),
        ),
        None => Seq::empty(),
    }) + (match it.class {
        Some(c) => match class_named(c@) {
            Some(k) => opt_issue(
                k != derived_class_of(it),
                (
                    "warn"@,
                    "class_derived_mismatch"@,
                    "商品 "@ + id + " 的 class 与「有变体⇒A/无变体⇒B」推导不一致"@,
                    w,
                ),
            ),
            None => Seq::empty(),
        },
        None => Seq::empty(),
    })
}

/// Issues of one item: its own, then its variants'.
pub open spec fn item_issues(it: ItemConfig) -> Seq<IssueV> {
    item_head_issues(it) + variants_issues(it.item_id@, it.variants@, it.variants@.len() as int)
}

/// Issues of the first `n` items, item by item.
pub open spec fn items_issues(items: Seq<ItemConfig>, n: int) -> Seq<IssueV>
    decreases n,
{
    if n <= 0 {
        Seq::empty()
    } else {
        items_issues(items, n - 1) + item_issues(items[n - 1])
    }
}

// ---------------------------------------------------------------------------
// Tokens and their owners
// ---------------------------------------------------------------------------
/// A token (name or alias, trimmed) and the id of the item it belongs to.
pub type Entry = (Seq<char>, Seq<char>);

/// `(trim(s), id)` for each non-blank string of `strs`.
pub open spec fn string_entries(strs: Seq<String>, id: Seq<char>) -> Seq<Entry>
    decreases strs.len(),
{
    if strs.len() == 0 {
        Seq::empty()
    } else {
        string_entries(strs.drop_last(), id) + if trim(strs.last()@).len() > 0 {
            seq![(trim(strs.last()@), id)]
        } else {
            Seq::empty()
        }
    }
}

/// Item names of the first `n` items.
pub open spec fn name_entries(items: Seq<ItemConfig>, n: int) -> Seq<Entry>
    decreases n,
{
    if n <= 0 {
        Seq::empty()
    } else {
        let it = items[n - 1];
        name_entries(items, n - 1) + if trim(it.name@).len() > 0 {
            seq![(trim(it.name@), it.item_id@)]
        } else {
            Seq::empty()
        }
    }
}

/// Item aliases of the first `n` items.
pub open spec fn alias_entries(items: Seq<ItemConfig>, n: int) -> Seq<Entry>
    decreases n,
{
    if n <= 0 {
        Seq::empty()
    } else {
        alias_entries(items, n - 1) + string_entries(items[n - 1].aliases@, items[n - 1].item_id@)
    }
}

/// Variant names and aliases of the first `n` variants, owned by item `id`.
pub open spec fn variant_token_entries(vs: Seq<VariantConfig>, id: Seq<char>, n: int) -> Seq<Entry>
    decreases n,
{
    if n <= 0 {
        Seq::empty()
    } else {
        let v = vs[n - 1];
        variant_token_entries(vs, id, n - 1) + (if trim(v.name@).len() > 0 {
            seq![(trim(v.name@), id)]
        } else {
            Seq::empty()
        }) + string_entries(v.aliases@, id)
    }
}

/// Variant names and aliases of the first `n` items.
pub open spec fn variant_entries(items: Seq<ItemConfig>, n: int) -> Seq<Entry>
    decreases n,
{
    if n <= 0 {
        Seq::empty()
    } else {
        let it = items[n - 1];
        variant_entries(items, n - 1) + variant_token_entries(
            it.variants@,
            it.item_id@,
            it.variants@.len() as int,
        )
    }
}

/// The tokens of the entries.
pub open spec fn tokens_of(es: Seq<Entry>) -> Set<Seq<char>>
    decreases es.len(),
{
    if es.len() == 0 {
        Set::empty()
    } else {
        tokens_of(es.drop_last()).insert(es.last().0)
    }
}

/// The items owning token `tok`.
pub open spec fn owners_of(es: Seq<Entry>, tok: Seq<char>) -> Set<Seq<char>>
    decreases es.len(),
{
    if es.len() == 0 {
        Set::empty()
    } else if es.last().0 == tok {
        owners_of(es.drop_last(), tok).insert(es.last().1)
    } else {
        owners_of(es.drop_last(), tok)
    }
}

/// Some owner in `b` is not in `a`: the two sets point at different items.
pub open spec fn crosses(a: Set<Seq<char>>, b: Set<Seq<char>>) -> bool {
    exists|x: Seq<char>| b.contains(x) && !a.contains(x)
}

/// The set has two different elements.
pub open spec fn several(s: Set<Seq<char>>) -> bool {
    exists|a: Seq<char>, b: Seq<char>| s.contains(a) && s.contains(b) && a != b
}

/// The elements of a set of strings in increasing order.
pub open spec fn sorted_of(s: Set<Seq<char>>) -> Seq<Seq<char>> {
    choose|ks: Seq<Seq<char>>| strictly_sorted(ks) && ks.to_set() == s
}

/// The owners of a token, sorted and joined with `, `.
pub open spec fn owners_label(s: Set<Seq<char>>) -> Seq<char> {
    join(sorted_of(s), ", "@)
}

// ---------------------------------------------------------------------------
// Round-level issues
// ---------------------------------------------------------------------------
/// Number of items with id `id`.
pub open spec fn id_count(items: Seq<ItemConfig>, n: int, id: Seq<char>) -> nat
    decreases n,
{
    if n <= 0 {
        0
    } else {
        id_count(items, n - 1, id) + if items[n - 1].item_id@ == id {
            1nat
        } else {
            0nat
        }
    }
}

/// Non-blank item ids of the first `n` items.
pub open spec fn id_entries(items: Seq<ItemConfig>, n: int) -> Seq<Entry>
    decreases n,
{
    if n <= 0 {
        Seq::empty()
    } else {
        id_entries(items, n - 1) + if trim(items[n - 1].item_id@).len() > 0 {
            seq![(items[n - 1].item_id@, items[n - 1].item_id@)]
        } else {
            Seq::empty()
        }
    }
}

/// Ids used more than once, in increasing order of the first `n` sorted ids.
pub open spec fn duplicate_issues(items: Seq<ItemConfig>, ids: Seq<Seq<char>>, n: int) -> Seq<IssueV>
    decreases n,
{
    if n <= 0 {
        Seq::empty()
    } else {
        let id = ids[n - 1];
        let c = id_count(items, items.len() as int, id);
        duplicate_issues(items, ids, n - 1) + opt_issue(
            c > 1,
            ("error"@, "duplicate_item_id"@, "item_id 重复："@ + id + "（"@ + dec_text(c) + " 次）"@, "item:"@ + id),
        )
    }
}

/// Which kind of token a conflict is about.
#[derive(Clone, Copy, Debug, PartialEq, Eq, Structural)]
pub enum TokenKind {
    Name,
    Alias,
    Variant,
}

/// Whether a token of the given kind collides across items: an item name or
/// alias owned by several items, or any token also used by another item as
/// a name/alias (variant names may repeat across items).
pub open spec fn conflict(kind: TokenKind, tok: Seq<char>, ne: Seq<Entry>, ae: Seq<Entry>, ve: Seq<Entry>) -> bool {
    let no = owners_of(ne, tok);
    let ao = owners_of(ae, tok);
    let vo = owners_of(ve, tok);
    match kind {
        TokenKind::Name => several(no) || crosses(no, ao) || crosses(no, vo),
        TokenKind::Alias => several(ao) || crosses(ao, no) || crosses(ao, vo),
        TokenKind::Variant => crosses(vo, no) || crosses(vo, ao),
    }
}

/// The issue reported for a colliding token.
pub open spec fn conflict_issue(kind: TokenKind, tok: Seq<char>, ne: Seq<Entry>, ae: Seq<Entry>, ve: Seq<Entry>) -> IssueV {
    match kind {
        TokenKind::Name => (
            "error"@,
            "name_conflict"@,
            "商品名跨商品冲突："@ + tok + "（"@ + owners_label(owners_of(ne, tok)) + "）"@,
            "item:"@ + tok,
        ),
        TokenKind::Alias => (
            "error"@,
            "alias_conflict"@,
            "别名跨商品冲突："@ + tok + "（"@ + owners_label(owners_of(ae, tok)) + "）"@,
            "aliases"@,
        ),
        TokenKind::Variant => (
            "error"@,
            "alias_conflict"@,
            "变体名/别名与商品名冲突："@ + tok + "（"@ + owners_label(owners_of(ve, tok)) + "）"@,
            "variants"@,
        ),
    }
}

/// Conflict issues of the first `n` tokens of `toks`.
pub open spec fn conflict_issues(
    kind: TokenKind,
    toks: Seq<Seq<char>>,
    n: int,
    ne: Seq<Entry>,
    ae: Seq<Entry>,
    ve: Seq<Entry>,
) -> Seq<IssueV>
    decreases n,
{
    if n <= 0 {
        Seq::empty()
    } else {
        conflict_issues(kind, toks, n - 1, ne, ae, ve) + opt_issue(
            conflict(kind, toks[n - 1], ne, ae, ve),
            conflict_issue(kind, toks[n - 1], ne, ae, ve),
        )
    }
}

/// All issues of a round: item by item, then duplicate ids, then name,
/// alias and variant-token collisions, each in increasing token order.
pub open spec fn round_issues(round: RoundSettings) -> Seq<IssueV> {
    let items = round.items@;
    let n = items.len() as int;
    let ne = name_entries(items, n);
    let ae = alias_entries(items, n);
    let ve = variant_entries(items, n);
    let ids = sorted_of(tokens_of(id_entries(items, n)));
    let nt = sorted_of(tokens_of(ne));
    let at = sorted_of(tokens_of(ae));
    let vt = sorted_of(tokens_of(ve));
    items_issues(items, n) + duplicate_issues(items, ids, ids.len() as int) + conflict_issues(
        TokenKind::Name,
        nt,
        nt.len() as int,
        ne,
        ae,
        ve,
    ) + conflict_issues(TokenKind::Alias, at, at.len() as int, ne, ae, ve) + conflict_issues(
        TokenKind::Variant,
        vt,
        vt.len() as int,
        ne,
        ae,
        ve,
    )
}

// ---------------------------------------------------------------------------
// Sorted sets
// ---------------------------------------------------------------------------
/// Two strictly sorted sequences with the same elements are equal.
pub proof fn lemma_sorted_unique(a: Seq<Seq<char>>, b: Seq<Seq<char>>)
    requires
        strictly_sorted(a),
        strictly_sorted(b),
        a.to_set() == b.to_set(),
    ensures
        a == b,
    decreases a.len(),
{
    if a.len() == 0 {
        if b.len() > 0 {
            assert(b.to_set().contains(b[0]));
        }
        assert(a =~= b);
    } else {
        assert(a.to_set().contains(a[0]));
        assert(b.len() > 0) by {
            if b.len() == 0 {
                assert(!b.to_set().contains(a[0]));
            }
        }
        assert(b.to_set().contains(b[0]));
        let i = choose|i: int| 0 <= i < a.len() && a[i] == b[0];
        let j = choose|j: int| 0 <= j < b.len() && b[j] == a[0];
        if j > 0 {
            // b[0] < b[j] == a[0] <= a[i] == b[0]
            assert(seq_lt(b[0], b[j]));
            if i > 0 {
                assert(seq_lt(a[0], a[i]));
                lemma_seq_lt_transitive(b[0], a[0], b[0]);
            }
            lemma_seq_lt_irreflexive(b[0]);
        }
        assert(a[0] == b[0]);
        let a1 = a.drop_first();
        let b1 = b.drop_first();
        assert forall|x: Seq<char>| a1.to_set().contains(x) implies b1.to_set().contains(x) by {
            let k = choose|k: int| 0 <= k < a1.len() && a1[k] == x;
            assert(a.to_set().contains(x)) by {
                assert(a[k + 1] == x);
            }
            let m = choose|m: int| 0 <= m < b.len() && b[m] == x;
            if m == 0 {
                assert(seq_lt(a[0], a[k + 1]));
                lemma_seq_lt_irreflexive(a[0]);
            }
            assert(b1[m - 1] == x);
        }
        assert forall|x: Seq<char>| b1.to_set().contains(x) implies a1.to_set().contains(x) by {
            let k = choose|k: int| 0 <= k < b1.len() && b1[k] == x;
            assert(b.to_set().contains(x)) by {
                assert(b[k + 1] == x);
            }
            let m = choose|m: int| 0 <= m < a.len() && a[m] == x;
            if m == 0 {
                assert(seq_lt(b[0], b[k + 1]));
                lemma_seq_lt_irreflexive(b[0]);
            }
            assert(a1[m - 1] == x);
        }
        assert(a1.to_set() =~= b1.to_set());
        lemma_sorted_unique(a1, b1);
        assert(a =~= b) by {
            assert forall|k: int| 0 <= k < a.len() implies a[k] == b[k] by {
                if k > 0 {
                    assert(a[k] == a1[k - 1]);
                    assert(b[k] == b1[k - 1]);
                }
            }
        }
    }
}

/// A strictly sorted sequence is the sorted form of its elements.
pub proof fn lemma_sorted_of(ks: Seq<Seq<char>>)
    requires
        strictly_sorted(ks),
    ensures
        sorted_of(ks.to_set()) == ks,
{
    let c = sorted_of(ks.to_set());
    assert(strictly_sorted(c) && c.to_set() == ks.to_set());
    lemma_sorted_unique(c, ks);
}

// ---------------------------------------------------------------------------
// Implementation
// ---------------------------------------------------------------------------
/// The views of issues.
pub open spec fn issues_view(v: Seq<Issue>) -> Seq<IssueV> {
    v.map_values(|i: Issue| issue_view(i))
}

/// The views of entries.
pub open spec fn entries_view(v: Seq<(String, String)>) -> Seq<Entry> {
    v.map_values(|e: (String, String)| (e.0@, e.1@))
}

/// Appends an issue.
fn push_issue(out: &mut Vec<Issue>, level: &str, code: &str, message: &[char], where_: &[char])
    ensures
        issues_view(final(out)@) == issues_view(old(out)@).push((level@, code@, message@, where_@)),
{
    let ghost before = out@;
    out.push(
        Issue {
            level: crate::text::owned(level),
            code: crate::text::owned(code),
            message: string_of(message),
            where_: string_of(where_),
        },
    );
    assert(issues_view(out@) =~= issues_view(before).push((level@, code@, message@, where_@)));
}

/// `a + b` as characters.
fn cat(a: &str, b: &[char]) -> (r: Vec<char>)
    ensures
        r@ == a@ + b@,
{
    let mut out = chars_of(a);
    append_chars(&mut out, b);
    out
}

/// Appends the issues of one variant.
fn check_variant(out: &mut Vec<Issue>, id: &String, vs: &Vec<VariantConfig>, k: usize)
    requires
        k < vs@.len(),
    ensures
        issues_view(final(out)@) == issues_view(old(out)@) + variant_issues(id@, vs@, k as int),
{
    let ghost start = issues_view(out@);
    let v = &vs[k];
    let idc = chars_of(id.as_str());
    let vid = chars_of(v.variant_id.as_str());
    let w = cat("item:", &idc);
    let mut vw = cat("variant:", &idc);
    append_str(&mut vw, "/");
    append_chars(&mut vw, &vid);
    let vid_t = trim_chars(&vid);
    if vid_t.len() == 0 {
        let mut m = cat("商品 ", &idc);
        append_str(&mut m, " 存在空 variant_id");
        push_issue(out, "error", "empty_variant_id", &m, &w);
    } else {
        let mut seen = false;
        let mut j: usize = 0;
        while j < k
            invariant
                j <= k < vs@.len(),
                vid@ == vs@[k as int].variant_id@,
                seen == (exists|q: int|
                    0 <= q < j && trim(vs@[q].variant_id@).len() > 0 && vs@[q].variant_id@
                        == vs@[k as int].variant_id@),
            decreases k - j,
        {
            let other = chars_of(vs[j].variant_id.as_str());
            let ot = trim_chars(&other);
            if ot.len() > 0 && chars_eq(&other, &vid) {
                seen = true;
            }
            j = j + 1;
        }
        if seen {
            let mut m = cat("variant_id 在同一商品内重复：", &vid);
            append_str(&mut m, "（商品 ");
            append_chars(&mut m, &idc);
            append_str(&mut m, "）");
            push_issue(out, "error", "duplicate_variant_id", &m, &vw);
        }
    }
    let ghost mid = issues_view(out@);
    let name = chars_of(v.name.as_str());
    let nt = trim_chars(&name);
    if nt.len() == 0 {
        let mut m = cat("变体 ", &vid);
        append_str(&mut m, " 的 name 为空");
        push_issue(out, "error", "empty_variant_name", &m, &vw);
    }
    if v.unit_price_cents == 0 {
        let mut m = cat("变体 ", &vid);
        append_str(&mut m, " 缺少标价（0）");
        push_issue(out, "warn", "missing_variant_price", &m, &vw);
    }
    assert(issues_view(out@) =~= start + variant_issues(id@, vs@, k as int));
}

/// Appends the kind and class issues of one item.
fn check_kind(out: &mut Vec<Issue>, it: &ItemConfig, idc: &Vec<char>, w: &Vec<char>)
    requires
        idc@ == it.item_id@,
        w@ == "item:"@ + it.item_id@,
    ensures
        issues_view(final(out)@) == issues_view(old(out)@) + kind_issues(*it),
{
    let ghost start = issues_view(out@);
    match it.category() {
        Some(cat_) => {
            if cat_.requires_variants() != it.has_variants() {
                let mut m = cat("商品 ", idc);
                append_str(&mut m, " 种类 ");
                append_str(&mut m, cat_.as_str());
                append_str(&mut m, " 与变体不一致（有变体必须是拼团/特典，无变体必须是单领/整盒）");
                push_issue(out, "error", "category_variant_mismatch", &m, w);
            }
        },
        None => {},
    }
    let ghost mid = issues_view(out@);
    match &it.class {
        Some(c) => match ItemClass::parse(c.as_str()) {
            Some(k) => {
                if k != it.derived_class() {
                    let mut m = cat("商品 ", idc);
                    append_str(&mut m, " 的 class 与「有变体⇒A/无变体⇒B」推导不一致");
                    push_issue(out, "warn", "class_derived_mismatch", &m, w);
                }
            },
            None => {},
        },
        None => {},
    }
    assert(issues_view(out@) =~= start + kind_issues(*it));
}

/// Appends the item-level issues of one item.
fn check_item_head(out: &mut Vec<Issue>, it: &ItemConfig)
    ensures
        issues_view(final(out)@) == issues_view(old(out)@) + item_head_issues(*it),
{
    let ghost start = issues_view(out@);
    let idc = chars_of(it.item_id.as_str());
    let w = cat("item:", &idc);
    let idt = trim_chars(&idc);
    if idt.len() == 0 {
        let m = chars_of("商品 item_id 为空");
        let wh = chars_of("item:(empty)");
        push_issue(out, "error", "empty_item_id", &m, &wh);
    }
    let ghost s1 = issues_view(out@);
    let name = chars_of(it.name.as_str());
    let nt = trim_chars(&name);
    if nt.len() == 0 {
        let mut m = cat("商品 ", &idc);
        append_str(&mut m, " 的 name 为空");
        push_issue(out, "error", "empty_name", &m, &w);
    }
    let ghost s2 = issues_view(out@);
    if it.variants.len() == 0 && it.unit_price_cents == 0 {
        let mut m = cat("商品 ", &idc);
        append_str(&mut m, " 缺少标价（0）");
        push_issue(out, "warn", "missing_price", &m, &w);
    }
    let ghost s3 = issues_view(out@);
    check_kind(out, it, &idc, &w);
    assert(issues_view(out@) =~= start + item_head_issues(*it));
}

/// Appends the issues of one item.
fn check_item(out: &mut Vec<Issue>, it: &ItemConfig)
    ensures
        issues_view(final(out)@) == issues_view(old(out)@) + item_issues(*it),
{
    let ghost start = issues_view(out@);
    check_item_head(out, it);
    let ghost mid = issues_view(out@);
    let mut k: usize = 0;
    while k < it.variants.len()
        invariant
            k <= it.variants@.len(),
            issues_view(out@) == mid + variants_issues(it.item_id@, it.variants@, k as int),
        decreases it.variants@.len() - k,
    {
        check_variant(out, &it.item_id, &it.variants, k);
        k = k + 1;
    }
    assert(issues_view(out@) =~= start + item_issues(*it));
}

/// Appends `(trim(s), id)` for each non-blank string.
fn push_string_entries(es: &mut Vec<(String, String)>, strs: &Vec<String>, id: &String)
    ensures
        entries_view(final(es)@) == entries_view(old(es)@) + string_entries(strs@, id@),
{
    let ghost start = entries_view(es@);
    let mut k: usize = 0;
    while k < strs.len()
        invariant
            k <= strs@.len(),
            entries_view(es@) == start + string_entries(strs@.take(k as int), id@),
        decreases strs@.len() - k,
    {
        assert(strs@.take(k + 1).drop_last() =~= strs@.take(k as int));
        let v = chars_of(strs[k].as_str());
        let t = trim_chars(&v);
        let ghost before = entries_view(es@);
        assert(strs@.take(k + 1).last() == strs@[k as int]);
        if t.len() > 0 {
            es.push((string_of(&t), id.clone()));
            assert(entries_view(es@) =~= before + seq![(trim(strs@[k as int]@), id@)]);
        }
        assert(entries_view(es@) =~= start + string_entries(strs@.take(k + 1), id@));
        k = k + 1;
    }
    assert(strs@.take(strs@.len() as int) =~= strs@);
}

/// The token entries of every item: names, aliases and variant tokens.
fn collect_entries(items: &Vec<ItemConfig>) -> (r: (
    Vec<(String, String)>,
    Vec<(String, String)>,
    Vec<(String, String)>,
    Vec<(String, String)>,
))
    ensures
        entries_view(r.0@) == id_entries(items@, items@.len() as int),
        entries_view(r.1@) == name_entries(items@, items@.len() as int),
        entries_view(r.2@) == alias_entries(items@, items@.len() as int),
        entries_view(r.3@) == variant_entries(items@, items@.len() as int),
{
    let mut ids: Vec<(String, String)> = Vec::new();
    let mut names: Vec<(String, String)> = Vec::new();
    let mut aliases: Vec<(String, String)> = Vec::new();
    let mut vtoks: Vec<(String, String)> = Vec::new();
    let mut i: usize = 0;
    while i < items.len()
        invariant
            i <= items@.len(),
            entries_view(ids@) == id_entries(items@, i as int),
            entries_view(names@) == name_entries(items@, i as int),
            entries_view(aliases@) == alias_entries(items@, i as int),
            entries_view(vtoks@) == variant_entries(items@, i as int),
        decreases items@.len() - i,
    {
        let it = &items[i];
        let idc = chars_of(it.item_id.as_str());
        let idt = trim_chars(&idc);
        let ghost b0 = entries_view(ids@);
        if idt.len() > 0 {
            ids.push((it.item_id.clone(), it.item_id.clone()));
        }
        assert(entries_view(ids@) =~= id_entries(items@, i + 1));
        let nm = chars_of(it.name.as_str());
        let nt = trim_chars(&nm);
        let ghost b1 = entries_view(names@);
        if nt.len() > 0 {
            names.push((string_of(&nt), it.item_id.clone()));
        }
        assert(entries_view(names@) =~= name_entries(items@, i + 1));
        push_string_entries(&mut aliases, &it.aliases, &it.item_id);
        let ghost vstart = entries_view(vtoks@);
        let mut k: usize = 0;
        while k < it.variants.len()
            invariant
                k <= it.variants@.len(),
                i < items@.len(),
                *it == items@[i as int],
                entries_view(vtoks@) == vstart + variant_token_entries(
                    it.variants@,
                    it.item_id@,
                    k as int,
                ),
            decreases it.variants@.len() - k,
        {
            let v = &it.variants[k];
            let vn = chars_of(v.name.as_str());
            let vt = trim_chars(&vn);
            let ghost b2 = entries_view(vtoks@);
            if vt.len() > 0 {
                vtoks.push((string_of(&vt), it.item_id.clone()));
                assert(entries_view(vtoks@) =~= b2 + seq![(trim(v.name@), it.item_id@)]);
            }
            let ghost b3 = entries_view(vtoks@);
            assert(b3 =~= b2 + (if trim(v.name@).len() > 0 {
                seq![(trim(v.name@), it.item_id@)]
            } else {
                Seq::<Entry>::empty()
            }));
            push_string_entries(&mut vtoks, &v.aliases, &it.item_id);
            assert(entries_view(vtoks@) =~= vstart + variant_token_entries(
                it.variants@,
                it.item_id@,
                k + 1,
            ));
            k = k + 1;
        }
        assert(entries_view(vtoks@) =~= variant_entries(items@, i + 1));
        i = i + 1;
    }
    (ids, names, aliases, vtoks)
}

/// The distinct tokens of the entries, in increasing order.
fn sorted_tokens(es: &Vec<(String, String)>) -> (r: Vec<String>)
    ensures
        views(r@) == sorted_of(tokens_of(entries_view(es@))),
{
    let ghost ev = entries_view(es@);
    let mut out: Vec<String> = Vec::new();
    let mut i: usize = 0;
    assert(views(out@).to_set() =~= Set::<Seq<char>>::empty());
    while i < es.len()
        invariant
            i <= es@.len(),
            ev == entries_view(es@),
            strictly_sorted(views(out@)),
            views(out@).to_set() == tokens_of(ev.take(i as int)),
        decreases es@.len() - i,
    {
        assert(ev.take(i + 1).drop_last() =~= ev.take(i as int));
        insert_sorted_unique(&mut out, es[i].0.clone());
        i = i + 1;
    }
    assert(ev.take(ev.len() as int) =~= ev);
    proof {
        lemma_sorted_of(views(out@));
    }
    out
}

/// The owners of `tok`, in increasing order.
fn sorted_owners(es: &Vec<(String, String)>, tok: &String) -> (r: Vec<String>)
    ensures
        strictly_sorted(views(r@)),
        views(r@).to_set() == owners_of(entries_view(es@), tok@),
        views(r@) == sorted_of(owners_of(entries_view(es@), tok@)),
{
    let ghost ev = entries_view(es@);
    let mut out: Vec<String> = Vec::new();
    let mut i: usize = 0;
    assert(views(out@).to_set() =~= Set::<Seq<char>>::empty());
    let t = chars_of(tok.as_str());
    while i < es.len()
        invariant
            i <= es@.len(),
            ev == entries_view(es@),
            t@ == tok@,
            strictly_sorted(views(out@)),
            views(out@).to_set() == owners_of(ev.take(i as int), tok@),
        decreases es@.len() - i,
    {
        assert(ev.take(i + 1).drop_last() =~= ev.take(i as int));
        let e = chars_of(es[i].0.as_str());
        if chars_eq(&e, &t) {
            insert_sorted_unique(&mut out, es[i].1.clone());
        }
        i = i + 1;
    }
    assert(ev.take(ev.len() as int) =~= ev);
    proof {
        lemma_sorted_of(views(out@));
    }
    out
}

/// Whether `s` holds a string equal to `x`.
fn holds(s: &Vec<String>, x: &String) -> (r: bool)
    ensures
        r == views(s@).contains(x@),
{
    let xc = chars_of(x.as_str());
    let mut i: usize = 0;
    while i < s.len()
        invariant
            i <= s@.len(),
            xc@ == x@,
            forall|j: int| 0 <= j < i ==> s@[j]@ != x@,
        decreases s@.len() - i,
    {
        let c = chars_of(s[i].as_str());
        if chars_eq(&c, &xc) {
            assert(views(s@)[i as int] == x@);
            return true;
        }
        i = i + 1;
    }
    assert forall|j: int| 0 <= j < views(s@).len() implies views(s@)[j] != x@ by {
        assert(s@[j]@ != x@);
    }
    false
}

/// Whether some element of `b` is missing from `a` (see `crosses`).
fn crosses_of(a: &Vec<String>, b: &Vec<String>) -> (r: bool)
    ensures
        r == crosses(views(a@).to_set(), views(b@).to_set()),
{
    let mut i: usize = 0;
    while i < b.len()
        invariant
            i <= b@.len(),
            forall|j: int| 0 <= j < i ==> views(a@).contains(#[trigger] b@[j]@),
        decreases b@.len() - i,
    {
        if !holds(a, &b[i]) {
            assert(views(b@)[i as int] == b@[i as int]@);
            assert(views(b@).to_set().contains(b@[i as int]@));
            return true;
        }
        i = i + 1;
    }
    assert forall|x: Seq<char>| views(b@).to_set().contains(x) implies views(a@).to_set().contains(x) by {
        let j = choose|j: int| 0 <= j < views(b@).len() && views(b@)[j] == x;
        assert(views(a@).contains(b@[j]@));
    }
    false
}

/// A strictly sorted list has two different elements exactly when it is longer than one.
proof fn lemma_several(v: Seq<Seq<char>>)
    requires
        strictly_sorted(v),
    ensures
        several(v.to_set()) == (v.len() > 1),
{
    if v.len() > 1 {
        assert(seq_lt(v[0], v[1]));
        lemma_seq_lt_irreflexive(v[0]);
        assert(v.to_set().contains(v[0]) && v.to_set().contains(v[1]));
    } else {
        assert forall|a: Seq<char>, b: Seq<char>|
            v.to_set().contains(a) && v.to_set().contains(b) implies a == b by {
            let i = choose|i: int| 0 <= i < v.len() && v[i] == a;
            let j = choose|j: int| 0 <= j < v.len() && v[j] == b;
        }
    }
}

/// `a, b, c` from sorted owners.
fn label_of(owners: &Vec<String>) -> (r: Vec<char>)
    ensures
        r@ == join(views(owners@), ", "@),
{
    let mut out: Vec<char> = Vec::new();
    let ghost ps = views(owners@);
    let mut i: usize = 0;
    while i < owners.len()
        invariant
            i <= owners@.len(),
            ps == views(owners@),
            out@ == join(ps.take(i as int), ", "@),
        decreases owners@.len() - i,
    {
        assert(ps.take(i + 1).drop_last() =~= ps.take(i as int));
        if i > 0 {
            append_str(&mut out, ", ");
        } else {
            assert(out@ =~= Seq::<char>::empty());
        }
        append_str(&mut out, owners[i].as_str());
        proof {
            if i == 0 {
                assert(out@ =~= ps.take(1)[0]);
            }
        }
        i = i + 1;
    }
    assert(ps.take(ps.len() as int) =~= ps);
    out
}

/// Appends the conflict issue of one token, if it collides.
fn check_token(
    out: &mut Vec<Issue>,
    kind: &TokenKind,
    tok: &String,
    ne: &Vec<(String, String)>,
    ae: &Vec<(String, String)>,
    ve: &Vec<(String, String)>,
)
    ensures
        issues_view(final(out)@) == issues_view(old(out)@) + opt_issue(
            conflict(*kind, tok@, entries_view(ne@), entries_view(ae@), entries_view(ve@)),
            conflict_issue(*kind, tok@, entries_view(ne@), entries_view(ae@), entries_view(ve@)),
        ),
{
    let ghost start = issues_view(out@);
    let no = sorted_owners(ne, tok);
    let ao = sorted_owners(ae, tok);
    let vo = sorted_owners(ve, tok);
    proof {
        lemma_several(views(no@));
        lemma_several(views(ao@));
    }
    let t = chars_of(tok.as_str());
    let (hit, code, msg, where_): (bool, &str, Vec<char>, Vec<char>) = match kind {
        TokenKind::Name => {
            let hit = no.len() > 1 || crosses_of(&no, &ao) || crosses_of(&no, &vo);
            let mut m = cat("商品名跨商品冲突：", &t);
            append_str(&mut m, "（");
            let l = label_of(&no);
            append_chars(&mut m, &l);
            append_str(&mut m, "）");
            (hit, "name_conflict", m, cat("item:", &t))
        },
        TokenKind::Alias => {
            let hit = ao.len() > 1 || crosses_of(&ao, &no) || crosses_of(&ao, &vo);
            let mut m = cat("别名跨商品冲突：", &t);
            append_str(&mut m, "（");
            let l = label_of(&ao);
            append_chars(&mut m, &l);
            append_str(&mut m, "）");
            (hit, "alias_conflict", m, chars_of("aliases"))
        },
        TokenKind::Variant => {
            let hit = crosses_of(&vo, &no) || crosses_of(&vo, &ao);
            let mut m = cat("变体名/别名与商品名冲突：", &t);
            append_str(&mut m, "（");
            let l = label_of(&vo);
            append_chars(&mut m, &l);
            append_str(&mut m, "）");
            (hit, "alias_conflict", m, chars_of("variants"))
        },
    };
    if hit {
        push_issue(out, "error", code, &msg, &where_);
    }
    assert(issues_view(out@) =~= start + opt_issue(
        conflict(*kind, tok@, entries_view(ne@), entries_view(ae@), entries_view(ve@)),
        conflict_issue(*kind, tok@, entries_view(ne@), entries_view(ae@), entries_view(ve@)),
    ));
}

/// Appends the conflict issues of the tokens, in order.
fn check_tokens(
    out: &mut Vec<Issue>,
    kind: TokenKind,
    toks: &Vec<String>,
    ne: &Vec<(String, String)>,
    ae: &Vec<(String, String)>,
    ve: &Vec<(String, String)>,
)
    ensures
        issues_view(final(out)@) == issues_view(old(out)@) + conflict_issues(
            kind,
            views(toks@),
            toks@.len() as int,
            entries_view(ne@),
            entries_view(ae@),
            entries_view(ve@),
        ),
{
    let ghost start = issues_view(out@);
    let mut i: usize = 0;
    while i < toks.len()
        invariant
            i <= toks@.len(),
            issues_view(out@) == start + conflict_issues(
                kind,
                views(toks@),
                i as int,
                entries_view(ne@),
                entries_view(ae@),
                entries_view(ve@),
            ),
        decreases toks@.len() - i,
    {
        check_token(out, &kind, &toks[i], ne, ae, ve);
        assert(views(toks@)[i as int] == toks@[i as int]@);
        i = i + 1;
    }
}

/// Number of items with the given id.
fn count_id(items: &Vec<ItemConfig>, id: &String) -> (r: usize)
    ensures
        r == id_count(items@, items@.len() as int, id@),
{
    let idc = chars_of(id.as_str());
    let mut c: usize = 0;
    let mut i: usize = 0;
    while i < items.len()
        invariant
            i <= items@.len(),
            idc@ == id@,
            c == id_count(items@, i as int, id@),
            c <= i,
        decreases items@.len() - i,
    {
        let other = chars_of(items[i].item_id.as_str());
        if chars_eq(&other, &idc) {
            c = c + 1;
        }
        i = i + 1;
    }
    c
}

/// Structural issues of a round (see `round_issues`).
pub fn check_issues(round: &RoundSettings) -> (r: Vec<Issue>)
    ensures
        issues_view(r@) == round_issues(*round),
{
    let items = &round.items;
    let mut out: Vec<Issue> = Vec::new();
    let mut i: usize = 0;
    while i < items.len()
        invariant
            i <= items@.len(),
            items@ == round.items@,
            issues_view(out@) == items_issues(items@, i as int),
        decreases items@.len() - i,
    {
        check_item(&mut out, &items[i]);
        i = i + 1;
    }
    let (ids, ne, ae, ve) = collect_entries(items);
    let ghost head = issues_view(out@);
    let sorted_ids = sorted_tokens(&ids);
    let mut k: usize = 0;
    while k < sorted_ids.len()
        invariant
            k <= sorted_ids@.len(),
            issues_view(out@) == head + duplicate_issues(items@, views(sorted_ids@), k as int),
        decreases sorted_ids@.len() - k,
    {
        let id = &sorted_ids[k];
        let c = count_id(items, id);
        let ghost before = issues_view(out@);
        if c > 1 {
            let idc = chars_of(id.as_str());
            let mut m = cat("item_id 重复：", &idc);
            append_str(&mut m, "（");
            crate::text::push_u64(&mut m, c as u64);
            append_str(&mut m, " 次）");
            let w = cat("item:", &idc);
            push_issue(&mut out, "error", "duplicate_item_id", &m, &w);
        }
        assert(views(sorted_ids@)[k as int] == id@);
        assert(issues_view(out@) =~= head + duplicate_issues(items@, views(sorted_ids@), k + 1));
        k = k + 1;
    }
    let nt = sorted_tokens(&ne);
    check_tokens(&mut out, TokenKind::Name, &nt, &ne, &ae, &ve);
    let at = sorted_tokens(&ae);
    check_tokens(&mut out, TokenKind::Alias, &at, &ne, &ae, &ve);
    let vt = sorted_tokens(&ve);
    check_tokens(&mut out, TokenKind::Variant, &vt, &ne, &ae, &ve);
    out
}

// ---------------------------------------------------------------------------
// Round administration
// ---------------------------------------------------------------------------
/// A request to create a round: its id, an optional title, and optionally
/// the round to copy the catalogue and settings from.
pub struct CreateRoundBody {
    pub round_id: String,
    pub title: Option<String>,
    pub copy_from: Option<String>,
}

/// A request to activate a round, with the mode (`continue` by default).
pub struct ActivateBody {
    pub mode: Option<String>,
}

/// The id of the active round: the one named active, else the configured round.
pub open spec fn active_id(cfg: AppConfig) -> Seq<char> {
    match cfg.active_round_id {
        Some(a) => a@,
        None => cfg.round.round_id@,
    }
}

/// The id of the active round (see `active_id`).
pub fn active_round_id(cfg: &AppConfig) -> (r: String)
    ensures
        r@ == active_id(*cfg),
{
    match &cfg.active_round_id {
        Some(a) => a.clone(),
        None => cfg.round.round_id.clone(),
    }
}

/// How a round is activated: keep the board, start a fresh board, or
/// rebuild the board by replaying the round's messages.
pub enum ActivateMode {
    Continue,
    Fresh,
    Replay,
}

/// The requested mode, trimmed and in ASCII lower case (`continue` when absent).
pub open spec fn mode_text(mode: Option<String>) -> Seq<char> {
    ascii_lower(
        trim(
            match mode {
                Some(m) => m@,
                None => "continue"@,
            },
        ),
    )
}

/// The activation mode named in a request (`continue`, `fresh` or
/// `replay`, in any ASCII case, surrounded by whitespace or not).
pub fn parse_activate_mode(mode: Option<String>) -> (r: Result<ActivateMode, ServiceError>)
    ensures
        mode_text(mode) == "continue"@ ==> r matches Ok(ActivateMode::Continue),
        mode_text(mode) == "fresh"@ ==> r matches Ok(ActivateMode::Fresh),
        mode_text(mode) == "replay"@ ==> r matches Ok(ActivateMode::Replay),
        mode_text(mode) != "continue"@ && mode_text(mode) != "fresh"@ && mode_text(mode) != "replay"@
            ==> (r matches Err(ServiceError::BadRequest(m)) && m@ == "mode 必须是 continue|fresh|replay"@),
{
    let raw = match &mode {
        Some(m) => chars_of(m.as_str()),
        None => chars_of("continue"),
    };
    let t = lower_ascii(&trim_chars(&raw));
    proof {
        reveal_strlit("continue");
        reveal_strlit("fresh");
        reveal_strlit("replay");
        assert("continue"@[0] != "fresh"@[0] && "continue"@[0] != "replay"@[0] && "fresh"@[0]
            != "replay"@[0]);
    }
    if chars_eq(&t, &chars_of("continue")) {
        Ok(ActivateMode::Continue)
    } else if chars_eq(&t, &chars_of("fresh")) {
        Ok(ActivateMode::Fresh)
    } else if chars_eq(&t, &chars_of("replay")) {
        Ok(ActivateMode::Replay)
    } else {
        Err(ServiceError::BadRequest(owned("mode 必须是 continue|fresh|replay")))
    }
}

/// A round may be deleted unless it is the active or the configured round;
/// gives the trimmed id.
pub fn check_deletable(cfg: &AppConfig, id: &str) -> (r: Result<String, ServiceError>)
    ensures
        trim(id@) == active_id(*cfg) || trim(id@) == cfg.round.round_id@ ==> (r matches Err(
            ServiceError::BadRequest(m),
        ) && m@ == "不能删除激活中的轮次"@),
        !(trim(id@) == active_id(*cfg) || trim(id@) == cfg.round.round_id@) ==> (r matches Ok(t)
            && t@ == trim(id@)),
{
    let t = trim_chars(&chars_of(id));
    let active = active_round_id(cfg);
    if chars_eq(&t, &chars_of(active.as_str())) || chars_eq(&t, &chars_of(cfg.round.round_id.as_str())) {
        Err(ServiceError::BadRequest(owned("不能删除激活中的轮次")))
    } else {
        Ok(string_of(&t))
    }
}

/// A round passes its check when no issue is an error.
pub fn issues_ok(issues: &[Issue]) -> (r: bool)
    ensures
        r == forall|k: int| 0 <= k < issues@.len() ==> (#[trigger] issues@[k]).level@ != "error"@,
{
    let mut k: usize = 0;
    while k < issues.len()
        invariant
            k <= issues@.len(),
            forall|j: int| 0 <= j < k ==> (#[trigger] issues@[j]).level@ != "error"@,
        decreases issues@.len() - k,
    {
        if str_eq(issues[k].level.as_str(), "error") {
            return false;
        }
        k = k + 1;
    }
    true
}

/// The id of a round to create: the requested id, trimmed, when it is valid.
pub fn new_round_id(raw: &str) -> (r: Result<String, ServiceError>)
    ensures
        valid_round_id(trim(raw@)) ==> (r matches Ok(t) && t@ == trim(raw@)),
        !valid_round_id(trim(raw@)) ==> (r matches Err(ServiceError::BadRequest(m)) && m@
            == "round_id 非法（非空、≤64 且仅允许字母/数字/中文/_-）"@),
{
    let t = string_of(&trim_chars(&chars_of(raw)));
    if is_valid_round_id(t.as_str()) {
        Ok(t)
    } else {
        Err(ServiceError::BadRequest(owned("round_id 非法（非空、≤64 且仅允许字母/数字/中文/_-）")))
    }
}

/// The round to copy from, when the request names one: trimmed and non-blank.
pub fn copy_source(copy_from: &Option<String>) -> (r: Option<String>)
    ensures
        match copy_from {
            Some(c) => if trim(c@).len() > 0 {
                r matches Some(s) && s@ == trim(c@)
            } else {
                r is None
            },
            None => r is None,
        },
{
    match copy_from {
        Some(c) => {
            let t = trim_chars(&chars_of(c.as_str()));
            if t.len() > 0 {
                Some(string_of(&t))
            } else {
                None
            }
        },
        None => None,
    }
}

/// The settings of a new round: `base` (the round copied from) under the
/// new id, or else an empty round titled by its id in the configured
/// group; a non-blank requested title, trimmed, replaces the title.
pub fn new_round_settings(round_id: String, title: Option<String>, base: Option<RoundSettings>, default_group: &String) -> (r: RoundSettings)
    ensures
        r.round_id@ == round_id@,
        match title {
            Some(t) if trim(t@).len() > 0 => r.title@ == trim(t@),
            _ => r.title@ == match base {
                Some(b) => b.title@,
                None => round_id@,
            },
        },
        match base {
            Some(b) => r.group_id == b.group_id && r.priority_users == b.priority_users
                && r.priority_window == b.priority_window && r.phases == b.phases && r.items
                == b.items,
            None => r.group_id@ == default_group@ && r.priority_users@.len() == 0
                && r.priority_window is None && r.phases@.len() == 0 && r.items@.len() == 0,
        },
{
    let mut round = match base {
        Some(b) => {
            let mut b = b;
            b.round_id = round_id;
            b
        },
        None => RoundSettings {
            round_id: round_id.clone(),
            title: round_id,
            group_id: default_group.clone(),
            priority_users: Vec::new(),
            priority_window: None,
            phases: Vec::new(),
            items: Vec::new(),
        },
    };
    if let Some(t) = &title {
        let tt = trim_chars(&chars_of(t.as_str()));
        if tt.len() > 0 {
            round.title = string_of(&tt);
        }
    }
    round
}

} // verus!
