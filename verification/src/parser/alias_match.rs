//! Resolving a claim line's name against the catalogue of the active
//! rounds: exact and fuzzy scoring of items and variants, and the
//! "first match" rule for a bare variant (character) name.
use vstd::prelude::*;

use crate::domain::{
    claim_type_named, kind_accepts, ClaimType, Item, ItemId, ItemKind, ItemVariant, RoundContext,
    RoundId,
};
use crate::parser::parsed_event::{ParsedClaimItem, ResolveResult};
use crate::text::{
    append_chars, append_str, chars_eq, chars_of, contains, contains_chars, join, join_chars,
    opt_view, string_of, trim, trim_chars, views,
};

verus! {

// ---------------------------------------------------------------------------
// Name matching
// ---------------------------------------------------------------------------
/// First-match candidates: group-buy and gift items.
pub open spec fn splittable_kind(k: ItemKind) -> bool {
    k == ItemKind::Split || k == ItemKind::Gift
}

/// The name is the item's id, name or one of its aliases.
pub open spec fn item_named(item: Item, name: Seq<char>) -> bool {
    item.item_id.0@ == name || item.name@ == name || views(item.aliases@).contains(name)
}

/// The name is the variant's name or alias, or one of them contains the other.
pub open spec fn variant_named(v: ItemVariant, name: Seq<char>) -> bool {
    v.name@ == name || views(v.aliases@).contains(name) || contains(v.name@, name) || contains(
        name,
        v.name@,
    )
}

/// Some variant of the item matches the name.
pub open spec fn some_variant_named(item: Item, name: Seq<char>) -> bool {
    exists|j: int| 0 <= j < item.variants@.len() && variant_named(item.variants@[j], name)
}

/// Some item of some round satisfies `item_named`.
pub open spec fn catalogue_names(rounds: Seq<RoundContext>, name: Seq<char>) -> bool {
    exists|r: int, i: int|
        0 <= r < rounds.len() && 0 <= i < rounds[r].items@.len() && item_named(
            rounds[r].items@[i],
            name,
        )
}

/// Some first-match candidate of some round has a variant matching the name.
pub open spec fn catalogue_has_variant(rounds: Seq<RoundContext>, name: Seq<char>) -> bool {
    exists|r: int, i: int|
        0 <= r < rounds.len() && 0 <= i < rounds[r].items@.len() && splittable_kind(
            rounds[r].items@[i].kind,
        ) && some_variant_named(rounds[r].items@[i], name)
}

/// The name (trimmed) is a bare variant name: not an item's id, name or
/// alias, but a variant name of some group-buy or gift item.
pub open spec fn bare_variant(name: Seq<char>, rounds: Seq<RoundContext>) -> bool {
    let n = trim(name);
    n.len() > 0 && !catalogue_names(rounds, n) && catalogue_has_variant(rounds, n)
}

/// Index of the first variant matching the name, or -1.
pub open spec fn first_variant(vs: Seq<ItemVariant>, name: Seq<char>) -> int
    decreases vs.len(),
{
    if vs.len() == 0 {
        -1
    } else if variant_named(vs[0], name) {
        0
    } else if first_variant(vs.drop_first(), name) >= 0 {
        first_variant(vs.drop_first(), name) + 1
    } else {
        -1
    }
}

/// First match within the items of one round.
pub open spec fn first_in_items(rid: RoundId, items: Seq<Item>, name: Seq<char>) -> Option<
    (RoundId, ItemId, Option<String>),
>
    decreases items.len(),
{
    if items.len() == 0 {
        None
    } else {
        let it = items[0];
        if splittable_kind(it.kind) && item_named(it, name) {
            Some((rid, it.item_id, None))
        } else if splittable_kind(it.kind) && first_variant(it.variants@, name) >= 0 {
            Some((rid, it.item_id, Some(it.variants@[first_variant(it.variants@, name)].variant_id)))
        } else {
            first_in_items(rid, items.drop_first(), name)
        }
    }
}

/// First match over the rounds in order.
pub open spec fn first_in_rounds(rounds: Seq<RoundContext>, name: Seq<char>) -> Option<
    (RoundId, ItemId, Option<String>),
>
    decreases rounds.len(),
{
    if rounds.len() == 0 {
        None
    } else {
        match first_in_items(rounds[0].round_id, rounds[0].items@, name) {
            Some(x) => Some(x),
            None => first_in_rounds(rounds.drop_first(), name),
        }
    }
}

/// The first-match rule: in catalogue order, the first group-buy or gift
/// item whose id/name/alias is the (trimmed) name — then without variant —
/// or that has a matching variant — then with the first such variant.
pub open spec fn first_match_of(name: Seq<char>, rounds: Seq<RoundContext>) -> Option<
    (RoundId, ItemId, Option<String>),
> {
    let n = trim(name);
    if n.len() == 0 {
        None
    } else {
        first_in_rounds(rounds, n)
    }
}

// ---------------------------------------------------------------------------
// Scoring
// ---------------------------------------------------------------------------
/// A scored candidate: round, item, variant (for variant matches) and score.
pub type Cand = (RoundId, ItemId, Option<String>, i32);

/// Name score of an item: exact id 1000, exact name 900, alias 800, the item
/// name contains the claim name 400, the claim name contains the item name 350.
pub open spec fn item_name_score(item: Item, name: Seq<char>) -> int {
    (if item.item_id.0@ == name { 1000int } else { 0int }) + (if item.name@ == name {
        900int
    } else {
        0int
    }) + (if views(item.aliases@).contains(name) { 800int } else { 0int }) + (if contains(
        item.name@,
        name,
    ) {
        400int
    } else {
        0int
    }) + (if contains(name, item.name@) { 350int } else { 0int })
}

/// Some alias contains the hint.
pub open spec fn alias_contains(aliases: Seq<String>, hint: Seq<char>) -> bool {
    exists|k: int| 0 <= k < aliases.len() && contains(aliases[k]@, hint)
}

/// Category-hint bonus of an item: 150 when its name or an alias contains the hint.
pub open spec fn item_hint_bonus(item: Item, hint: Option<Seq<char>>) -> int {
    match hint {
        Some(h) => if contains(item.name@, h) || alias_contains(item.aliases@, h) {
            150int
        } else {
            0int
        },
        None => 0int,
    }
}

/// Claim-type adjustment: +100 when the item kind accepts the named claim
/// type, -500 when it does not, 0 when no (known) type is named.
pub open spec fn type_adjust(kind: ItemKind, claim_type: Option<Seq<char>>) -> int {
    match claim_type {
        Some(s) => match claim_type_named(s) {
            Some(t) => if kind_accepts(kind, t) {
                100int
            } else {
                -500int
            },
            None => 0int,
        },
        None => 0int,
    }
}

/// Full score of an item for a claim line.
pub open spec fn item_score(item: Item, p: ParsedClaimItem) -> int {
    item_name_score(item, p.name@) + item_hint_bonus(item, opt_view(p.category_hint))
        + type_adjust(item.kind, opt_view(p.claim_type))
}

/// Item candidates of one round (items with a positive name score).
pub open spec fn item_cands(rid: RoundId, items: Seq<Item>, p: ParsedClaimItem) -> Seq<Cand>
    decreases items.len(),
{
    if items.len() == 0 {
        Seq::empty()
    } else {
        let it = items[0];
        let rest = item_cands(rid, items.drop_first(), p);
        if item_name_score(it, p.name@) > 0 {
            seq![(rid, it.item_id, None::<String>, item_score(it, p) as i32)] + rest
        } else {
            rest
        }
    }
}

/// Item candidates over the rounds, in catalogue order.
pub open spec fn item_cands_all(rounds: Seq<RoundContext>, p: ParsedClaimItem) -> Seq<Cand>
    decreases rounds.len(),
{
    if rounds.len() == 0 {
        Seq::empty()
    } else {
        item_cands(rounds[0].round_id, rounds[0].items@, p) + item_cands_all(
            rounds.drop_first(),
            p,
        )
    }
}

/// Score of a variant for a claim line.
pub open spec fn variant_score(item: Item, v: ItemVariant, p: ParsedClaimItem) -> int {
    let name = p.name@;
    (if v.name@ == name { 900int } else { 0int }) + (if views(v.aliases@).contains(name) {
        800int
    } else {
        0int
    }) + (if contains(v.name@, name) { 400int } else { 0int }) + (if contains(name, v.name@) {
        350int
    } else {
        0int
    }) + (match opt_view(p.category_hint) {
        Some(h) => if contains(v.name@, h) {
            150int
        } else {
            0int
        },
        None => 0int,
    }) + type_adjust(item.kind, opt_view(p.claim_type))
}

/// Variant candidates of one item (variants with a positive score).
pub open spec fn var_cands_of(rid: RoundId, item: Item, vs: Seq<ItemVariant>, p: ParsedClaimItem) -> Seq<
    Cand,
>
    decreases vs.len(),
{
    if vs.len() == 0 {
        Seq::empty()
    } else {
        let v = vs[0];
        let rest = var_cands_of(rid, item, vs.drop_first(), p);
        if variant_score(item, v, p) > 0 {
            seq![(rid, item.item_id, Some(v.variant_id), variant_score(item, v, p) as i32)] + rest
        } else {
            rest
        }
    }
}

/// Variant candidates of the items of one round.
pub open spec fn var_cands(rid: RoundId, items: Seq<Item>, p: ParsedClaimItem) -> Seq<Cand>
    decreases items.len(),
{
    if items.len() == 0 {
        Seq::empty()
    } else {
        var_cands_of(rid, items[0], items[0].variants@, p) + var_cands(rid, items.drop_first(), p)
    }
}

/// Variant candidates over the rounds, in catalogue order.
pub open spec fn var_cands_all(rounds: Seq<RoundContext>, p: ParsedClaimItem) -> Seq<Cand>
    decreases rounds.len(),
{
    if rounds.len() == 0 {
        Seq::empty()
    } else {
        var_cands(rounds[0].round_id, rounds[0].items@, p) + var_cands_all(rounds.drop_first(), p)
    }
}

/// Position at which `x` enters a list sorted by descending score: after
/// every entry scoring at least as much.
pub open spec fn ins_pos(s: Seq<Cand>, x: Cand) -> int
    decreases s.len(),
{
    if s.len() == 0 {
        0
    } else if s[0].3 < x.3 {
        0
    } else {
        1 + ins_pos(s.drop_first(), x)
    }
}

/// Stable sort by descending score (entries with equal scores keep their order).
pub open spec fn sort_desc(s: Seq<Cand>) -> Seq<Cand>
    decreases s.len(),
{
    if s.len() == 0 {
        Seq::empty()
    } else {
        let t = sort_desc(s.drop_last());
        t.insert(ins_pos(t, s.last()), s.last())
    }
}

/// The candidates within 200 points of the best one (in sorted order).
pub open spec fn near_top(sorted: Seq<Cand>) -> Seq<Cand> {
    sorted.filter(|c: Cand| c.3 >= sorted[0].3 - 200)
}

/// Display form of an item candidate: `(round,item)`.
pub open spec fn item_cand_label(c: Cand) -> Seq<char> {
    "("@ + c.0.0@ + ","@ + c.1.0@ + ")"@
}

/// Display form of a variant candidate: `(round,item,variant)`.
pub open spec fn var_cand_label(c: Cand) -> Seq<char> {
    "("@ + c.0.0@ + ","@ + c.1.0@ + ","@ + or_empty(opt_view(c.2)) + ")"@
}

/// The view of an optional string, `None` read as empty.
pub open spec fn or_empty(s: Option<Seq<char>>) -> Seq<char> {
    match s {
        Some(x) => x,
        None => Seq::empty(),
    }
}

/// `(round, item, score)` of a candidate.
pub open spec fn plain(c: Cand) -> (RoundId, ItemId, i32) {
    (c.0, c.1, c.3)
}

/// The resolution decided from sorted candidates: none (or a non-positive
/// best) is not found; a single candidate or a lead of at least 300 points
/// resolves; otherwise ambiguous among the candidates within 200 points.
pub open spec fn decided(sorted: Seq<Cand>, variant: bool, r: ResolveResult) -> bool {
    if sorted.len() == 0 || sorted[0].3 <= 0 {
        !r.resolved && r.ambiguity is None && r.item_id is None && r.round_id is None
            && r.variant_id is None && r.candidates@.len() == 0
    } else if sorted.len() == 1 || sorted[0].3 >= sorted[1].3 + 300 {
        r.resolved && r.round_id == Some(sorted[0].0) && r.item_id == Some(sorted[0].1) && (if variant {
            r.variant_id == sorted[0].2
        } else {
            r.variant_id is None
        }) && r.ambiguity is None && r.candidates@.len() == 0
    } else {
        let top = near_top(sorted);
        !r.resolved && r.round_id is None && r.item_id is None && r.variant_id is None
            && r.candidates@ == top.map_values(|c: Cand| plain(c)) && opt_view(r.ambiguity)
            == Some(
            if variant {
                "匹配到多个变体："@ + join(top.map_values(|c: Cand| var_cand_label(c)), ", "@)
            } else {
                "匹配到多个商品："@ + join(top.map_values(|c: Cand| item_cand_label(c)), ", "@)
            },
        )
    }
}

/// The full resolution rule for one claim line: a bare variant name takes the
/// first match; otherwise items are scored first, and variants only when no
/// item resolved and no item ambiguity was found.
pub open spec fn resolution_of(p: ParsedClaimItem, rounds: Seq<RoundContext>, r: ResolveResult) -> bool {
    if bare_variant(p.name@, rounds) && first_match_of(p.name@, rounds) is Some {
        let m = first_match_of(p.name@, rounds).unwrap();
        r.resolved && r.round_id == Some(m.0) && r.item_id == Some(m.1) && r.variant_id == m.2
            && r.ambiguity is None && r.candidates@.len() == 0
    } else {
        let base = sort_desc(item_cands_all(rounds, p));
        let base_found = base.len() > 0 && base[0].3 > 0;
        if base_found {
            decided(base, false, r)
        } else {
            decided(sort_desc(var_cands_all(rounds, p)), true, r)
        }
    }
}

// ---------------------------------------------------------------------------
// Implementation
// ---------------------------------------------------------------------------
/// Whether the vector holds a string equal to `name`.
fn any_equal(v: &Vec<String>, name: &[char]) -> (r: bool)
    ensures
        r == views(v@).contains(name@),
{
    let mut i: usize = 0;
    while i < v.len()
        invariant
            i <= v@.len(),
            forall|j: int| 0 <= j < i ==> v@[j]@ != name@,
        decreases v@.len() - i,
    {
        let c = chars_of(v[i].as_str());
        if chars_eq(&c, name) {
            assert(views(v@)[i as int] == name@);
            return true;
        }
        i = i + 1;
    }
    assert forall|j: int| 0 <= j < views(v@).len() implies views(v@)[j] != name@ by {
        assert(v@[j]@ != name@);
    }
    false
}

/// Whether some string of the vector contains `hint`.
fn any_contains(v: &Vec<String>, hint: &[char]) -> (r: bool)
    ensures
        r == alias_contains(v@, hint@),
{
    let mut i: usize = 0;
    while i < v.len()
        invariant
            i <= v@.len(),
            forall|j: int| 0 <= j < i ==> !contains(v@[j]@, hint@),
        decreases v@.len() - i,
    {
        let c = chars_of(v[i].as_str());
        if contains_chars(&c, hint) {
            return true;
        }
        i = i + 1;
    }
    false
}

/// First-match candidates: group-buy (`Split`) and gift items; single,
/// whole-box, shipping and adjustment items never are.
pub fn is_splittable(item: &Item) -> (r: bool)
    ensures
        r == splittable_kind(item.kind),
{
    match item.kind {
        ItemKind::Split | ItemKind::Gift => true,
        _ => false,
    }
}

fn item_name_matches(item: &Item, name: &[char]) -> (r: bool)
    ensures
        r == item_named(*item, name@),
{
    let id = chars_of(item.item_id.0.as_str());
    let nm = chars_of(item.name.as_str());
    chars_eq(&id, name) || chars_eq(&nm, name) || any_equal(&item.aliases, name)
}

fn variant_name_matches(variant: &ItemVariant, name: &[char]) -> (r: bool)
    ensures
        r == variant_named(*variant, name@),
{
    let vn = chars_of(variant.name.as_str());
    chars_eq(&vn, name) || any_equal(&variant.aliases, name) || contains_chars(&vn, name)
        || contains_chars(name, &vn)
}

/// Index of the first variant matching the name.
fn find_variant(vs: &Vec<ItemVariant>, name: &[char]) -> (r: Option<usize>)
    ensures
        match r {
            Some(j) => j < vs@.len() && first_variant(vs@, name@) == j,
            None => first_variant(vs@, name@) == -1,
        },
{
    let mut j: usize = 0;
    assert(vs@.skip(0) =~= vs@);
    while j < vs.len()
        invariant
            j <= vs@.len(),
            forall|k: int| 0 <= k < j ==> !variant_named(#[trigger] vs@[k], name@),
            first_variant(vs@, name@) == (if first_variant(vs@.skip(j as int), name@) >= 0 {
                first_variant(vs@.skip(j as int), name@) + j
            } else {
                -1
            }),
        decreases vs@.len() - j,
    {
        assert(vs@.skip(j as int).drop_first() =~= vs@.skip(j + 1));
        assert(vs@.skip(j as int)[0] == vs@[j as int]);
        if variant_name_matches(&vs[j], name) {
            return Some(j);
        }
        j = j + 1;
    }
    None
}

/// Whether the name (trimmed) is a bare variant name: it names no item (id,
/// name or alias) of any round, but names a variant of some group-buy or gift
/// item.
pub fn is_bare_variant_name(name: &str, active_rounds: &[RoundContext]) -> (r: bool)
    ensures
        r == bare_variant(name@, active_rounds@),
{
    let v = chars_of(name);
    let n = trim_chars(&v);
    if n.len() == 0 {
        return false;
    }
    let mut r: usize = 0;
    while r < active_rounds.len()
        invariant
            r <= active_rounds@.len(),
            n@ == trim(name@),
            n@.len() > 0,
            forall|a: int, i: int|
                0 <= a < r && 0 <= i < active_rounds@[a].items@.len() ==> !item_named(
                    #[trigger] active_rounds@[a].items@[i],
                    n@,
                ),
        decreases active_rounds@.len() - r,
    {
        let items = &active_rounds[r].items;
        let mut i: usize = 0;
        while i < items.len()
            invariant
                r < active_rounds@.len(),
                n@ == trim(name@),
                n@.len() > 0,
                items@ == active_rounds@[r as int].items@,
                i <= items@.len(),
                forall|a: int, b: int|
                    0 <= a < r && 0 <= b < active_rounds@[a].items@.len() ==> !item_named(
                        #[trigger] active_rounds@[a].items@[b],
                        n@,
                    ),
                forall|b: int| 0 <= b < i ==> !item_named(#[trigger] items@[b], n@),
            decreases items@.len() - i,
        {
            if item_name_matches(&items[i], &n) {
                assert(catalogue_names(active_rounds@, n@)) by {
                    assert(item_named(active_rounds@[r as int].items@[i as int], n@));
                }
                return false;
            }
            i = i + 1;
        }
        r = r + 1;
    }
    let mut r: usize = 0;
    while r < active_rounds.len()
        invariant
            r <= active_rounds@.len(),
            n@ == trim(name@),
            n@.len() > 0,
            !catalogue_names(active_rounds@, n@),
            forall|a: int, i: int|
                0 <= a < r && 0 <= i < active_rounds@[a].items@.len() ==> !(splittable_kind(
                    active_rounds@[a].items@[i].kind,
                ) && some_variant_named(#[trigger] active_rounds@[a].items@[i], n@)),
        decreases active_rounds@.len() - r,
    {
        let items = &active_rounds[r].items;
        let mut i: usize = 0;
        while i < items.len()
            invariant
                r < active_rounds@.len(),
                n@ == trim(name@),
                n@.len() > 0,
                items@ == active_rounds@[r as int].items@,
                i <= items@.len(),
                !catalogue_names(active_rounds@, n@),
                forall|a: int, b: int|
                    0 <= a < r && 0 <= b < active_rounds@[a].items@.len() ==> !(splittable_kind(
                        active_rounds@[a].items@[b].kind,
                    ) && some_variant_named(#[trigger] active_rounds@[a].items@[b], n@)),
                forall|b: int|
                    0 <= b < i ==> !(splittable_kind(items@[b].kind) && some_variant_named(
                        #[trigger] items@[b],
                        n@,
                    )),
            decreases items@.len() - i,
        {
            if is_splittable(&items[i]) {
                match find_variant(&items[i].variants, &n) {
                    Some(j) => {
                        proof {
                            lemma_first_variant_some(items@[i as int].variants@, n@);
                        }
                        assert(catalogue_has_variant(active_rounds@, n@)) by {
                            assert(variant_named(items@[i as int].variants@[j as int], n@));
                        }
                        return true;
                    },
                    None => {
                        proof {
                            lemma_first_variant_none(items@[i as int].variants@, n@);
                        }
                    },
                }
            }
            i = i + 1;
        }
        r = r + 1;
    }
    false
}

proof fn lemma_first_variant_none(vs: Seq<ItemVariant>, name: Seq<char>)
    requires
        first_variant(vs, name) == -1,
    ensures
        forall|j: int| 0 <= j < vs.len() ==> !variant_named(#[trigger] vs[j], name),
    decreases vs.len(),
{
    if vs.len() > 0 {
        lemma_first_variant_none(vs.drop_first(), name);
        assert forall|j: int| 0 <= j < vs.len() implies !variant_named(#[trigger] vs[j], name) by {
            if j > 0 {
                assert(vs.drop_first()[j - 1] == vs[j]);
            }
        }
    }
}

proof fn lemma_first_variant_some(vs: Seq<ItemVariant>, name: Seq<char>)
    requires
        first_variant(vs, name) >= 0,
    ensures
        first_variant(vs, name) < vs.len(),
        variant_named(vs[first_variant(vs, name)], name),
    decreases vs.len(),
{
    if vs.len() > 0 && !variant_named(vs[0], name) {
        lemma_first_variant_some(vs.drop_first(), name);
        assert(vs.drop_first()[first_variant(vs.drop_first(), name)] == vs[first_variant(vs, name)]);
    }
}

proof fn lemma_first_variant_bounds(vs: Seq<ItemVariant>, name: Seq<char>)
    ensures
        -1 <= first_variant(vs, name) < vs.len(),
    decreases vs.len(),
{
    if vs.len() > 0 {
        lemma_first_variant_bounds(vs.drop_first(), name);
    }
}

/// First match: in catalogue order, the first group-buy or gift item
/// whose id, name or alias is the trimmed name (no variant), or that has a
/// variant matching it (that variant, the first such one).
pub fn first_match(name: &str, active_rounds: &[RoundContext]) -> (r: Option<
    (RoundId, ItemId, Option<String>),
>)
    ensures
        r == first_match_of(name@, active_rounds@),
{
    let v = chars_of(name);
    let n = trim_chars(&v);
    if n.len() == 0 {
        return None;
    }
    let mut r: usize = 0;
    assert(active_rounds@.skip(0) =~= active_rounds@);
    while r < active_rounds.len()
        invariant
            r <= active_rounds@.len(),
            n@ == trim(name@),
            n@.len() > 0,
            first_in_rounds(active_rounds@, n@) == first_in_rounds(
                active_rounds@.skip(r as int),
                n@,
            ),
        decreases active_rounds@.len() - r,
    {
        let round = &active_rounds[r];
        let items = &round.items;
        assert(active_rounds@.skip(r as int)[0] == active_rounds@[r as int]);
        assert(active_rounds@.skip(r as int).drop_first() =~= active_rounds@.skip(r + 1));
        let mut i: usize = 0;
        assert(items@.skip(0) =~= items@);
        while i < items.len()
            invariant
                r < active_rounds@.len(),
                *round == active_rounds@[r as int],
                items@ == round.items@,
                i <= items@.len(),
                n@ == trim(name@),
                n@.len() > 0,
            n@.len() > 0,
                first_in_rounds(active_rounds@, n@) == (match first_in_items(
                    round.round_id,
                    items@.skip(i as int),
                    n@,
                ) {
                    Some(x) => Some(x),
                    None => first_in_rounds(active_rounds@.skip(r + 1), n@),
                }),
            decreases items@.len() - i,
        {
            let item = &items[i];
            assert(items@.skip(i as int)[0] == items@[i as int]);
            assert(items@.skip(i as int).drop_first() =~= items@.skip(i + 1));
            if is_splittable(item) {
                if item_name_matches(item, &n) {
                    return Some((round.round_id.duplicate(), item.item_id.duplicate(), None));
                }
                match find_variant(&item.variants, &n) {
                    Some(j) => {
                        proof {
                            lemma_first_variant_some(item.variants@, n@);
                        }
                        return Some(
                            (
                                round.round_id.duplicate(),
                                item.item_id.duplicate(),
                                Some(item.variants[j].variant_id.clone()),
                            ),
                        );
                    },
                    None => {},
                }
            }
            i = i + 1;
        }
        r = r + 1;
    }
    None
}

/// Copies a candidate.
fn dup_cand(c: &Cand) -> (r: Cand)
    ensures
        r == *c,
{
    (c.0.duplicate(), c.1.duplicate(), crate::text::clone_opt(&c.2), c.3)
}

/// Inserts a candidate after every entry scoring at least as much.
fn insert_desc(v: &mut Vec<Cand>, x: Cand)
    ensures
        final(v)@ == old(v)@.insert(ins_pos(old(v)@, x), x),
{
    let ghost s = v@;
    let mut i: usize = 0;
    assert(s.skip(0) =~= s);
    while i < v.len() && v[i].3 >= x.3
        invariant
            i <= v@.len(),
            v@ == s,
            ins_pos(s, x) == i + ins_pos(s.skip(i as int), x),
        decreases v@.len() - i,
    {
        assert(s.skip(i as int)[0] == s[i as int]);
        assert(s.skip(i as int).drop_first() =~= s.skip(i + 1));
        i = i + 1;
    }
    proof {
        if i < s.len() {
            assert(s.skip(i as int)[0] == s[i as int]);
        }
    }
    v.insert(i, x);
}

proof fn lemma_sort_desc_len(s: Seq<Cand>)
    ensures
        sort_desc(s).len() == s.len(),
    decreases s.len(),
{
    if s.len() > 0 {
        lemma_sort_desc_len(s.drop_last());
        lemma_ins_pos_bounds(sort_desc(s.drop_last()), s.last());
    }
}

proof fn lemma_ins_pos_bounds(s: Seq<Cand>, x: Cand)
    ensures
        0 <= ins_pos(s, x) <= s.len(),
    decreases s.len(),
{
    if s.len() > 0 {
        lemma_ins_pos_bounds(s.drop_first(), x);
    }
}

/// Stable sort by descending score.
fn sort_cands(c: &Vec<Cand>) -> (r: Vec<Cand>)
    ensures
        r@ == sort_desc(c@),
{
    let mut out: Vec<Cand> = Vec::new();
    let mut i: usize = 0;
    while i < c.len()
        invariant
            i <= c@.len(),
            out@ == sort_desc(c@.take(i as int)),
        decreases c@.len() - i,
    {
        assert(c@.take(i + 1).drop_last() =~= c@.take(i as int));
        assert(c@.take(i + 1).last() == c@[i as int]);
        let x = dup_cand(&c[i]);
        insert_desc(&mut out, x);
        i = i + 1;
    }
    assert(c@.take(c@.len() as int) =~= c@);
    out
}

/// Builds the characters of an optional string (`None` as empty).
fn opt_chars(s: &Option<String>) -> (r: Vec<char>)
    ensures
        r@ == or_empty(opt_view(*s)),
{
    match s {
        Some(x) => chars_of(x.as_str()),
        None => Vec::new(),
    }
}

/// The label `(round,item)` or `(round,item,variant)` of a candidate.
fn cand_label(c: &Cand, variant: bool) -> (r: Vec<char>)
    ensures
        r@ == (if variant {
            var_cand_label(*c)
        } else {
            item_cand_label(*c)
        }),
{
    let mut out: Vec<char> = Vec::new();
    append_str(&mut out, "(");
    append_str(&mut out, c.0.0.as_str());
    append_str(&mut out, ",");
    append_str(&mut out, c.1.0.as_str());
    if variant {
        append_str(&mut out, ",");
        let v = opt_chars(&c.2);
        append_chars(&mut out, &v);
    }
    append_str(&mut out, ")");
    proof {
        reveal_strlit("");
        if variant {
            assert(out@ =~= var_cand_label(*c));
        } else {
            assert(out@ =~= item_cand_label(*c));
        }
    }
    out
}

/// Resolution decided from candidates sorted by descending score.
fn decide(sorted: &Vec<Cand>, variant: bool) -> (r: ResolveResult)
    ensures
        decided(sorted@, variant, r),
{
    let n = sorted.len();
    if n == 0 || sorted[0].3 <= 0 {
        return ResolveResult::not_found();
    }
    if n == 1 || sorted[0].3 as i64 >= sorted[1].3 as i64 + 300 {
        let best = &sorted[0];
        if variant {
            return ResolveResult {
                round_id: Some(best.0.duplicate()),
                item_id: Some(best.1.duplicate()),
                variant_id: crate::text::clone_opt(&best.2),
                candidates: Vec::new(),
                resolved: true,
                ambiguity: None,
            };
        } else {
            return ResolveResult::resolved(best.0.duplicate(), best.1.duplicate());
        }
    }
    let threshold = sorted[0].3 as i64 - 200;
    let ghost top = near_top(sorted@);
    let mut plain_top: Vec<(RoundId, ItemId, i32)> = Vec::new();
    let mut labels: Vec<Vec<char>> = Vec::new();
    let ghost mut kept: Seq<Cand> = Seq::empty();
    let mut i: usize = 0;
    while i < n
        invariant
            n == sorted@.len(),
            n > 0,
            threshold == sorted@[0].3 - 200,
            i <= n,
            kept == sorted@.take(i as int).filter(|c: Cand| c.3 >= sorted@[0].3 - 200),
            plain_top@ == kept.map_values(|c: Cand| plain(c)),
            labels@.map_values(|p: Vec<char>| p@) == kept.map_values(
                |c: Cand|
                    if variant {
                        var_cand_label(c)
                    } else {
                        item_cand_label(c)
                    },
            ),
        decreases n - i,
    {
        let c = &sorted[i];
        assert(sorted@.take(i + 1).drop_last() =~= sorted@.take(i as int));
        if c.3 as i64 >= threshold {
            plain_top.push((c.0.duplicate(), c.1.duplicate(), c.3));
            let lbl = cand_label(c, variant);
            let ghost prev_labels = labels@.map_values(|p: Vec<char>| p@);
            labels.push(lbl);
            proof {
                kept = kept.push(*c);
                assert(labels@.map_values(|p: Vec<char>| p@) =~= prev_labels.push(lbl@));
            }
        }
        proof {
            reveal_with_fuel(Seq::<_>::filter, 1);
            assert(sorted@.take(i + 1).filter(|c: Cand| c.3 >= sorted@[0].3 - 200) =~= kept);
        }
        i = i + 1;
    }
    assert(sorted@.take(n as int) =~= sorted@);
    let joined = join_chars(&labels, ", ");
    let mut msg: Vec<char> = Vec::new();
    if variant {
        append_str(&mut msg, "匹配到多个变体：");
    } else {
        append_str(&mut msg, "匹配到多个商品：");
    }
    append_chars(&mut msg, &joined);
    proof {
        assert(labels@.map_values(|p: Vec<char>| p@) =~= top.map_values(
            |c: Cand|
                if variant {
                    var_cand_label(c)
                } else {
                    item_cand_label(c)
                },
        ));
        if variant {
            assert(top.map_values(
                |c: Cand|
                    if variant {
                        var_cand_label(c)
                    } else {
                        item_cand_label(c)
                    },
            ) =~= top.map_values(|c: Cand| var_cand_label(c)));
        } else {
            assert(top.map_values(
                |c: Cand|
                    if variant {
                        var_cand_label(c)
                    } else {
                        item_cand_label(c)
                    },
            ) =~= top.map_values(|c: Cand| item_cand_label(c)));
        }
    }
    ResolveResult::ambiguous(plain_top, string_of(&msg))
}

/// Claim-type adjustment of an item kind for the line's claim type.
fn type_adjustment(kind: ItemKind, claim_type: &Option<String>) -> (r: i32)
    ensures
        r == type_adjust(kind, opt_view(*claim_type)),
{
    match claim_type {
        Some(s) => match ClaimType::from_str(s.as_str()) {
            Some(t) => if kind.compatible_with(&t) {
                100
            } else {
                -500
            },
            None => 0,
        },
        None => 0,
    }
}

/// Name score of an item.
fn item_name_points(item: &Item, name: &[char]) -> (r: i32)
    ensures
        r == item_name_score(*item, name@),
        0 <= r <= 3450,
{
    let id = chars_of(item.item_id.0.as_str());
    let nm = chars_of(item.name.as_str());
    let mut score: i32 = 0;
    if chars_eq(&id, name) {
        score = score + 1000;
    }
    if chars_eq(&nm, name) {
        score = score + 900;
    }
    if any_equal(&item.aliases, name) {
        score = score + 800;
    }
    if contains_chars(&nm, name) {
        score = score + 400;
    }
    if contains_chars(name, &nm) {
        score = score + 350;
    }
    score
}

/// Category-hint bonus of an item.
fn item_hint_points(item: &Item, hint: &Option<String>) -> (r: i32)
    ensures
        r == item_hint_bonus(*item, opt_view(*hint)),
{
    match hint {
        Some(h) => {
            let hc = chars_of(h.as_str());
            let nm = chars_of(item.name.as_str());
            if contains_chars(&nm, &hc) || any_contains(&item.aliases, &hc) {
                150
            } else {
                0
            }
        },
        None => 0,
    }
}

/// Score of a variant for a claim line.
fn variant_points(item: &Item, v: &ItemVariant, p: &ParsedClaimItem, name: &[char]) -> (r: i32)
    requires
        name@ == p.name@,
    ensures
        r == variant_score(*item, *v, *p),
{
    let vn = chars_of(v.name.as_str());
    let mut score: i32 = 0;
    if chars_eq(&vn, name) {
        score = score + 900;
    }
    if any_equal(&v.aliases, name) {
        score = score + 800;
    }
    if contains_chars(&vn, name) {
        score = score + 400;
    }
    if contains_chars(name, &vn) {
        score = score + 350;
    }
    match &p.category_hint {
        Some(h) => {
            let hc = chars_of(h.as_str());
            if contains_chars(&vn, &hc) {
                score = score + 150;
            }
        },
        None => {},
    }
    score + type_adjustment(item.kind, &p.claim_type)
}

/// Scores the items of all rounds against the claim line and decides.
fn resolve_base_item(parsed: &ParsedClaimItem, active_rounds: &[RoundContext]) -> (r:
    ResolveResult)
    ensures
        decided(sort_desc(item_cands_all(active_rounds@, *parsed)), false, r),
{
    let ghost all = item_cands_all(active_rounds@, *parsed);
    let name = chars_of(parsed.name.as_str());
    let mut cands: Vec<Cand> = Vec::new();
    let mut r: usize = 0;
    assert(active_rounds@.skip(0) =~= active_rounds@);
    assert(cands@ + all =~= all);
    while r < active_rounds.len()
        invariant
            r <= active_rounds@.len(),
            name@ == parsed.name@,
            all == item_cands_all(active_rounds@, *parsed),
            all == cands@ + item_cands_all(active_rounds@.skip(r as int), *parsed),
        decreases active_rounds@.len() - r,
    {
        let round = &active_rounds[r];
        let items = &round.items;
        assert(active_rounds@.skip(r as int)[0] == active_rounds@[r as int]);
        assert(active_rounds@.skip(r as int).drop_first() =~= active_rounds@.skip(r + 1));
        let ghost rest = item_cands_all(active_rounds@.skip(r + 1), *parsed);
        let mut i: usize = 0;
        assert(items@.skip(0) =~= items@);
        assert(all =~= cands@ + item_cands(round.round_id, items@.skip(0), *parsed) + rest);
        while i < items.len()
            invariant
                r < active_rounds@.len(),
                *round == active_rounds@[r as int],
                items@ == round.items@,
                i <= items@.len(),
                name@ == parsed.name@,
                rest == item_cands_all(active_rounds@.skip(r + 1), *parsed),
                all == cands@ + item_cands(round.round_id, items@.skip(i as int), *parsed) + rest,
            decreases items@.len() - i,
        {
            let item = &items[i];
            assert(items@.skip(i as int)[0] == items@[i as int]);
            assert(items@.skip(i as int).drop_first() =~= items@.skip(i + 1));
            let ghost tail = item_cands(round.round_id, items@.skip(i + 1), *parsed);
            let ns = item_name_points(item, &name);
            if ns > 0 {
                let score = ns + item_hint_points(item, &parsed.category_hint) + type_adjustment(
                    item.kind,
                    &parsed.claim_type,
                );
                let ghost prev = cands@;
                cands.push((round.round_id.duplicate(), item.item_id.duplicate(), None, score));
                assert(all =~= cands@ + tail + rest) by {
                    assert(cands@ =~= prev + seq![
                        (round.round_id, item.item_id, None::<String>, item_score(*item, *parsed) as i32),
                    ]);
                }
            } else {
                assert(all =~= cands@ + tail + rest);
            }
            i = i + 1;
        }
        assert(items@.skip(i as int) =~= Seq::<Item>::empty());
        assert(all =~= cands@ + item_cands_all(active_rounds@.skip(r + 1), *parsed));
        r = r + 1;
    }
    assert(active_rounds@.skip(r as int) =~= Seq::<RoundContext>::empty());
    assert(cands@ =~= all);
    let sorted = sort_cands(&cands);
    decide(&sorted, false)
}

/// Scores the variants of all items against the claim line and decides.
fn resolve_variant(parsed: &ParsedClaimItem, active_rounds: &[RoundContext]) -> (r:
    ResolveResult)
    ensures
        decided(sort_desc(var_cands_all(active_rounds@, *parsed)), true, r),
{
    let ghost all = var_cands_all(active_rounds@, *parsed);
    let name = chars_of(parsed.name.as_str());
    let mut cands: Vec<Cand> = Vec::new();
    let mut r: usize = 0;
    assert(active_rounds@.skip(0) =~= active_rounds@);
    assert(cands@ + all =~= all);
    while r < active_rounds.len()
        invariant
            r <= active_rounds@.len(),
            name@ == parsed.name@,
            all == var_cands_all(active_rounds@, *parsed),
            all == cands@ + var_cands_all(active_rounds@.skip(r as int), *parsed),
        decreases active_rounds@.len() - r,
    {
        let round = &active_rounds[r];
        let items = &round.items;
        assert(active_rounds@.skip(r as int)[0] == active_rounds@[r as int]);
        assert(active_rounds@.skip(r as int).drop_first() =~= active_rounds@.skip(r + 1));
        let ghost rest = var_cands_all(active_rounds@.skip(r + 1), *parsed);
        let mut i: usize = 0;
        assert(items@.skip(0) =~= items@);
        assert(all =~= cands@ + var_cands(round.round_id, items@.skip(0), *parsed) + rest);
        while i < items.len()
            invariant
                r < active_rounds@.len(),
                *round == active_rounds@[r as int],
                items@ == round.items@,
                i <= items@.len(),
                name@ == parsed.name@,
                rest == var_cands_all(active_rounds@.skip(r + 1), *parsed),
                all == cands@ + var_cands(round.round_id, items@.skip(i as int), *parsed) + rest,
            decreases items@.len() - i,
        {
            let item = &items[i];
            let vs = &item.variants;
            assert(items@.skip(i as int)[0] == items@[i as int]);
            assert(items@.skip(i as int).drop_first() =~= items@.skip(i + 1));
            let ghost tail = var_cands(round.round_id, items@.skip(i + 1), *parsed) + rest;
            let mut j: usize = 0;
            assert(vs@.skip(0) =~= vs@);
            assert(all =~= cands@ + var_cands_of(round.round_id, *item, vs@.skip(0), *parsed)
                + tail);
            while j < vs.len()
                invariant
                    *item == items@[i as int],
                    vs@ == item.variants@,
                    j <= vs@.len(),
                    name@ == parsed.name@,
                    all == cands@ + var_cands_of(round.round_id, *item, vs@.skip(j as int), *parsed)
                        + tail,
                decreases vs@.len() - j,
            {
                let v = &vs[j];
                assert(vs@.skip(j as int)[0] == vs@[j as int]);
                assert(vs@.skip(j as int).drop_first() =~= vs@.skip(j + 1));
                let ghost after = var_cands_of(round.round_id, *item, vs@.skip(j + 1), *parsed);
                let score = variant_points(item, v, parsed, &name);
                if score > 0 {
                    let ghost prev = cands@;
                    cands.push(
                        (
                            round.round_id.duplicate(),
                            item.item_id.duplicate(),
                            Some(v.variant_id.clone()),
                            score,
                        ),
                    );
                    assert(all =~= cands@ + after + tail) by {
                        assert(cands@ =~= prev + seq![
                            (round.round_id, item.item_id, Some(v.variant_id), score),
                        ]);
                    }
                } else {
                    assert(all =~= cands@ + after + tail);
                }
                j = j + 1;
            }
            assert(vs@.skip(j as int) =~= Seq::<ItemVariant>::empty());
            assert(all =~= cands@ + var_cands(round.round_id, items@.skip(i + 1), *parsed) + rest);
            i = i + 1;
        }
        assert(items@.skip(i as int) =~= Seq::<Item>::empty());
        assert(all =~= cands@ + var_cands_all(active_rounds@.skip(r + 1), *parsed));
        r = r + 1;
    }
    assert(active_rounds@.skip(r as int) =~= Seq::<RoundContext>::empty());
    assert(cands@ =~= all);
    let sorted = sort_cands(&cands);
    decide(&sorted, true)
}

/// Resolves one claim line against the catalogue of the active rounds
/// (see `resolution_of`).
pub fn resolve_item(parsed: &ParsedClaimItem, active_rounds: &[RoundContext]) -> (r:
    ResolveResult)
    ensures
        resolution_of(*parsed, active_rounds@, r),
{
    if is_bare_variant_name(parsed.name.as_str(), active_rounds) {
        match first_match(parsed.name.as_str(), active_rounds) {
            Some((round_id, item_id, variant_id)) => {
                return match variant_id {
                    Some(vid) => ResolveResult::resolved_variant(round_id, item_id, vid),
                    None => ResolveResult::resolved(round_id, item_id),
                };
            },
            None => {},
        }
    }
    let base = resolve_base_item(parsed, active_rounds);
    if base.resolved || base.ambiguity.is_some() {
        return base;
    }
    resolve_variant(parsed, active_rounds)
}

/// Resolves each claim line in turn.
pub fn resolve_multiple_items(parsed_items: &[ParsedClaimItem], active_rounds: &[RoundContext]) -> (r:
    Vec<ResolveResult>)
    ensures
        r@.len() == parsed_items@.len(),
        forall|k: int|
            0 <= k < r@.len() ==> resolution_of(parsed_items@[k], active_rounds@, #[trigger] r@[k]),
{
    let mut out: Vec<ResolveResult> = Vec::new();
    let mut k: usize = 0;
    while k < parsed_items.len()
        invariant
            k <= parsed_items@.len(),
            out@.len() == k,
            forall|m: int|
                0 <= m < k ==> resolution_of(parsed_items@[m], active_rounds@, #[trigger] out@[m]),
        decreases parsed_items@.len() - k,
    {
        let res = resolve_item(&parsed_items[k], active_rounds);
        out.push(res);
        k = k + 1;
    }
    out
}

} // verus!
