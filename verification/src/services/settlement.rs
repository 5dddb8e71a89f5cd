//! Settlement request helpers: catalogue price adjustments merged into the
//! pricing, and the planning strategy named in a request.
use vstd::prelude::*;

use crate::planner::Strategy;
use crate::settings::{RoundSettings, VariantConfig};
use crate::settlement::{PricingEntry, PricingMode, SettlementConfig};
use crate::text::{opt_view, str_eq};

verus! {

/// The pricing entry `(item, Some(variant), AdjustBy, value)` as plain values.
pub type PricingV = (Seq<char>, Option<Seq<char>>, PricingMode, i64);

/// The view of a pricing entry.
pub open spec fn pricing_view(e: PricingEntry) -> PricingV {
    (e.item_id@, opt_view(e.variant_id), e.mode, e.value)
}

/// Some entry prices exactly this item and variant.
pub open spec fn priced(ps: Seq<PricingV>, item_id: Seq<char>, variant_id: Seq<char>) -> bool {
    exists|k: int| 0 <= k < ps.len() && ps[k].0 == item_id && ps[k].1 == Some(variant_id)
}

/// Adds the adjustment of one variant unless it is zero or already priced.
pub open spec fn merge_variant(ps: Seq<PricingV>, item_id: Seq<char>, v: VariantConfig) -> Seq<PricingV> {
    if v.adjust_cents == 0 || priced(ps, item_id, v.variant_id@) {
        ps
    } else {
        ps.push((item_id, Some(v.variant_id@), PricingMode::AdjustBy, v.adjust_cents))
    }
}

/// Merges the first `n` variants of an item.
pub open spec fn merge_variants(ps: Seq<PricingV>, item_id: Seq<char>, vs: Seq<VariantConfig>, n: int) -> Seq<PricingV>
    decreases n,
{
    if n <= 0 {
        ps
    } else {
        merge_variant(merge_variants(ps, item_id, vs, n - 1), item_id, vs[n - 1])
    }
}

/// Merges the variant adjustments of the first `n` items of the round.
pub open spec fn merge_items(ps: Seq<PricingV>, round: RoundSettings, n: int) -> Seq<PricingV>
    decreases n,
{
    if n <= 0 {
        ps
    } else {
        let it = round.items@[n - 1];
        merge_variants(merge_items(ps, round, n - 1), it.item_id@, it.variants@, it.variants@.len() as int)
    }
}

/// Whether the pricing already has an entry for this item and variant.
fn has_pricing(ps: &Vec<PricingEntry>, item_id: &String, variant_id: &String) -> (r: bool)
    ensures
        r == priced(ps@.map_values(|e: PricingEntry| pricing_view(e)), item_id@, variant_id@),
{
    let ghost pv = ps@.map_values(|e: PricingEntry| pricing_view(e));
    let mut k: usize = 0;
    while k < ps.len()
        invariant
            k <= ps@.len(),
            pv == ps@.map_values(|e: PricingEntry| pricing_view(e)),
            forall|j: int| 0 <= j < k ==> !(pv[j].0 == item_id@ && pv[j].1 == Some(variant_id@)),
        decreases ps@.len() - k,
    {
        let e = &ps[k];
        let same_variant = match &e.variant_id {
            Some(v) => str_eq(v.as_str(), variant_id.as_str()),
            None => false,
        };
        if str_eq(e.item_id.as_str(), item_id.as_str()) && same_variant {
            assert(pv[k as int].0 == item_id@ && pv[k as int].1 == Some(variant_id@));
            return true;
        }
        k = k + 1;
    }
    false
}

/// Adds a pricing entry (`AdjustBy`) for each catalogue variant with a
/// non-zero adjustment that has no entry for its item and variant yet;
/// existing entries (and those added earlier) win. Gift tiers and discounts
/// are unchanged.
pub fn merge_catalog_pricing(config: SettlementConfig, round: &RoundSettings) -> (r: SettlementConfig)
    ensures
        r.pricing@.map_values(|e: PricingEntry| pricing_view(e)) == merge_items(
            config.pricing@.map_values(|e: PricingEntry| pricing_view(e)),
            *round,
            round.items@.len() as int,
        ),
        r.gift_tiers == config.gift_tiers,
        r.discounts == config.discounts,
{
    let ghost start = config.pricing@.map_values(|e: PricingEntry| pricing_view(e));
    let mut config = config;
    let ghost tiers = config.gift_tiers;
    let ghost discounts = config.discounts;
    let mut i: usize = 0;
    while i < round.items.len()
        invariant
            i <= round.items@.len(),
            config.gift_tiers == tiers,
            config.discounts == discounts,
            config.pricing@.map_values(|e: PricingEntry| pricing_view(e)) == merge_items(
                start,
                *round,
                i as int,
            ),
        decreases round.items@.len() - i,
    {
        let item = &round.items[i];
        let ghost base = config.pricing@.map_values(|e: PricingEntry| pricing_view(e));
        let mut j: usize = 0;
        while j < item.variants.len()
            invariant
                j <= item.variants@.len(),
                i < round.items@.len(),
                *item == round.items@[i as int],
                config.gift_tiers == tiers,
                config.discounts == discounts,
                base == merge_items(start, *round, i as int),
                config.pricing@.map_values(|e: PricingEntry| pricing_view(e)) == merge_variants(
                    base,
                    item.item_id@,
                    item.variants@,
                    j as int,
                ),
            decreases item.variants@.len() - j,
        {
            let v = &item.variants[j];
            if v.adjust_cents != 0 && !has_pricing(&config.pricing, &item.item_id, &v.variant_id) {
                let ghost before = config.pricing@.map_values(|e: PricingEntry| pricing_view(e));
                config.pricing.push(
                    PricingEntry {
                        item_id: item.item_id.clone(),
                        variant_id: Some(v.variant_id.clone()),
                        mode: PricingMode::AdjustBy,
                        value: v.adjust_cents,
                    },
                );
                assert(config.pricing@.map_values(|e: PricingEntry| pricing_view(e)) =~= before.push(
                    (item.item_id@, Some(v.variant_id@), PricingMode::AdjustBy, v.adjust_cents),
                ));
            }
            j = j + 1;
        }
        i = i + 1;
    }
    config
}

/// Every variant with a non-zero adjustment among the first `n` items of the
/// round has a pricing entry.
pub open spec fn covers(ps: Seq<PricingV>, round: RoundSettings, n: int) -> bool {
    forall|a: int, b: int|
        0 <= a < n && 0 <= b < round.items@[a].variants@.len()
            && #[trigger] round.items@[a].variants@[b].adjust_cents != 0 ==> priced(
            ps,
            round.items@[a].item_id@,
            round.items@[a].variants@[b].variant_id@,
        )
}

proof fn lemma_priced_grows(ps: Seq<PricingV>, qs: Seq<PricingV>, item_id: Seq<char>, variant_id: Seq<char>)
    requires
        ps.len() <= qs.len(),
        qs.subrange(0, ps.len() as int) == ps,
        priced(ps, item_id, variant_id),
    ensures
        priced(qs, item_id, variant_id),
{
    let k = choose|k: int| 0 <= k < ps.len() && ps[k].0 == item_id && ps[k].1 == Some(variant_id);
    assert(qs.subrange(0, ps.len() as int)[k] == qs[k]);
}

proof fn lemma_variants_extend(ps: Seq<PricingV>, item_id: Seq<char>, vs: Seq<VariantConfig>, n: int)
    requires
        0 <= n <= vs.len(),
    ensures
        ps.len() <= merge_variants(ps, item_id, vs, n).len(),
        merge_variants(ps, item_id, vs, n).subrange(0, ps.len() as int) == ps,
        forall|b: int|
            0 <= b < n && #[trigger] vs[b].adjust_cents != 0 ==> priced(
                merge_variants(ps, item_id, vs, n),
                item_id,
                vs[b].variant_id@,
            ),
    decreases n,
{
    if n > 0 {
        lemma_variants_extend(ps, item_id, vs, n - 1);
        let prev = merge_variants(ps, item_id, vs, n - 1);
        let cur = merge_variants(ps, item_id, vs, n);
        assert(cur.subrange(0, prev.len() as int) == prev);
        assert(cur.subrange(0, ps.len() as int) =~= prev.subrange(0, ps.len() as int));
        assert forall|b: int|
            0 <= b < n && #[trigger] vs[b].adjust_cents != 0 implies priced(cur, item_id, vs[b].variant_id@) by {
            if b < n - 1 {
                lemma_priced_grows(prev, cur, item_id, vs[b].variant_id@);
            } else if !priced(prev, item_id, vs[b].variant_id@) {
                assert(cur[prev.len() as int].0 == item_id);
            }
        }
    }
}

proof fn lemma_items_extend(ps: Seq<PricingV>, round: RoundSettings, n: int)
    requires
        0 <= n <= round.items@.len(),
    ensures
        ps.len() <= merge_items(ps, round, n).len(),
        merge_items(ps, round, n).subrange(0, ps.len() as int) == ps,
        covers(merge_items(ps, round, n), round, n),
    decreases n,
{
    if n > 0 {
        lemma_items_extend(ps, round, n - 1);
        let it = round.items@[n - 1];
        let prev = merge_items(ps, round, n - 1);
        let cur = merge_items(ps, round, n);
        lemma_variants_extend(prev, it.item_id@, it.variants@, it.variants@.len() as int);
        assert(cur.subrange(0, ps.len() as int) =~= prev.subrange(0, ps.len() as int));
        assert forall|a: int, b: int|
            0 <= a < n && 0 <= b < round.items@[a].variants@.len()
                && #[trigger] round.items@[a].variants@[b].adjust_cents != 0 implies priced(
            cur,
            round.items@[a].item_id@,
            round.items@[a].variants@[b].variant_id@,
        ) by {
            if a < n - 1 {
                lemma_priced_grows(
                    prev,
                    cur,
                    round.items@[a].item_id@,
                    round.items@[a].variants@[b].variant_id@,
                );
            }
        }
    }
}

proof fn lemma_variants_fixed(ps: Seq<PricingV>, item_id: Seq<char>, vs: Seq<VariantConfig>, n: int)
    requires
        0 <= n <= vs.len(),
        forall|b: int|
            0 <= b < n && #[trigger] vs[b].adjust_cents != 0 ==> priced(ps, item_id, vs[b].variant_id@),
    ensures
        merge_variants(ps, item_id, vs, n) == ps,
    decreases n,
{
    if n > 0 {
        lemma_variants_fixed(ps, item_id, vs, n - 1);
    }
}

proof fn lemma_items_fixed(ps: Seq<PricingV>, round: RoundSettings, n: int)
    requires
        0 <= n <= round.items@.len(),
        covers(ps, round, n),
    ensures
        merge_items(ps, round, n) == ps,
    decreases n,
{
    if n > 0 {
        lemma_items_fixed(ps, round, n - 1);
        let it = round.items@[n - 1];
        assert forall|b: int|
            0 <= b < it.variants@.len() && #[trigger] it.variants@[b].adjust_cents != 0 implies priced(
            ps,
            it.item_id@,
            it.variants@[b].variant_id@,
        ) by {
            assert(round.items@[n - 1].variants@[b].adjust_cents != 0);
        }
        lemma_variants_fixed(ps, it.item_id@, it.variants@, it.variants@.len() as int);
    }
}

/// Explicit pricing wins: merging the catalogue keeps every existing entry,
/// unchanged and in place, and afterwards every catalogue variant with a
/// non-zero adjustment is priced.
pub proof fn merge_keeps_existing_pricing(ps: Seq<PricingV>, round: RoundSettings)
    ensures
        ps.len() <= merge_items(ps, round, round.items@.len() as int).len(),
        forall|k: int|
            0 <= k < ps.len() ==> #[trigger] merge_items(ps, round, round.items@.len() as int)[k]
                == ps[k],
        covers(merge_items(ps, round, round.items@.len() as int), round, round.items@.len() as int),
{
    let m = merge_items(ps, round, round.items@.len() as int);
    lemma_items_extend(ps, round, round.items@.len() as int);
    assert forall|k: int| 0 <= k < ps.len() implies #[trigger] m[k] == ps[k] by {
        assert(m.subrange(0, ps.len() as int)[k] == m[k]);
    }
}

/// Merging the catalogue pricing a second time changes nothing.
pub proof fn merge_is_idempotent(ps: Seq<PricingV>, round: RoundSettings)
    ensures
        merge_items(merge_items(ps, round, round.items@.len() as int), round, round.items@.len() as int)
            == merge_items(ps, round, round.items@.len() as int),
{
    let n = round.items@.len() as int;
    lemma_items_extend(ps, round, n);
    lemma_items_fixed(merge_items(ps, round, n), round, n);
}

/// The planning strategy named `gift_max` or `discount_max`.
pub fn parse_strategy(raw: &str) -> (r: Result<Strategy, String>)
    ensures
        raw@ == "gift_max"@ ==> r == Ok::<Strategy, String>(Strategy::GiftMax),
        raw@ == "discount_max"@ ==> r == Ok::<Strategy, String>(Strategy::DiscountMax),
        raw@ != "gift_max"@ && raw@ != "discount_max"@ ==> (r matches Err(e) && e@
            == "strategy 必须是 gift_max 或 discount_max"@),
{
    proof {
        reveal_strlit("gift_max");
        reveal_strlit("discount_max");
        assert("gift_max"@[0] != "discount_max"@[0]);
    }
    if str_eq(raw, "gift_max") {
        Ok(Strategy::GiftMax)
    } else if str_eq(raw, "discount_max") {
        Ok(Strategy::DiscountMax)
    } else {
        Err(crate::text::owned("strategy 必须是 gift_max 或 discount_max"))
    }
}

/// A request to derive an order table from the current board, with the list
/// prices to use.
pub struct FromAllocationBody {
    pub prices: Vec<crate::settlement::UnitPrice>,
}

/// A request to replace the settlement configuration at a revision.
pub struct SettlementConfigBody {
    pub config: SettlementConfig,
    pub revision: u64,
}

} // verus!
