//! Settlement planning: the strategy, the search limits, how plans are
//! ranked, and the catalogue price of an allocated item.
use vstd::prelude::*;

use std::cmp::Ordering;

use crate::settlement::UnitPrice;
use crate::text::{opt_view, str_eq};

verus! {

/// What a plan maximizes.
#[derive(Clone, Copy, Debug, PartialEq, Eq, Structural)]
pub enum Strategy {
    GiftMax,
    DiscountMax,
}

impl Default for Strategy {
    /// Gifts first.
    fn default() -> (r: Strategy)
        ensures
            r == Strategy::GiftMax,
    {
        Strategy::GiftMax
    }
}

/// Bounds on the plan search.
#[derive(Clone, Copy, Debug, PartialEq, Eq, Structural)]
pub struct PlanLimits {
    pub max_packages: u32,
    pub max_iters: u64,
    pub time_budget_ms: u64,
}

impl Default for PlanLimits {
    /// At most 8 packages, 50 000 iterations and 250 ms.
    fn default() -> (r: PlanLimits)
        ensures
            r.max_packages == 8,
            r.max_iters == 50_000,
            r.time_budget_ms == 250,
    {
        PlanLimits { max_packages: 8, max_iters: 50_000, time_budget_ms: 250 }
    }
}

/// How good a plan is.
#[derive(Clone, Copy, Debug, PartialEq, Eq, Structural)]
pub struct PlanScore {
    pub discount_total: i64,
    pub highest_tier_hits: u32,
    pub gift_count: u32,
    pub gift_valuation_total: i64,
    pub grand_total: i64,
}

/// The ranking key of a score under a strategy, most significant first:
/// for gifts the top-tier hits, gift count, gift valuation and grand total;
/// for discounts the discount total, gift count and gift valuation.
pub open spec fn score_key(s: PlanScore, strategy: Strategy) -> Seq<int> {
    match strategy {
        Strategy::GiftMax => seq![
            s.highest_tier_hits as int,
            s.gift_count as int,
            s.gift_valuation_total as int,
            s.grand_total as int,
        ],
        Strategy::DiscountMax => seq![
            s.discount_total as int,
            s.gift_count as int,
            s.gift_valuation_total as int,
        ],
    }
}

/// Lexicographic comparison of two keys: -1, 0 or 1.
pub open spec fn lex_order(a: Seq<int>, b: Seq<int>) -> int
    decreases a.len(),
{
    if a.len() == 0 || b.len() == 0 {
        if a.len() < b.len() {
            -1
        } else if a.len() > b.len() {
            1
        } else {
            0
        }
    } else if a[0] < b[0] {
        -1
    } else if a[0] > b[0] {
        1
    } else {
        lex_order(a.drop_first(), b.drop_first())
    }
}

proof fn lemma_lex_range(a: Seq<int>, b: Seq<int>)
    ensures
        -1 <= lex_order(a, b) <= 1,
    decreases a.len(),
{
    if a.len() > 0 && b.len() > 0 && a[0] == b[0] {
        lemma_lex_range(a.drop_first(), b.drop_first());
    }
}

/// Comparing the other way round gives the opposite answer, and only equal
/// keys compare equal.
pub proof fn lex_order_antisymmetric(a: Seq<int>, b: Seq<int>)
    ensures
        lex_order(a, b) == -lex_order(b, a),
        lex_order(a, b) == 0 <==> a == b,
    decreases a.len(),
{
    if a.len() > 0 && b.len() > 0 && a[0] == b[0] {
        lex_order_antisymmetric(a.drop_first(), b.drop_first());
        if a.drop_first() == b.drop_first() {
            assert(a =~= seq![a[0]] + a.drop_first());
            assert(b =~= seq![b[0]] + b.drop_first());
        }
    }
    if a.len() == 0 && b.len() == 0 {
        assert(a =~= b);
    }
}

/// Ranking for discounts: the larger discount total ranks higher; on equal
/// discounts, more gifts rank higher; then the larger gift valuation; the
/// top-tier hits and the grand total play no part.
pub proof fn discount_max_ranking(a: PlanScore, b: PlanScore)
    ensures
        ({
            let r = lex_order(score_key(a, Strategy::DiscountMax), score_key(b, Strategy::DiscountMax));
            &&& a.discount_total < b.discount_total ==> r == -1
            &&& a.discount_total > b.discount_total ==> r == 1
            &&& a.discount_total == b.discount_total && a.gift_count < b.gift_count ==> r == -1
            &&& a.discount_total == b.discount_total && a.gift_count > b.gift_count ==> r == 1
            &&& a.discount_total == b.discount_total && a.gift_count == b.gift_count
                && a.gift_valuation_total < b.gift_valuation_total ==> r == -1
            &&& a.discount_total == b.discount_total && a.gift_count == b.gift_count
                && a.gift_valuation_total > b.gift_valuation_total ==> r == 1
            &&& a.discount_total == b.discount_total && a.gift_count == b.gift_count
                && a.gift_valuation_total == b.gift_valuation_total ==> r == 0
        }),
{
    let ka = score_key(a, Strategy::DiscountMax);
    let kb = score_key(b, Strategy::DiscountMax);
    assert(ka.drop_first().drop_first().drop_first().len() == 0);
    assert(kb.drop_first().drop_first().drop_first().len() == 0);
    reveal_with_fuel(lex_order, 4);
}

/// Ranking for gifts: more top-tier hits rank higher; then more gifts; then
/// the larger gift valuation; then the larger grand total; the discount
/// total plays no part.
pub proof fn gift_max_ranking(a: PlanScore, b: PlanScore)
    ensures
        ({
            let r = lex_order(score_key(a, Strategy::GiftMax), score_key(b, Strategy::GiftMax));
            &&& a.highest_tier_hits < b.highest_tier_hits ==> r == -1
            &&& a.highest_tier_hits > b.highest_tier_hits ==> r == 1
            &&& a.highest_tier_hits == b.highest_tier_hits && a.gift_count < b.gift_count ==> r == -1
            &&& a.highest_tier_hits == b.highest_tier_hits && a.gift_count > b.gift_count ==> r == 1
            &&& a.highest_tier_hits == b.highest_tier_hits && a.gift_count == b.gift_count
                && a.gift_valuation_total < b.gift_valuation_total ==> r == -1
            &&& a.highest_tier_hits == b.highest_tier_hits && a.gift_count == b.gift_count
                && a.gift_valuation_total > b.gift_valuation_total ==> r == 1
            &&& a.highest_tier_hits == b.highest_tier_hits && a.gift_count == b.gift_count
                && a.gift_valuation_total == b.gift_valuation_total && a.grand_total < b.grand_total
                ==> r == -1
            &&& a.highest_tier_hits == b.highest_tier_hits && a.gift_count == b.gift_count
                && a.gift_valuation_total == b.gift_valuation_total && a.grand_total > b.grand_total
                ==> r == 1
            &&& a.highest_tier_hits == b.highest_tier_hits && a.gift_count == b.gift_count
                && a.gift_valuation_total == b.gift_valuation_total && a.grand_total == b.grand_total
                ==> r == 0
        }),
{
    let ka = score_key(a, Strategy::GiftMax);
    let kb = score_key(b, Strategy::GiftMax);
    assert(ka.drop_first().drop_first().drop_first().drop_first().len() == 0);
    assert(kb.drop_first().drop_first().drop_first().drop_first().len() == 0);
    reveal_with_fuel(lex_order, 5);
}

/// The integers of a key.
pub open spec fn ints(v: Seq<i128>) -> Seq<int> {
    v.map_values(|x: i128| x as int)
}

/// The ranking key of a score, as numbers.
fn score_key_of(s: &PlanScore, strategy: Strategy) -> (r: Vec<i128>)
    ensures
        ints(r@) == score_key(*s, strategy),
{
    let mut v: Vec<i128> = Vec::new();
    match strategy {
        Strategy::GiftMax => {
            v.push(s.highest_tier_hits as i128);
            v.push(s.gift_count as i128);
            v.push(s.gift_valuation_total as i128);
            v.push(s.grand_total as i128);
        },
        Strategy::DiscountMax => {
            v.push(s.discount_total as i128);
            v.push(s.gift_count as i128);
            v.push(s.gift_valuation_total as i128);
        },
    }
    assert(ints(v@) =~= score_key(*s, strategy));
    v
}

/// Lexicographic order of two keys: -1, 0 or 1.
fn key_order(a: &Vec<i128>, b: &Vec<i128>) -> (r: i8)
    ensures
        r == lex_order(ints(a@), ints(b@)),
{
    let mut i: usize = 0;
    assert(ints(a@).skip(0) =~= ints(a@));
    assert(ints(b@).skip(0) =~= ints(b@));
    while i < a.len() && i < b.len()
        invariant
            i <= a@.len(),
            i <= b@.len(),
            lex_order(ints(a@), ints(b@)) == lex_order(ints(a@).skip(i as int), ints(b@).skip(i as int)),
        decreases a@.len() - i,
    {
        let ghost x = ints(a@).skip(i as int);
        let ghost y = ints(b@).skip(i as int);
        assert(x[0] == a@[i as int] as int);
        assert(y[0] == b@[i as int] as int);
        if a[i] < b[i] {
            return -1;
        }
        if a[i] > b[i] {
            return 1;
        }
        assert(x.drop_first() =~= ints(a@).skip(i + 1));
        assert(y.drop_first() =~= ints(b@).skip(i + 1));
        i = i + 1;
    }
    if a.len() < b.len() {
        -1
    } else if a.len() > b.len() {
        1
    } else {
        0
    }
}

/// Ranks two scores under a strategy (greater is better): their keys
/// compared lexicographically.
pub fn score_cmp(a: &PlanScore, b: &PlanScore, strategy: Strategy) -> (r: Ordering)
    ensures
        match r {
            Ordering::Less => lex_order(score_key(*a, strategy), score_key(*b, strategy)) == -1,
            Ordering::Equal => lex_order(score_key(*a, strategy), score_key(*b, strategy)) == 0,
            Ordering::Greater => lex_order(score_key(*a, strategy), score_key(*b, strategy)) == 1,
        },
{
    let ka = score_key_of(a, strategy);
    let kb = score_key_of(b, strategy);
    let o = key_order(&ka, &kb);
    proof {
        lemma_lex_range(score_key(*a, strategy), score_key(*b, strategy));
    }
    if o < 0 {
        Ordering::Less
    } else if o > 0 {
        Ordering::Greater
    } else {
        Ordering::Equal
    }
}

// ---------------------------------------------------------------------------
// Catalogue prices
// ---------------------------------------------------------------------------
/// The price entry is for item `id` and exactly variant `v`.
pub open spec fn price_for(p: UnitPrice, id: Seq<char>, v: Option<Seq<char>>) -> bool {
    p.item_id@ == id && opt_view(p.variant_id) == v
}

/// Index of the first price entry for item `id` and variant `v`, or -1.
pub open spec fn price_index(ps: Seq<UnitPrice>, id: Seq<char>, v: Option<Seq<char>>) -> int
    decreases ps.len(),
{
    if ps.len() == 0 {
        -1
    } else if price_for(ps[0], id, v) {
        0
    } else if price_index(ps.drop_first(), id, v) >= 0 {
        price_index(ps.drop_first(), id, v) + 1
    } else {
        -1
    }
}

/// The catalogue price of an item (or variant): the variant's own entry
/// when it has one, else the item's entry without variant, else 0.
pub open spec fn catalogue_price(ps: Seq<UnitPrice>, id: Seq<char>, v: Option<Seq<char>>) -> i64 {
    let k = match v {
        Some(x) => price_index(ps, id, Some(x)),
        None => -1,
    };
    let j = price_index(ps, id, None);
    if k >= 0 {
        ps[k].unit_price_cents
    } else if j >= 0 {
        ps[j].unit_price_cents
    } else {
        0
    }
}

proof fn lemma_price_index(ps: Seq<UnitPrice>, id: Seq<char>, v: Option<Seq<char>>, i: int)
    requires
        0 <= i <= ps.len(),
        forall|j: int| 0 <= j < i ==> !price_for(#[trigger] ps[j], id, v),
    ensures
        i < ps.len() && price_for(ps[i], id, v) ==> price_index(ps, id, v) == i,
        i == ps.len() ==> price_index(ps, id, v) == -1,
    decreases i,
{
    if i > 0 {
        assert forall|j: int| 0 <= j < i - 1 implies !price_for(#[trigger] ps.drop_first()[j], id, v) by {
            assert(ps.drop_first()[j] == ps[j + 1]);
        }
        lemma_price_index(ps.drop_first(), id, v, i - 1);
    }
}

/// The index of the first entry for item `id` and variant `v`.
fn find_price(prices: &[UnitPrice], item_id: &str, variant_id: Option<&str>) -> (r: Option<usize>)
    ensures
        match r {
            Some(k) => k < prices@.len() && price_index(
                prices@,
                item_id@,
                match variant_id {
                    Some(x) => Some(x@),
                    None => None,
                },
            ) == k,
            None => price_index(
                prices@,
                item_id@,
                match variant_id {
                    Some(x) => Some(x@),
                    None => None,
                },
            ) == -1,
        },
{
    let ghost v = match variant_id {
        Some(x) => Some(x@),
        None => None::<Seq<char>>,
    };
    let mut i: usize = 0;
    while i < prices.len()
        invariant
            i <= prices@.len(),
            v == match variant_id {
                Some(x) => Some(x@),
                None => None,
            },
            forall|j: int| 0 <= j < i ==> !price_for(#[trigger] prices@[j], item_id@, v),
        decreases prices@.len() - i,
    {
        let p = &prices[i];
        let same_variant = match (&p.variant_id, variant_id) {
            (Some(a), Some(b)) => str_eq(a.as_str(), b),
            (None, None) => true,
            _ => false,
        };
        if str_eq(p.item_id.as_str(), item_id) && same_variant {
            proof {
                lemma_price_index(prices@, item_id@, v, i as int);
            }
            return Some(i);
        }
        i = i + 1;
    }
    proof {
        lemma_price_index(prices@, item_id@, v, i as int);
    }
    None
}

/// The catalogue price of an item or variant (see `catalogue_price`).
pub fn lookup_price(prices: &[UnitPrice], item_id: &str, variant_id: Option<&str>) -> (r: i64)
    ensures
        r == catalogue_price(
            prices@,
            item_id@,
            match variant_id {
                Some(x) => Some(x@),
                None => None,
            },
        ),
{
    if let Some(v) = variant_id {
        if let Some(k) = find_price(prices, item_id, Some(v)) {
            return prices[k].unit_price_cents;
        }
    }
    match find_price(prices, item_id, None) {
        Some(k) => prices[k].unit_price_cents,
        None => 0,
    }
}

} // verus!
