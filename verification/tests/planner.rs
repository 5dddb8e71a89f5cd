use std::cmp::Ordering;

use paigu::planner::{lookup_price, score_cmp, PlanScore, Strategy};
use paigu::settlement::UnitPrice;

fn score(discount: i64, hits: u32, gifts: u32, valuation: i64, grand: i64) -> PlanScore {
    PlanScore {
        discount_total: discount,
        highest_tier_hits: hits,
        gift_count: gifts,
        gift_valuation_total: valuation,
        grand_total: grand,
    }
}

#[test]
fn gift_strategy_ranks_tier_hits_first() {
    let a = score(0, 2, 1, 10, 100);
    let b = score(5000, 1, 9, 90, 900);
    assert_eq!(score_cmp(&a, &b, Strategy::GiftMax), Ordering::Greater);
    assert_eq!(score_cmp(&b, &a, Strategy::GiftMax), Ordering::Less);
    assert_eq!(score_cmp(&a, &b, Strategy::DiscountMax), Ordering::Less);
    let c = score(0, 2, 1, 10, 50);
    assert_eq!(score_cmp(&a, &c, Strategy::GiftMax), Ordering::Greater);
    assert_eq!(score_cmp(&a, &c, Strategy::DiscountMax), Ordering::Equal);
}

#[test]
fn catalogue_price_prefers_variant_entry() {
    let prices = vec![
        UnitPrice { item_id: "a".to_string(), variant_id: None, unit_price_cents: 100 },
        UnitPrice { item_id: "a".to_string(), variant_id: Some("v1".to_string()), unit_price_cents: 120 },
        UnitPrice { item_id: "a".to_string(), variant_id: Some("v1".to_string()), unit_price_cents: 130 },
    ];
    assert_eq!(lookup_price(&prices, "a", Some("v1")), 120);
    assert_eq!(lookup_price(&prices, "a", Some("v2")), 100);
    assert_eq!(lookup_price(&prices, "a", None), 100);
    assert_eq!(lookup_price(&prices, "b", None), 0);
}
