//! Settlement configuration as far as the catalogue rules read it: list
//! prices and per-variant price adjustments, gift tiers and discounts.
use vstd::prelude::*;

verus! {

/// List price of an item (or of one of its variants).
pub struct UnitPrice {
    pub item_id: String,
    pub variant_id: Option<String>,
    pub unit_price_cents: i64,
}

/// How a pricing entry changes the list price.
#[derive(Clone, Copy, Debug, PartialEq, Eq, Structural)]
pub enum PricingMode {
    /// Adjusted price = list price + `value`.
    AdjustBy,
    /// Adjusted price = `value`.
    SetFinal,
}

/// A pricing rule for one item or variant.
pub struct PricingEntry {
    pub item_id: String,
    pub variant_id: Option<String>,
    pub mode: PricingMode,
    pub value: i64,
}

/// A gift granted once a package reaches `threshold` cents.
pub struct GiftTier {
    pub tier_id: String,
    pub threshold: i64,
    pub gift_name: String,
    pub unit_price: i64,
}

/// Kind of a discount rule.
#[derive(Clone, Copy, Debug, PartialEq, Eq, Structural)]
pub enum DiscountKind {
    Threshold,
}

/// A discount rule.
pub struct DiscountEntry {
    pub rule_id: String,
    pub kind: DiscountKind,
    pub amount: i64,
    pub threshold: Option<i64>,
    pub ratio_ppm: Option<i64>,
    pub shares: i64,
}

/// Settlement configuration of a round.
pub struct SettlementConfig {
    pub pricing: Vec<PricingEntry>,
    pub gift_tiers: Vec<GiftTier>,
    pub discounts: Vec<DiscountEntry>,
}

impl SettlementConfig {
    /// The empty configuration.
    pub fn empty() -> (r: SettlementConfig)
        ensures
            r.pricing@.len() == 0,
            r.gift_tiers@.len() == 0,
            r.discounts@.len() == 0,
    {
        SettlementConfig { pricing: Vec::new(), gift_tiers: Vec::new(), discounts: Vec::new() }
    }
}

} // verus!
