//! What the parsers produce: the intent of a message, its claim lines, and
//! the outcome of resolving a claim line against the catalogue.
use vstd::prelude::*;

use crate::domain::{ItemId, RoundId};

verus! {

/// What a message asks for.
#[derive(Clone, Copy, Debug, PartialEq, Eq, Structural)]
pub enum ParsedIntent {
    Claim,
    Cancel,
    Modify,
    ConfirmAmbiguous,
    AdminCommand,
    Unknown,
}

/// One claim line extracted from a message.
pub struct ParsedClaimItem {
    pub name: String,
    pub category_hint: Option<String>,
    pub quantity: u32,
    pub claim_type: Option<String>,
    pub is_proxy_card: Option<bool>,
    pub slot_policy: Option<String>,
    pub notes: Option<String>,
    pub resolved_item_id: Option<String>,
    pub resolved_variant_id: Option<String>,
    pub resolved_round_id: Option<String>,
}

/// An administrator command carried by a message.
pub enum ParsedAdminCommand {
    CreateRound { title: String, start_at: Option<String>, end_at: Option<String> },
    AddItem {
        name: String,
        kind: String,
        unit_price_cents: i64,
        box_size: Option<u32>,
        max_quantity: Option<u32>,
        aliases: Option<Vec<String>>,
    },
    /// The discount rules, each as its JSON text.
    SetDiscountRules { rules: Vec<String> },
    CloseRound {},
    ExportRound {},
}

/// A parsed message. The parser's confidence is kept in whole percent
/// (`confidence_pct`, 0–100).
pub struct ParsedMessage {
    pub intent: ParsedIntent,
    pub round_hint: Option<String>,
    pub items: Vec<ParsedClaimItem>,
    pub cancel_target_hint: Option<String>,
    pub admin_command: Option<ParsedAdminCommand>,
    pub confidence_pct: u32,
    pub ambiguous_parts: Vec<String>,
}

/// The outcome of resolving one claim line against the catalogue.
pub struct ResolveResult {
    pub round_id: Option<RoundId>,
    pub item_id: Option<ItemId>,
    pub variant_id: Option<String>,
    pub candidates: Vec<(RoundId, ItemId, i32)>,
    pub resolved: bool,
    pub ambiguity: Option<String>,
}

impl ResolveResult {
    /// Nothing in the catalogue matched.
    pub fn not_found() -> (r: Self)
        ensures
            r.round_id is None,
            r.item_id is None,
            r.variant_id is None,
            r.candidates@.len() == 0,
            !r.resolved,
            r.ambiguity is None,
    {
        ResolveResult {
            round_id: None,
            item_id: None,
            variant_id: None,
            candidates: Vec::new(),
            resolved: false,
            ambiguity: None,
        }
    }

    /// Resolved to an item (no particular variant).
    pub fn resolved(round_id: RoundId, item_id: ItemId) -> (r: Self)
        ensures
            r.round_id == Some(round_id),
            r.item_id == Some(item_id),
            r.variant_id is None,
            r.candidates@.len() == 0,
            r.resolved,
            r.ambiguity is None,
    {
        ResolveResult {
            round_id: Some(round_id),
            item_id: Some(item_id),
            variant_id: None,
            candidates: Vec::new(),
            resolved: true,
            ambiguity: None,
        }
    }

    /// Resolved to one variant of an item.
    pub fn resolved_variant(round_id: RoundId, item_id: ItemId, variant_id: String) -> (r: Self)
        ensures
            r.round_id == Some(round_id),
            r.item_id == Some(item_id),
            r.variant_id == Some(variant_id),
            r.candidates@.len() == 0,
            r.resolved,
            r.ambiguity is None,
    {
        ResolveResult {
            round_id: Some(round_id),
            item_id: Some(item_id),
            variant_id: Some(variant_id),
            candidates: Vec::new(),
            resolved: true,
            ambiguity: None,
        }
    }

    /// Several candidates scored too close to pick one.
    pub fn ambiguous(candidates: Vec<(RoundId, ItemId, i32)>, msg: String) -> (r: Self)
        ensures
            r.round_id is None,
            r.item_id is None,
            r.variant_id is None,
            r.candidates@ == candidates@,
            !r.resolved,
            r.ambiguity == Some(msg),
    {
        ResolveResult {
            round_id: None,
            item_id: None,
            variant_id: None,
            candidates,
            resolved: false,
            ambiguity: Some(msg),
        }
    }
}

} // verus!
