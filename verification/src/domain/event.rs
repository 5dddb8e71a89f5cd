//! Domain events and the envelope they are stored in.
use vstd::prelude::*;

use crate::domain::{ClaimId, ClaimType, ItemId, RoundId, SlotPolicy, UserId};

verus! {

/// Identifier of an event.
#[derive(Clone, Debug)]
pub struct EventId(pub String);

/// One line of a claim.
pub struct ClaimLine {
    pub item_id: ItemId,
    pub quantity: u32,
    pub claim_type: ClaimType,
    pub slot_policy: SlotPolicy,
    pub is_proxy_card: bool,
    pub notes: Option<String>,
}

/// A member claimed items.
pub struct ClaimCreated {
    pub claim_id: ClaimId,
    pub user_id: UserId,
    pub items: Vec<ClaimLine>,
    pub source_text: String,
}

/// A member cancelled (part of) a claim.
pub struct ClaimCancelled {
    pub target_claim_id: Option<ClaimId>,
    pub target_item_id: Option<ItemId>,
    pub quantity: Option<u32>,
    pub reason: Option<String>,
}

/// What happened.
pub enum DomainEvent {
    ClaimCreated(ClaimCreated),
    ClaimCancelled(ClaimCancelled),
}

/// Whether an event still counts.
#[derive(Clone, Copy, Debug, PartialEq, Eq, Structural)]
pub enum EventStatus {
    Active,
}

/// An event with where, when and from whom it came.
pub struct EventEnvelope {
    pub event_id: EventId,
    pub round_id: RoundId,
    pub group_id: String,
    pub user_id: UserId,
    pub raw_message_id: Option<String>,
    pub event_type: String,
    pub effective_at_ms: i64,
    pub sequence: i64,
    pub payload: DomainEvent,
    pub status: EventStatus,
}

} // verus!
