//! Catalogue and claim vocabulary shared by the parser, the policy and the
//! replay: identifiers, item kinds, items with their variants, the
//! catalogue of a round, and allocation boards.
use vstd::prelude::*;

use crate::parser::parse_cache::hex_of;

/// Domain events: claims created and cancelled, and their envelope.
pub mod event;

verus! {

/// The bytes of a random (version 4) UUID made from `random`: the version
/// nibble set to 4 and the variant bits to RFC 4122.
pub open spec fn v4_bytes(random: Seq<u8>) -> Seq<u8> {
    random.update(6, (random[6] & 0x0fu8) | 0x40u8).update(8, (random[8] & 0x3fu8) | 0x80u8)
}

/// 32 hexadecimal digits grouped 8-4-4-4-12 with hyphens.
pub open spec fn hyphenated(h: Seq<char>) -> Seq<char> {
    h.subrange(0, 8) + seq!['-'] + h.subrange(8, 12) + seq!['-'] + h.subrange(12, 16) + seq!['-']
        + h.subrange(16, 20) + seq!['-'] + h.subrange(20, 32)
}

/// The hyphenated lower-case text of the random UUID made from `random`.
pub open spec fn uuid_v4_text(random: Seq<u8>) -> Seq<char> {
    hyphenated(hex_of(v4_bytes(random)))
}

/// A random (version 4) UUID in its hyphenated form, made from 16 random
/// bytes drawn by the caller: calls
/// `uuid::Builder::from_random_bytes(random).into_uuid().to_string()`,
/// which sets the version and variant bits and writes each byte as two
/// lower-case hexadecimal digits, grouped 8-4-4-4-12 with hyphens.
#[verifier::external_body]
pub(crate) fn uuid_from_random(random: [u8; 16]) -> (r: String)
    ensures
        r@ == uuid_v4_text(random@),
{
    uuid::Builder::from_random_bytes(random).into_uuid().to_string()
}

/// Identifier of a catalogue item.
#[derive(Clone, Debug)]
pub struct ItemId(pub String);

/// Identifier of a round.
#[derive(Clone, Debug)]
pub struct RoundId(pub String);

impl ItemId {
    /// An equal copy.
    pub fn duplicate(&self) -> (r: ItemId)
        ensures
            r == *self,
    {
        ItemId(self.0.clone())
    }
}

impl RoundId {
    /// An equal copy.
    pub fn duplicate(&self) -> (r: RoundId)
        ensures
            r == *self,
    {
        RoundId(self.0.clone())
    }
}

/// Amount of money in cents.
#[derive(Clone, Copy, Debug, PartialEq, Eq, Structural)]
pub struct MoneyCents(pub i64);

/// How an item is sold.
#[derive(Clone, Copy, Debug, PartialEq, Eq, Structural)]
pub enum ItemKind {
    /// Split among buyers box by box (拼团).
    Split,
    /// Claimed individually (单领).
    Single,
    /// Whole sealed boxes, routed to the single-claim queue (整盒).
    WholeBox,
    /// Bonus items (特典).
    Gift,
    /// Shipping fee line.
    Shipping,
    /// Price adjustment line.
    Adjustment,
}

/// How a claim line asks to be filled.
#[derive(Clone, Copy, Debug, PartialEq, Eq, Structural)]
pub enum ClaimType {
    Split,
    Single,
    GiftClaim,
}

/// One variant (character, design) of an item.
pub struct ItemVariant {
    pub variant_id: String,
    pub name: String,
    pub unit_price: MoneyCents,
    pub capacity: Option<u32>,
    pub aliases: Vec<String>,
}

/// One catalogue item of a round.
pub struct Item {
    pub item_id: ItemId,
    pub round_id: RoundId,
    pub name: String,
    pub kind: ItemKind,
    pub unit_price: MoneyCents,
    pub box_size: Option<u32>,
    pub max_quantity: Option<u32>,
    pub is_blind: bool,
    pub is_proxy_card: bool,
    pub aliases: Vec<String>,
    pub sort_order: i32,
    pub variants: Vec<ItemVariant>,
}

/// The catalogue of one active round.
pub struct RoundContext {
    pub round_id: RoundId,
    pub title: String,
    pub items: Vec<Item>,
}

/// The claim type named by `s` (the canonical names `Split`, `Single`, `GiftClaim`).
pub open spec fn claim_type_named(s: Seq<char>) -> Option<ClaimType> {
    if s == "Split"@ {
        Some(ClaimType::Split)
    } else if s == "Single"@ {
        Some(ClaimType::Single)
    } else if s == "GiftClaim"@ {
        Some(ClaimType::GiftClaim)
    } else {
        None
    }
}

/// Items of kind `kind` accept claim lines of type `ct`.
pub open spec fn kind_accepts(kind: ItemKind, ct: ClaimType) -> bool {
    match kind {
        ItemKind::Split => ct == ClaimType::Split,
        ItemKind::Single => ct == ClaimType::Single,
        ItemKind::WholeBox => ct == ClaimType::Single,
        ItemKind::Gift => ct == ClaimType::GiftClaim,
        ItemKind::Shipping => false,
        ItemKind::Adjustment => false,
    }
}

impl ClaimType {
    /// Parses a canonical claim-type name.
    pub fn from_str(s: &str) -> (r: Option<ClaimType>)
        ensures
            r == claim_type_named(s@),
    {
        if crate::text::str_eq(s, "Split") {
            Some(ClaimType::Split)
        } else if crate::text::str_eq(s, "Single") {
            Some(ClaimType::Single)
        } else if crate::text::str_eq(s, "GiftClaim") {
            Some(ClaimType::GiftClaim)
        } else {
            None
        }
    }
}

impl ItemKind {
    /// Whether items of this kind accept claim lines of type `ct`.
    pub fn compatible_with(&self, ct: &ClaimType) -> (r: bool)
        ensures
            r == kind_accepts(*self, *ct),
    {
        match self {
            ItemKind::Split => *ct == ClaimType::Split,
            ItemKind::Single => *ct == ClaimType::Single,
            ItemKind::WholeBox => *ct == ClaimType::Single,
            ItemKind::Gift => *ct == ClaimType::GiftClaim,
            ItemKind::Shipping => false,
            ItemKind::Adjustment => false,
        }
    }

    /// Stable machine-readable name.
    pub fn as_str(&self) -> (r: &'static str)
        ensures
            r@ == kind_name(*self),
    {
        match self {
            ItemKind::Split => "split",
            ItemKind::Single => "single",
            ItemKind::WholeBox => "whole_box",
            ItemKind::Gift => "gift",
            ItemKind::Shipping => "shipping",
            ItemKind::Adjustment => "adjustment",
        }
    }
}

/// Stable machine-readable name of an item kind.
pub open spec fn kind_name(k: ItemKind) -> Seq<char> {
    match k {
        ItemKind::Split => "split"@,
        ItemKind::Single => "single"@,
        ItemKind::WholeBox => "whole_box"@,
        ItemKind::Gift => "gift"@,
        ItemKind::Shipping => "shipping"@,
        ItemKind::Adjustment => "adjustment"@,
    }
}

/// Identifier of a member.
#[derive(Clone, Debug)]
pub struct UserId(pub String);

/// Identifier of a claim.
#[derive(Clone, Debug)]
pub struct ClaimId(pub String);

impl UserId {
    /// An equal copy.
    pub fn duplicate(&self) -> (r: UserId)
        ensures
            r == *self,
    {
        UserId(self.0.clone())
    }
}

impl ClaimId {
    /// An equal copy.
    pub fn duplicate(&self) -> (r: ClaimId)
        ensures
            r == *self,
    {
        ClaimId(self.0.clone())
    }
}

// ---------------------------------------------------------------------------
// Allocation boards
// ---------------------------------------------------------------------------
/// State of one slot of a box.
#[derive(Clone, Copy, Debug, PartialEq, Eq, Structural)]
pub enum SlotStatus {
    Empty,
    Filled,
    Locked,
}

/// Name of a slot status.
pub open spec fn slot_status_name(s: SlotStatus) -> Seq<char> {
    match s {
        SlotStatus::Empty => "Empty"@,
        SlotStatus::Filled => "Filled"@,
        SlotStatus::Locked => "Locked"@,
    }
}

impl SlotStatus {
    /// Name of the status.
    pub fn as_str(&self) -> (r: &'static str)
        ensures
            r@ == slot_status_name(*self),
    {
        match self {
            SlotStatus::Empty => "Empty",
            SlotStatus::Filled => "Filled",
            SlotStatus::Locked => "Locked",
        }
    }
}

/// How a slot was filled.
#[derive(Clone, Copy, Debug, PartialEq, Eq, Structural)]
pub enum SlotPolicy {
    Normal,
    TailLocked,
    AdminFixed,
    ColumnLocked,
}

/// One slot of a box.
pub struct SlotAllocation {
    pub slot_index: u32,
    pub status: SlotStatus,
    pub user_id: Option<UserId>,
    pub claim_id: Option<ClaimId>,
    pub segment_id: Option<String>,
    pub slot_policy: SlotPolicy,
    pub lock_reason: Option<String>,
}

/// One box of an item.
pub struct BoxAllocation {
    pub box_index: u32,
    pub slots: Vec<SlotAllocation>,
}

/// The boxes of one item.
pub struct ItemAllocation {
    pub item_id: ItemId,
    pub boxes: Vec<BoxAllocation>,
}

/// One item line of a member's summary.
pub struct UserItemLine {
    pub item_id: ItemId,
    pub item_name: String,
    pub quantity: u32,
    pub gross: MoneyCents,
}

/// What a member has claimed.
pub struct UserSummary {
    pub user_id: UserId,
    pub items: Vec<UserItemLine>,
}

/// The allocation board at one version.
pub struct AllocationSnapshot {
    pub version: i64,
    pub item_allocations: Vec<ItemAllocation>,
    pub user_summaries: Vec<UserSummary>,
}

} // verus!
