//! The difference between two allocation boards: changed slots, the claims
//! they touch, and members' and items' changed totals.
use vstd::prelude::*;

use crate::domain::{
    AllocationSnapshot, BoxAllocation, ClaimId, ItemAllocation, ItemId, SlotAllocation,
    SlotPolicy, SlotStatus, UserId, UserItemLine, UserSummary, slot_status_name,
};
use crate::text::{append_str, int_text, opt_view, push_i64, str_eq, string_of, views};

verus! {

/// A slot as shown in a diff.
pub struct SlotView {
    pub status: SlotStatus,
    pub user_id: Option<String>,
    pub nickname: Option<String>,
    pub claim_id: Option<String>,
    pub segment_id: Option<String>,
    pub slot_policy: SlotPolicy,
    pub lock_reason: Option<String>,
}

/// Why a slot changed.
#[derive(Clone, Copy, Debug, PartialEq, Eq, Structural)]
pub enum SlotChangeReason {
    NewClaimFilled,
    CancelReleased,
    AutoMovedForward,
    TailSegmentCreated,
    TailSegmentUpdated,
    AdminFixed,
    AdminUnlocked,
    RecomputedByRuleChange,
}

/// Whether a change was made directly or follows from another.
#[derive(Clone, Copy, Debug, PartialEq, Eq, Structural)]
pub enum ChangeCausality {
    Direct,
    Cascade,
    Recalculation,
}

/// A changed slot.
pub struct SlotChange {
    pub item_id: ItemId,
    pub box_index: u32,
    pub slot_index: u32,
    pub before: Option<SlotView>,
    pub after: Option<SlotView>,
    pub reason: SlotChangeReason,
    pub causality: ChangeCausality,
}

/// A claim whose slots changed, with its status before and after.
pub struct ClaimChange {
    pub claim_id: String,
    pub before_status: Option<String>,
    pub after_status: Option<String>,
}

/// A member whose total changed.
pub struct UserTotalChange {
    pub user_id: String,
    pub before_total: i64,
    pub after_total: i64,
}

/// An item whose claimed quantity changed.
pub struct ItemTotalChange {
    pub item_id: String,
    pub before_quantity: u32,
    pub after_quantity: u32,
}

/// A member's changed amount, described.
pub struct SettlementChange {
    pub user_id: String,
    pub before_amount: i64,
    pub after_amount: i64,
    pub description: String,
}

/// The difference between two boards.
pub struct StateDiff {
    pub slot_changes: Vec<SlotChange>,
    pub claim_changes: Vec<ClaimChange>,
    pub user_total_changes: Vec<UserTotalChange>,
    pub item_total_changes: Vec<ItemTotalChange>,
    pub settlement_changes: Vec<SettlementChange>,
}

// ---------------------------------------------------------------------------
// Slot changes
// ---------------------------------------------------------------------------
/// The view of an optional member id.
pub open spec fn uid_view(u: Option<UserId>) -> Option<Seq<char>> {
    match u {
        Some(x) => Some(x.0@),
        None => None,
    }
}

/// The view of an optional claim id.
pub open spec fn cid_view(c: Option<ClaimId>) -> Option<Seq<char>> {
    match c {
        Some(x) => Some(x.0@),
        None => None,
    }
}

/// Index of the first allocation of item `id`, or -1.
pub open spec fn item_index(ias: Seq<ItemAllocation>, id: Seq<char>) -> int
    decreases ias.len(),
{
    if ias.len() == 0 {
        -1
    } else if item_index(ias.drop_last(), id) >= 0 {
        item_index(ias.drop_last(), id)
    } else if ias.last().item_id.0@ == id {
        ias.len() - 1
    } else {
        -1
    }
}

/// Index of the first box with index `b`, or -1.
pub open spec fn box_index_of(boxes: Seq<BoxAllocation>, b: u32) -> int
    decreases boxes.len(),
{
    if boxes.len() == 0 {
        -1
    } else if box_index_of(boxes.drop_last(), b) >= 0 {
        box_index_of(boxes.drop_last(), b)
    } else if boxes.last().box_index == b {
        boxes.len() - 1
    } else {
        -1
    }
}

/// Index of the first slot with index `s`, or -1.
pub open spec fn slot_index_of(slots: Seq<SlotAllocation>, s: u32) -> int
    decreases slots.len(),
{
    if slots.len() == 0 {
        -1
    } else if slot_index_of(slots.drop_last(), s) >= 0 {
        slot_index_of(slots.drop_last(), s)
    } else if slots.last().slot_index == s {
        slots.len() - 1
    } else {
        -1
    }
}

/// The slot of the earlier board at the same item, box and slot index.
pub open spec fn slot_before(before: AllocationSnapshot, item_id: Seq<char>, b: u32, s: u32) -> Option<SlotAllocation> {
    let i = item_index(before.item_allocations@, item_id);
    if i < 0 {
        None
    } else {
        let boxes = before.item_allocations@[i].boxes@;
        let j = box_index_of(boxes, b);
        if j < 0 {
            None
        } else {
            let slots = boxes[j].slots@;
            let k = slot_index_of(slots, s);
            if k < 0 {
                None
            } else {
                Some(slots[k])
            }
        }
    }
}

/// The slot is new, or its status or member changed.
pub open spec fn slot_changed(b: Option<SlotAllocation>, a: SlotAllocation) -> bool {
    match b {
        Some(bs) => bs.status != a.status || uid_view(bs.user_id) != uid_view(a.user_id),
        None => true,
    }
}

/// Reason for filling a slot under a policy.
pub open spec fn fill_reason(p: SlotPolicy) -> SlotChangeReason {
    if p == SlotPolicy::TailLocked {
        SlotChangeReason::TailSegmentCreated
    } else if p == SlotPolicy::AdminFixed {
        SlotChangeReason::AdminFixed
    } else {
        SlotChangeReason::NewClaimFilled
    }
}

/// Reason of a slot change: an empty slot filled (or a new slot) by its
/// policy; a filled slot emptied is a released cancellation; anything else
/// counts as a new claim.
pub open spec fn change_reason(b: Option<SlotAllocation>, a: SlotAllocation) -> SlotChangeReason {
    match b {
        Some(bs) => if bs.status == SlotStatus::Empty && a.status == SlotStatus::Filled {
            fill_reason(a.slot_policy)
        } else if bs.status == SlotStatus::Filled && a.status == SlotStatus::Empty {
            SlotChangeReason::CancelReleased
        } else {
            SlotChangeReason::NewClaimFilled
        },
        None => fill_reason(a.slot_policy),
    }
}

/// A changed slot: item, box, the earlier slot (if any) and the later one.
pub type Changed = (Seq<char>, u32, Option<SlotAllocation>, SlotAllocation);

/// Changed slots among the first `n` slots of a box of the later board.
pub open spec fn slot_list(before: AllocationSnapshot, item_id: Seq<char>, b: u32, slots: Seq<SlotAllocation>, n: int) -> Seq<Changed>
    decreases n,
{
    if n <= 0 {
        Seq::empty()
    } else {
        let a = slots[n - 1];
        let bs = slot_before(before, item_id, b, a.slot_index);
        slot_list(before, item_id, b, slots, n - 1) + if slot_changed(bs, a) {
            seq![(item_id, b, bs, a)]
        } else {
            Seq::empty()
        }
    }
}

/// Changed slots among the first `n` boxes of an item of the later board.
pub open spec fn box_list(before: AllocationSnapshot, item_id: Seq<char>, boxes: Seq<BoxAllocation>, n: int) -> Seq<Changed>
    decreases n,
{
    if n <= 0 {
        Seq::empty()
    } else {
        let bx = boxes[n - 1];
        box_list(before, item_id, boxes, n - 1) + slot_list(
            before,
            item_id,
            bx.box_index,
            bx.slots@,
            bx.slots@.len() as int,
        )
    }
}

/// Changed slots among the first `n` items of the later board, in board order.
pub open spec fn changed_slots(before: AllocationSnapshot, ias: Seq<ItemAllocation>, n: int) -> Seq<Changed>
    decreases n,
{
    if n <= 0 {
        Seq::empty()
    } else {
        let ia = ias[n - 1];
        changed_slots(before, ias, n - 1) + box_list(
            before,
            ia.item_id.0@,
            ia.boxes@,
            ia.boxes@.len() as int,
        )
    }
}

/// The view shows the slot.
pub open spec fn shows(v: SlotView, s: SlotAllocation) -> bool {
    &&& v.status == s.status
    &&& opt_view(v.user_id) == uid_view(s.user_id)
    &&& v.nickname is None
    &&& opt_view(v.claim_id) == cid_view(s.claim_id)
    &&& opt_view(v.segment_id) == opt_view(s.segment_id)
    &&& v.slot_policy == s.slot_policy
    &&& opt_view(v.lock_reason) == opt_view(s.lock_reason)
}

/// The slot change records the changed slot.
pub open spec fn records(c: SlotChange, e: Changed) -> bool {
    &&& c.item_id.0@ == e.0
    &&& c.box_index == e.1
    &&& c.slot_index == e.3.slot_index
    &&& match (c.before, e.2) {
        (Some(v), Some(s)) => shows(v, s),
        (None, None) => true,
        _ => false,
    }
    &&& c.after matches Some(v) && shows(v, e.3)
    &&& c.reason == change_reason(e.2, e.3)
    &&& c.causality == ChangeCausality::Direct
}

proof fn lemma_item_index_bounds(ias: Seq<ItemAllocation>, id: Seq<char>)
    ensures
        -1 <= item_index(ias, id) < ias.len(),
    decreases ias.len(),
{
    if ias.len() > 0 {
        lemma_item_index_bounds(ias.drop_last(), id);
    }
}

proof fn lemma_box_index_bounds(boxes: Seq<BoxAllocation>, b: u32)
    ensures
        -1 <= box_index_of(boxes, b) < boxes.len(),
    decreases boxes.len(),
{
    if boxes.len() > 0 {
        lemma_box_index_bounds(boxes.drop_last(), b);
    }
}

proof fn lemma_slot_index_bounds(slots: Seq<SlotAllocation>, s: u32)
    ensures
        -1 <= slot_index_of(slots, s) < slots.len(),
    decreases slots.len(),
{
    if slots.len() > 0 {
        lemma_slot_index_bounds(slots.drop_last(), s);
    }
}

/// Index of the first allocation of item `id`.
fn find_item(ias: &Vec<ItemAllocation>, id: &ItemId) -> (r: Option<usize>)
    ensures
        match r {
            Some(k) => k == item_index(ias@, id.0@) && k < ias@.len(),
            None => item_index(ias@, id.0@) == -1,
        },
{
    proof {
        lemma_item_index_bounds(ias@, id.0@);
    }
    let mut j: usize = 0;
    let mut found: Option<usize> = None;
    while j < ias.len()
        invariant
            j <= ias@.len(),
            found == (if item_index(ias@.take(j as int), id.0@) >= 0 {
                Some(item_index(ias@.take(j as int), id.0@) as usize)
            } else {
                None::<usize>
            }),
            item_index(ias@.take(j as int), id.0@) < j,
        decreases ias@.len() - j,
    {
        assert(ias@.take(j + 1).drop_last() =~= ias@.take(j as int));
        if found.is_none() && str_eq(ias[j].item_id.0.as_str(), id.0.as_str()) {
            found = Some(j);
        }
        j = j + 1;
    }
    assert(ias@.take(ias@.len() as int) =~= ias@);
    found
}

/// Index of the first box with the given index.
fn find_box(boxes: &Vec<BoxAllocation>, b: u32) -> (r: Option<usize>)
    ensures
        match r {
            Some(k) => k == box_index_of(boxes@, b) && k < boxes@.len(),
            None => box_index_of(boxes@, b) == -1,
        },
{
    proof {
        lemma_box_index_bounds(boxes@, b);
    }
    let mut j: usize = 0;
    let mut found: Option<usize> = None;
    while j < boxes.len()
        invariant
            j <= boxes@.len(),
            found == (if box_index_of(boxes@.take(j as int), b) >= 0 {
                Some(box_index_of(boxes@.take(j as int), b) as usize)
            } else {
                None::<usize>
            }),
            box_index_of(boxes@.take(j as int), b) < j,
        decreases boxes@.len() - j,
    {
        assert(boxes@.take(j + 1).drop_last() =~= boxes@.take(j as int));
        if found.is_none() && boxes[j].box_index == b {
            found = Some(j);
        }
        j = j + 1;
    }
    assert(boxes@.take(boxes@.len() as int) =~= boxes@);
    found
}

/// Index of the first slot with the given index.
fn find_slot(slots: &Vec<SlotAllocation>, s: u32) -> (r: Option<usize>)
    ensures
        match r {
            Some(k) => k == slot_index_of(slots@, s) && k < slots@.len(),
            None => slot_index_of(slots@, s) == -1,
        },
{
    proof {
        lemma_slot_index_bounds(slots@, s);
    }
    let mut j: usize = 0;
    let mut found: Option<usize> = None;
    while j < slots.len()
        invariant
            j <= slots@.len(),
            found == (if slot_index_of(slots@.take(j as int), s) >= 0 {
                Some(slot_index_of(slots@.take(j as int), s) as usize)
            } else {
                None::<usize>
            }),
            slot_index_of(slots@.take(j as int), s) < j,
        decreases slots@.len() - j,
    {
        assert(slots@.take(j + 1).drop_last() =~= slots@.take(j as int));
        if found.is_none() && slots[j].slot_index == s {
            found = Some(j);
        }
        j = j + 1;
    }
    assert(slots@.take(slots@.len() as int) =~= slots@);
    found
}

/// The slot of the earlier board at the same place (see `slot_before`).
fn lookup_slot<'a>(before: &'a AllocationSnapshot, item_id: &ItemId, b: u32, s: u32) -> (r: Option<&'a SlotAllocation>)
    ensures
        match r {
            Some(x) => slot_before(*before, item_id.0@, b, s) == Some(*x),
            None => slot_before(*before, item_id.0@, b, s) is None,
        },
{
    match find_item(&before.item_allocations, item_id) {
        None => None,
        Some(i) => {
            let boxes = &before.item_allocations[i].boxes;
            match find_box(boxes, b) {
                None => None,
                Some(j) => {
                    let slots = &boxes[j].slots;
                    match find_slot(slots, s) {
                        None => None,
                        Some(k) => Some(&slots[k]),
                    }
                },
            }
        },
    }
}

/// The member id of a slot, as a string.
fn uid_text(u: &Option<UserId>) -> (r: Option<String>)
    ensures
        opt_view(r) == uid_view(*u),
{
    match u {
        Some(x) => Some(x.0.clone()),
        None => None,
    }
}

/// The claim id of a slot, as a string.
fn cid_text(c: &Option<ClaimId>) -> (r: Option<String>)
    ensures
        opt_view(r) == cid_view(*c),
{
    match c {
        Some(x) => Some(x.0.clone()),
        None => None,
    }
}

/// The view of a slot.
fn view_of(s: &SlotAllocation) -> (r: SlotView)
    ensures
        shows(r, *s),
{
    SlotView {
        status: s.status,
        user_id: uid_text(&s.user_id),
        nickname: None,
        claim_id: cid_text(&s.claim_id),
        segment_id: crate::text::clone_opt(&s.segment_id),
        slot_policy: s.slot_policy,
        lock_reason: crate::text::clone_opt(&s.lock_reason),
    }
}

/// Whether two optional member ids are equal.
fn same_user(a: &Option<UserId>, b: &Option<UserId>) -> (r: bool)
    ensures
        r == (uid_view(*a) == uid_view(*b)),
{
    match (a, b) {
        (Some(x), Some(y)) => str_eq(x.0.as_str(), y.0.as_str()),
        (None, None) => true,
        _ => false,
    }
}

/// Reason for filling a slot under a policy.
fn fill_reason_of(p: SlotPolicy) -> (r: SlotChangeReason)
    ensures
        r == fill_reason(p),
{
    if p == SlotPolicy::TailLocked {
        SlotChangeReason::TailSegmentCreated
    } else if p == SlotPolicy::AdminFixed {
        SlotChangeReason::AdminFixed
    } else {
        SlotChangeReason::NewClaimFilled
    }
}

/// The change recorded for a slot of the later board, if it changed.
fn slot_change_for(before: &AllocationSnapshot, item_id: &ItemId, b: u32, a: &SlotAllocation) -> (r: Option<SlotChange>)
    ensures
        match r {
            Some(c) => slot_changed(slot_before(*before, item_id.0@, b, a.slot_index), *a) && records(
                c,
                (item_id.0@, b, slot_before(*before, item_id.0@, b, a.slot_index), *a),
            ),
            None => !slot_changed(slot_before(*before, item_id.0@, b, a.slot_index), *a),
        },
{
    let bs = lookup_slot(before, item_id, b, a.slot_index);
    let changed = match bs {
        Some(x) => x.status != a.status || !same_user(&x.user_id, &a.user_id),
        None => true,
    };
    if !changed {
        return None;
    }
    let reason = match bs {
        Some(x) => if x.status == SlotStatus::Empty && a.status == SlotStatus::Filled {
            fill_reason_of(a.slot_policy)
        } else if x.status == SlotStatus::Filled && a.status == SlotStatus::Empty {
            SlotChangeReason::CancelReleased
        } else {
            SlotChangeReason::NewClaimFilled
        },
        None => fill_reason_of(a.slot_policy),
    };
    let before_view = match bs {
        Some(x) => Some(view_of(x)),
        None => None,
    };
    Some(
        SlotChange {
            item_id: item_id.duplicate(),
            box_index: b,
            slot_index: a.slot_index,
            before: before_view,
            after: Some(view_of(a)),
            reason,
            causality: ChangeCausality::Direct,
        },
    )
}

/// Each change records the corresponding changed slot.
pub open spec fn all_record(cs: Seq<SlotChange>, es: Seq<Changed>) -> bool {
    cs.len() == es.len() && forall|k: int| 0 <= k < cs.len() ==> records(#[trigger] cs[k], es[k])
}

/// The slot changes between two boards, in the later board's order.
fn slot_changes_of(before: &AllocationSnapshot, after: &AllocationSnapshot) -> (r: Vec<SlotChange>)
    ensures
        all_record(
            r@,
            changed_slots(*before, after.item_allocations@, after.item_allocations@.len() as int),
        ),
{
    let ias = &after.item_allocations;
    let mut out: Vec<SlotChange> = Vec::new();
    let mut i: usize = 0;
    while i < ias.len()
        invariant
            i <= ias@.len(),
            ias@ == after.item_allocations@,
            all_record(out@, changed_slots(*before, ias@, i as int)),
        decreases ias@.len() - i,
    {
        let ia = &ias[i];
        let ghost base = changed_slots(*before, ias@, i as int);
        let mut j: usize = 0;
        while j < ia.boxes.len()
            invariant
                i < ias@.len(),
                *ia == ias@[i as int],
                j <= ia.boxes@.len(),
                base == changed_slots(*before, ias@, i as int),
                all_record(out@, base + box_list(*before, ia.item_id.0@, ia.boxes@, j as int)),
            decreases ia.boxes@.len() - j,
        {
            let bx = &ia.boxes[j];
            let ghost base2 = base + box_list(*before, ia.item_id.0@, ia.boxes@, j as int);
            let mut k: usize = 0;
            while k < bx.slots.len()
                invariant
                    j < ia.boxes@.len(),
                    *bx == ia.boxes@[j as int],
                    k <= bx.slots@.len(),
                    all_record(
                        out@,
                        base2 + slot_list(*before, ia.item_id.0@, bx.box_index, bx.slots@, k as int),
                    ),
                decreases bx.slots@.len() - k,
            {
                let ghost prev = base2 + slot_list(*before, ia.item_id.0@, bx.box_index, bx.slots@, k as int);
                let ghost prev_out = out@;
                match slot_change_for(before, &ia.item_id, bx.box_index, &bx.slots[k]) {
                    Some(c) => {
                        out.push(c);
                        let ghost e = (
                            ia.item_id.0@,
                            bx.box_index,
                            slot_before(*before, ia.item_id.0@, bx.box_index, bx.slots@[k as int].slot_index),
                            bx.slots@[k as int],
                        );
                        assert(base2 + slot_list(*before, ia.item_id.0@, bx.box_index, bx.slots@, k + 1)
                            =~= prev.push(e));
                        assert forall|q: int| 0 <= q < out@.len() implies records(
                            #[trigger] out@[q],
                            prev.push(e)[q],
                        ) by {
                            if q < prev_out.len() {
                                assert(out@[q] == prev_out[q]);
                            }
                        }
                    },
                    None => {
                        assert(base2 + slot_list(*before, ia.item_id.0@, bx.box_index, bx.slots@, k + 1)
                            =~= prev);
                    },
                }
                k = k + 1;
            }
            assert(base + box_list(*before, ia.item_id.0@, ia.boxes@, j + 1) =~= base2 + slot_list(
                *before,
                ia.item_id.0@,
                bx.box_index,
                bx.slots@,
                bx.slots@.len() as int,
            ));
            j = j + 1;
        }
        assert(changed_slots(*before, ias@, i + 1) =~= base + box_list(
            *before,
            ia.item_id.0@,
            ia.boxes@,
            ia.boxes@.len() as int,
        ));
        i = i + 1;
    }
    out
}

// ---------------------------------------------------------------------------
// Claims touched
// ---------------------------------------------------------------------------
/// Claim and status of every slot of a box list, in board order.
pub open spec fn box_marks(boxes: Seq<BoxAllocation>, n: int) -> Seq<(Option<Seq<char>>, SlotStatus)>
    decreases n,
{
    if n <= 0 {
        Seq::empty()
    } else {
        box_marks(boxes, n - 1) + boxes[n - 1].slots@.map_values(
            |s: SlotAllocation| (cid_view(s.claim_id), s.status),
        )
    }
}

/// Claim and status of every slot of the first `n` items, in board order.
pub open spec fn board_marks(ias: Seq<ItemAllocation>, n: int) -> Seq<(Option<Seq<char>>, SlotStatus)>
    decreases n,
{
    if n <= 0 {
        Seq::empty()
    } else {
        board_marks(ias, n - 1) + box_marks(ias[n - 1].boxes@, ias[n - 1].boxes@.len() as int)
    }
}

/// Status of the first slot holding claim `id`.
pub open spec fn claim_status(marks: Seq<(Option<Seq<char>>, SlotStatus)>, id: Seq<char>) -> Option<Seq<char>>
    decreases marks.len(),
{
    if marks.len() == 0 {
        None
    } else if claim_status(marks.drop_last(), id) is Some {
        claim_status(marks.drop_last(), id)
    } else if marks.last().0 == Some(id) {
        Some(slot_status_name(marks.last().1))
    } else {
        None
    }
}

/// The claims named by the changed slots, before or after.
pub open spec fn touched_claims(es: Seq<Changed>) -> Set<Seq<char>>
    decreases es.len(),
{
    if es.len() == 0 {
        Set::empty()
    } else {
        let e = es.last();
        let s = touched_claims(es.drop_last());
        let s1 = match cid_view(e.3.claim_id) {
            Some(c) => s.insert(c),
            None => s,
        };
        match e.2 {
            Some(b) => match cid_view(b.claim_id) {
                Some(c) => s1.insert(c),
                None => s1,
            },
            None => s1,
        }
    }
}

/// The claim changes name each touched claim once, with its status on each board.
pub open spec fn claims_recorded(cs: Seq<ClaimChange>, es: Seq<Changed>, before: AllocationSnapshot, after: AllocationSnapshot) -> bool {
    let bm = board_marks(before.item_allocations@, before.item_allocations@.len() as int);
    let am = board_marks(after.item_allocations@, after.item_allocations@.len() as int);
    &&& distinct(claim_ids(cs))
    &&& claim_ids(cs).to_set() == touched_claims(es)
    &&& forall|k: int|
        0 <= k < cs.len() ==> opt_view(#[trigger] cs[k].before_status) == claim_status(
            bm,
            cs[k].claim_id@,
        ) && opt_view(cs[k].after_status) == claim_status(am, cs[k].claim_id@)
}

/// Claim and status of every slot of a board.
fn marks_of(snap: &AllocationSnapshot) -> (r: Vec<(Option<String>, SlotStatus)>)
    ensures
        r@.map_values(|m: (Option<String>, SlotStatus)| (opt_view(m.0), m.1)) == board_marks(
            snap.item_allocations@,
            snap.item_allocations@.len() as int,
        ),
{
    let ias = &snap.item_allocations;
    let mut out: Vec<(Option<String>, SlotStatus)> = Vec::new();
    let mut i: usize = 0;
    while i < ias.len()
        invariant
            i <= ias@.len(),
            ias@ == snap.item_allocations@,
            out@.map_values(|m: (Option<String>, SlotStatus)| (opt_view(m.0), m.1)) == board_marks(
                ias@,
                i as int,
            ),
        decreases ias@.len() - i,
    {
        let boxes = &ias[i].boxes;
        let ghost base = board_marks(ias@, i as int);
        let mut j: usize = 0;
        while j < boxes.len()
            invariant
                i < ias@.len(),
                boxes@ == ias@[i as int].boxes@,
                j <= boxes@.len(),
                base == board_marks(ias@, i as int),
                out@.map_values(|m: (Option<String>, SlotStatus)| (opt_view(m.0), m.1)) == base
                    + box_marks(boxes@, j as int),
            decreases boxes@.len() - j,
        {
            let slots = &boxes[j].slots;
            let ghost base2 = base + box_marks(boxes@, j as int);
            let mut k: usize = 0;
            while k < slots.len()
                invariant
                    j < boxes@.len(),
                    slots@ == boxes@[j as int].slots@,
                    k <= slots@.len(),
                    out@.map_values(|m: (Option<String>, SlotStatus)| (opt_view(m.0), m.1)) == base2
                        + slots@.take(k as int).map_values(
                        |s: SlotAllocation| (cid_view(s.claim_id), s.status),
                    ),
                decreases slots@.len() - k,
            {
                let ghost prev = out@.map_values(|m: (Option<String>, SlotStatus)| (opt_view(m.0), m.1));
                out.push((cid_text(&slots[k].claim_id), slots[k].status));
                assert(out@.map_values(|m: (Option<String>, SlotStatus)| (opt_view(m.0), m.1)) =~= prev.push(
                    (cid_view(slots@[k as int].claim_id), slots@[k as int].status),
                ));
                assert(slots@.take(k + 1) =~= slots@.take(k as int).push(slots@[k as int]));
                assert(out@.map_values(|m: (Option<String>, SlotStatus)| (opt_view(m.0), m.1)) =~= base2
                    + slots@.take(k + 1).map_values(
                    |s: SlotAllocation| (cid_view(s.claim_id), s.status),
                ));
                k = k + 1;
            }
            assert(slots@.take(slots@.len() as int) =~= slots@);
            assert(base + box_marks(boxes@, j + 1) =~= base2 + slots@.map_values(
                |s: SlotAllocation| (cid_view(s.claim_id), s.status),
            ));
            j = j + 1;
        }
        i = i + 1;
    }
    out
}

/// Status of the first slot holding the claim (see `claim_status`).
fn status_of_claim(marks: &Vec<(Option<String>, SlotStatus)>, id: &String) -> (r: Option<String>)
    ensures
        opt_view(r) == claim_status(
            marks@.map_values(|m: (Option<String>, SlotStatus)| (opt_view(m.0), m.1)),
            id@,
        ),
{
    let ghost mv = marks@.map_values(|m: (Option<String>, SlotStatus)| (opt_view(m.0), m.1));
    let mut j: usize = 0;
    let mut found: Option<String> = None;
    while j < marks.len()
        invariant
            j <= marks@.len(),
            mv == marks@.map_values(|m: (Option<String>, SlotStatus)| (opt_view(m.0), m.1)),
            opt_view(found) == claim_status(mv.take(j as int), id@),
        decreases marks@.len() - j,
    {
        assert(mv.take(j + 1).drop_last() =~= mv.take(j as int));
        assert(mv.take(j + 1).last() == mv[j as int]);
        if found.is_none() {
            let hit = match &marks[j].0 {
                Some(c) => str_eq(c.as_str(), id.as_str()),
                None => false,
            };
            if hit {
                found = Some(crate::text::owned(marks[j].1.as_str()));
            }
        }
        j = j + 1;
    }
    assert(mv.take(mv.len() as int) =~= mv);
    found
}

/// The ids of claim changes.
pub open spec fn claim_ids(cs: Seq<ClaimChange>) -> Seq<Seq<char>> {
    cs.map_values(|c: ClaimChange| c.claim_id@)
}

/// No element occurs twice.
pub open spec fn distinct(v: Seq<Seq<char>>) -> bool {
    forall|i: int, j: int| 0 <= i < j < v.len() ==> v[i] != v[j]
}

/// Adds a string unless an equal one is already listed.
fn add_unique(ids: &mut Vec<String>, c: &String)
    requires
        distinct(views(old(ids)@)),
    ensures
        distinct(views(final(ids)@)),
        views(final(ids)@).to_set() == views(old(ids)@).to_set().insert(c@),
{
    let ghost v0 = views(ids@);
    let mut k: usize = 0;
    while k < ids.len()
        invariant
            k <= ids@.len(),
            ids@ == old(ids)@,
            v0 == views(ids@),
            distinct(v0),
            forall|q: int| 0 <= q < k ==> v0[q] != c@,
        decreases ids@.len() - k,
    {
        if str_eq(ids[k].as_str(), c.as_str()) {
            assert(v0[k as int] == c@);
            assert(v0.to_set().insert(c@) =~= v0.to_set());
            return;
        }
        k = k + 1;
    }
    ids.push(c.clone());
    assert(views(ids@) =~= v0.push(c@));
    proof {
        crate::text::lemma_push_to_set(v0, c@);
    }
}

/// The claims touched by the slot changes, each with its status on each board.
fn claim_changes_of(
    changes: &Vec<SlotChange>,
    before: &AllocationSnapshot,
    after: &AllocationSnapshot,
    Ghost(es): Ghost<Seq<Changed>>,
) -> (r: Vec<ClaimChange>)
    requires
        all_record(changes@, es),
    ensures
        claims_recorded(r@, es, *before, *after),
{
    let mut ids: Vec<String> = Vec::new();
    let mut i: usize = 0;
    while i < changes.len()
        invariant
            i <= changes@.len(),
            all_record(changes@, es),
            distinct(views(ids@)),
            views(ids@).to_set() == touched_claims(es.take(i as int)),
        decreases changes@.len() - i,
    {
        assert(es.take(i + 1).drop_last() =~= es.take(i as int));
        assert(es.take(i + 1).last() == es[i as int]);
        assert(records(changes@[i as int], es[i as int]));
        let ch = &changes[i];
        match &ch.after {
            Some(v) => match &v.claim_id {
                Some(c) => add_unique(&mut ids, c),
                None => {},
            },
            None => {},
        }
        match &ch.before {
            Some(v) => match &v.claim_id {
                Some(c) => add_unique(&mut ids, c),
                None => {},
            },
            None => {},
        }
        i = i + 1;
    }
    assert(es.take(changes@.len() as int) =~= es);
    let bm = marks_of(before);
    let am = marks_of(after);
    let mut out: Vec<ClaimChange> = Vec::new();
    let mut k: usize = 0;
    while k < ids.len()
        invariant
            k <= ids@.len(),
            bm@.map_values(|m: (Option<String>, SlotStatus)| (opt_view(m.0), m.1)) == board_marks(
                before.item_allocations@,
                before.item_allocations@.len() as int,
            ),
            am@.map_values(|m: (Option<String>, SlotStatus)| (opt_view(m.0), m.1)) == board_marks(
                after.item_allocations@,
                after.item_allocations@.len() as int,
            ),
            out@.len() == k,
            forall|q: int| 0 <= q < k ==> (#[trigger] out@[q]).claim_id@ == ids@[q]@,
            forall|q: int|
                0 <= q < k ==> opt_view(#[trigger] out@[q].before_status) == claim_status(
                    board_marks(before.item_allocations@, before.item_allocations@.len() as int),
                    out@[q].claim_id@,
                ) && opt_view(out@[q].after_status) == claim_status(
                    board_marks(after.item_allocations@, after.item_allocations@.len() as int),
                    out@[q].claim_id@,
                ),
        decreases ids@.len() - k,
    {
        let b = status_of_claim(&bm, &ids[k]);
        let a = status_of_claim(&am, &ids[k]);
        out.push(ClaimChange { claim_id: ids[k].clone(), before_status: b, after_status: a });
        k = k + 1;
    }
    assert(claim_ids(out@) =~= views(ids@));
    out
}

// ---------------------------------------------------------------------------
// Member and item totals
// ---------------------------------------------------------------------------
/// Sum of the gross amounts of a member's lines.
pub open spec fn gross_total(lines: Seq<UserItemLine>) -> int
    decreases lines.len(),
{
    if lines.len() == 0 {
        0
    } else {
        gross_total(lines.drop_last()) + lines.last().gross.0
    }
}

/// Every running sum of the gross amounts fits in `i64`.
pub open spec fn gross_fits(lines: Seq<UserItemLine>) -> bool {
    forall|k: int| 0 <= k <= lines.len() ==> i64::MIN <= #[trigger] gross_total(lines.take(k)) <= i64::MAX
}

/// Index of the first summary of member `uid`, or -1.
pub open spec fn user_index(sums: Seq<UserSummary>, uid: Seq<char>) -> int
    decreases sums.len(),
{
    if sums.len() == 0 {
        -1
    } else if user_index(sums.drop_last(), uid) >= 0 {
        user_index(sums.drop_last(), uid)
    } else if sums.last().user_id.0@ == uid {
        sums.len() - 1
    } else {
        -1
    }
}

/// A member's changed total: member, before, after.
pub type TotalV = (Seq<char>, int, int);

/// Members of the later board (first `n`) whose total differs from the earlier one (0 when absent).
pub open spec fn changed_totals(before: Seq<UserSummary>, after: Seq<UserSummary>, n: int) -> Seq<TotalV>
    decreases n,
{
    if n <= 0 {
        Seq::empty()
    } else {
        let a = after[n - 1];
        let bi = user_index(before, a.user_id.0@);
        let bt = if bi >= 0 {
            gross_total(before[bi].items@)
        } else {
            0
        };
        let at = gross_total(a.items@);
        changed_totals(before, after, n - 1) + if bt != at {
            seq![(a.user_id.0@, bt, at)]
        } else {
            Seq::empty()
        }
    }
}

/// Members of the earlier board (first `n`) absent from the later one: their total drops to 0.
pub open spec fn dropped_totals(before: Seq<UserSummary>, after: Seq<UserSummary>, n: int) -> Seq<TotalV>
    decreases n,
{
    if n <= 0 {
        Seq::empty()
    } else {
        let b = before[n - 1];
        dropped_totals(before, after, n - 1) + if user_index(after, b.user_id.0@) < 0 {
            seq![(b.user_id.0@, gross_total(b.items@), 0int)]
        } else {
            Seq::empty()
        }
    }
}

/// All members' total changes: changed members of the later board, then dropped ones.
pub open spec fn total_changes(before: AllocationSnapshot, after: AllocationSnapshot) -> Seq<TotalV> {
    changed_totals(before.user_summaries@, after.user_summaries@, after.user_summaries@.len() as int)
        + dropped_totals(
        before.user_summaries@,
        after.user_summaries@,
        before.user_summaries@.len() as int,
    )
}

/// The view of a member total change.
pub open spec fn total_view(c: UserTotalChange) -> TotalV {
    (c.user_id@, c.before_total as int, c.after_total as int)
}

/// Every member line of the first `n` summaries.
pub open spec fn all_lines(sums: Seq<UserSummary>, n: int) -> Seq<UserItemLine>
    decreases n,
{
    if n <= 0 {
        Seq::empty()
    } else {
        all_lines(sums, n - 1) + sums[n - 1].items@
    }
}

/// Lines of a board.
pub open spec fn board_lines(s: AllocationSnapshot) -> Seq<UserItemLine> {
    all_lines(s.user_summaries@, s.user_summaries@.len() as int)
}

/// Item and quantity of each line.
pub open spec fn line_pairs(lines: Seq<UserItemLine>) -> Seq<(Seq<char>, u32)> {
    lines.map_values(|l: UserItemLine| (l.item_id.0@, l.quantity))
}

/// Total quantity of item `id` over `(item, quantity)` pairs.
pub open spec fn pair_qty(ps: Seq<(Seq<char>, u32)>, id: Seq<char>) -> int
    decreases ps.len(),
{
    if ps.len() == 0 {
        0
    } else {
        pair_qty(ps.drop_last(), id) + if ps.last().0 == id {
            ps.last().1 as int
        } else {
            0
        }
    }
}

/// Quantity claimed of item `id` over the lines.
pub open spec fn item_qty(lines: Seq<UserItemLine>, id: Seq<char>) -> int {
    pair_qty(line_pairs(lines), id)
}

/// Items named by the lines.
pub open spec fn line_items(lines: Seq<UserItemLine>) -> Set<Seq<char>> {
    line_pairs(lines).map_values(|p: (Seq<char>, u32)| p.0).to_set()
}

/// The items whose quantity differs between the boards.
pub open spec fn changed_items(before: AllocationSnapshot, after: AllocationSnapshot) -> Set<Seq<char>> {
    line_items(board_lines(before)).union(line_items(board_lines(after))).filter(
        |id: Seq<char>| item_qty(board_lines(before), id) != item_qty(board_lines(after), id),
    )
}

/// The item changes name each changed item once, with its quantity on each board.
pub open spec fn items_recorded(cs: Seq<ItemTotalChange>, before: AllocationSnapshot, after: AllocationSnapshot) -> bool {
    &&& distinct(cs.map_values(|c: ItemTotalChange| c.item_id@))
    &&& cs.map_values(|c: ItemTotalChange| c.item_id@).to_set() == changed_items(before, after)
    &&& forall|k: int|
        0 <= k < cs.len() ==> (#[trigger] cs[k]).before_quantity == item_qty(board_lines(before), cs[k].item_id@)
            && cs[k].after_quantity == item_qty(board_lines(after), cs[k].item_id@)
}

/// The sums the comparison computes fit their types: each member's running
/// gross total in `i64`, each item's quantity in `u32`.
pub open spec fn sums_fit(s: AllocationSnapshot) -> bool {
    &&& forall|k: int| 0 <= k < s.user_summaries@.len() ==> gross_fits(#[trigger] s.user_summaries@[k].items@)
    &&& forall|id: Seq<char>| item_qty(board_lines(s), id) <= u32::MAX
}

proof fn lemma_gross_step(lines: Seq<UserItemLine>, k: int)
    requires
        0 <= k < lines.len(),
    ensures
        gross_total(lines.take(k + 1)) == gross_total(lines.take(k)) + lines[k].gross.0,
{
    assert(lines.take(k + 1).drop_last() =~= lines.take(k));
}

/// Sum of the gross amounts of a member's lines.
fn gross_sum(lines: &Vec<UserItemLine>) -> (r: i64)
    requires
        gross_fits(lines@),
    ensures
        r == gross_total(lines@),
{
    let mut t: i64 = 0;
    let mut k: usize = 0;
    assert(lines@.take(0) =~= Seq::<UserItemLine>::empty());
    while k < lines.len()
        invariant
            k <= lines@.len(),
            gross_fits(lines@),
            t == gross_total(lines@.take(k as int)),
        decreases lines@.len() - k,
    {
        proof {
            lemma_gross_step(lines@, k as int);
            assert(i64::MIN <= gross_total(lines@.take(k + 1)) <= i64::MAX);
        }
        t = t + lines[k].gross.0;
        k = k + 1;
    }
    assert(lines@.take(lines@.len() as int) =~= lines@);
    t
}

proof fn lemma_user_index_bounds(sums: Seq<UserSummary>, uid: Seq<char>)
    ensures
        -1 <= user_index(sums, uid) < sums.len(),
    decreases sums.len(),
{
    if sums.len() > 0 {
        lemma_user_index_bounds(sums.drop_last(), uid);
    }
}

/// Index of the first summary of the member.
fn find_user(sums: &Vec<UserSummary>, uid: &UserId) -> (r: Option<usize>)
    ensures
        match r {
            Some(k) => k == user_index(sums@, uid.0@) && k < sums@.len(),
            None => user_index(sums@, uid.0@) == -1,
        },
{
    proof {
        lemma_user_index_bounds(sums@, uid.0@);
    }
    let mut j: usize = 0;
    let mut found: Option<usize> = None;
    while j < sums.len()
        invariant
            j <= sums@.len(),
            found == (if user_index(sums@.take(j as int), uid.0@) >= 0 {
                Some(user_index(sums@.take(j as int), uid.0@) as usize)
            } else {
                None::<usize>
            }),
            user_index(sums@.take(j as int), uid.0@) < j,
        decreases sums@.len() - j,
    {
        assert(sums@.take(j + 1).drop_last() =~= sums@.take(j as int));
        if found.is_none() && str_eq(sums[j].user_id.0.as_str(), uid.0.as_str()) {
            found = Some(j);
        }
        j = j + 1;
    }
    assert(sums@.take(sums@.len() as int) =~= sums@);
    found
}

/// Members whose total changed (see `total_changes`).
fn user_total_changes_of(before: &AllocationSnapshot, after: &AllocationSnapshot) -> (r: Vec<UserTotalChange>)
    requires
        sums_fit(*before),
        sums_fit(*after),
    ensures
        r@.map_values(|c: UserTotalChange| total_view(c)) == total_changes(*before, *after),
{
    let bs = &before.user_summaries;
    let as_ = &after.user_summaries;
    let mut out: Vec<UserTotalChange> = Vec::new();
    let mut i: usize = 0;
    while i < as_.len()
        invariant
            i <= as_@.len(),
            bs@ == before.user_summaries@,
            as_@ == after.user_summaries@,
            sums_fit(*before),
            sums_fit(*after),
            out@.map_values(|c: UserTotalChange| total_view(c)) == changed_totals(bs@, as_@, i as int),
        decreases as_@.len() - i,
    {
        let a = &as_[i];
        assert(gross_fits(as_@[i as int].items@));
        let at = gross_sum(&a.items);
        let bt: i64 = match find_user(bs, &a.user_id) {
            Some(k) => {
                assert(gross_fits(bs@[k as int].items@));
                gross_sum(&bs[k].items)
            },
            None => 0,
        };
        let ghost prev = out@.map_values(|c: UserTotalChange| total_view(c));
        if bt != at {
            out.push(UserTotalChange { user_id: a.user_id.0.clone(), before_total: bt, after_total: at });
            assert(out@.map_values(|c: UserTotalChange| total_view(c)) =~= prev.push(
                (a.user_id.0@, bt as int, at as int),
            ));
        }
        assert(out@.map_values(|c: UserTotalChange| total_view(c)) =~= changed_totals(bs@, as_@, i + 1));
        i = i + 1;
    }
    let ghost head = out@.map_values(|c: UserTotalChange| total_view(c));
    let mut j: usize = 0;
    while j < bs.len()
        invariant
            j <= bs@.len(),
            bs@ == before.user_summaries@,
            as_@ == after.user_summaries@,
            sums_fit(*before),
            head == changed_totals(bs@, as_@, as_@.len() as int),
            out@.map_values(|c: UserTotalChange| total_view(c)) == head + dropped_totals(
                bs@,
                as_@,
                j as int,
            ),
        decreases bs@.len() - j,
    {
        let b = &bs[j];
        let ghost prev = out@.map_values(|c: UserTotalChange| total_view(c));
        if find_user(as_, &b.user_id).is_none() {
            assert(gross_fits(bs@[j as int].items@));
            let bt = gross_sum(&b.items);
            out.push(UserTotalChange { user_id: b.user_id.0.clone(), before_total: bt, after_total: 0 });
            assert(out@.map_values(|c: UserTotalChange| total_view(c)) =~= prev.push(
                (b.user_id.0@, bt as int, 0int),
            ));
        }
        assert(out@.map_values(|c: UserTotalChange| total_view(c)) =~= head + dropped_totals(
            bs@,
            as_@,
            j + 1,
        ));
        j = j + 1;
    }
    out
}

/// `(item, quantity)` of every member line of a board, in board order.
fn pairs_of(snap: &AllocationSnapshot) -> (r: Vec<(String, u32)>)
    ensures
        r@.map_values(|p: (String, u32)| (p.0@, p.1)) == line_pairs(board_lines(*snap)),
{
    let sums = &snap.user_summaries;
    let mut out: Vec<(String, u32)> = Vec::new();
    let mut i: usize = 0;
    while i < sums.len()
        invariant
            i <= sums@.len(),
            sums@ == snap.user_summaries@,
            out@.map_values(|p: (String, u32)| (p.0@, p.1)) == line_pairs(all_lines(sums@, i as int)),
        decreases sums@.len() - i,
    {
        let lines = &sums[i].items;
        let ghost base = line_pairs(all_lines(sums@, i as int));
        let mut k: usize = 0;
        while k < lines.len()
            invariant
                i < sums@.len(),
                lines@ == sums@[i as int].items@,
                k <= lines@.len(),
                out@.map_values(|p: (String, u32)| (p.0@, p.1)) == base + line_pairs(lines@.take(k as int)),
            decreases lines@.len() - k,
        {
            let ghost prev = out@.map_values(|p: (String, u32)| (p.0@, p.1));
            out.push((lines[k].item_id.0.clone(), lines[k].quantity));
            assert(out@.map_values(|p: (String, u32)| (p.0@, p.1)) =~= prev.push(
                (lines@[k as int].item_id.0@, lines@[k as int].quantity),
            ));
            assert(lines@.take(k + 1) =~= lines@.take(k as int).push(lines@[k as int]));
            assert(base + line_pairs(lines@.take(k + 1)) =~= prev.push(
                (lines@[k as int].item_id.0@, lines@[k as int].quantity),
            ));
            k = k + 1;
        }
        assert(lines@.take(lines@.len() as int) =~= lines@);
        assert(line_pairs(all_lines(sums@, i + 1)) =~= base + line_pairs(lines@));
        i = i + 1;
    }
    out
}

proof fn lemma_pair_qty_prefix(ps: Seq<(Seq<char>, u32)>, id: Seq<char>, k: int)
    requires
        0 <= k <= ps.len(),
    ensures
        0 <= pair_qty(ps.take(k), id) <= pair_qty(ps, id),
    decreases ps.len() - k,
{
    if k < ps.len() {
        lemma_pair_qty_prefix(ps, id, k + 1);
        assert(ps.take(k + 1).drop_last() =~= ps.take(k));
        lemma_pair_qty_nonneg(ps.take(k), id);
    } else {
        assert(ps.take(k) =~= ps);
        lemma_pair_qty_nonneg(ps, id);
    }
}

proof fn lemma_pair_qty_nonneg(ps: Seq<(Seq<char>, u32)>, id: Seq<char>)
    ensures
        pair_qty(ps, id) >= 0,
    decreases ps.len(),
{
    if ps.len() > 0 {
        lemma_pair_qty_nonneg(ps.drop_last(), id);
    }
}

/// Total quantity of the item over the pairs.
fn qty_of(ps: &Vec<(String, u32)>, id: &String) -> (r: u32)
    requires
        pair_qty(ps@.map_values(|p: (String, u32)| (p.0@, p.1)), id@) <= u32::MAX,
    ensures
        r == pair_qty(ps@.map_values(|p: (String, u32)| (p.0@, p.1)), id@),
{
    let ghost pv = ps@.map_values(|p: (String, u32)| (p.0@, p.1));
    let mut t: u32 = 0;
    let mut k: usize = 0;
    assert(pv.take(0) =~= Seq::<(Seq<char>, u32)>::empty());
    while k < ps.len()
        invariant
            k <= ps@.len(),
            pv == ps@.map_values(|p: (String, u32)| (p.0@, p.1)),
            pair_qty(pv, id@) <= u32::MAX,
            t == pair_qty(pv.take(k as int), id@),
        decreases ps@.len() - k,
    {
        assert(pv.take(k + 1).drop_last() =~= pv.take(k as int));
        proof {
            lemma_pair_qty_prefix(pv, id@, k + 1);
        }
        if str_eq(ps[k].0.as_str(), id.as_str()) {
            t = t + ps[k].1;
        }
        k = k + 1;
    }
    assert(pv.take(pv.len() as int) =~= pv);
    t
}

/// Items whose claimed quantity changed (see `items_recorded`).
fn item_total_changes_of(before: &AllocationSnapshot, after: &AllocationSnapshot) -> (r: Vec<ItemTotalChange>)
    requires
        sums_fit(*before),
        sums_fit(*after),
    ensures
        items_recorded(r@, *before, *after),
{
    let bp = pairs_of(before);
    let ap = pairs_of(after);
    let ghost bv = bp@.map_values(|p: (String, u32)| (p.0@, p.1));
    let ghost av = ap@.map_values(|p: (String, u32)| (p.0@, p.1));
    let mut ids: Vec<String> = Vec::new();
    let mut i: usize = 0;
    assert(views(ids@).to_set() =~= bv.take(0).map_values(|p: (Seq<char>, u32)| p.0).to_set());
    while i < bp.len()
        invariant
            i <= bp@.len(),
            bv == bp@.map_values(|p: (String, u32)| (p.0@, p.1)),
            distinct(views(ids@)),
            views(ids@).to_set() == bv.take(i as int).map_values(|p: (Seq<char>, u32)| p.0).to_set(),
        decreases bp@.len() - i,
    {
        add_unique(&mut ids, &bp[i].0);
        proof {
            assert(bv.take(i + 1).map_values(|p: (Seq<char>, u32)| p.0) =~= bv.take(i as int).map_values(
                |p: (Seq<char>, u32)| p.0,
            ).push(bp@[i as int].0@));
            crate::text::lemma_push_to_set(
                bv.take(i as int).map_values(|p: (Seq<char>, u32)| p.0),
                bp@[i as int].0@,
            );
        }
        i = i + 1;
    }
    assert(bv.take(bv.len() as int) =~= bv);
    let ghost before_ids = views(ids@).to_set();
    let mut j: usize = 0;
    assert(av.take(0).map_values(|p: (Seq<char>, u32)| p.0).to_set() =~= Set::<Seq<char>>::empty());
    while j < ap.len()
        invariant
            j <= ap@.len(),
            av == ap@.map_values(|p: (String, u32)| (p.0@, p.1)),
            distinct(views(ids@)),
            views(ids@).to_set() == before_ids.union(
                av.take(j as int).map_values(|p: (Seq<char>, u32)| p.0).to_set(),
            ),
        decreases ap@.len() - j,
    {
        add_unique(&mut ids, &ap[j].0);
        proof {
            assert(av.take(j + 1).map_values(|p: (Seq<char>, u32)| p.0) =~= av.take(j as int).map_values(
                |p: (Seq<char>, u32)| p.0,
            ).push(ap@[j as int].0@));
            crate::text::lemma_push_to_set(
                av.take(j as int).map_values(|p: (Seq<char>, u32)| p.0),
                ap@[j as int].0@,
            );
            assert(views(ids@).to_set() =~= before_ids.union(
                av.take(j + 1).map_values(|p: (Seq<char>, u32)| p.0).to_set(),
            ));
        }
        j = j + 1;
    }
    assert(av.take(av.len() as int) =~= av);
    let ghost all_ids = views(ids@);
    let ghost pred = |id: Seq<char>| pair_qty(bv, id) != pair_qty(av, id);
    let mut out: Vec<ItemTotalChange> = Vec::new();
    let mut k: usize = 0;
    assert(out@.map_values(|c: ItemTotalChange| c.item_id@).to_set() =~= all_ids.take(0).to_set().filter(pred));
    while k < ids.len()
        invariant
            k <= ids@.len(),
            all_ids == views(ids@),
            distinct(all_ids),
            bv == line_pairs(board_lines(*before)),
            av == line_pairs(board_lines(*after)),
            sums_fit(*before),
            sums_fit(*after),
            pred == (|id: Seq<char>| pair_qty(bv, id) != pair_qty(av, id)),
            bv == bp@.map_values(|p: (String, u32)| (p.0@, p.1)),
            av == ap@.map_values(|p: (String, u32)| (p.0@, p.1)),
            forall|q: int| 0 <= q < out@.len() ==> exists|w: int| 0 <= w < k && (#[trigger] out@[q]).item_id@ == all_ids[w],
            forall|q1: int, q2: int| 0 <= q1 < q2 < out@.len() ==> out@[q1].item_id@ != out@[q2].item_id@,
            out@.map_values(|c: ItemTotalChange| c.item_id@).to_set() == all_ids.take(k as int).to_set().filter(pred),
            forall|q: int|
                0 <= q < out@.len() ==> (#[trigger] out@[q]).before_quantity == pair_qty(bv, out@[q].item_id@)
                    && out@[q].after_quantity == pair_qty(av, out@[q].item_id@),
        decreases ids@.len() - k,
    {
        let id = &ids[k];
        assert(item_qty(board_lines(*before), id@) <= u32::MAX);
        assert(item_qty(board_lines(*after), id@) <= u32::MAX);
        let bq = qty_of(&bp, id);
        let aq = qty_of(&ap, id);
        let ghost prev = out@;
        proof {
            crate::text::lemma_push_to_set(all_ids.take(k as int), all_ids[k as int]);
            assert(all_ids.take(k + 1) =~= all_ids.take(k as int).push(all_ids[k as int]));
        }
        if bq != aq {
            out.push(ItemTotalChange { item_id: id.clone(), before_quantity: bq, after_quantity: aq });
            proof {
                assert(out@.map_values(|c: ItemTotalChange| c.item_id@) =~= prev.map_values(
                    |c: ItemTotalChange| c.item_id@,
                ).push(id@));
                crate::text::lemma_push_to_set(prev.map_values(|c: ItemTotalChange| c.item_id@), id@);
                assert(all_ids.take(k + 1).to_set().filter(pred) =~= all_ids.take(k as int).to_set().filter(
                    pred,
                ).insert(id@));
                assert forall|q1: int, q2: int| 0 <= q1 < q2 < out@.len() implies out@[q1].item_id@
                    != out@[q2].item_id@ by {
                    if q2 == out@.len() - 1 {
                        let w = choose|w: int| 0 <= w < k && out@[q1].item_id@ == all_ids[w];
                        assert(all_ids[w] != all_ids[k as int]);
                    }
                }
                assert forall|q: int| 0 <= q < out@.len() implies exists|w: int|
                    0 <= w < k + 1 && (#[trigger] out@[q]).item_id@ == all_ids[w] by {
                    if q < prev.len() {
                        assert(out@[q] == prev[q]);
                        let w = choose|w: int| 0 <= w < k && prev[q].item_id@ == all_ids[w];
                    } else {
                        assert(out@[q].item_id@ == all_ids[k as int]);
                    }
                }
            }
        } else {
            proof {
                assert(all_ids.take(k + 1).to_set().filter(pred) =~= all_ids.take(k as int).to_set().filter(
                    pred,
                ));
            }
        }
        k = k + 1;
    }
    proof {
        assert(all_ids.take(all_ids.len() as int) =~= all_ids);
        assert(all_ids.to_set() == line_items(board_lines(*before)).union(line_items(board_lines(*after))));
        assert(all_ids.to_set().filter(pred) =~= changed_items(*before, *after));
        assert(distinct(out@.map_values(|c: ItemTotalChange| c.item_id@)));
    }
    out
}

/// `金额 <before> -> <after>`.
pub open spec fn amount_text(before: int, after: int) -> Seq<char> {
    "金额 "@ + int_text(before) + " -> "@ + int_text(after)
}

/// The settlement change records the member total change.
pub open spec fn settles(s: SettlementChange, t: UserTotalChange) -> bool {
    &&& s.user_id@ == t.user_id@
    &&& s.before_amount == t.before_total
    &&& s.after_amount == t.after_total
    &&& s.description@ == amount_text(t.before_total as int, t.after_total as int)
}

/// What the two boards differ in: changed slots in the later board's order
/// (`records`), the claims they touch (`claims_recorded`), members' changed
/// totals (`total_changes`), items' changed quantities (`items_recorded`),
/// and one settlement change per member total change.
pub open spec fn diff_of(d: StateDiff, before: AllocationSnapshot, after: AllocationSnapshot) -> bool {
    let es = changed_slots(before, after.item_allocations@, after.item_allocations@.len() as int);
    &&& all_record(d.slot_changes@, es)
    &&& claims_recorded(d.claim_changes@, es, before, after)
    &&& d.user_total_changes@.map_values(|c: UserTotalChange| total_view(c)) == total_changes(before, after)
    &&& items_recorded(d.item_total_changes@, before, after)
    &&& d.settlement_changes@.len() == d.user_total_changes@.len()
    &&& forall|k: int|
        0 <= k < d.settlement_changes@.len() ==> settles(
            #[trigger] d.settlement_changes@[k],
            d.user_total_changes@[k],
        )
}

// ---------------------------------------------------------------------------
// An unchanged board
// ---------------------------------------------------------------------------
/// A board whose items, boxes (per item), slots (per box) and members are
/// each named once.
pub open spec fn well_keyed(s: AllocationSnapshot) -> bool {
    let ias = s.item_allocations@;
    let sums = s.user_summaries@;
    &&& forall|p: int, q: int| 0 <= p < q < ias.len() ==> ias[p].item_id.0@ != ias[q].item_id.0@
    &&& forall|a: int, p: int, q: int|
        0 <= a < ias.len() && 0 <= p < q < ias[a].boxes@.len() ==> ias[a].boxes@[p].box_index
            != ias[a].boxes@[q].box_index
    &&& forall|a: int, j: int, p: int, q: int|
        0 <= a < ias.len() && 0 <= j < ias[a].boxes@.len() && 0 <= p < q
            < ias[a].boxes@[j].slots@.len() ==> ias[a].boxes@[j].slots@[p].slot_index
            != ias[a].boxes@[j].slots@[q].slot_index
    &&& forall|p: int, q: int| 0 <= p < q < sums.len() ==> sums[p].user_id.0@ != sums[q].user_id.0@
}

proof fn lemma_item_index_at(ias: Seq<ItemAllocation>, a: int)
    requires
        0 <= a < ias.len(),
        forall|p: int, q: int| 0 <= p < q < ias.len() ==> ias[p].item_id.0@ != ias[q].item_id.0@,
    ensures
        item_index(ias, ias[a].item_id.0@) == a,
    decreases ias.len(),
{
    let id = ias[a].item_id.0@;
    let d = ias.drop_last();
    if a == ias.len() - 1 {
        lemma_item_index_bounds(d, id);
        if item_index(d, id) >= 0 {
            lemma_item_index_hit(d, id);
        }
    } else {
        lemma_item_index_at(d, a);
    }
}

proof fn lemma_item_index_hit(ias: Seq<ItemAllocation>, id: Seq<char>)
    requires
        item_index(ias, id) >= 0,
    ensures
        item_index(ias, id) < ias.len(),
        ias[item_index(ias, id)].item_id.0@ == id,
    decreases ias.len(),
{
    if item_index(ias.drop_last(), id) >= 0 {
        lemma_item_index_hit(ias.drop_last(), id);
    }
}

proof fn lemma_box_index_at(boxes: Seq<BoxAllocation>, a: int)
    requires
        0 <= a < boxes.len(),
        forall|p: int, q: int| 0 <= p < q < boxes.len() ==> boxes[p].box_index != boxes[q].box_index,
    ensures
        box_index_of(boxes, boxes[a].box_index) == a,
    decreases boxes.len(),
{
    let b = boxes[a].box_index;
    let d = boxes.drop_last();
    if a == boxes.len() - 1 {
        if box_index_of(d, b) >= 0 {
            lemma_box_index_hit(d, b);
        }
    } else {
        lemma_box_index_at(d, a);
    }
}

proof fn lemma_box_index_hit(boxes: Seq<BoxAllocation>, b: u32)
    requires
        box_index_of(boxes, b) >= 0,
    ensures
        box_index_of(boxes, b) < boxes.len(),
        boxes[box_index_of(boxes, b)].box_index == b,
    decreases boxes.len(),
{
    if box_index_of(boxes.drop_last(), b) >= 0 {
        lemma_box_index_hit(boxes.drop_last(), b);
    }
}

proof fn lemma_slot_index_at(slots: Seq<SlotAllocation>, a: int)
    requires
        0 <= a < slots.len(),
        forall|p: int, q: int| 0 <= p < q < slots.len() ==> slots[p].slot_index != slots[q].slot_index,
    ensures
        slot_index_of(slots, slots[a].slot_index) == a,
    decreases slots.len(),
{
    let x = slots[a].slot_index;
    let d = slots.drop_last();
    if a == slots.len() - 1 {
        if slot_index_of(d, x) >= 0 {
            lemma_slot_index_hit(d, x);
        }
    } else {
        lemma_slot_index_at(d, a);
    }
}

proof fn lemma_slot_index_hit(slots: Seq<SlotAllocation>, x: u32)
    requires
        slot_index_of(slots, x) >= 0,
    ensures
        slot_index_of(slots, x) < slots.len(),
        slots[slot_index_of(slots, x)].slot_index == x,
    decreases slots.len(),
{
    if slot_index_of(slots.drop_last(), x) >= 0 {
        lemma_slot_index_hit(slots.drop_last(), x);
    }
}

proof fn lemma_user_index_at(sums: Seq<UserSummary>, a: int)
    requires
        0 <= a < sums.len(),
        forall|p: int, q: int| 0 <= p < q < sums.len() ==> sums[p].user_id.0@ != sums[q].user_id.0@,
    ensures
        user_index(sums, sums[a].user_id.0@) == a,
    decreases sums.len(),
{
    let id = sums[a].user_id.0@;
    let d = sums.drop_last();
    if a == sums.len() - 1 {
        if user_index(d, id) >= 0 {
            lemma_user_index_hit(d, id);
        }
    } else {
        lemma_user_index_at(d, a);
    }
}

proof fn lemma_user_index_hit(sums: Seq<UserSummary>, id: Seq<char>)
    requires
        user_index(sums, id) >= 0,
    ensures
        user_index(sums, id) < sums.len(),
        sums[user_index(sums, id)].user_id.0@ == id,
    decreases sums.len(),
{
    if user_index(sums.drop_last(), id) >= 0 {
        lemma_user_index_hit(sums.drop_last(), id);
    }
}

proof fn lemma_slots_unchanged(s: AllocationSnapshot, a: int, j: int, n: int)
    requires
        well_keyed(s),
        0 <= a < s.item_allocations@.len(),
        0 <= j < s.item_allocations@[a].boxes@.len(),
        0 <= n <= s.item_allocations@[a].boxes@[j].slots@.len(),
    ensures
        slot_list(
            s,
            s.item_allocations@[a].item_id.0@,
            s.item_allocations@[a].boxes@[j].box_index,
            s.item_allocations@[a].boxes@[j].slots@,
            n,
        ).len() == 0,
    decreases n,
{
    if n > 0 {
        let ias = s.item_allocations@;
        let boxes = ias[a].boxes@;
        let slots = boxes[j].slots@;
        lemma_slots_unchanged(s, a, j, n - 1);
        lemma_item_index_at(ias, a);
        lemma_box_index_at(boxes, j);
        lemma_slot_index_at(slots, n - 1);
        assert(slot_before(s, ias[a].item_id.0@, boxes[j].box_index, slots[n - 1].slot_index) == Some(
            slots[n - 1],
        ));
    }
}

proof fn lemma_boxes_unchanged(s: AllocationSnapshot, a: int, n: int)
    requires
        well_keyed(s),
        0 <= a < s.item_allocations@.len(),
        0 <= n <= s.item_allocations@[a].boxes@.len(),
    ensures
        box_list(s, s.item_allocations@[a].item_id.0@, s.item_allocations@[a].boxes@, n).len() == 0,
    decreases n,
{
    if n > 0 {
        lemma_boxes_unchanged(s, a, n - 1);
        lemma_slots_unchanged(
            s,
            a,
            n - 1,
            s.item_allocations@[a].boxes@[n - 1].slots@.len() as int,
        );
    }
}

proof fn lemma_items_unchanged(s: AllocationSnapshot, n: int)
    requires
        well_keyed(s),
        0 <= n <= s.item_allocations@.len(),
    ensures
        changed_slots(s, s.item_allocations@, n).len() == 0,
    decreases n,
{
    if n > 0 {
        lemma_items_unchanged(s, n - 1);
        lemma_boxes_unchanged(s, n - 1, s.item_allocations@[n - 1].boxes@.len() as int);
    }
}

proof fn lemma_totals_unchanged(sums: Seq<UserSummary>, n: int)
    requires
        0 <= n <= sums.len(),
        forall|p: int, q: int| 0 <= p < q < sums.len() ==> sums[p].user_id.0@ != sums[q].user_id.0@,
    ensures
        changed_totals(sums, sums, n).len() == 0,
        dropped_totals(sums, sums, n).len() == 0,
    decreases n,
{
    if n > 0 {
        lemma_totals_unchanged(sums, n - 1);
        lemma_user_index_at(sums, n - 1);
    }
}

/// A board compared with itself has no difference: no slot, claim, member,
/// item or settlement change (for a board whose items, boxes, slots and
/// members are each named once).
pub proof fn unchanged_board_has_empty_diff(d: StateDiff, s: AllocationSnapshot)
    requires
        well_keyed(s),
        diff_of(d, s, s),
    ensures
        d.slot_changes@.len() == 0,
        d.claim_changes@.len() == 0,
        d.user_total_changes@.len() == 0,
        d.item_total_changes@.len() == 0,
        d.settlement_changes@.len() == 0,
{
    let es = changed_slots(s, s.item_allocations@, s.item_allocations@.len() as int);
    lemma_items_unchanged(s, s.item_allocations@.len() as int);
    assert(es =~= Seq::<Changed>::empty());
    assert(touched_claims(es) == Set::<Seq<char>>::empty());
    if d.claim_changes@.len() > 0 {
        assert(claim_ids(d.claim_changes@).to_set().contains(claim_ids(d.claim_changes@)[0]));
    }
    lemma_totals_unchanged(s.user_summaries@, s.user_summaries@.len() as int);
    assert(total_changes(s, s).len() == 0);
    assert(d.user_total_changes@.map_values(|c: UserTotalChange| total_view(c)).len() == 0);
    assert(changed_items(s, s) =~= Set::<Seq<char>>::empty());
    let ids = d.item_total_changes@.map_values(|c: ItemTotalChange| c.item_id@);
    if d.item_total_changes@.len() > 0 {
        assert(ids.to_set().contains(ids[0]));
    }
}

impl StateDiff {
    /// The difference between two boards (see `diff_of`). The claim and item
    /// changes name each claim or item once; their order is not part of the result.
    pub fn from_snapshots(before: &AllocationSnapshot, after: &AllocationSnapshot) -> (r: StateDiff)
        requires
            sums_fit(*before),
            sums_fit(*after),
        ensures
            diff_of(r, *before, *after),
    {
        let slot_changes = slot_changes_of(before, after);
        let ghost es = changed_slots(
            *before,
            after.item_allocations@,
            after.item_allocations@.len() as int,
        );
        let claim_changes = claim_changes_of(&slot_changes, before, after, Ghost(es));
        let user_total_changes = user_total_changes_of(before, after);
        let item_total_changes = item_total_changes_of(before, after);
        let mut settlement_changes: Vec<SettlementChange> = Vec::new();
        let mut k: usize = 0;
        while k < user_total_changes.len()
            invariant
                k <= user_total_changes@.len(),
                settlement_changes@.len() == k,
                forall|q: int|
                    0 <= q < k ==> settles(
                        #[trigger] settlement_changes@[q],
                        user_total_changes@[q],
                    ),
            decreases user_total_changes@.len() - k,
        {
            let uc = &user_total_changes[k];
            let mut d: Vec<char> = crate::text::chars_of("金额 ");
            push_i64(&mut d, uc.before_total);
            append_str(&mut d, " -> ");
            push_i64(&mut d, uc.after_total);
            settlement_changes.push(
                SettlementChange {
                    user_id: uc.user_id.clone(),
                    before_amount: uc.before_total,
                    after_amount: uc.after_total,
                    description: string_of(&d),
                },
            );
            k = k + 1;
        }
        StateDiff {
            slot_changes,
            claim_changes,
            user_total_changes,
            item_total_changes,
            settlement_changes,
        }
    }

    /// No changes at all.
    pub fn empty() -> (r: StateDiff)
        ensures
            r.slot_changes@.len() == 0,
            r.claim_changes@.len() == 0,
            r.user_total_changes@.len() == 0,
            r.item_total_changes@.len() == 0,
            r.settlement_changes@.len() == 0,
    {
        StateDiff {
            slot_changes: Vec::new(),
            claim_changes: Vec::new(),
            user_total_changes: Vec::new(),
            item_total_changes: Vec::new(),
            settlement_changes: Vec::new(),
        }
    }
}

} // verus!
