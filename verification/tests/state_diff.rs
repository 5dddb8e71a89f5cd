use paigu::domain::{
    AllocationSnapshot, BoxAllocation, ClaimId, ItemAllocation, ItemId, MoneyCents,
    SlotAllocation, SlotPolicy, SlotStatus, UserId, UserItemLine, UserSummary,
};
use paigu::replay::session::ReplayDiff;
use paigu::replay::state_diff::{SlotChangeReason, StateDiff};

fn slot(index: u32, status: SlotStatus, user: Option<&str>, claim: Option<&str>, policy: SlotPolicy) -> SlotAllocation {
    SlotAllocation {
        slot_index: index,
        status,
        user_id: user.map(|u| UserId(u.to_string())),
        claim_id: claim.map(|c| ClaimId(c.to_string())),
        segment_id: None,
        slot_policy: policy,
        lock_reason: None,
    }
}

fn board(version: i64, slots: Vec<SlotAllocation>, summaries: Vec<UserSummary>) -> AllocationSnapshot {
    AllocationSnapshot {
        version,
        item_allocations: vec![ItemAllocation {
            item_id: ItemId("a".to_string()),
            boxes: vec![BoxAllocation { box_index: 1, slots }],
        }],
        user_summaries: summaries,
    }
}

fn summary(user: &str, lines: Vec<(&str, u32, i64)>) -> UserSummary {
    UserSummary {
        user_id: UserId(user.to_string()),
        items: lines
            .into_iter()
            .map(|(item, quantity, gross)| UserItemLine {
                item_id: ItemId(item.to_string()),
                item_name: item.to_string(),
                quantity,
                gross: MoneyCents(gross),
            })
            .collect(),
    }
}

#[test]
fn identical_boards_have_no_changes() {
    let b = board(
        3,
        vec![slot(1, SlotStatus::Filled, Some("u1"), Some("c1"), SlotPolicy::Normal)],
        vec![summary("u1", vec![("a", 1, 100)])],
    );
    let d = StateDiff::from_snapshots(&b, &b);
    assert!(d.slot_changes.is_empty());
    assert!(d.claim_changes.is_empty());
    assert!(d.user_total_changes.is_empty());
    assert!(d.item_total_changes.is_empty());
    assert!(d.settlement_changes.is_empty());
    let r = ReplayDiff::from_boards(&b, &b);
    assert!(!r.changed);
}

#[test]
fn filled_and_released_slots_are_reported() {
    let before = board(
        1,
        vec![
            slot(1, SlotStatus::Empty, None, None, SlotPolicy::Normal),
            slot(2, SlotStatus::Filled, Some("u2"), Some("c2"), SlotPolicy::Normal),
        ],
        vec![summary("u2", vec![("a", 1, 500)])],
    );
    let after = board(
        2,
        vec![
            slot(1, SlotStatus::Filled, Some("u1"), Some("c1"), SlotPolicy::TailLocked),
            slot(2, SlotStatus::Empty, None, None, SlotPolicy::Normal),
            slot(3, SlotStatus::Filled, Some("u1"), Some("c1"), SlotPolicy::AdminFixed),
        ],
        vec![summary("u1", vec![("a", 2, 800)])],
    );
    let d = StateDiff::from_snapshots(&before, &after);
    assert_eq!(d.slot_changes.len(), 3);
    assert_eq!(d.slot_changes[0].reason, SlotChangeReason::TailSegmentCreated);
    assert_eq!(d.slot_changes[1].reason, SlotChangeReason::CancelReleased);
    assert_eq!(d.slot_changes[2].reason, SlotChangeReason::AdminFixed);
    assert!(d.slot_changes[2].before.is_none());
    let mut claims: Vec<(String, Option<String>, Option<String>)> = d
        .claim_changes
        .iter()
        .map(|c| (c.claim_id.clone(), c.before_status.clone(), c.after_status.clone()))
        .collect();
    claims.sort();
    assert_eq!(
        claims,
        vec![
            ("c1".to_string(), None, Some("Filled".to_string())),
            ("c2".to_string(), Some("Filled".to_string()), None),
        ]
    );
    assert_eq!(d.user_total_changes.len(), 2);
    assert_eq!(d.user_total_changes[0].user_id, "u1");
    assert_eq!(d.user_total_changes[0].before_total, 0);
    assert_eq!(d.user_total_changes[0].after_total, 800);
    assert_eq!(d.user_total_changes[1].user_id, "u2");
    assert_eq!(d.user_total_changes[1].after_total, 0);
    assert_eq!(d.settlement_changes[0].description, "金额 0 -> 800");
    assert_eq!(d.settlement_changes[1].description, "金额 500 -> 0");
    assert_eq!(d.item_total_changes.len(), 1);
    assert_eq!(d.item_total_changes[0].before_quantity, 1);
    assert_eq!(d.item_total_changes[0].after_quantity, 2);
    let r = ReplayDiff::from_boards(&before, &after);
    assert!(r.changed);
    assert_eq!(r.base_version, 1);
    assert_eq!(r.replay_version, 2);
}

#[test]
fn negative_amounts_are_described_with_sign() {
    let before = board(1, vec![], vec![summary("u", vec![("a", 1, -300)])]);
    let after = board(1, vec![], vec![summary("u", vec![("a", 1, 200)])]);
    let d = StateDiff::from_snapshots(&before, &after);
    assert_eq!(d.settlement_changes[0].description, "金额 -300 -> 200");
    assert!(d.item_total_changes.is_empty());
}
