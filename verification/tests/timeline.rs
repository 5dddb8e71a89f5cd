use paigu::domain::AllocationSnapshot;
use paigu::replay::state_diff::StateDiff;
use paigu::replay::timeline_snapshot::{SnapshotKind, TimelineSnapshotRecord};

#[test]
fn full_record_holds_the_board() {
    let board = AllocationSnapshot { version: 4, item_allocations: Vec::new(), user_summaries: Vec::new() };
    let rec = TimelineSnapshotRecord::full("rp1".to_string(), "r1".to_string(), 2, board, 1_700_000_000_000);
    assert_eq!(rec.replay_id, "rp1");
    assert_eq!(rec.round_id, "r1");
    assert_eq!(rec.step_index, 2);
    assert_eq!(rec.snapshot_kind, SnapshotKind::Full);
    assert_eq!(rec.full_snapshot.as_ref().map(|b| b.version), Some(4));
    assert!(rec.state_diff.is_none());
    assert_eq!(rec.created_at_ms, 1_700_000_000_000);
}

#[test]
fn diff_record_holds_only_the_diff() {
    let diff = StateDiff {
        slot_changes: Vec::new(),
        claim_changes: Vec::new(),
        user_total_changes: Vec::new(),
        item_total_changes: Vec::new(),
        settlement_changes: Vec::new(),
    };
    let rec = TimelineSnapshotRecord::diff_only("rp1".to_string(), "r1".to_string(), 3, diff, 1_700_000_000_500);
    assert_eq!(rec.step_index, 3);
    assert_eq!(rec.snapshot_kind, SnapshotKind::DiffOnly);
    assert!(rec.full_snapshot.is_none());
    assert!(rec.state_diff.is_some());
}
