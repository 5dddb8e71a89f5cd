//! Timeline records of a replay: at a step, either the full board or only
//! the diff from the step before.
use vstd::prelude::*;

use crate::domain::AllocationSnapshot;
use crate::replay::state_diff::StateDiff;

verus! {

/// Whether a timeline record holds a full board or only a diff.
#[derive(Clone, Copy, Debug, PartialEq, Eq, Structural)]
pub enum SnapshotKind {
    Full,
    DiffOnly,
}

/// One step of a replay's timeline, stamped with the time it was made
/// (milliseconds since the Unix epoch, UTC).
pub struct TimelineSnapshotRecord {
    pub replay_id: String,
    pub round_id: String,
    pub step_index: u64,
    pub snapshot_kind: SnapshotKind,
    pub full_snapshot: Option<AllocationSnapshot>,
    pub state_diff: Option<StateDiff>,
    pub created_at_ms: i64,
}

impl TimelineSnapshotRecord {
    /// A record holding the whole board at step `step_index`, made at
    /// `created_at_ms`.
    pub fn full(
        replay_id: String,
        round_id: String,
        step_index: u64,
        full_snapshot: AllocationSnapshot,
        created_at_ms: i64,
    ) -> (r: Self)
        ensures
            r.created_at_ms == created_at_ms,
            r.replay_id == replay_id,
            r.round_id == round_id,
            r.step_index == step_index,
            r.snapshot_kind == SnapshotKind::Full,
            r.full_snapshot == Some(full_snapshot),
            r.state_diff.is_none(),
    {
        TimelineSnapshotRecord {
            replay_id,
            round_id,
            step_index,
            snapshot_kind: SnapshotKind::Full,
            full_snapshot: Some(full_snapshot),
            state_diff: None,
            created_at_ms,
        }
    }

    /// A record holding only the diff from the step before `step_index`,
    /// made at `created_at_ms`.
    pub fn diff_only(replay_id: String, round_id: String, step_index: u64, diff: StateDiff, created_at_ms: i64) -> (r: Self)
        ensures
            r.created_at_ms == created_at_ms,
            r.replay_id == replay_id,
            r.round_id == round_id,
            r.step_index == step_index,
            r.snapshot_kind == SnapshotKind::DiffOnly,
            r.full_snapshot.is_none(),
            r.state_diff == Some(diff),
    {
        TimelineSnapshotRecord {
            replay_id,
            round_id,
            step_index,
            snapshot_kind: SnapshotKind::DiffOnly,
            full_snapshot: None,
            state_diff: Some(diff),
            created_at_ms,
        }
    }
}

} // verus!
