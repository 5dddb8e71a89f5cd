//! Options and findings of an event-level replay.
use vstd::prelude::*;

verus! {

/// How an event-level replay runs: its id, whether settlements are
/// computed at each step, and how often a full snapshot is kept.
pub struct ReplayOptions {
    pub replay_id: String,
    pub include_settlement: bool,
    pub snapshot_interval: u32,
}

impl ReplayOptions {
    /// The default options: the random UUID made from `id_bytes` as id, with
    /// settlements, a full snapshot every 50 steps.
    pub fn default(id_bytes: [u8; 16]) -> (r: ReplayOptions)
        ensures
            r.replay_id@ == crate::domain::uuid_v4_text(id_bytes@),
            r.include_settlement,
            r.snapshot_interval == 50,
    {
        ReplayOptions {
            replay_id: crate::domain::uuid_from_random(id_bytes),
            include_settlement: true,
            snapshot_interval: 50,
        }
    }
}

/// A warning raised at a replay step.
pub struct ReplayWarning {
    pub step_index: u64,
    pub message: String,
}

/// An error raised at a replay step.
pub struct ReplayStepError {
    pub step_index: u64,
    pub message: String,
}

} // verus!
