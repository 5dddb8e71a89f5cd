//! Position of a replay in progress.
use vstd::prelude::*;

verus! {

/// How far a replay has got.
pub struct ReplayCursor {
    pub replay_id: String,
    pub round_id: String,
    pub current_step: u64,
    pub total_steps: u64,
    pub current_timestamp_ms: i64,
}

impl ReplayCursor {
    /// A cursor at the start of a replay.
    pub fn new(replay_id: String, round_id: String) -> (r: ReplayCursor)
        ensures
            r.replay_id@ == replay_id@,
            r.round_id@ == round_id@,
            r.current_step == 0,
            r.total_steps == 0,
            r.current_timestamp_ms == 0,
    {
        ReplayCursor { replay_id, round_id, current_step: 0, total_steps: 0, current_timestamp_ms: 0 }
    }
}

} // verus!
