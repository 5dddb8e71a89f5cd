//! Reports on a finished replay.
use vstd::prelude::*;

verus! {

/// Totals of a replay.
pub struct ReplayReport {
    pub replay_id: String,
    pub round_id: String,
    pub total_steps: u64,
    pub successful_steps: u64,
    pub failed_steps: u64,
    pub warnings: Vec<String>,
    pub final_summary: String,
}

impl ReplayReport {
    /// An empty report.
    pub fn new(replay_id: String, round_id: String) -> (r: ReplayReport)
        ensures
            r.replay_id@ == replay_id@,
            r.round_id@ == round_id@,
            r.total_steps == 0,
            r.successful_steps == 0,
            r.failed_steps == 0,
            r.warnings@.len() == 0,
            r.final_summary@.len() == 0,
    {
        ReplayReport {
            replay_id,
            round_id,
            total_steps: 0,
            successful_steps: 0,
            failed_steps: 0,
            warnings: Vec::new(),
            final_summary: String::new(),
        }
    }
}

/// One replayed step.
pub struct ReplayStepSummary {
    pub step_index: u64,
    pub event_id: String,
    pub raw_message_id: Option<String>,
    pub occurred_at_ms: i64,
    pub user_id: Option<String>,
    pub nickname: Option<String>,
    pub event_kind: String,
    pub summary: String,
    pub status: ReplayStepStatus,
    pub changed_slot_count: u32,
    pub warning_count: u32,
    pub error_count: u32,
}

/// What became of a replayed step.
#[derive(Clone, Copy, Debug, PartialEq, Eq, Structural)]
pub enum ReplayStepStatus {
    Applied,
    PartiallyApplied,
    Ignored,
    ParseFailed,
    ValidationFailed,
    Error,
}

/// A step that failed, with where and why.
pub struct FailedReplayStep {
    pub replay_id: String,
    pub step_index: u64,
    pub raw_message_id: String,
    pub raw_text: String,
    pub failure_stage: FailureStage,
    pub error_code: String,
    pub error_message: String,
    pub suggested_fix: Option<String>,
}

/// The stage at which a step failed.
#[derive(Clone, Copy, Debug, PartialEq, Eq, Structural)]
pub enum FailureStage {
    Parse,
    Validation,
    Allocation,
    Settlement,
}

} // verus!
