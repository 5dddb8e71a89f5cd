//! Replaying the message log: cursors, reports, parser modes and the
//! difference between two allocation boards.
pub mod replay_cursor;
pub mod replay_engine;
pub mod replay_options;
pub mod replay_report;
pub mod session;
pub mod state_diff;
pub mod timeline_snapshot;
