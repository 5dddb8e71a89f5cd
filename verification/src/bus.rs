//! Messages as they arrive from the chat gateway.
use vstd::prelude::*;

verus! {

/// One incoming chat message.
pub struct IncomingEvent {
    pub group_id: String,
    pub user_id: String,
    pub nickname: String,
    pub message_id: String,
    pub text: String,
    pub timestamp_ms: i64,
    pub is_admin: bool,
    /// The gateway's raw event, as JSON text, when it kept one.
    pub raw: Option<String>,
}

} // verus!
