//! The persisted message log: its records and where its files live.
use vstd::prelude::*;

use crate::text::{append_str, chars_of, join_path, joined, owned, string_of, trim};

verus! {

/// One logged chat message with the outcome of processing it.
pub struct MessageRecord {
    pub seq: i64,
    pub group_id: String,
    pub user_id: String,
    pub nickname: String,
    pub message_id: String,
    pub text: String,
    pub timestamp_ms: i64,
    pub is_admin: bool,
    pub routed: String,
    pub status: String,
    pub detail: String,
}

/// Default directory of the message files.
pub const DEFAULT_MESSAGES_DIR: &'static str = "data/messages";

/// Default directory of the raw event files.
pub const DEFAULT_EVENTS_DIR: &'static str = "data/events";

/// The message directory: the configured value unless it is blank, else
/// the default `data/messages`.
pub fn messages_dir_from(env_value: Option<String>) -> (r: String)
    ensures
        r@ == match env_value {
            Some(v) => if trim(v@).len() > 0 {
                v@
            } else {
                "data/messages"@
            },
            None => "data/messages"@,
        },
{
    match env_value {
        Some(v) => {
            if crate::text::is_blank(v.as_str()) {
                owned("data/messages")
            } else {
                v
            }
        },
        None => owned("data/messages"),
    }
}

/// The per-round message files (`<dir>/<round_id>.jsonl`) and raw event
/// files (`<events_dir>/<round_id>.jsonl`).
pub struct MessageLog {
    pub dir: String,
    pub events_dir: String,
}

impl MessageLog {
    /// A log over the given directories.
    pub fn new(dir: String, events_dir: String) -> (r: MessageLog)
        ensures
            r.dir@ == dir@,
            r.events_dir@ == events_dir@,
    {
        MessageLog { dir, events_dir }
    }

    /// The round's message file.
    pub fn message_file(&self, round_id: &str) -> (r: String)
        ensures
            r@ == round_file(self.dir@, round_id@),
    {
        JsonlMessageStore::new(self.dir.as_str(), round_id).path
    }

    /// The round's raw event file.
    pub fn event_file(&self, round_id: &str) -> (r: String)
        ensures
            r@ == round_file(self.events_dir@, round_id@),
    {
        JsonlMessageStore::new(self.events_dir.as_str(), round_id).path
    }
}

/// A round's file under a directory: `<dir>/<round_id>.jsonl`.
pub open spec fn round_file(dir: Seq<char>, round_id: Seq<char>) -> Seq<char> {
    joined(dir, round_id + ".jsonl"@)
}

/// The file holding one round's records.
pub struct JsonlMessageStore {
    path: String,
}

impl JsonlMessageStore {
    /// The store of `round_id` under `dir`.
    pub fn new(dir: &str, round_id: &str) -> (r: JsonlMessageStore)
        ensures
            r.path_view() == round_file(dir@, round_id@),
    {
        let mut name = chars_of(round_id);
        append_str(&mut name, ".jsonl");
        let name = string_of(&name);
        JsonlMessageStore { path: join_path(dir, name.as_str()) }
    }

    /// The file's path.
    pub closed spec fn path_view(&self) -> Seq<char> {
        self.path@
    }

    /// The file's path.
    pub fn path(&self) -> (r: &str)
        ensures
            r@ == self.path_view(),
    {
        self.path.as_str()
    }
}

/// Record numbers handed out in increasing order, from 1.
pub struct SeqCounter {
    last: i64,
}

impl SeqCounter {
    /// The number handed out last (0 before the first).
    pub closed spec fn last_view(&self) -> int {
        self.last as int
    }

    /// A counter that has handed out nothing.
    pub fn new() -> (r: SeqCounter)
        ensures
            r.last_view() == 0,
    {
        SeqCounter { last: 0 }
    }

    /// The number handed out last (0 before the first).
    pub fn last(&self) -> (r: i64)
        ensures
            r == self.last_view(),
    {
        self.last
    }

    /// The next number: one more than the last.
    pub fn next_seq(&mut self) -> (r: i64)
        requires
            old(self).last_view() < i64::MAX,
        ensures
            r == old(self).last_view() + 1,
            final(self).last_view() == r,
    {
        self.last = self.last + 1;
        self.last
    }

    /// Starts the numbering again from 1.
    pub fn reset(&mut self)
        ensures
            final(self).last_view() == 0,
    {
        self.last = 0;
    }
}

/// Two numbers handed out one after the other by `next_seq` (the second
/// from the counter the first call left) increase.
pub proof fn successive_numbers_increase(first: SeqCounter, second: SeqCounter, a: i64, b: i64)
    requires
        a == first.last_view() + 1,
        second.last_view() == a,
        b == second.last_view() + 1,
    ensures
        b > a,
{
}

} // verus!
