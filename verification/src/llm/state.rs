//! The pipeline's own state between messages: the message numbers handed
//! out, the message keys already seen, the events recorded, the members
//! granted priority, the board version and the feed of handled messages.
use vstd::prelude::*;

use crate::bus::IncomingEvent;
use crate::domain::event::EventEnvelope;
use crate::llm::board::BoardMessage;
use crate::llm::pipeline::{applied_reply, message_key, note_message};
use crate::text::{owned, str_eq, views};

verus! {

/// What the pipeline keeps between messages.
pub struct PipelineState {
    pub events: Vec<EventEnvelope>,
    pub messages: Vec<BoardMessage>,
    pub seen: Vec<String>,
    /// Members granted a priority eligibility, by user id.
    pub priority_members: Vec<String>,
    pub seq: i64,
    pub version: i64,
    pub locked: bool,
}

/// A feed entry with these values.
pub open spec fn message_is(
    m: BoardMessage,
    seq: i64,
    display: Seq<char>,
    text: Seq<char>,
    status: Seq<char>,
    detail: Seq<char>,
) -> bool {
    m.seq == seq && m.display@ == display && m.text@ == text && m.status@ == status && m.detail@ == detail
}

/// The feed of `b` is that of `a` with one entry added.
pub open spec fn feed_grows(a: PipelineState, b: PipelineState) -> bool {
    b.messages@.len() == a.messages@.len() + 1 && b.messages@.take(a.messages@.len() as int) == a.messages@
}

/// The detail of a repeated message.
pub open spec fn duplicate_detail() -> Seq<char> {
    "重复 message_id，已按幂等忽略"@
}

fn message(seq: i64, display: &str, text: &str, status: &str, detail: &str) -> (m: BoardMessage)
    ensures
        message_is(m, seq, display@, text@, status@, detail@),
{
    BoardMessage { seq, display: owned(display), text: owned(text), status: owned(status), detail: owned(detail) }
}

impl PipelineState {
    /// The state before any message: nothing seen, recorded or granted,
    /// numbers and version at 0, unlocked.
    pub fn new() -> (r: PipelineState)
        ensures
            r.events@.len() == 0,
            r.messages@.len() == 0,
            r.seen@.len() == 0,
            r.priority_members@.len() == 0,
            r.seq == 0,
            r.version == 0,
            !r.locked,
    {
        PipelineState {
            events: Vec::new(),
            messages: Vec::new(),
            seen: Vec::new(),
            priority_members: Vec::new(),
            seq: 0,
            version: 0,
            locked: false,
        }
    }

    /// Takes in a message shown as `display`. A message whose key was seen
    /// before is recorded in the feed as a duplicate under the current
    /// number, and `None` comes back; otherwise its key is remembered and
    /// it gets the next number, which comes back.
    pub fn take_message(&mut self, ev: &IncomingEvent, display: &str) -> (r: Option<i64>)
        requires
            old(self).seq < i64::MAX,
        ensures
            final(self).events@ == old(self).events@,
            final(self).priority_members@ == old(self).priority_members@,
            final(self).version == old(self).version,
            final(self).locked == old(self).locked,
            views(old(self).seen@).contains(message_key(ev.group_id@, ev.message_id@)) ==> {
                &&& r is None
                &&& final(self).seq == old(self).seq
                &&& views(final(self).seen@) == views(old(self).seen@)
                &&& feed_grows(*old(self), *final(self))
                &&& message_is(
                    final(self).messages@.last(),
                    old(self).seq,
                    display@,
                    ev.text@,
                    "Duplicate"@,
                    duplicate_detail(),
                )
            },
            !views(old(self).seen@).contains(message_key(ev.group_id@, ev.message_id@)) ==> {
                &&& r == Some((old(self).seq + 1) as i64)
                &&& final(self).seq == old(self).seq + 1
                &&& views(final(self).seen@) == views(old(self).seen@).push(
                    message_key(ev.group_id@, ev.message_id@),
                )
                &&& final(self).messages@ == old(self).messages@
            },
    {
        let fresh = note_message(&mut self.seen, ev);
        if !fresh {
            let m = message(self.seq, display, ev.text.as_str(), "Duplicate", "重复 message_id，已按幂等忽略");
            let ghost before = self.messages@;
            self.messages.push(m);
            assert(self.messages@.take(before.len() as int) =~= before);
            None
        } else {
            self.seq = self.seq + 1;
            Some(self.seq)
        }
    }

    /// Records the outcome of a message that changes nothing else.
    pub fn record(&mut self, seq: i64, display: &str, text: &str, status: &str, detail: &str)
        ensures
            final(self).events@ == old(self).events@,
            views(final(self).seen@) == views(old(self).seen@),
            final(self).priority_members@ == old(self).priority_members@,
            final(self).seq == old(self).seq,
            final(self).version == old(self).version,
            final(self).locked == old(self).locked,
            feed_grows(*old(self), *final(self)),
            message_is(final(self).messages@.last(), seq, display@, text@, status@, detail@),
    {
        let m = message(seq, display, text, status, detail);
        let ghost before = self.messages@;
        self.messages.push(m);
        assert(self.messages@.take(before.len() as int) =~= before);
    }

    /// Applies an admitted event: a priority member not yet granted is
    /// granted; the cancellations (of a modification) and then the event are
    /// recorded; the board is at `version` (the version of the board rebuilt
    /// from the events); the message is recorded as applied with `detail`.
    /// The reply (`已记录，当前版本 #<version>`) comes back.
    pub fn apply(
        &mut self,
        user_id: &str,
        is_priority: bool,
        cancels: Vec<EventEnvelope>,
        event: EventEnvelope,
        version: i64,
        seq: i64,
        display: &str,
        text: &str,
        detail: &str,
    ) -> (reply: String)
        ensures
            views(final(self).priority_members@) == if is_priority && !views(old(self).priority_members@).contains(user_id@) {
                views(old(self).priority_members@).push(user_id@)
            } else {
                views(old(self).priority_members@)
            },
            final(self).events@ == old(self).events@ + cancels@ + seq![event],
            final(self).version == version,
            views(final(self).seen@) == views(old(self).seen@),
            final(self).seq == old(self).seq,
            final(self).locked == old(self).locked,
            feed_grows(*old(self), *final(self)),
            message_is(final(self).messages@.last(), seq, display@, text@, "Applied"@, detail@),
            reply@ == "已记录，当前版本 #"@ + crate::text::int_text(version as int),
    {
        if is_priority {
            let mut found = false;
            let mut i: usize = 0;
            while i < self.priority_members.len()
                invariant
                    i <= self.priority_members@.len(),
                    self.priority_members@ == old(self).priority_members@,
                    found == exists|j: int| 0 <= j < i && self.priority_members@[j]@ == user_id@,
                decreases self.priority_members@.len() - i,
            {
                if str_eq(self.priority_members[i].as_str(), user_id) {
                    found = true;
                }
                i = i + 1;
            }
            proof {
                let vs = views(self.priority_members@);
                if found {
                    let j = choose|j: int| 0 <= j < i && self.priority_members@[j]@ == user_id@;
                    assert(vs[j] == user_id@);
                } else {
                    assert forall|j: int| 0 <= j < vs.len() implies vs[j] != user_id@ by {
                        assert(vs[j] == self.priority_members@[j]@);
                    }
                }
            }
            if !found {
                let ghost before = self.priority_members@;
                self.priority_members.push(owned(user_id));
                assert(views(self.priority_members@) =~= views(before).push(user_id@));
            }
        }
        let mut cancels = cancels;
        self.events.append(&mut cancels);
        self.events.push(event);
        self.version = version;
        self.record(seq, display, text, "Applied", detail);
        applied_reply(version)
    }
}

} // verus!
