use paigu::bus::IncomingEvent;
use paigu::domain::{ItemId, RoundId};
use paigu::llm::pipeline::cancel_for_modify;
use paigu::llm::state::PipelineState;

fn event(user_id: &str, message_id: &str, text: &str) -> IncomingEvent {
    IncomingEvent {
        group_id: "g1".to_string(),
        user_id: user_id.to_string(),
        nickname: "成员01".to_string(),
        message_id: message_id.to_string(),
        text: text.to_string(),
        timestamp_ms: 1000,
        is_admin: false,
        raw: None,
    }
}

#[test]
fn new_state_is_empty() {
    let s = PipelineState::new();
    assert!(s.events.is_empty() && s.messages.is_empty() && s.seen.is_empty());
    assert_eq!((s.seq, s.version, s.locked), (0, 0, false));
}

#[test]
fn messages_get_numbers_and_duplicates_are_recorded() {
    let mut s = PipelineState::new();
    let ev = event("u1", "m1", "排 通行证 结城理 1");
    assert_eq!(s.take_message(&ev, "成员01"), Some(1));
    assert_eq!(s.take_message(&event("u2", "m2", "hi"), "u2"), Some(2));
    assert_eq!(s.take_message(&ev, "成员01"), None);
    assert_eq!(s.seq, 2);
    assert_eq!(s.seen, vec!["g1::m1".to_string(), "g1::m2".to_string()]);
    assert_eq!(s.messages.len(), 1);
    assert_eq!(s.messages[0].seq, 2);
    assert_eq!(s.messages[0].status, "Duplicate");
    assert_eq!(s.messages[0].detail, "重复 message_id，已按幂等忽略");
}

#[test]
fn apply_records_cancellations_then_event() {
    let mut s = PipelineState::new();
    let ev = event("u1", "m1", "改 通行证 结城理 2");
    let seq = s.take_message(&ev, "成员01").unwrap();
    let round = RoundId("r1".to_string());
    let cancel = cancel_for_modify(&round, &ev, seq, 1000, ItemId("pass_sp".to_string()), [1u8; 16]);
    let applied = cancel_for_modify(&round, &ev, seq, 1000, ItemId("gift".to_string()), [2u8; 16]);
    let reply = s.apply("u1", true, vec![cancel], applied, 5, seq, "成员01", &ev.text, "改单：x");
    assert_eq!(reply, "已记录，当前版本 #5");
    assert_eq!(s.version, 5);
    assert_eq!(s.events.len(), 2);
    assert_eq!(s.priority_members, vec!["u1".to_string()]);
    assert_eq!(s.messages.last().unwrap().status, "Applied");
    assert_eq!(s.messages.last().unwrap().detail, "改单：x");

    let again = cancel_for_modify(&round, &ev, seq, 1000, ItemId("gift".to_string()), [2u8; 16]);
    s.apply("u1", true, Vec::new(), again, 6, seq, "成员01", &ev.text, "x");
    assert_eq!(s.priority_members.len(), 1);
    assert_eq!(s.events.len(), 3);

    s.record(9, "u2", "今天天气不错", "Ignored", "无法识别");
    assert_eq!(s.messages.len(), 3);
    assert_eq!(s.messages[2].status, "Ignored");
    assert_eq!(s.version, 6);
}
