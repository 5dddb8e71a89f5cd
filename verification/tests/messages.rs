use std::path::{Path, PathBuf};

use paigu::messages::{
    messages_dir_from, JsonlMessageStore, MessageLog, SeqCounter, DEFAULT_MESSAGES_DIR,
};

#[test]
fn messages_dir_from_defaults_and_overrides() {
    assert_eq!(PathBuf::from(messages_dir_from(None)), PathBuf::from(DEFAULT_MESSAGES_DIR));
    assert_eq!(
        PathBuf::from(messages_dir_from(Some("  ".to_string()))),
        PathBuf::from(DEFAULT_MESSAGES_DIR)
    );
    assert_eq!(
        PathBuf::from(messages_dir_from(Some("tmp/msgs".to_string()))),
        PathBuf::from("tmp/msgs")
    );
}

#[test]
fn message_log_keeps_its_directories() {
    let log = MessageLog::new("a".to_string(), "b".to_string());
    assert_eq!(log.dir, "a");
    assert_eq!(log.events_dir, "b");
}

#[test]
fn file_handle_uses_round_id_filename() {
    let store = JsonlMessageStore::new("data/messages", "月行水上");
    assert_eq!(
        Path::new(store.path()),
        Path::new("data/messages").join("月行水上.jsonl")
    );
}

#[test]
fn log_files_are_per_round() {
    let log = MessageLog::new("data/messages".to_string(), "data/events/".to_string());
    assert_eq!(log.message_file("r1"), "data/messages/r1.jsonl");
    assert_eq!(log.event_file("r1"), "data/events/r1.jsonl");
}

#[test]
fn next_seq_is_monotonic() {
    let mut counter = SeqCounter::new();
    let a = counter.next_seq();
    let b = counter.next_seq();
    assert!(b > a);
}

#[test]
fn seq_counter_starts_at_one_and_resets() {
    let mut counter = SeqCounter::new();
    assert_eq!(counter.last(), 0);
    assert_eq!(counter.next_seq(), 1);
    assert_eq!(counter.next_seq(), 2);
    counter.reset();
    assert_eq!(counter.next_seq(), 1);
}
