use paigu::domain::{AllocationSnapshot, ItemId, MoneyCents, UserId, UserItemLine, UserSummary};
use paigu::llm::board::{
    claims_total, messages_since, sender_lines, who_whats, workflow_view, BoardMessage, SenderLines,
};

fn line(name: &str, qty: u32) -> (String, u32) {
    (name.to_string(), qty)
}

fn summary(uid: &str, items: &[(&str, u32)]) -> UserSummary {
    UserSummary {
        user_id: UserId(uid.to_string()),
        items: items
            .iter()
            .map(|(name, qty)| UserItemLine {
                item_id: ItemId(format!("id_{name}")),
                item_name: name.to_string(),
                quantity: *qty,
                gross: MoneyCents(0),
            })
            .collect(),
    }
}

#[test]
fn sender_lines_fall_back_to_user_id_and_display() {
    let s = summary("u7", &[("结城理", 2), ("真田", 1)]);
    let shown = sender_lines(&s, None, None);
    assert_eq!(shown.display, "u7");
    assert_eq!(shown.identity, "u7");
    assert_eq!(shown.items, vec![line("结城理", 2), line("真田", 1)]);

    let named = sender_lines(&s, Some("成员07".to_string()), None);
    assert_eq!(named.display, "成员07");
    assert_eq!(named.identity, "成员07");

    let both = sender_lines(&s, Some("成员07".to_string()), Some("qq7".to_string()));
    assert_eq!(both.display, "成员07");
    assert_eq!(both.identity, "qq7");
}

#[test]
fn who_whats_groups_by_display_and_sums_items() {
    let entries = vec![
        SenderLines {
            display: "b".to_string(),
            identity: "first_b".to_string(),
            items: vec![line("y", 1), line("x", 2)],
        },
        SenderLines {
            display: "a".to_string(),
            identity: "only_a".to_string(),
            items: vec![line("x", 5)],
        },
        SenderLines {
            display: "b".to_string(),
            identity: "second_b".to_string(),
            items: vec![line("x", 3), line("z", 4), line("y", 1)],
        },
    ];
    let groups = who_whats(&entries);
    assert_eq!(groups.len(), 2);
    assert_eq!(groups[0].display, "a");
    assert_eq!(groups[0].identity, "only_a");
    assert_eq!(groups[0].items, vec![line("x", 5)]);
    assert_eq!(groups[1].display, "b");
    assert_eq!(groups[1].identity, "first_b");
    assert_eq!(groups[1].items, vec![line("x", 5), line("y", 2), line("z", 4)]);
}

#[test]
fn who_whats_of_nothing_is_empty() {
    assert!(who_whats(&[]).is_empty());
}

#[test]
fn who_whats_keeps_empty_summaries_as_groups() {
    let entries = vec![SenderLines {
        display: "c".to_string(),
        identity: "c".to_string(),
        items: Vec::new(),
    }];
    let groups = who_whats(&entries);
    assert_eq!(groups.len(), 1);
    assert_eq!(groups[0].display, "c");
    assert!(groups[0].items.is_empty());
}

fn message(seq: i64, text: &str) -> BoardMessage {
    BoardMessage {
        seq,
        display: format!("m{seq}"),
        text: text.to_string(),
        status: "Applied".to_string(),
        detail: String::new(),
    }
}

#[test]
fn messages_since_keeps_later_messages_in_order() {
    let msgs = vec![message(1, "a"), message(5, "b"), message(3, "c"), message(7, "d")];
    let later = messages_since(&msgs, 3);
    let seqs: Vec<i64> = later.iter().map(|m| m.seq).collect();
    assert_eq!(seqs, vec![5, 7]);
    assert_eq!(later[0].text, "b");
    assert_eq!(later[1].display, "m7");
    assert_eq!(messages_since(&msgs, 0).len(), 4);
    assert!(messages_since(&msgs, 7).is_empty());
}

fn board(summaries: Vec<UserSummary>) -> AllocationSnapshot {
    AllocationSnapshot { version: 3, item_allocations: Vec::new(), user_summaries: summaries }
}

#[test]
fn claims_total_sums_every_line() {
    let snap = board(vec![
        summary("u1", &[("结城理", 2), ("真田", 1)]),
        summary("u2", &[("结城理", 4)]),
        summary("u3", &[]),
    ]);
    assert_eq!(claims_total(Some(&snap)), 7);
    assert_eq!(claims_total(None), 0);
    assert_eq!(claims_total(Some(&board(Vec::new()))), 0);
}

#[test]
fn workflow_view_reports_counters() {
    let snap = board(vec![summary("u1", &[("x", 3)])]);
    let view = workflow_view(true, 9, 4, 6, 2, Some(&snap));
    assert!(view.locked);
    assert_eq!(view.version, 9);
    assert_eq!(view.events, 4);
    assert_eq!(view.messages, 6);
    assert_eq!(view.eligibilities, 2);
    assert_eq!(view.claims, 3);
    let empty = workflow_view(false, 0, 0, 0, 0, None);
    assert!(!empty.locked);
    assert_eq!(empty.claims, 0);
}
