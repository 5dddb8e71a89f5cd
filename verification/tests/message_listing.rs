use paigu::messages::MessageRecord;
use paigu::services::messages::message_page;

fn rec(seq: i64, text: &str) -> MessageRecord {
    MessageRecord {
        seq,
        group_id: "g".to_string(),
        user_id: "u".to_string(),
        nickname: "n".to_string(),
        message_id: format!("m{seq}"),
        text: text.to_string(),
        timestamp_ms: 1000 + seq,
        is_admin: false,
        routed: "message".to_string(),
        status: "Applied".to_string(),
        detail: String::new(),
    }
}

#[test]
fn page_is_ordered_filtered_and_limited() {
    let records = vec![rec(5, "e"), rec(2, "b"), rec(9, "i"), rec(2, "b2"), rec(7, "g")];
    let page = message_page(records, 2, None);
    assert_eq!(page.limit, 500);
    assert_eq!(page.total, 3);
    let seqs: Vec<i64> = page.records.iter().map(|r| r.seq).collect();
    assert_eq!(seqs, vec![5, 7, 9]);

    let records = vec![rec(5, "e"), rec(2, "b"), rec(9, "i"), rec(2, "b2"), rec(7, "g")];
    let page = message_page(records, 0, Some(2));
    assert_eq!(page.total, 5);
    assert_eq!(page.limit, 2);
    let texts: Vec<&str> = page.records.iter().map(|r| r.text.as_str()).collect();
    assert_eq!(texts, vec!["b", "b2"]);
}

#[test]
fn page_limit_is_clamped() {
    assert_eq!(message_page(vec![rec(1, "a")], 0, Some(0)).limit, 1);
    assert_eq!(message_page(vec![rec(1, "a")], 0, Some(9000)).limit, 5000);
    assert_eq!(message_page(vec![], 0, Some(10)).total, 0);
}
