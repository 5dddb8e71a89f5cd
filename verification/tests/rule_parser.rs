use paigu::domain::{Item, ItemId, ItemKind, ItemVariant, MoneyCents, RoundId};
use paigu::parser::parsed_event::ParsedIntent;
use paigu::parser::rule_parser::{detect_policy, RuleParser};

fn split_item() -> Item {
    Item {
        item_id: ItemId("pass_sp".to_string()),
        round_id: RoundId("r1".to_string()),
        name: "通行认证SP-月行水上".to_string(),
        kind: ItemKind::Split,
        unit_price: MoneyCents(0),
        box_size: Some(8),
        max_quantity: None,
        is_blind: false,
        is_proxy_card: false,
        aliases: vec!["通行证".to_string()],
        sort_order: 0,
        variants: vec![ItemVariant {
            variant_id: "v_jcl".to_string(),
            name: "结城理".to_string(),
            unit_price: MoneyCents(0),
            capacity: None,
            aliases: vec![],
        }],
    }
}

#[test]
fn detect_policy_distinguishes_whole_box_from_full_box() {
    assert_eq!(detect_policy("整盒"), "WholeBox");
    assert_eq!(detect_policy("燐音吧唧整盒"), "WholeBox");
    assert_eq!(detect_policy("包盒"), "FullBox");
    assert_eq!(detect_policy("包整盒"), "FullBox");
    assert_eq!(detect_policy("包尾"), "TailLocked");
}

#[test]
fn whole_box_parses_as_single_claim() {
    let msg = RuleParser::parse("排 通行证 结城理 整盒", &[split_item()], false);
    assert_eq!(msg.intent, ParsedIntent::Claim);
    assert_eq!(msg.items.len(), 1);
    assert_eq!(msg.items[0].claim_type.as_deref(), Some("Single"));
    assert_eq!(msg.items[0].slot_policy.as_deref(), Some("WholeBox"));
}

#[test]
fn full_box_parses_as_split_fullbox() {
    let msg = RuleParser::parse("排 通行证 结城理 包盒", &[split_item()], false);
    assert_eq!(msg.items[0].claim_type.as_deref(), Some("Split"));
    assert_eq!(msg.items[0].slot_policy.as_deref(), Some("FullBox"));
}

#[test]
fn tail_parses_as_split_tail_locked() {
    let msg = RuleParser::parse("排 通行证 结城理 包尾", &[split_item()], false);
    assert_eq!(msg.items[0].claim_type.as_deref(), Some("Split"));
    assert_eq!(msg.items[0].slot_policy.as_deref(), Some("TailLocked"));
}

#[test]
fn detect_policy_other_cases() {
    assert_eq!(detect_policy("锁一列"), "ColumnLocked");
    assert_eq!(detect_policy("要个尾  "), "TailLocked");
    assert_eq!(detect_policy("随便"), "Normal");
}

#[test]
fn empty_message_is_unknown() {
    let msg = RuleParser::parse("　 ", &[split_item()], false);
    assert_eq!(msg.intent, ParsedIntent::Unknown);
    assert_eq!(msg.confidence_pct, 10);
    assert_eq!(msg.ambiguous_parts, vec!["空消息".to_string()]);
}

#[test]
fn cancel_without_mentions_keeps_text_as_hint() {
    let msg = RuleParser::parse(" 全部取消 ", &[split_item()], false);
    assert_eq!(msg.intent, ParsedIntent::Cancel);
    assert_eq!(msg.cancel_target_hint.as_deref(), Some("全部取消"));
    assert_eq!(msg.confidence_pct, 90);
    let msg = RuleParser::parse("改一下", &[split_item()], false);
    assert_eq!(msg.intent, ParsedIntent::Modify);
    assert_eq!(msg.confidence_pct, 60);
    let msg = RuleParser::parse("你好", &[split_item()], false);
    assert_eq!(msg.intent, ParsedIntent::Unknown);
    assert_eq!(msg.confidence_pct, 20);
}

#[test]
fn quantity_reads_plus_then_digits_then_chinese() {
    let msg = RuleParser::parse("通行证 结城理 ＋３", &[split_item()], false);
    assert_eq!(msg.items.len(), 1);
    assert_eq!(msg.items[0].quantity, 3);
    assert_eq!(msg.items[0].name, "结城理");
    assert_eq!(msg.items[0].resolved_variant_id.as_deref(), Some("v_jcl"));
    assert_eq!(msg.items[0].resolved_item_id.as_deref(), Some("pass_sp"));
    assert_eq!(msg.items[0].resolved_round_id.as_deref(), Some("r1"));
    let msg = RuleParser::parse("结城理 两个", &[split_item()], false);
    assert_eq!(msg.items[0].quantity, 2);
    let msg = RuleParser::parse("结城理 十二", &[split_item()], false);
    assert_eq!(msg.items[0].quantity, 12);
    let msg = RuleParser::parse("通行证 包盒", &[split_item()], false);
    assert_eq!(msg.items[0].quantity, 8);
    assert_eq!(msg.items[0].name, "通行认证SP-月行水上");
}

#[test]
fn cancel_with_claim_verb_is_flagged() {
    let msg = RuleParser::parse("排 结城理 取消", &[split_item()], false);
    assert_eq!(msg.intent, ParsedIntent::Cancel);
    assert_eq!(msg.confidence_pct, 40);
    assert_eq!(msg.ambiguous_parts.len(), 1);
    assert_eq!(msg.items[0].is_proxy_card, Some(false));
}
