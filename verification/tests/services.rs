use paigu::messages::MessageRecord;
use paigu::planner::Strategy;
use paigu::services::messages::{
    check_revision, new_record, patch_record, validate_record, CreateInput, UpdateInput,
};
use paigu::services::settlement::{merge_catalog_pricing, parse_strategy};
use paigu::services::ServiceError;
use paigu::settings::{ItemConfig, RoundSettings, VariantConfig};
use paigu::settlement::{PricingEntry, PricingMode, SettlementConfig};

fn sample() -> MessageRecord {
    MessageRecord {
        seq: 7,
        group_id: "123456789".to_string(),
        user_id: "u1".to_string(),
        nickname: "成员01".to_string(),
        message_id: "m7".to_string(),
        text: "排 徽章 甲 1".to_string(),
        timestamp_ms: 1_000,
        is_admin: false,
        routed: "message".to_string(),
        status: "Applied".to_string(),
        detail: "claim".to_string(),
    }
}

#[test]
fn validate_record_rejects_bad_fields() {
    assert!(validate_record(&sample()).is_ok());

    let mut missing_user = sample();
    missing_user.user_id = "  ".to_string();
    assert!(validate_record(&missing_user).is_err());

    let mut empty_text = sample();
    empty_text.text = String::new();
    assert!(validate_record(&empty_text).is_err());

    let mut bad_ts = sample();
    bad_ts.timestamp_ms = 0;
    assert!(validate_record(&bad_ts).is_err());
}

#[test]
fn validate_record_reports_first_problem_and_blank_group() {
    let mut rec = sample();
    rec.group_id = " ".to_string();
    assert_eq!(validate_record(&rec), Err("group_id 不能为空".to_string()));
    rec.user_id = String::new();
    assert_eq!(validate_record(&rec), Err("user_id 不能为空".to_string()));
}

#[test]
fn parse_strategy_accepts_known_values() {
    assert!(matches!(parse_strategy("gift_max"), Ok(Strategy::GiftMax)));
    assert!(matches!(parse_strategy("discount_max"), Ok(Strategy::DiscountMax)));
    assert!(parse_strategy("nope").is_err());
}

fn round_with_adjust(adjust: i64) -> RoundSettings {
    RoundSettings {
        round_id: "r".to_string(),
        title: "t".to_string(),
        group_id: "g".to_string(),
        priority_users: vec![],
        priority_window: None,
        phases: vec![],
        items: vec![ItemConfig {
            item_id: "a".to_string(),
            name: "徽章".to_string(),
            kind: "拼团".to_string(),
            class: None,
            aliases: vec![],
            unit_price_cents: 0,
            max_quantity: None,
            variants: vec![VariantConfig {
                variant_id: "v1".to_string(),
                name: "甲".to_string(),
                unit_price_cents: 5000,
                adjust_cents: adjust,
                capacity: None,
                aliases: vec![],
            }],
        }],
    }
}

#[test]
fn merge_catalog_adjust_sets_adjusted_price_only() {
    let merged = merge_catalog_pricing(SettlementConfig::empty(), &round_with_adjust(-500));
    assert_eq!(merged.pricing.len(), 1);
    assert!(matches!(merged.pricing[0].mode, PricingMode::AdjustBy));
    assert_eq!(merged.pricing[0].value, -500);
    assert_eq!(merged.pricing[0].variant_id.as_deref(), Some("v1"));
    let none = merge_catalog_pricing(SettlementConfig::empty(), &round_with_adjust(0));
    assert!(none.pricing.is_empty());
}

#[test]
fn explicit_pricing_wins_over_catalog_adjust() {
    let mut base = SettlementConfig::empty();
    base.pricing.push(PricingEntry {
        item_id: "a".to_string(),
        variant_id: Some("v1".to_string()),
        mode: PricingMode::SetFinal,
        value: 6000,
    });
    let merged = merge_catalog_pricing(base, &round_with_adjust(-500));
    assert_eq!(merged.pricing.len(), 1, "已存在的显式定价保留、不追加");
    assert_eq!(merged.pricing[0].value, 6000);
}

#[test]
fn stale_revision_is_refused() {
    assert!(check_revision(None, 3).is_ok());
    assert!(check_revision(Some(3), 3).is_ok());
    assert!(matches!(check_revision(Some(2), 3), Err(ServiceError::StaleRevision(3))));
}

#[test]
fn new_record_fills_defaults() {
    let body = CreateInput {
        user_id: "u".to_string(),
        nickname: "n".to_string(),
        text: "排 甲".to_string(),
        timestamp_ms: None,
        is_admin: true,
        group_id: Some("  ".to_string()),
        message_id: None,
        routed: None,
        status: None,
        detail: None,
        revision: None,
        recompute: None,
    };
    let rec = new_record(body, 5, &"g0".to_string(), 1234, [0xabu8; 16]);
    assert_eq!(rec.seq, 5);
    assert_eq!(rec.group_id, "g0");
    assert_eq!(rec.timestamp_ms, 1234);
    assert_eq!(rec.message_id, "admin-abababab-abab-4bab-abab-abababababab");
    assert_eq!(rec.routed, "message");
    assert_eq!(rec.status, "Pending");
    assert_eq!(rec.detail, "");
}

#[test]
fn patch_record_applies_fields_and_validates() {
    let body = UpdateInput {
        user_id: None,
        nickname: Some("新".to_string()),
        text: None,
        timestamp_ms: Some(2_000),
        is_admin: None,
        group_id: None,
        routed: None,
        status: Some("Done".to_string()),
        detail: None,
        revision: None,
        recompute: None,
    };
    let rec = patch_record(&sample(), &body).expect("valid");
    assert_eq!(rec.nickname, "新");
    assert_eq!(rec.timestamp_ms, 2_000);
    assert_eq!(rec.status, "Done");
    assert_eq!(rec.text, sample().text);
    let bad = UpdateInput { text: Some(" ".to_string()), ..body };
    assert_eq!(patch_record(&sample(), &bad).err(), Some("text 不能为空".to_string()));
}

#[test]
fn merging_catalogue_pricing_twice_changes_nothing() {
    let once = merge_catalog_pricing(SettlementConfig::empty(), &round_with_adjust(-500));
    let twice = merge_catalog_pricing(merge_catalog_pricing(SettlementConfig::empty(), &round_with_adjust(-500)), &round_with_adjust(-500));
    assert_eq!(once.pricing.len(), twice.pricing.len());
    assert_eq!(once.pricing[0].value, twice.pricing[0].value);
}

#[test]
fn empty_and_repeated_updates() {
    let empty = UpdateInput {
        user_id: None,
        nickname: None,
        text: None,
        timestamp_ms: None,
        is_admin: None,
        group_id: None,
        routed: None,
        status: None,
        detail: None,
        revision: Some(4),
        recompute: Some(false),
    };
    let same = patch_record(&sample(), &empty).expect("valid");
    assert_eq!(same.nickname, sample().nickname);
    assert_eq!(same.status, sample().status);
    let body = UpdateInput { status: Some("Done".to_string()), ..empty };
    let once = patch_record(&sample(), &body).expect("valid");
    let twice = patch_record(&once, &body).expect("valid");
    assert_eq!(once.status, twice.status);
    assert_eq!(once.text, twice.text);
}
