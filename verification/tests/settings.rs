use paigu::replay::session::{apply_overrides, ReplayOverrides};
use paigu::settings::daily_pull_time;
use paigu::domain::ItemKind;
use paigu::round::ItemClass;
use paigu::settings::rounds::is_valid_round_id;
use paigu::settings::{
    in_priority_window, is_priority_user, is_priority_with_cn, priority_candidates, resolve_cn,
    AppConfig, CnOverride, DisplaySettings, GatewayConfig, ItemCategory, ItemConfig, LlmSettings,
    MembersSettings, RoundSettings, VariantConfig,
};
use paigu::settlement::SettlementConfig;

/// A configuration with an empty catalogue and no restrictions.
fn base_config() -> AppConfig {
    AppConfig {
        revision: 0,
        gateway: GatewayConfig {
            bind: "127.0.0.1:0".to_string(),
            whitelist_groups: vec![],
            whitelist_members: vec![],
            heartbeat_secs: 30,
            reply_enabled: false,
            allowed_actions: vec![],
            admin_commands_enabled: false,
        },
        llm: LlmSettings {
            enabled: false,
            base_url: String::new(),
            model: String::new(),
            api_key_env: String::new(),
            timeout_secs: 10,
            max_tokens: 256,
            temperature_milli: 0,
            fallback_to_rules: true,
            prompt_template: String::new(),
        },
        round: RoundSettings {
            round_id: "r".to_string(),
            title: "t".to_string(),
            group_id: "g".to_string(),
            priority_users: vec![],
            priority_window: None,
            phases: vec![],
            items: vec![],
        },
        display: DisplaySettings {
            refresh_ms: 1000,
            data_source: "local".to_string(),
            remote_base_url: String::new(),
        },
        members: MembersSettings {
            group_id: "g".to_string(),
            cache_path: String::new(),
            daily_pull_at: String::new(),
            cn_overrides: vec![],
        },
        settlement: SettlementConfig::empty(),
        active_round_id: None,
    }
}

#[test]
fn priority_window_is_end_exclusive() {
    assert!(in_priority_window(Some((100, 200)), 100));
    assert!(in_priority_window(Some((100, 200)), 199));
    assert!(!in_priority_window(Some((100, 200)), 200));
    assert!(!in_priority_window(Some((100, 200)), 99));
    assert!(!in_priority_window(None, 150));
}

#[test]
fn priority_user_matches_any_candidate() {
    let users = vec!["user_a".to_string(), "user_b".to_string()];
    assert!(is_priority_user(&users, &["user_b"]));
    assert!(is_priority_user(&users, &["x", "user_a"]));
    assert!(!is_priority_user(&users, &["user_c"]));
    assert!(!is_priority_user(&[], &["user_a"]));
}

#[test]
fn variant_final_price_is_base_plus_adjust() {
    let mk = |unit_price_cents: i64, adjust_cents: i64| VariantConfig {
        variant_id: "v".to_string(),
        name: "变体".to_string(),
        unit_price_cents,
        adjust_cents,
        capacity: None,
        aliases: vec![],
    };
    assert_eq!(mk(5000, 0).final_price_cents(), 5000);
    assert_eq!(mk(5000, -500).final_price_cents(), 4500);
    assert_eq!(mk(2500, 300).final_price_cents(), 2800);
    assert_eq!(mk(i64::MAX, 10).final_price_cents(), i64::MAX, "加价溢出应饱和");
}

#[test]
fn item_category_parses_ui_canonical_kinds() {
    assert_eq!(ItemCategory::parse("group"), Some(ItemCategory::Group));
    assert_eq!(ItemCategory::parse("single"), Some(ItemCategory::Single));
    assert_eq!(ItemCategory::parse("box"), Some(ItemCategory::Box));
    assert_eq!(ItemCategory::parse("gift"), Some(ItemCategory::Gift));
    assert_eq!(ItemCategory::parse("bogus"), None);
}

#[test]
fn round_id_validation_rejects_paths() {
    assert!(is_valid_round_id("月行水上"));
    assert!(is_valid_round_id("round-1_a"));
    assert!(!is_valid_round_id(""));
    assert!(!is_valid_round_id("../etc"));
    assert!(!is_valid_round_id("a/b"));
}

fn mk_item(id: &str, kind: &str, with_variant: bool) -> ItemConfig {
    ItemConfig {
        item_id: id.to_string(),
        name: id.to_string(),
        kind: kind.to_string(),
        class: None,
        aliases: vec![],
        unit_price_cents: 100,
        max_quantity: None,
        variants: if with_variant {
            vec![VariantConfig {
                variant_id: "v1".to_string(),
                name: "甲".to_string(),
                unit_price_cents: 100,
                adjust_cents: 0,
                capacity: None,
                aliases: vec![],
            }]
        } else {
            vec![]
        },
    }
}

#[test]
fn to_items_maps_whole_box_and_gift_kinds() {
    let mut round = base_config().round;
    round.items = vec![
        mk_item("box_zh", "整盒", false),
        mk_item("box_en", "box", false),
        mk_item("box_wb", "whole_box", false),
        mk_item("gift_zh", "特典", true),
        mk_item("gift_en", "gift", true),
        mk_item("split_en", "split", true),
        mk_item("single_en", "single", false),
    ];
    let kinds: std::collections::HashMap<String, ItemKind> =
        round.to_items().into_iter().map(|i| (i.item_id.0, i.kind)).collect();
    assert_eq!(kinds["box_zh"], ItemKind::WholeBox);
    assert_eq!(kinds["box_en"], ItemKind::WholeBox);
    assert_eq!(kinds["box_wb"], ItemKind::WholeBox);
    assert_eq!(kinds["gift_zh"], ItemKind::Gift);
    assert_eq!(kinds["gift_en"], ItemKind::Gift);
    assert_eq!(kinds["split_en"], ItemKind::Split);
    assert_eq!(kinds["single_en"], ItemKind::Single);
}

#[test]
fn empty_cn_overrides_match_legacy_behaviour() {
    let cfg = base_config();
    assert!(cfg.members.cn_overrides.is_empty());
    assert_eq!(resolve_cn(&cfg, "u1", "昵称（备注）").as_deref(), Some("昵称"));
    assert_eq!(resolve_cn(&cfg, "u2", "").as_deref(), Some("u2"));
    assert!(!is_priority_with_cn(&cfg, "u1", "昵称"));
}

#[test]
fn new_fields_default_to_unrestricted() {
    let cfg = base_config();
    assert!(cfg.gateway.whitelist_members.is_empty());
    assert!(cfg.round.phases.is_empty());
}

#[test]
fn resolve_cn_prefers_override_then_nickname_then_user_id() {
    let mut cfg = base_config();
    cfg.members.cn_overrides = vec![CnOverride {
        user_id: "u1".to_string(),
        cn: "甲子".to_string(),
        aliases: vec!["小甲".to_string()],
    }];
    assert_eq!(resolve_cn(&cfg, "u1", "任意昵称").as_deref(), Some("甲子"));
    assert_eq!(resolve_cn(&cfg, "u2", "乙（备注）").as_deref(), Some("乙"));
    assert_eq!(resolve_cn(&cfg, "u3", "").as_deref(), Some("u3"));
    assert_eq!(resolve_cn(&cfg, "", ""), None);
}

#[test]
fn priority_candidates_add_cn_and_aliases() {
    let mut cfg = base_config();
    cfg.members.cn_overrides = vec![CnOverride {
        user_id: "u1".to_string(),
        cn: "甲子".to_string(),
        aliases: vec!["小甲".to_string()],
    }];
    cfg.round.priority_users = vec!["甲子".to_string()];
    assert!(is_priority_with_cn(&cfg, "u1", "任意"));
    cfg.round.priority_users = vec!["小甲".to_string()];
    assert!(is_priority_with_cn(&cfg, "u1", "任意"));
    cfg.round.priority_users = vec!["别人".to_string()];
    assert!(!is_priority_with_cn(&cfg, "u1", "任意"));
    let cands = priority_candidates(&cfg, "u1", "任意");
    assert!(cands.contains(&"甲子".to_string()));
    assert!(cands.contains(&"小甲".to_string()));
}

#[test]
fn item_category_and_derived_class_follow_variants() {
    let pass = mk_item("pass_sp", "拼团", true);
    assert_eq!(pass.category(), Some(ItemCategory::Group));
    assert_eq!(pass.derived_class(), ItemClass::A);
    assert!(pass.category().unwrap().requires_variants());

    let single = ItemConfig {
        item_id: "s".to_string(),
        name: "单领".to_string(),
        kind: "单领".to_string(),
        class: None,
        aliases: vec![],
        unit_price_cents: 100,
        max_quantity: Some(3),
        variants: vec![],
    };
    assert_eq!(single.category(), Some(ItemCategory::Single));
    assert_eq!(single.derived_class(), ItemClass::B);

    let boxed = ItemConfig { kind: "整盒".to_string(), ..single };
    assert_eq!(boxed.category(), Some(ItemCategory::Box));
    assert!(!boxed.category().unwrap().requires_variants());
}

#[test]
fn item_class_reads_config_and_defaults_to_b() {
    let mut round = base_config().round;
    let mut pass = mk_item("pass_sp", "拼团", true);
    pass.class = Some("A".to_string());
    let mut gift = mk_item("gift_card", "特典", true);
    gift.class = Some("B".to_string());
    round.items = vec![pass, gift];
    assert_eq!(round.item_class("pass_sp"), ItemClass::A);
    assert_eq!(round.item_class("gift_card"), ItemClass::B);
    assert_eq!(round.item_class("does_not_exist"), ItemClass::B);
}

#[test]
fn item_class_prefers_derivation_with_explicit_override() {
    let mut round = base_config().round;
    round.items = vec![mk_item("pass_sp", "拼团", true), mk_item("gift_card", "特典", true)];
    assert_eq!(round.item_class("pass_sp"), ItemClass::A);
    assert_eq!(round.item_class("gift_card"), ItemClass::A);
    round.items[0].class = Some("B".to_string());
    assert_eq!(round.item_class("pass_sp"), ItemClass::B);
    round.items.push(ItemConfig {
        item_id: "single_only".to_string(),
        name: "单领".to_string(),
        kind: "单领".to_string(),
        class: None,
        aliases: vec![],
        unit_price_cents: 100,
        max_quantity: Some(3),
        variants: vec![],
    });
    assert_eq!(round.item_class("single_only"), ItemClass::B);
    assert_eq!(round.item_class("does_not_exist"), ItemClass::B);
}

#[test]
fn daily_pull_time_reads_hours_and_minutes() {
    assert_eq!(daily_pull_time("19:00"), (19, 0));
    assert_eq!(daily_pull_time(" 7 : 05 "), (7, 5));
    assert_eq!(daily_pull_time("+8:+30"), (8, 30));
    assert_eq!(daily_pull_time("x:15"), (19, 15));
    assert_eq!(daily_pull_time("20:"), (20, 0));
    assert_eq!(daily_pull_time("2000"), (19, 0));
    assert_eq!(daily_pull_time("99999999999:1"), (19, 1));
}

#[test]
fn replay_overrides_replace_only_given_fields() {
    let base = base_config();
    let overrides = ReplayOverrides {
        priority_users: Some(vec!["vip".to_string()]),
        phases: None,
        items: None,
        whitelist_members: Some(vec!["m".to_string()]),
        settlement: None,
    };
    let cfg = apply_overrides(base, overrides);
    assert_eq!(cfg.round.priority_users, vec!["vip".to_string()]);
    assert_eq!(cfg.gateway.whitelist_members, vec!["m".to_string()]);
    assert_eq!(cfg.round.round_id, "r");
    let none = ReplayOverrides { priority_users: None, phases: None, items: None, whitelist_members: None, settlement: None };
    let same = apply_overrides(base_config(), none);
    assert!(same.round.priority_users.is_empty());
}
