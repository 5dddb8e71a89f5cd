use paigu::parser::policy::{
    group_allowed, in_priority_at, is_priority, member_allowed, phase_at, phase_label,
    priority_window,
};
use paigu::round::{can_cancel, can_claim, ItemClass, PhaseWindow, RoundPhase};
use paigu::settings::{
    AppConfig, DisplaySettings, GatewayConfig, LlmSettings, MembersSettings, PriorityWindow,
    RoundSettings,
};
use paigu::settlement::SettlementConfig;

fn base_config() -> AppConfig {
    AppConfig {
        revision: 0,
        gateway: GatewayConfig {
            bind: "127.0.0.1:0".to_string(),
            whitelist_groups: vec![],
            whitelist_members: vec![],
            heartbeat_secs: 30,
            reply_enabled: false,
            allowed_actions: vec![],
            admin_commands_enabled: false,
        },
        llm: LlmSettings {
            enabled: false,
            base_url: String::new(),
            model: String::new(),
            api_key_env: String::new(),
            timeout_secs: 10,
            max_tokens: 256,
            temperature_milli: 0,
            fallback_to_rules: true,
            prompt_template: String::new(),
        },
        round: RoundSettings {
            round_id: "r".to_string(),
            title: "t".to_string(),
            group_id: "g".to_string(),
            priority_users: vec![],
            priority_window: None,
            phases: vec![],
            items: vec![],
        },
        display: DisplaySettings {
            refresh_ms: 1000,
            data_source: "local".to_string(),
            remote_base_url: String::new(),
        },
        members: MembersSettings {
            group_id: "g".to_string(),
            cache_path: String::new(),
            daily_pull_at: String::new(),
            cn_overrides: vec![],
        },
        settlement: SettlementConfig::empty(),
        active_round_id: None,
    }
}

#[test]
fn group_whitelist_requires_exact_match() {
    let wl = vec!["123456789".to_string()];
    assert!(group_allowed(&wl, "123456789"));
    assert!(!group_allowed(&wl, "123"));
    assert!(!group_allowed(&[], "123456789"));
}

#[test]
fn member_whitelist_empty_allows_all() {
    assert!(member_allowed(&[], &["u1"]));
}

#[test]
fn member_whitelist_matches_any_trimmed_candidate() {
    let wl = vec![" 甲 ".to_string()];
    assert!(member_allowed(&wl, &["u1", "甲", "甲(代乙)"]));
    assert!(!member_allowed(&wl, &["u1", "乙"]));
    let blank = vec!["   ".to_string()];
    assert!(!member_allowed(&blank, &["u1"]));
}

#[test]
fn priority_window_is_half_open() {
    let mut cfg = base_config();
    cfg.round.priority_window = Some(PriorityWindow { start_ms: 100, end_ms: 200 });
    assert_eq!(priority_window(&cfg), Some((100, 200)));
    assert!(!in_priority_at(&cfg, 99));
    assert!(in_priority_at(&cfg, 100));
    assert!(in_priority_at(&cfg, 199));
    assert!(!in_priority_at(&cfg, 200));
}

#[test]
fn is_priority_matches_any_candidate() {
    let mut cfg = base_config();
    cfg.round.priority_users = vec!["u2".to_string()];
    assert!(is_priority(&cfg, &["u1", "u2", "u2", "u2"]));
    assert!(!is_priority(&cfg, &["u1", "u1", "u1", "u1"]));
}

#[test]
fn phase_labels_are_stable() {
    assert_eq!(phase_label(RoundPhase::Phase0), "Phase 0");
    assert_eq!(phase_label(RoundPhase::Settling), "结算");
    assert_eq!(phase_label(RoundPhase::Locked), "锁定");
}

#[test]
fn phase_lookup_and_permissions() {
    let windows = vec![PhaseWindow { phase: RoundPhase::Locked, start_ms: 0, end_ms: i64::MAX }];
    assert_eq!(phase_at(&windows, 1), Some(RoundPhase::Locked));
    assert!(!can_claim(RoundPhase::Locked, ItemClass::B, true));
    assert!(!can_cancel(RoundPhase::Locked, ItemClass::B, true));
    assert_eq!(phase_at(&windows, -1), None);
}
