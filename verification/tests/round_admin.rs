use paigu::services::rounds::{
    active_round_id, check_deletable, copy_source, issues_ok, new_round_id, new_round_settings,
    parse_activate_mode, ActivateMode, Issue,
};
use paigu::services::ServiceError;
use paigu::settings::rounds::{
    active_file_id, order_round_files, resolve_active, ActiveResolution, RoundFileInfo,
};
use paigu::settings::{
    AppConfig, DisplaySettings, GatewayConfig, LlmSettings, MembersSettings, RoundSettings,
};
use paigu::settlement::SettlementConfig;

fn cfg(active: Option<&str>) -> AppConfig {
    AppConfig {
        revision: 3,
        gateway: GatewayConfig {
            bind: String::new(),
            whitelist_groups: vec![],
            whitelist_members: vec![],
            heartbeat_secs: 30,
            reply_enabled: false,
            allowed_actions: vec![],
            admin_commands_enabled: false,
        },
        llm: LlmSettings {
            enabled: false,
            base_url: String::new(),
            model: String::new(),
            api_key_env: String::new(),
            timeout_secs: 10,
            max_tokens: 256,
            temperature_milli: 0,
            fallback_to_rules: true,
            prompt_template: String::new(),
        },
        round: RoundSettings {
            round_id: "r1".to_string(),
            title: "五月团".to_string(),
            group_id: "123".to_string(),
            priority_users: vec![],
            priority_window: None,
            phases: vec![],
            items: vec![],
        },
        display: DisplaySettings { refresh_ms: 1000, data_source: String::new(), remote_base_url: String::new() },
        members: MembersSettings {
            group_id: String::new(),
            cache_path: String::new(),
            daily_pull_at: String::new(),
            cn_overrides: vec![],
        },
        settlement: SettlementConfig::empty(),
        active_round_id: active.map(str::to_string),
    }
}

fn bad_request(r: Result<impl Sized, ServiceError>) -> String {
    match r {
        Err(ServiceError::BadRequest(m)) => m,
        _ => panic!("expected a bad request"),
    }
}

#[test]
fn active_round_defaults_to_configured_round() {
    assert_eq!(active_round_id(&cfg(None)), "r1");
    assert_eq!(active_round_id(&cfg(Some("r2"))), "r2");
}

#[test]
fn activation_modes_are_parsed() {
    assert!(matches!(parse_activate_mode(None), Ok(ActivateMode::Continue)));
    assert!(matches!(parse_activate_mode(Some(" FRESH ".to_string())), Ok(ActivateMode::Fresh)));
    assert!(matches!(parse_activate_mode(Some("replay".to_string())), Ok(ActivateMode::Replay)));
    assert_eq!(bad_request(parse_activate_mode(Some("again".to_string()))), "mode 必须是 continue|fresh|replay");
}

#[test]
fn active_rounds_cannot_be_deleted() {
    assert_eq!(bad_request(check_deletable(&cfg(Some("r2")), " r2 ")), "不能删除激活中的轮次");
    assert_eq!(bad_request(check_deletable(&cfg(Some("r2")), "r1")), "不能删除激活中的轮次");
    assert_eq!(check_deletable(&cfg(Some("r2")), " r3 ").ok().unwrap(), "r3");
}

#[test]
fn check_passes_without_errors() {
    let issue = |level: &str| Issue {
        level: level.to_string(),
        code: "c".to_string(),
        message: "m".to_string(),
        where_: "w".to_string(),
    };
    assert!(issues_ok(&[]));
    assert!(issues_ok(&[issue("warn")]));
    assert!(!issues_ok(&[issue("warn"), issue("error")]));
}

#[test]
fn new_rounds_are_named_and_built() {
    assert_eq!(new_round_id("  r-6月_团 ").ok().unwrap(), "r-6月_团");
    assert_eq!(
        bad_request(new_round_id("a/b")),
        "round_id 非法（非空、≤64 且仅允许字母/数字/中文/_-）"
    );
    assert_eq!(copy_source(&Some("  r1 ".to_string())), Some("r1".to_string()));
    assert_eq!(copy_source(&Some("   ".to_string())), None);
    assert_eq!(copy_source(&None), None);

    let fresh = new_round_settings("r6".to_string(), None, None, &"123".to_string());
    assert_eq!(fresh.title, "r6");
    assert_eq!(fresh.group_id, "123");
    assert!(fresh.items.is_empty());

    let base = cfg(None).round;
    let copied = new_round_settings("r7".to_string(), Some(" 七月团 ".to_string()), Some(base), &"x".to_string());
    assert_eq!(copied.round_id, "r7");
    assert_eq!(copied.title, "七月团");
    assert_eq!(copied.group_id, "123");
}

#[test]
fn active_round_is_resolved_at_start() {
    use_resolve();
}

fn use_resolve() {
    let mut c = cfg(Some(" r2 "));
    assert_eq!(active_file_id(&c), Some("r2".to_string()));
    let mut loaded = cfg(None).round;
    loaded.round_id = "  ".to_string();
    loaded.title = "二号".to_string();
    assert!(matches!(resolve_active(&mut c, Some(loaded)), ActiveResolution::Loaded));
    assert_eq!(c.round.round_id, "r2");
    assert_eq!(c.round.title, "二号");

    let mut c = cfg(None);
    assert_eq!(active_file_id(&c), None);
    assert!(matches!(resolve_active(&mut c, None), ActiveResolution::Claimed { newly_set: true }));
    assert_eq!(c.active_round_id.as_deref(), Some("r1"));
    assert!(matches!(resolve_active(&mut c, None), ActiveResolution::Claimed { newly_set: false }));

    let mut blank = cfg(None);
    blank.round.round_id = " ".to_string();
    assert!(matches!(resolve_active(&mut blank, None), ActiveResolution::Unchanged));
    assert_eq!(blank.active_round_id, None);
}

#[test]
fn round_files_list_newest_first_then_by_id() {
    let f = |id: &str, m: Option<i128>| RoundFileInfo { round_id: id.to_string(), modified: m };
    let out = order_round_files(vec![
        f("b", Some(10)),
        f("z", None),
        f("a", Some(10)),
        f("c", Some(30)),
        f("y", None),
    ]);
    let ids: Vec<&str> = out.iter().map(|x| x.round_id.as_str()).collect();
    assert_eq!(ids, vec!["c", "a", "b", "y", "z"]);
}

#[test]
fn round_file_is_trimmed_id_with_json_suffix() {
    assert_eq!(paigu::settings::rounds::round_file("data/rounds", " 月行水上 "), "data/rounds/月行水上.json");
    assert_eq!(paigu::settings::rounds::round_file("", "r1"), "r1.json");
}
