use paigu::domain::event::{DomainEvent, EventEnvelope};
use paigu::domain::RoundContext;
use paigu::domain::RoundId;
use paigu::messages::MessageRecord;
use paigu::parser::validation::EventValidator;
use paigu::replay::session::{compute_records, event_time_of, process_record};
use paigu::round::{PhaseWindow, RoundPhase};
use paigu::settings::{
    AppConfig, DisplaySettings, GatewayConfig, ItemConfig, LlmSettings, MembersSettings,
    PriorityWindow, RoundSettings, VariantConfig,
};
use paigu::settlement::SettlementConfig;

fn config() -> AppConfig {
    AppConfig {
        revision: 0,
        gateway: GatewayConfig {
            bind: String::new(),
            whitelist_groups: vec![],
            whitelist_members: vec![],
            heartbeat_secs: 30,
            reply_enabled: false,
            allowed_actions: vec![],
            admin_commands_enabled: false,
        },
        llm: LlmSettings {
            enabled: false,
            base_url: String::new(),
            model: String::new(),
            api_key_env: String::new(),
            timeout_secs: 10,
            max_tokens: 256,
            temperature_milli: 0,
            fallback_to_rules: true,
            prompt_template: String::new(),
        },
        round: RoundSettings {
            round_id: "r1".to_string(),
            title: "五月团".to_string(),
            group_id: "123456789".to_string(),
            priority_users: vec![],
            priority_window: None,
            phases: vec![],
            items: vec![ItemConfig {
                item_id: "pass_sp".to_string(),
                name: "通行证".to_string(),
                kind: "拼团".to_string(),
                class: Some("A".to_string()),
                aliases: vec![],
                unit_price_cents: 0,
                max_quantity: None,
                variants: vec![VariantConfig {
                    variant_id: "v_jcl".to_string(),
                    name: "结城理".to_string(),
                    unit_price_cents: 100,
                    adjust_cents: 0,
                    capacity: None,
                    aliases: vec![],
                }],
            }],
        },
        display: DisplaySettings { refresh_ms: 1000, data_source: String::new(), remote_base_url: String::new() },
        members: MembersSettings {
            group_id: String::new(),
            cache_path: String::new(),
            daily_pull_at: String::new(),
            cn_overrides: vec![],
        },
        settlement: SettlementConfig::empty(),
        active_round_id: None,
    }
}

fn rec(seq: i64, user: &str, text: &str) -> MessageRecord {
    MessageRecord {
        seq,
        group_id: "123456789".to_string(),
        user_id: user.to_string(),
        nickname: format!("昵称{user}"),
        message_id: format!("m{seq}"),
        text: text.to_string(),
        timestamp_ms: 1000,
        is_admin: false,
        routed: "message".to_string(),
        status: "Pending".to_string(),
        detail: String::new(),
    }
}

fn replay(cfg: &AppConfig, r: &MessageRecord) -> paigu::replay::session::Processed {
    let items = cfg.round.to_items();
    let ctxs = vec![RoundContext {
        round_id: RoundId(cfg.round.round_id.clone()),
        title: cfg.round.title.clone(),
        items: cfg.round.to_items(),
    }];
    process_record(cfg, r, &items, &ctxs, &EventValidator::new(65), r.timestamp_ms, &describe)
}

fn describe(e: &EventEnvelope) -> String {
    format!("{} {}", e.event_type, e.event_id.0)
}

#[test]
fn applied_claims_get_stable_ids() {
    let cfg = config();
    let p = replay(&cfg, &rec(7, "u1", "排 通行证 结城理 1"));
    assert_eq!(p.status, "Applied");
    assert!(!p.is_modify);
    assert_eq!(p.events.len(), 1);
    assert_eq!(p.events[0].event_id.0, "evt-7");
    match &p.events[0].payload {
        DomainEvent::ClaimCreated(c) => assert_eq!(c.claim_id.0, "claim-7"),
        _ => panic!("expected a claim"),
    }
    assert_eq!(p.detail, format!("{} evt-7", p.events[0].event_type));
    let again = replay(&cfg, &rec(7, "u1", "排 通行证 结城理 1"));
    assert_eq!(again.events[0].event_id.0, p.events[0].event_id.0);
}

#[test]
fn modification_cancels_first() {
    let cfg = config();
    let p = replay(&cfg, &rec(9, "u1", "改 通行证 结城理 2"));
    assert_eq!(p.status, "Applied");
    assert!(p.is_modify);
    assert_eq!(p.events.len(), 2);
    assert_eq!(p.events[0].event_id.0, "evt-9-cancel-0");
    assert_eq!(p.events[0].event_type, "claim_cancelled");
    assert_eq!(p.events[1].event_id.0, "evt-9");
    assert_eq!(p.detail, format!("改单：{} evt-9", p.events[1].event_type));
}

#[test]
fn dropped_and_ignored_records() {
    let mut cfg = config();
    let mut r = rec(1, "u1", "排 通行证 结城理 1");
    r.routed = "DROP".to_string();
    assert_eq!(replay(&cfg, &r).detail, "非白名单/Drop");
    cfg.gateway.whitelist_members = vec!["u2".to_string()];
    let p = replay(&cfg, &rec(2, "u1", "排 通行证 结城理 1"));
    assert_eq!(p.status, "Dropped");
    assert_eq!(p.detail, "成员不在白名单");
    cfg.gateway.whitelist_members = vec!["昵称u1".to_string()];
    assert_eq!(replay(&cfg, &rec(3, "u1", "排 通行证 结城理 1")).status, "Applied");
    assert_eq!(replay(&cfg, &rec(4, "u1", "   ")).detail, "空消息");
    let mut admin = rec(5, "u1", "/锁位");
    admin.is_admin = true;
    assert_eq!(replay(&cfg, &admin).detail, "管理员命令已记录");
    assert_eq!(replay(&cfg, &rec(6, "u1", "/锁位")).status, "Rejected");
}

#[test]
fn replay_gates_priority_window_and_phases() {
    let mut cfg = config();
    cfg.round.priority_window = Some(PriorityWindow { start_ms: 0, end_ms: 5000 });
    let p = replay(&cfg, &rec(1, "u1", "排 通行证 结城理 1"));
    assert_eq!(p.detail, "优先时段仅限预存(购物金)用户");
    cfg.round.priority_users = vec!["u1".to_string()];
    let p = replay(&cfg, &rec(2, "u1", "排 通行证 结城理 1"));
    assert!(p.priority_claim);
    cfg.round.priority_window = None;
    cfg.round.priority_users = vec![];
    cfg.round.phases = vec![PhaseWindow { phase: RoundPhase::PhaseI, start_ms: 0, end_ms: 10_000 }];
    let p = replay(&cfg, &rec(3, "u1", "排 通行证 结城理 1"));
    assert_eq!(p.status, "Rejected");
    assert!(p.detail.contains("阶段"));
}

#[test]
fn log_is_replayed_in_time_order() {
    let mut cfg = config();
    cfg.round.priority_users = vec!["u2".to_string()];
    let mut late = rec(3, "u1", "排 通行证 结城理 1");
    late.timestamp_ms = 3000;
    let mut early = rec(8, "u2", "排 通行证 结城理 1");
    early.timestamp_ms = 1000;
    let mut same_time = rec(5, "u2", "排 通行证 结城理 2");
    same_time.timestamp_ms = 1000;
    let blank = rec(9, "u3", " ");
    let out = compute_records(&cfg, &[late, early, same_time, blank], 0, &describe);
    let order: Vec<i64> = out.outcomes.iter().map(|o| o.seq).collect();
    assert_eq!(order, vec![5, 8, 9, 3]);
    assert_eq!(out.messages.len(), 4);
    assert!(out.outcomes[0].applied);
    assert!(!out.outcomes[2].applied);
    assert_eq!(out.outcomes[2].detail, "空消息");
    assert_eq!(out.outcomes[0].detail, format!("{} evt-5", out.events[0].event_type));
    assert_eq!(out.events.len(), 3);
    assert_eq!(out.events[0].event_id.0, "evt-5");
    assert_eq!(out.priority_users, vec!["u2".to_string()]);
    assert_eq!(out.latest_ts, 3000);
    assert_eq!(event_time_of(1234, 99), 1234);
    assert_eq!(event_time_of(i64::MAX, 99), 99);
    assert_eq!(event_time_of(8210266876799999, 99), 8210266876799999);
    assert_eq!(event_time_of(8210266876800000, 99), 99);
    assert_eq!(event_time_of(-8334601228800000, 99), -8334601228800000);
    assert_eq!(event_time_of(-8334601228800001, 99), 99);
}
