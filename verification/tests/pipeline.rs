use paigu::bus::IncomingEvent;
use paigu::domain::event::DomainEvent;
use paigu::domain::{ItemId, RoundId};
use paigu::llm::pipeline::{
    admin_action, admit_parsed, after_model_failure, applied_detail, applied_reply,
    cancel_for_modify, duplicate_finish, note_message, parse_choice, route, run_admin_action,
    sender_names, AdminAction, Admission, Finish, ParseChoice, Route,
};
use paigu::parser::parsed_event::{ParsedClaimItem, ParsedIntent, ParsedMessage};
use paigu::parser::rule_parser::RuleParser;
use paigu::round::{PhaseWindow, RoundPhase};
use paigu::settings::{
    AppConfig, DisplaySettings, GatewayConfig, ItemConfig, LlmSettings, MembersSettings,
    PriorityWindow, RoundSettings, VariantConfig,
};
use paigu::settlement::SettlementConfig;

const ID_BYTES: [u8; 16] = [0u8; 16];
const CLAIM_BYTES: [u8; 16] = [0xffu8; 16];

fn base_config() -> AppConfig {
    AppConfig {
        revision: 0,
        gateway: GatewayConfig {
            bind: String::new(),
            whitelist_groups: vec![],
            whitelist_members: vec![],
            heartbeat_secs: 30,
            reply_enabled: false,
            allowed_actions: vec![],
            admin_commands_enabled: false,
        },
        llm: LlmSettings {
            enabled: false,
            base_url: String::new(),
            model: String::new(),
            api_key_env: String::new(),
            timeout_secs: 10,
            max_tokens: 256,
            temperature_milli: 0,
            fallback_to_rules: true,
            prompt_template: String::new(),
        },
        round: RoundSettings {
            round_id: "r1".to_string(),
            title: "五月团".to_string(),
            group_id: "123456789".to_string(),
            priority_users: vec![],
            priority_window: None,
            phases: vec![],
            items: vec![ItemConfig {
                item_id: "pass_sp".to_string(),
                name: "通行证".to_string(),
                kind: "拼团".to_string(),
                class: Some("A".to_string()),
                aliases: vec![],
                unit_price_cents: 0,
                max_quantity: None,
                variants: vec![VariantConfig {
                    variant_id: "v_jcl".to_string(),
                    name: "结城理".to_string(),
                    unit_price_cents: 100,
                    adjust_cents: 0,
                    capacity: None,
                    aliases: vec![],
                }],
            }],
        },
        display: DisplaySettings { refresh_ms: 1000, data_source: String::new(), remote_base_url: String::new() },
        members: MembersSettings {
            group_id: String::new(),
            cache_path: String::new(),
            daily_pull_at: String::new(),
            cn_overrides: vec![],
        },
        settlement: SettlementConfig::empty(),
        active_round_id: None,
    }
}

fn event(user_id: &str, nickname: &str, text: &str, timestamp_ms: i64) -> IncomingEvent {
    IncomingEvent {
        group_id: "123456789".to_string(),
        user_id: user_id.to_string(),
        nickname: nickname.to_string(),
        message_id: format!("{}::{}", user_id, text),
        text: text.to_string(),
        timestamp_ms,
        is_admin: false,
        raw: None,
    }
}

fn claim(name: &str, quantity: u32) -> ParsedMessage {
    ParsedMessage {
        intent: ParsedIntent::Claim,
        round_hint: None,
        items: vec![ParsedClaimItem {
            name: name.to_string(),
            category_hint: None,
            quantity,
            claim_type: None,
            is_proxy_card: None,
            slot_policy: None,
            notes: None,
            resolved_item_id: None,
            resolved_variant_id: None,
            resolved_round_id: None,
        }],
        cancel_target_hint: None,
        admin_command: None,
        confidence_pct: 90,
        ambiguous_parts: vec![],
    }
}

fn finished(a: &Admission) -> &Finish {
    match a {
        Admission::Finished(f) => f,
        Admission::Apply { .. } => panic!("expected a finished message"),
    }
}

#[test]
fn duplicate_message_ids_are_detected() {
    let mut seen = Vec::new();
    let ev = event("u1", "阿明", "排 通行证 结城理 1", 1000);
    assert!(note_message(&mut seen, &ev));
    assert!(!note_message(&mut seen, &ev));
    assert_eq!(seen, vec!["123456789::u1::排 通行证 结城理 1".to_string()]);
    let f = duplicate_finish();
    assert_eq!(f.status, "Duplicate");
    assert_eq!(f.detail, "重复 message_id，已按幂等忽略");
    assert!(f.reply.is_none());
}

#[test]
fn sender_names_fall_back_to_user_id() {
    let (identity, display) = sender_names(&event("u1", "阿明（备注）", "x", 1));
    assert_eq!(identity, "阿明");
    assert_eq!(display, "阿明");
    let (_, display) = sender_names(&event("u9", "  ", "x", 1));
    assert_eq!(display, "u9");
}

#[test]
fn blank_and_slash_messages_are_routed() {
    let mut cfg = base_config();
    match route(&cfg, &event("u1", "n", "   ", 1)) {
        Route::Finished(f) => {
            assert_eq!(f.status, "Ignored");
            assert_eq!(f.detail, "空消息");
        }
        _ => panic!("blank message should be ignored"),
    }
    match route(&cfg, &event("u1", "n", "/锁位", 1)) {
        Route::Finished(f) => {
            assert_eq!(f.status, "Rejected");
            assert_eq!(f.reply.as_deref(), Some("此命令仅管理员可用。"));
        }
        _ => panic!("member slash command should be refused"),
    }
    let mut admin = event("admin1", "管理员", "/锁位", 1000);
    admin.is_admin = true;
    match route(&cfg, &admin) {
        Route::Finished(f) => {
            assert_eq!(f.status, "Applied");
            assert_eq!(f.detail, "管理员命令已记录（执行开关关闭）");
        }
        _ => panic!("admin command should only be recorded"),
    }
    cfg.gateway.admin_commands_enabled = true;
    admin.text = " //锁位 now ".to_string();
    match route(&cfg, &admin) {
        Route::AdminCommand(c) => assert_eq!(c, "锁位 now"),
        _ => panic!("admin command should run"),
    }
    match route(&cfg, &event("u1", "n", "  排 通行证 结城理 1 ", 1)) {
        Route::Parse(t) => assert_eq!(t, "排 通行证 结城理 1"),
        _ => panic!("message should be parsed"),
    }
}

#[test]
fn rule_reading_or_model_is_chosen() {
    let mut cfg = base_config();
    let confident = claim("结城理", 1);
    assert!(matches!(parse_choice(&cfg, &confident), ParseChoice::Rule));
    let mut unsure = claim("结城理", 1);
    unsure.confidence_pct = 40;
    assert!(matches!(parse_choice(&cfg, &unsure), ParseChoice::Rule));
    cfg.llm.enabled = true;
    assert!(matches!(parse_choice(&cfg, &unsure), ParseChoice::AskModel));
    assert!(after_model_failure(&cfg).is_none());
    cfg.llm.fallback_to_rules = false;
    let f = after_model_failure(&cfg).unwrap();
    assert_eq!(f.status, "Rejected");
    assert_eq!(f.detail, "没识别成功");
    cfg.llm.enabled = false;
    match parse_choice(&cfg, &unsure) {
        ParseChoice::Refused(f) => {
            assert_eq!(f.detail, "LLM 未启用");
            assert_eq!(f.reply.as_deref(), Some("没识别成功"));
        }
        _ => panic!("should be refused"),
    }
}

#[test]
fn rule_claim_is_applied() {
    let cfg = base_config();
    let ev = event("u1", "阿明", "排 通行证 结城理 1", 1000);
    let items = cfg.round.to_items();
    let parsed = RuleParser::parse("排 通行证 结城理 1", &items, false);
    let a = admit_parsed(&cfg, parsed, &ev, "阿明", "阿明", 1, 1000, false, ID_BYTES, CLAIM_BYTES);
    match a {
        Admission::Apply { event, is_modify, is_priority } => {
            assert!(!is_modify);
            assert!(!is_priority);
            assert_eq!(event.sequence, 1);
            assert_eq!(event.effective_at_ms, 1000);
            assert_eq!(event.raw_message_id.as_deref(), Some("u1::排 通行证 结城理 1"));
            match event.payload {
                DomainEvent::ClaimCreated(c) => {
                    assert_eq!(c.items.len(), 1);
                    assert_eq!(c.items[0].item_id.0, "pass_sp");
                    assert_eq!(c.items[0].quantity, 1);
                }
                _ => panic!("expected a claim"),
            }
        }
        Admission::Finished(f) => panic!("unexpected finish: {} {}", f.status, f.detail),
    }
}

#[test]
fn empty_claim_and_unknown_intent_are_ignored() {
    let cfg = base_config();
    let ev = event("u1", "阿明", "你好", 1000);
    let mut empty = claim("x", 1);
    empty.items.clear();
    let a = admit_parsed(&cfg, empty, &ev, "阿明", "阿明", 1, 1000, false, ID_BYTES, CLAIM_BYTES);
    assert_eq!(finished(&a).detail, "未解析出商品");
    let mut other = claim("x", 1);
    other.intent = ParsedIntent::Unknown;
    let a = admit_parsed(&cfg, other, &ev, "阿明", "阿明", 1, 1000, false, ID_BYTES, CLAIM_BYTES);
    assert_eq!(finished(&a).status, "Ignored");
    assert_eq!(finished(&a).detail, "无法识别为排谷/撤销意图");
}

#[test]
fn unknown_item_is_refused_by_validation() {
    let cfg = base_config();
    let ev = event("u1", "阿明", "排 不存在 1", 1000);
    let a = admit_parsed(&cfg, claim("不存在", 1), &ev, "阿明", "阿明", 1, 1000, false, ID_BYTES, CLAIM_BYTES);
    assert_eq!(finished(&a).status, "Rejected");
    assert_eq!(finished(&a).detail, "校验拒绝");
    assert_eq!(finished(&a).reply.as_deref(), Some("无法识别商品：不存在"));
}

#[test]
fn priority_window_rejects_other_senders() {
    let mut cfg = base_config();
    cfg.round.priority_window = Some(PriorityWindow { start_ms: 0, end_ms: 5000 });
    cfg.round.priority_users = vec!["vip".to_string()];
    let ev = event("u1", "阿明", "排 通行证 结城理 1", 1000);
    let a = admit_parsed(&cfg, claim("结城理", 1), &ev, "阿明", "阿明", 1, 1000, false, ID_BYTES, CLAIM_BYTES);
    assert_eq!(finished(&a).status, "Rejected");
    assert_eq!(finished(&a).detail, "优先时段仅限预存(购物金)用户");
    assert_eq!(finished(&a).reply.as_deref(), Some("优先时段仅限预存(购物金)用户，请求已拒绝"));

    let vip = event("vip", "阿贵", "排 通行证 结城理 1", 1000);
    let a = admit_parsed(&cfg, claim("结城理", 1), &vip, "阿贵", "阿贵", 2, 1000, false, ID_BYTES, CLAIM_BYTES);
    assert!(matches!(a, Admission::Apply { is_priority: true, .. }));

    let late = event("u1", "阿明", "排 通行证 结城理 1", 5000);
    let a = admit_parsed(&cfg, claim("结城理", 1), &late, "阿明", "阿明", 3, 5000, false, ID_BYTES, CLAIM_BYTES);
    assert!(matches!(a, Admission::Apply { is_priority: false, .. }));
}

#[test]
fn phase_i_class_a_claim_is_rejected() {
    let mut cfg = base_config();
    cfg.round.phases = vec![PhaseWindow { phase: RoundPhase::PhaseI, start_ms: 0, end_ms: 10_000 }];
    let ev = event("u1", "阿明", "排 通行证 结城理 1", 1000);
    let a = admit_parsed(&cfg, claim("结城理", 1), &ev, "阿明", "阿明", 1, 1000, false, ID_BYTES, CLAIM_BYTES);
    assert_eq!(finished(&a).status, "Rejected");
    assert!(finished(&a).detail.contains("阶段"));
    assert_eq!(finished(&a).reply.as_deref(), Some(finished(&a).detail.as_str()));
}

#[test]
fn empty_phases_are_unrestricted() {
    let cfg = base_config();
    let ev = event("u1", "阿明", "排 通行证 结城理 1", 1000);
    let a = admit_parsed(&cfg, claim("结城理", 1), &ev, "阿明", "阿明", 1, 1000, false, ID_BYTES, CLAIM_BYTES);
    assert!(matches!(a, Admission::Apply { .. }));
}

#[test]
fn locked_pipeline_rejects_claims() {
    let cfg = base_config();
    let ev = event("u1", "阿明", "排 通行证 结城理 1", 1000);
    let a = admit_parsed(&cfg, claim("结城理", 1), &ev, "阿明", "阿明", 1, 1000, true, ID_BYTES, CLAIM_BYTES);
    assert_eq!(finished(&a).detail, "已锁定，不再接受排/撤/改");
}

#[test]
fn modify_is_applied_as_claim_with_cancellations() {
    let cfg = base_config();
    let ev = event("u1", "阿明", "改 通行证 结城理 2", 1000);
    let mut m = claim("结城理", 2);
    m.intent = ParsedIntent::Modify;
    let a = admit_parsed(&cfg, m, &ev, "阿明", "阿明", 4, 1000, false, ID_BYTES, CLAIM_BYTES);
    assert!(matches!(a, Admission::Apply { is_modify: true, .. }));
    let c = cancel_for_modify(&RoundId("r1".to_string()), &ev, 4, 1000, ItemId("pass_sp".to_string()), ID_BYTES);
    assert_eq!(c.event_type, "claim_cancelled");
    assert_eq!(c.event_id.0, "00000000-0000-4000-8000-000000000000");
    assert_eq!(c.sequence, 4);
    match c.payload {
        DomainEvent::ClaimCancelled(x) => {
            assert_eq!(x.target_item_id.unwrap().0, "pass_sp");
            assert_eq!(x.reason.as_deref(), Some("改单"));
        }
        _ => panic!("expected a cancellation"),
    }
    assert_eq!(applied_detail("认购", true), "改单：认购");
    assert_eq!(applied_detail("认购", false), "认购");
    assert_eq!(applied_reply(12), "已记录，当前版本 #12");
}

#[test]
fn admin_lock_and_open_toggle_the_pipeline() {
    let mut locked = false;
    assert!(matches!(admin_action("  锁位 now"), AdminAction::Lock));
    let f = run_admin_action(&AdminAction::Lock, &mut locked, 3).unwrap();
    assert!(locked);
    assert_eq!(f.reply.as_deref(), Some("已锁定，当前版本 #3"));
    let f = run_admin_action(&admin_action("status"), &mut locked, 3).unwrap();
    assert_eq!(f.reply.as_deref(), Some("版本 #3，锁定=true"));
    let f = run_admin_action(&admin_action("开团"), &mut locked, 4).unwrap();
    assert!(!locked);
    assert_eq!(f.detail, "已开团（解锁）");
    assert!(run_admin_action(&admin_action("导出"), &mut locked, 4).is_none());
    let f = run_admin_action(&admin_action("飞"), &mut locked, 4).unwrap();
    assert_eq!(f.status, "Rejected");
    assert_eq!(f.detail, "未支持的管理员命令：飞");
    match admin_action("") {
        AdminAction::Unsupported(w) => assert_eq!(w, ""),
        _ => panic!("empty command is unsupported"),
    }
}
