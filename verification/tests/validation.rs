use paigu::domain::event::{ClaimCancelled, DomainEvent, EventEnvelope, EventId, EventStatus};
use paigu::domain::{
    ClaimType, Item, ItemId, ItemKind, ItemVariant, MoneyCents, RoundContext, RoundId, SlotPolicy,
    UserId,
};
use paigu::parser::parsed_event::{ParsedClaimItem, ParsedIntent, ParsedMessage};
use paigu::parser::policy::phase_rejection;
use paigu::parser::reply::BotReply;
use paigu::parser::validation::{EventValidator, ValidationOutcome};
use paigu::round::{phase_at, ItemClass, PhaseWindow, RoundPhase};
use paigu::settings::{
    AppConfig, DisplaySettings, GatewayConfig, ItemConfig, LlmSettings, MembersSettings,
    RoundSettings, VariantConfig,
};
use paigu::settlement::SettlementConfig;

fn rounds() -> Vec<RoundContext> {
    vec![RoundContext {
        round_id: RoundId("r1".to_string()),
        title: "五月团".to_string(),
        items: vec![Item {
            item_id: ItemId("pass_sp".to_string()),
            round_id: RoundId("r1".to_string()),
            name: "通行认证SP".to_string(),
            kind: ItemKind::Split,
            unit_price: MoneyCents(0),
            box_size: None,
            max_quantity: None,
            is_blind: false,
            is_proxy_card: false,
            aliases: vec!["通行证".to_string()],
            sort_order: 0,
            variants: vec![ItemVariant {
                variant_id: "v_jcl".to_string(),
                name: "结城理".to_string(),
                unit_price: MoneyCents(0),
                capacity: None,
                aliases: vec![],
            }],
        }],
    }]
}

fn line(name: &str) -> ParsedClaimItem {
    ParsedClaimItem {
        name: name.to_string(),
        category_hint: None,
        quantity: 2,
        claim_type: Some("Split".to_string()),
        is_proxy_card: None,
        slot_policy: Some("包尾".to_string()),
        notes: None,
        resolved_item_id: None,
        resolved_variant_id: None,
        resolved_round_id: None,
    }
}

fn message(intent: ParsedIntent, items: Vec<ParsedClaimItem>, confidence_pct: u32) -> ParsedMessage {
    ParsedMessage {
        intent,
        round_hint: None,
        items,
        cancel_target_hint: None,
        admin_command: None,
        confidence_pct,
        ambiguous_parts: vec![],
    }
}

fn run(msg: ParsedMessage, rounds: &[RoundContext]) -> ValidationOutcome {
    EventValidator::new(65).validate(msg, &UserId("u1".to_string()), "g1", Some("m1".to_string()), rounds, 1_000, 7, [0x11u8; 16], [0x22u8; 16])
}

fn text_of(o: &ValidationOutcome) -> Option<String> {
    match o {
        ValidationOutcome::Reject(r) | ValidationOutcome::NeedConfirm(r) => r.text_content().map(str::to_string),
        _ => None,
    }
}

#[test]
fn low_confidence_is_rejected() {
    let o = run(message(ParsedIntent::Claim, vec![line("结城理")], 50), &rounds());
    assert!(matches!(o, ValidationOutcome::Reject(_)));
    assert_eq!(text_of(&o).as_deref(), Some("识别置信度不足 (50%)，请按格式重发。"));
}

#[test]
fn ambiguous_parts_need_confirmation() {
    let mut msg = message(ParsedIntent::Claim, vec![line("结城理")], 95);
    msg.ambiguous_parts = vec!["甲".to_string(), "乙".to_string()];
    let o = run(msg, &rounds());
    match &o {
        ValidationOutcome::NeedConfirm(BotReply::NeedConfirm { text, confirm_token }) => {
            assert_eq!(text, "以下部分不确定：甲，乙。请回复确认。");
            assert_eq!(confirm_token.len(), 36);
        }
        _ => panic!("expected confirmation"),
    }
}

#[test]
fn resolved_claim_becomes_claim_created() {
    let o = run(message(ParsedIntent::Claim, vec![line("结城理")], 95), &rounds());
    match o {
        ValidationOutcome::Accepted(ev) => {
            assert_eq!(ev.event_type, "claim_created");
            assert_eq!(ev.round_id.0, "r1");
            assert_eq!(ev.group_id, "g1");
            assert_eq!(ev.raw_message_id.as_deref(), Some("m1"));
            assert_eq!(ev.effective_at_ms, 1_000);
            assert_eq!(ev.sequence, 7);
            assert_eq!(ev.status, EventStatus::Active);
            assert_eq!(ev.event_id.0, "11111111-1111-4111-9111-111111111111");
            match ev.payload {
                DomainEvent::ClaimCreated(c) => {
                    assert_eq!(c.claim_id.0, "22222222-2222-4222-a222-222222222222");
                    assert_eq!(c.items.len(), 1);
                    assert_eq!(c.items[0].item_id.0, "pass_sp");
                    assert_eq!(c.items[0].quantity, 2);
                    assert_eq!(c.items[0].claim_type, ClaimType::Split);
                    assert_eq!(c.items[0].slot_policy, SlotPolicy::TailLocked);
                    assert!(!c.items[0].is_proxy_card);
                    assert_eq!(c.source_text, "结城理");
                }
                _ => panic!("expected a claim"),
            }
        }
        _ => panic!("expected an event"),
    }
}

#[test]
fn unknown_item_is_rejected() {
    // Without a claim type no variant earns the type bonus, so nothing matches.
    let mut unknown = line("悠人");
    unknown.claim_type = None;
    let o = run(message(ParsedIntent::Claim, vec![unknown], 95), &rounds());
    assert_eq!(text_of(&o).as_deref(), Some("无法识别商品：悠人"));
}

#[test]
fn cancel_targets_hinted_round_and_item() {
    let mut msg = message(ParsedIntent::Cancel, vec![line("通行证")], 95);
    msg.round_hint = Some("五月".to_string());
    msg.cancel_target_hint = Some("撤 通行证".to_string());
    match run(msg, &rounds()) {
        ValidationOutcome::Accepted(ev) => {
            assert_eq!(ev.event_type, "claim_cancelled");
            assert_eq!(ev.round_id.0, "r1");
            match ev.payload {
                DomainEvent::ClaimCancelled(c) => {
                    assert_eq!(c.target_item_id.map(|i| i.0).as_deref(), Some("pass_sp"));
                    assert_eq!(c.quantity, Some(2));
                    assert_eq!(c.reason.as_deref(), Some("撤 通行证"));
                }
                _ => panic!("expected a cancellation"),
            }
        }
        _ => panic!("expected an event"),
    }
    let o = run(message(ParsedIntent::Cancel, vec![], 95), &[]);
    assert_eq!(text_of(&o).as_deref(), Some("没有活跃的团可撤销。"));
}

#[test]
fn admin_and_unknown_intents() {
    let o = run(message(ParsedIntent::AdminCommand, vec![], 95), &rounds());
    assert_eq!(text_of(&o).as_deref(), Some("管理员命令请使用斜杠命令格式。"));
    assert!(matches!(run(message(ParsedIntent::Unknown, vec![], 95), &rounds()), ValidationOutcome::Ignore));
}

fn config_with_phase(phase: RoundPhase) -> AppConfig {
    AppConfig {
        revision: 0,
        gateway: GatewayConfig {
            bind: String::new(),
            whitelist_groups: vec![],
            whitelist_members: vec![],
            heartbeat_secs: 30,
            reply_enabled: false,
            allowed_actions: vec![],
            admin_commands_enabled: false,
        },
        llm: LlmSettings {
            enabled: false,
            base_url: String::new(),
            model: String::new(),
            api_key_env: String::new(),
            timeout_secs: 10,
            max_tokens: 256,
            temperature_milli: 0,
            fallback_to_rules: true,
            prompt_template: String::new(),
        },
        round: RoundSettings {
            round_id: "r".to_string(),
            title: "t".to_string(),
            group_id: "g".to_string(),
            priority_users: vec![],
            priority_window: None,
            phases: vec![PhaseWindow { phase, start_ms: 0, end_ms: i64::MAX }],
            items: vec![ItemConfig {
                item_id: "pass_sp".to_string(),
                name: "通行认证SP".to_string(),
                kind: "拼团".to_string(),
                class: Some("A".to_string()),
                aliases: vec![],
                unit_price_cents: 0,
                max_quantity: None,
                variants: vec![VariantConfig {
                    variant_id: "v".to_string(),
                    name: "甲".to_string(),
                    unit_price_cents: 100,
                    adjust_cents: 0,
                    capacity: None,
                    aliases: vec![],
                }],
            }],
        },
        display: DisplaySettings { refresh_ms: 1000, data_source: String::new(), remote_base_url: String::new() },
        members: MembersSettings {
            group_id: String::new(),
            cache_path: String::new(),
            daily_pull_at: String::new(),
            cn_overrides: vec![],
        },
        settlement: SettlementConfig::empty(),
        active_round_id: None,
    }
}

fn cancelled_event(item_id: &str) -> EventEnvelope {
    EventEnvelope {
        event_id: EventId("e".to_string()),
        round_id: RoundId("r".to_string()),
        group_id: "g".to_string(),
        user_id: UserId("u".to_string()),
        raw_message_id: None,
        event_type: "claim_cancelled".to_string(),
        effective_at_ms: 0,
        sequence: 1,
        payload: DomainEvent::ClaimCancelled(ClaimCancelled {
            target_claim_id: None,
            target_item_id: Some(ItemId(item_id.to_string())),
            quantity: None,
            reason: None,
        }),
        status: EventStatus::Active,
    }
}

#[test]
fn phase_locked_rejects_any_operation() {
    let cfg = config_with_phase(RoundPhase::Locked);
    let phase = phase_at(&cfg.round.phases, 1).unwrap();
    assert_eq!(phase, RoundPhase::Locked);
    let event = cancelled_event("x");
    assert!(phase_rejection(&cfg, &event, phase, true).unwrap().contains("阶段"));
}

#[test]
fn phase_ii_class_a_requires_priority() {
    let cfg = config_with_phase(RoundPhase::PhaseII);
    assert_eq!(cfg.round.item_class("pass_sp"), ItemClass::A);
    let event = cancelled_event("pass_sp");
    let phase = RoundPhase::PhaseII;
    assert!(phase_rejection(&cfg, &event, phase, false).is_some());
    assert!(phase_rejection(&cfg, &event, phase, true).is_none());
    assert_eq!(
        phase_rejection(&cfg, &event, phase, false).as_deref(),
        Some("阶段越权：Phase II阶段不允许撤销该商品")
    );
}
