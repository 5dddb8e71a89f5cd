//! The decisions the message pipeline takes on each chat message: duplicate
//! detection, the sender's names, routing of slash commands, the choice
//! between the rule parser and the model, and the admission of a validated
//! event. The pipeline runs these in turn and does the outside work between
//! them (the model call, the board rebuild, the message log).
use vstd::prelude::*;

use crate::bus::IncomingEvent;
use crate::domain::event::{ClaimCancelled, DomainEvent, EventEnvelope, EventId, EventStatus};
use crate::domain::{ItemId, RoundContext, RoundId, UserId};
use crate::llm::{strip_prefix_chars, strip_prefixes};
use crate::parser::normalize::{clean_nickname, nickname_parts};
use crate::parser::parsed_event::{ParsedIntent, ParsedMessage, ResolveResult};
use crate::parser::policy::{phase_refusal, phase_rejection};
use crate::parser::reply::reply_text;
use crate::parser::validation::{validated, EventValidator, ValidationOutcome};
use crate::round::{first_phase, phase_at};
use crate::settings::{
    in_priority_window, in_window, is_priority_user, item_matches_config, priority_match,
    str_views, AppConfig,
};
use crate::text::{
    append_str, chars_of, int_text, is_whitespace, is_ws, owned, push_i64, str_eq, string_of,
    trim, trim_chars, views,
};

verus! {

/// Confidence (percent) from which the rule parser's reading is taken
/// without asking the model.
pub const RULE_CONFIDENCE_PCT: u32 = 90;

/// Confidence (percent) below which a parsed message is refused.
pub const CONFIDENCE_THRESHOLD_PCT: u32 = 65;

// ---------------------------------------------------------------------------
// Outcomes
// ---------------------------------------------------------------------------
/// A message decided without an event: its status, the detail logged, and
/// the reply to the chat (if any).
pub struct Finish {
    pub status: String,
    pub detail: String,
    pub reply: Option<String>,
}

/// The finish has this status, detail and reply.
pub open spec fn finished(f: Finish, status: Seq<char>, detail: Seq<char>, reply: Option<Seq<char>>) -> bool {
    f.status@ == status && f.detail@ == detail && crate::text::opt_view(f.reply) == reply
}

fn finish_with(status: &str, detail: &str, reply: Option<&str>) -> (r: Finish)
    ensures
        finished(
            r,
            status@,
            detail@,
            match reply {
                Some(t) => Some(t@),
                None => None,
            },
        ),
{
    Finish {
        status: owned(status),
        detail: owned(detail),
        reply: match reply {
            Some(t) => Some(owned(t)),
            None => None,
        },
    }
}

// ---------------------------------------------------------------------------
// Duplicates and names
// ---------------------------------------------------------------------------
/// The key under which a message is remembered: group and message id.
pub open spec fn message_key(group_id: Seq<char>, message_id: Seq<char>) -> Seq<char> {
    group_id + "::"@ + message_id
}

/// Remembers the message's key among those seen; `false` when it was seen
/// before (then nothing changes).
pub fn note_message(seen: &mut Vec<String>, ev: &IncomingEvent) -> (fresh: bool)
    ensures
        fresh == !views(old(seen)@).contains(message_key(ev.group_id@, ev.message_id@)),
        views(final(seen)@) == if fresh {
            views(old(seen)@).push(message_key(ev.group_id@, ev.message_id@))
        } else {
            views(old(seen)@)
        },
{
    let mut k = chars_of(ev.group_id.as_str());
    append_str(&mut k, "::");
    append_str(&mut k, ev.message_id.as_str());
    let key = string_of(&k);
    proof {
        reveal_strlit("::");
    }
    assert(key@ == message_key(ev.group_id@, ev.message_id@));
    let mut i: usize = 0;
    while i < seen.len()
        invariant
            i <= seen@.len(),
            seen@ == old(seen)@,
            key@ == message_key(ev.group_id@, ev.message_id@),
            forall|j: int| 0 <= j < i ==> seen@[j]@ != key@,
        decreases seen@.len() - i,
    {
        if str_eq(seen[i].as_str(), key.as_str()) {
            assert(views(seen@)[i as int] == key@);
            assert(views(seen@).contains(key@));
            return false;
        }
        i = i + 1;
    }
    assert(!views(seen@).contains(key@)) by {
        if views(seen@).contains(key@) {
            let j = choose|j: int| 0 <= j < views(seen@).len() && views(seen@)[j] == key@;
            assert(seen@[j]@ == key@);
        }
    }
    let ghost before = views(seen@);
    seen.push(key);
    assert(views(seen@) =~= before.push(message_key(ev.group_id@, ev.message_id@)));
    true
}

/// The finish of a message already seen.
pub fn duplicate_finish() -> (r: Finish)
    ensures
        finished(r, "Duplicate"@, "重复 message_id，已按幂等忽略"@, None),
{
    finish_with("Duplicate", "重复 message_id，已按幂等忽略", None)
}

/// The display name of a sender: the cleaned nickname, or the user id when
/// that is blank.
pub open spec fn display_of(ev: IncomingEvent) -> Seq<char> {
    let d = nickname_parts(ev.nickname@).1;
    if trim(d).len() == 0 {
        ev.user_id@
    } else {
        d
    }
}

/// The sender's `(identity, display)`: the identity of the cleaned
/// nickname, and its display form (the user id when blank).
pub fn sender_names(ev: &IncomingEvent) -> (r: (String, String))
    ensures
        r.0@ == nickname_parts(ev.nickname@).0,
        r.1@ == display_of(*ev),
{
    let (identity, display) = clean_nickname(ev.nickname.as_str());
    if crate::text::is_blank(display.as_str()) {
        (identity, ev.user_id.clone())
    } else {
        (identity, display)
    }
}

// ---------------------------------------------------------------------------
// Routing
// ---------------------------------------------------------------------------
/// Where a message goes.
pub enum Route {
    /// Decided here.
    Finished(Finish),
    /// An administrator command to run (the text after the slashes).
    AdminCommand(String),
    /// Text to parse (the trimmed message).
    Parse(String),
}

/// Routing: a blank message is ignored; a slash command from a member is
/// refused, one from an administrator is recorded only while commands are
/// switched off, and run otherwise; anything else is parsed.
pub open spec fn routed(cfg: AppConfig, ev: IncomingEvent, r: Route) -> bool {
    let text = trim(ev.text@);
    if text.len() == 0 {
        r matches Route::Finished(f) && finished(f, "Ignored"@, "空消息"@, None)
    } else if text[0] == '/' {
        if !ev.is_admin {
            r matches Route::Finished(f) && finished(
                f,
                "Rejected"@,
                "非管理员斜杠命令"@,
                Some("此命令仅管理员可用。"@),
            )
        } else if !cfg.gateway.admin_commands_enabled {
            r matches Route::Finished(f) && finished(
                f,
                "Applied"@,
                "管理员命令已记录（执行开关关闭）"@,
                Some("管理员命令已记录（执行开关关闭）"@),
            )
        } else {
            r matches Route::AdminCommand(c) && c@ == trim(strip_prefixes(text, "/"@))
        }
    } else {
        r matches Route::Parse(t) && t@ == text
    }
}

/// Routes a message (see `routed`).
pub fn route(cfg: &AppConfig, ev: &IncomingEvent) -> (r: Route)
    ensures
        routed(*cfg, *ev, r),
{
    let text = trim_chars(&chars_of(ev.text.as_str()));
    if text.len() == 0 {
        return Route::Finished(finish_with("Ignored", "空消息", None));
    }
    if text[0] == '/' {
        if !ev.is_admin {
            return Route::Finished(
                finish_with("Rejected", "非管理员斜杠命令", Some("此命令仅管理员可用。")),
            );
        }
        if !cfg.gateway.admin_commands_enabled {
            return Route::Finished(
                finish_with(
                    "Applied",
                    "管理员命令已记录（执行开关关闭）",
                    Some("管理员命令已记录（执行开关关闭）"),
                ),
            );
        }
        let slash = chars_of("/");
        let rest = strip_prefix_chars(text, &slash);
        let cmd = trim_chars(&rest);
        return Route::AdminCommand(string_of(&cmd));
    }
    Route::Parse(string_of(&text))
}

// ---------------------------------------------------------------------------
// Rule parser or model
// ---------------------------------------------------------------------------
/// Which reading of a message is used.
pub enum ParseChoice {
    /// The rule parser's reading.
    Rule,
    /// Ask the model.
    AskModel,
    /// No reading: the message is refused.
    Refused(Finish),
}

/// The choice: a confident rule reading of a known intent is used; else the
/// model is asked when enabled; else the rule reading is used when falling
/// back to rules is allowed; else the message is refused.
pub fn parse_choice(cfg: &AppConfig, rule: &ParsedMessage) -> (r: ParseChoice)
    ensures
        rule.confidence_pct >= RULE_CONFIDENCE_PCT && rule.intent != ParsedIntent::Unknown ==> r is Rule,
        !(rule.confidence_pct >= RULE_CONFIDENCE_PCT && rule.intent != ParsedIntent::Unknown) ==> {
            if cfg.llm.enabled {
                r is AskModel
            } else if cfg.llm.fallback_to_rules {
                r is Rule
            } else {
                r matches ParseChoice::Refused(f) && finished(
                    f,
                    "Rejected"@,
                    "LLM 未启用"@,
                    Some("没识别成功"@),
                )
            }
        },
{
    if rule.confidence_pct >= RULE_CONFIDENCE_PCT && rule.intent != ParsedIntent::Unknown {
        ParseChoice::Rule
    } else if cfg.llm.enabled {
        ParseChoice::AskModel
    } else if cfg.llm.fallback_to_rules {
        ParseChoice::Rule
    } else {
        ParseChoice::Refused(finish_with("Rejected", "LLM 未启用", Some("没识别成功")))
    }
}

/// When the model failed: fall back to the rule reading (`None`) when that
/// is allowed, else refuse the message.
pub fn after_model_failure(cfg: &AppConfig) -> (r: Option<Finish>)
    ensures
        cfg.llm.fallback_to_rules ==> r is None,
        !cfg.llm.fallback_to_rules ==> (r matches Some(f) && finished(
            f,
            "Rejected"@,
            "没识别成功"@,
            Some("没识别成功"@),
        )),
{
    if cfg.llm.fallback_to_rules {
        None
    } else {
        Some(finish_with("Rejected", "没识别成功", Some("没识别成功")))
    }
}

// ---------------------------------------------------------------------------
// Admission
// ---------------------------------------------------------------------------
/// What becomes of a parsed message.
pub enum Admission {
    /// Decided without an event.
    Finished(Finish),
    /// The event to apply; a modification first cancels the member's earlier
    /// claims of the same items; a priority member gets an eligibility.
    Apply { event: EventEnvelope, is_modify: bool, is_priority: bool },
}

/// The catalogue context of the configured round.
pub open spec fn round_context(cfg: AppConfig, ctx: RoundContext) -> bool {
    &&& ctx.round_id.0@ == cfg.round.round_id@
    &&& ctx.title@ == cfg.round.title@
    &&& ctx.items@.len() == cfg.round.items@.len()
    &&& forall|i: int|
        0 <= i < ctx.items@.len() ==> item_matches_config(
            #[trigger] ctx.items@[i],
            cfg.round.items@[i],
            cfg.round.round_id@,
            i,
        )
}

/// The message read as a claim when it modifies one (a modification
/// re-claims with the new quantities).
pub open spec fn as_claim(p: ParsedMessage) -> ParsedMessage {
    if p.intent == ParsedIntent::Modify {
        ParsedMessage { intent: ParsedIntent::Claim, ..p }
    } else {
        p
    }
}

/// The configured priority window as `(start, end)`.
pub open spec fn window_of(cfg: AppConfig) -> Option<(i64, i64)> {
    match cfg.round.priority_window {
        Some(w) => Some((w.start_ms, w.end_ms)),
        None => None,
    }
}

/// The sender is a priority member (by user id, nickname, identity or display).
pub open spec fn sender_priority(cfg: AppConfig, ev: IncomingEvent, identity: Seq<char>, display: Seq<char>) -> bool {
    priority_match(
        views(cfg.round.priority_users@),
        seq![ev.user_id@, ev.nickname@, identity, display],
    )
}

/// The gates a validated event passes: inside the priority window only
/// priority members; the phase rules of the phase the message falls in;
/// nothing while the pipeline is locked.
pub open spec fn gated(
    cfg: AppConfig,
    event: EventEnvelope,
    ev: IncomingEvent,
    identity: Seq<char>,
    display: Seq<char>,
    locked: bool,
    is_modify: bool,
    r: Admission,
) -> bool {
    let is_priority = sender_priority(cfg, ev, identity, display);
    let phase = first_phase(cfg.round.phases@, ev.timestamp_ms);
    if in_window(window_of(cfg), ev.timestamp_ms) && !is_priority {
        r matches Admission::Finished(f) && finished(
            f,
            "Rejected"@,
            "优先时段仅限预存(购物金)用户"@,
            Some("优先时段仅限预存(购物金)用户，请求已拒绝"@),
        )
    } else if cfg.round.phases@.len() > 0 && phase is Some && phase_refusal(
        cfg,
        event,
        phase->0,
        is_priority,
    ) is Some {
        r matches Admission::Finished(f) && finished(
            f,
            "Rejected"@,
            phase_refusal(cfg, event, phase->0, is_priority)->0,
            Some(phase_refusal(cfg, event, phase->0, is_priority)->0),
        )
    } else if locked {
        r matches Admission::Finished(f) && finished(
            f,
            "Rejected"@,
            "已锁定，不再接受排/撤/改"@,
            Some("已锁定，不再接受排/撤/改"@),
        )
    } else {
        r matches Admission::Apply { event: e, is_modify: m, is_priority: p } && e == event && m
            == is_modify && p == is_priority
    }
}

/// Admission of a parsed message: a claim without lines or doubts is
/// ignored; otherwise the message is validated against the configured round
/// (threshold 65%) and a refusal, a question or an ignored intent finishes
/// it, while an event goes through the gates.
pub open spec fn admitted(
    cfg: AppConfig,
    parsed: ParsedMessage,
    ev: IncomingEvent,
    identity: Seq<char>,
    display: Seq<char>,
    seq: i64,
    now_ms: i64,
    locked: bool,
    r: Admission,
) -> bool {
    let p = as_claim(parsed);
    if p.intent == ParsedIntent::Claim && p.items@.len() == 0 && p.ambiguous_parts@.len() == 0 {
        r matches Admission::Finished(f) && finished(f, "Ignored"@, "未解析出商品"@, None)
    } else {
        exists|ctx: RoundContext, u: UserId, res: Seq<ResolveResult>, out: ValidationOutcome|
            #![trigger validated(CONFIDENCE_THRESHOLD_PCT, p, u, ev.group_id@, Some(ev.message_id@), seq![ctx], now_ms, seq, res, out)]
            round_context(cfg, ctx) && u.0@ == ev.user_id@ && validated(
                CONFIDENCE_THRESHOLD_PCT,
                p,
                u,
                ev.group_id@,
                Some(ev.message_id@),
                seq![ctx],
                now_ms,
                seq,
                res,
                out,
            ) && match out {
                ValidationOutcome::Accepted(event) => gated(
                    cfg,
                    event,
                    ev,
                    identity,
                    display,
                    locked,
                    parsed.intent == ParsedIntent::Modify,
                    r,
                ),
                ValidationOutcome::NeedConfirm(reply) => r matches Admission::Finished(f) && finished(
                    f,
                    "NeedConfirm"@,
                    "需要确认"@,
                    reply_text(reply),
                ),
                ValidationOutcome::Reject(reply) => r matches Admission::Finished(f) && finished(
                    f,
                    "Rejected"@,
                    "校验拒绝"@,
                    reply_text(reply),
                ),
                ValidationOutcome::Ignore => r matches Admission::Finished(f) && finished(
                    f,
                    "Ignored"@,
                    "无法识别为排谷/撤销意图"@,
                    None,
                ),
            }
    }
}

/// While claims are locked, no message is applied.
pub proof fn locked_pipeline_applies_nothing(
    cfg: AppConfig,
    parsed: ParsedMessage,
    ev: IncomingEvent,
    identity: Seq<char>,
    display: Seq<char>,
    seq: i64,
    now_ms: i64,
    r: Admission,
)
    requires
        admitted(cfg, parsed, ev, identity, display, seq, now_ms, true, r),
    ensures
        r is Finished,
{
}

/// Inside the priority window, a message from a sender who is not a
/// priority member is never applied.
pub proof fn priority_window_keeps_out_others(
    cfg: AppConfig,
    parsed: ParsedMessage,
    ev: IncomingEvent,
    identity: Seq<char>,
    display: Seq<char>,
    seq: i64,
    now_ms: i64,
    locked: bool,
    r: Admission,
)
    requires
        admitted(cfg, parsed, ev, identity, display, seq, now_ms, locked, r),
        in_window(window_of(cfg), ev.timestamp_ms),
        !sender_priority(cfg, ev, identity, display),
    ensures
        r is Finished,
{
}

/// The text of an optional reply, as an owned string.
fn reply_string(t: Option<&str>) -> (r: Option<String>)
    ensures
        crate::text::opt_view(r) == match t {
            Some(s) => Some(s@),
            None => None::<Seq<char>>,
        },
{
    match t {
        Some(s) => Some(owned(s)),
        None => None,
    }
}

/// Admission of a parsed message (see `admitted`). `identity` and `display` are
/// the sender's names, `seq` the message's number in the pipeline, `now_ms`
/// the event time, `locked` whether claims are locked; the event and claim
/// ids are the random UUIDs made from `id_bytes` and `claim_bytes`.
pub fn admit_parsed(
    cfg: &AppConfig,
    parsed: ParsedMessage,
    ev: &IncomingEvent,
    identity: &str,
    display: &str,
    seq: i64,
    now_ms: i64,
    locked: bool,
    id_bytes: [u8; 16],
    claim_bytes: [u8; 16],
) -> (r: Admission)
    ensures
        admitted(*cfg, parsed, *ev, identity@, display@, seq, now_ms, locked, r),
        r matches Admission::Apply { event, .. } ==> event.event_id.0@ == crate::domain::uuid_v4_text(
            id_bytes@,
        ) && (event.payload matches DomainEvent::ClaimCreated(c) ==> c.claim_id.0@
            == crate::domain::uuid_v4_text(claim_bytes@)),
{
    let is_modify = parsed.intent == ParsedIntent::Modify;
    let ghost given = parsed;
    let mut parsed = parsed;
    if is_modify {
        parsed.intent = ParsedIntent::Claim;
    }
    assert(parsed == as_claim(given));
    if parsed.intent == ParsedIntent::Claim && parsed.items.len() == 0 && parsed.ambiguous_parts.len()
        == 0 {
        return Admission::Finished(finish_with("Ignored", "未解析出商品", None));
    }
    let items = cfg.round.to_items();
    let ctx = RoundContext {
        round_id: RoundId(cfg.round.round_id.clone()),
        title: cfg.round.title.clone(),
        items,
    };
    let mut ctxs: Vec<RoundContext> = Vec::new();
    ctxs.push(ctx);
    let user_id = UserId(ev.user_id.clone());
    let validator = EventValidator::new(CONFIDENCE_THRESHOLD_PCT);
    let out = validator.validate(
        parsed,
        &user_id,
        ev.group_id.as_str(),
        Some(ev.message_id.clone()),
        ctxs.as_slice(),
        now_ms,
        seq,
        id_bytes,
        claim_bytes,
    );
    let ghost ctx_v = ctxs@[0];
    assert(ctxs@ =~= seq![ctx_v]);
    let ghost res = choose|res: Seq<ResolveResult>|
        validated(
            CONFIDENCE_THRESHOLD_PCT,
            as_claim(given),
            user_id,
            ev.group_id@,
            Some(ev.message_id@),
            seq![ctx_v],
            now_ms,
            seq,
            res,
            out,
        );
    let r = match out {
        ValidationOutcome::Accepted(event) => gate(cfg, event, ev, identity, display, locked, is_modify),
        ValidationOutcome::NeedConfirm(reply) => {
            let text = reply_string(reply.text_content());
            Admission::Finished(Finish { status: owned("NeedConfirm"), detail: owned("需要确认"), reply: text })
        },
        ValidationOutcome::Reject(reply) => {
            let text = reply_string(reply.text_content());
            Admission::Finished(Finish { status: owned("Rejected"), detail: owned("校验拒绝"), reply: text })
        },
        ValidationOutcome::Ignore => Admission::Finished(
            finish_with("Ignored", "无法识别为排谷/撤销意图", None),
        ),
    };
    assert(round_context(*cfg, ctx_v));
    r
}

/// The gates of a validated event (see `gated`).
fn gate(
    cfg: &AppConfig,
    event: EventEnvelope,
    ev: &IncomingEvent,
    identity: &str,
    display: &str,
    locked: bool,
    is_modify: bool,
) -> (r: Admission)
    ensures
        gated(*cfg, event, *ev, identity@, display@, locked, is_modify, r),
{
    let candidates: [&str; 4] = [ev.user_id.as_str(), ev.nickname.as_str(), identity, display];
    let is_priority = is_priority_user(cfg.round.priority_users.as_slice(), candidates.as_slice());
    assert(str_views(candidates@) =~= seq![ev.user_id@, ev.nickname@, identity@, display@]);
    let window = match &cfg.round.priority_window {
        Some(w) => Some((w.start_ms, w.end_ms)),
        None => None,
    };
    if in_priority_window(window, ev.timestamp_ms) && !is_priority {
        return Admission::Finished(
            finish_with(
                "Rejected",
                "优先时段仅限预存(购物金)用户",
                Some("优先时段仅限预存(购物金)用户，请求已拒绝"),
            ),
        );
    }
    if cfg.round.phases.len() > 0 {
        if let Some(phase) = phase_at(cfg.round.phases.as_slice(), ev.timestamp_ms) {
            if let Some(detail) = phase_rejection(cfg, &event, phase, is_priority) {
                let reply = detail.clone();
                return Admission::Finished(Finish { status: owned("Rejected"), detail, reply: Some(reply) });
            }
        }
    }
    if locked {
        return Admission::Finished(
            finish_with(
                "Rejected",
                "已锁定，不再接受排/撤/改",
                Some("已锁定，不再接受排/撤/改"),
            ),
        );
    }
    Admission::Apply { event, is_modify, is_priority }
}

// ---------------------------------------------------------------------------
// Applying
// ---------------------------------------------------------------------------
/// The cancellation a modification puts before its new claim: the member's
/// earlier claim of `item_id` in the round, cancelled for "改单", at the same
/// time and sequence as the message, its event id the random UUID made from
/// `id_bytes`.
pub fn cancel_for_modify(
    round_id: &RoundId,
    ev: &IncomingEvent,
    seq: i64,
    now_ms: i64,
    item_id: ItemId,
    id_bytes: [u8; 16],
) -> (r: EventEnvelope)
    ensures
        r.event_id.0@ == crate::domain::uuid_v4_text(id_bytes@),
        r.round_id.0@ == round_id.0@,
        r.group_id@ == ev.group_id@,
        r.user_id.0@ == ev.user_id@,
        crate::text::opt_view(r.raw_message_id) == Some(ev.message_id@),
        r.event_type@ == "claim_cancelled"@,
        r.effective_at_ms == now_ms,
        r.sequence == seq,
        r.payload matches DomainEvent::ClaimCancelled(c) && c.target_claim_id is None
            && c.target_item_id == Some(item_id) && c.quantity is None
            && crate::text::opt_view(c.reason) == Some("改单"@),
        r.status == EventStatus::Active,
{
    EventEnvelope {
        event_id: EventId(crate::domain::uuid_from_random(id_bytes)),
        round_id: RoundId(round_id.0.clone()),
        group_id: ev.group_id.clone(),
        user_id: UserId(ev.user_id.clone()),
        raw_message_id: Some(ev.message_id.clone()),
        event_type: owned("claim_cancelled"),
        effective_at_ms: now_ms,
        sequence: seq,
        payload: DomainEvent::ClaimCancelled(
            ClaimCancelled {
                target_claim_id: None,
                target_item_id: Some(item_id),
                quantity: None,
                reason: Some(owned("改单")),
            },
        ),
        status: EventStatus::Active,
    }
}

/// The reply to an applied message: `已记录，当前版本 #<version>`.
pub fn applied_reply(version: i64) -> (r: String)
    ensures
        r@ == "已记录，当前版本 #"@ + int_text(version as int),
{
    let mut m = chars_of("已记录，当前版本 #");
    push_i64(&mut m, version);
    string_of(&m)
}

/// The detail logged for an applied event: its description, marked `改单：`
/// for a modification.
pub fn applied_detail(description: &str, is_modify: bool) -> (r: String)
    ensures
        r@ == if is_modify {
            "改单："@ + description@
        } else {
            description@
        },
{
    if is_modify {
        let mut m = chars_of("改单：");
        append_str(&mut m, description);
        string_of(&m)
    } else {
        owned(description)
    }
}

// ---------------------------------------------------------------------------
// Administrator commands
// ---------------------------------------------------------------------------
/// An administrator command, by its first word.
pub enum AdminAction {
    /// `开团`, `解锁`, `open`, `unlock`: accept claims again.
    Open,
    /// `锁位`, `锁定`, `结团`, `结束`, `lock`, `close`: stop accepting claims.
    Lock,
    /// `状态`, `status`: report the version and the lock.
    Status,
    /// `导出`, `export`: export a snapshot.
    Export,
    /// Any other word.
    Unsupported(String),
}

/// The first whitespace-separated word of `s` (empty when there is none).
pub open spec fn first_word(s: Seq<char>) -> Seq<char>
    decreases s.len(),
{
    if s.len() == 0 {
        Seq::empty()
    } else if is_ws(s[0]) {
        first_word(s.drop_first())
    } else {
        word_at(s)
    }
}

/// The characters of `s` up to its first whitespace.
pub open spec fn word_at(s: Seq<char>) -> Seq<char>
    decreases s.len(),
{
    if s.len() == 0 || is_ws(s[0]) {
        Seq::empty()
    } else {
        seq![s[0]] + word_at(s.drop_first())
    }
}

/// The action a command word names.
pub open spec fn action_named(w: Seq<char>, a: AdminAction) -> bool {
    if w == "开团"@ || w == "解锁"@ || w == "open"@ || w == "unlock"@ {
        a is Open
    } else if w == "锁位"@ || w == "锁定"@ || w == "结团"@ || w == "结束"@ || w == "lock"@ || w
        == "close"@ {
        a is Lock
    } else if w == "状态"@ || w == "status"@ {
        a is Status
    } else if w == "导出"@ || w == "export"@ {
        a is Export
    } else {
        a matches AdminAction::Unsupported(o) && o@ == w
    }
}

/// The words `开团`, `解锁`, `open` and `unlock` open the round again; `锁位`,
/// `锁定`, `结团`, `结束`, `lock` and `close` lock it; `状态` and `status` ask
/// for the status; `导出` and `export` export; any other word is
/// unsupported and named in the answer.
pub proof fn command_words_name_their_action(w: Seq<char>, a: AdminAction)
    requires
        action_named(w, a),
    ensures
        w == "开团"@ || w == "解锁"@ || w == "open"@ || w == "unlock"@ ==> a is Open,
        w == "锁位"@ || w == "锁定"@ || w == "结团"@ || w == "结束"@ || w == "lock"@ || w == "close"@
            ==> a is Lock,
        w == "状态"@ || w == "status"@ ==> a is Status,
        w == "导出"@ || w == "export"@ ==> a is Export,
        a is Unsupported ==> a->Unsupported_0@ == w,
{
    reveal_strlit("开团");
    reveal_strlit("解锁");
    reveal_strlit("open");
    reveal_strlit("unlock");
    reveal_strlit("锁位");
    reveal_strlit("锁定");
    reveal_strlit("结团");
    reveal_strlit("结束");
    reveal_strlit("lock");
    reveal_strlit("close");
    reveal_strlit("状态");
    reveal_strlit("status");
    reveal_strlit("导出");
    reveal_strlit("export");
    assert("锁位"@[0] != "开团"@[0]);
    assert("锁位"@[0] != "解锁"@[0]);
    assert("锁位"@.len() != "open"@.len());
    assert("锁位"@.len() != "unlock"@.len());
    assert("锁定"@[0] != "开团"@[0]);
    assert("锁定"@[0] != "解锁"@[0]);
    assert("锁定"@.len() != "open"@.len());
    assert("锁定"@.len() != "unlock"@.len());
    assert("结团"@[0] != "开团"@[0]);
    assert("结团"@[0] != "解锁"@[0]);
    assert("结团"@.len() != "open"@.len());
    assert("结团"@.len() != "unlock"@.len());
    assert("结束"@[0] != "开团"@[0]);
    assert("结束"@[0] != "解锁"@[0]);
    assert("结束"@.len() != "open"@.len());
    assert("结束"@.len() != "unlock"@.len());
    assert("lock"@.len() != "开团"@.len());
    assert("lock"@.len() != "解锁"@.len());
    assert("lock"@[0] != "open"@[0]);
    assert("lock"@.len() != "unlock"@.len());
    assert("close"@.len() != "开团"@.len());
    assert("close"@.len() != "解锁"@.len());
    assert("close"@.len() != "open"@.len());
    assert("close"@.len() != "unlock"@.len());
    assert("状态"@[0] != "开团"@[0]);
    assert("状态"@[0] != "解锁"@[0]);
    assert("状态"@.len() != "open"@.len());
    assert("状态"@.len() != "unlock"@.len());
    assert("状态"@[0] != "锁位"@[0]);
    assert("状态"@[0] != "锁定"@[0]);
    assert("状态"@[0] != "结团"@[0]);
    assert("状态"@[0] != "结束"@[0]);
    assert("状态"@.len() != "lock"@.len());
    assert("状态"@.len() != "close"@.len());
    assert("status"@.len() != "开团"@.len());
    assert("status"@.len() != "解锁"@.len());
    assert("status"@.len() != "open"@.len());
    assert("status"@[0] != "unlock"@[0]);
    assert("status"@.len() != "锁位"@.len());
    assert("status"@.len() != "锁定"@.len());
    assert("status"@.len() != "结团"@.len());
    assert("status"@.len() != "结束"@.len());
    assert("status"@.len() != "lock"@.len());
    assert("status"@.len() != "close"@.len());
    assert("导出"@[0] != "开团"@[0]);
    assert("导出"@[0] != "解锁"@[0]);
    assert("导出"@.len() != "open"@.len());
    assert("导出"@.len() != "unlock"@.len());
    assert("导出"@[0] != "锁位"@[0]);
    assert("导出"@[0] != "锁定"@[0]);
    assert("导出"@[0] != "结团"@[0]);
    assert("导出"@[0] != "结束"@[0]);
    assert("导出"@.len() != "lock"@.len());
    assert("导出"@.len() != "close"@.len());
    assert("导出"@[0] != "状态"@[0]);
    assert("导出"@.len() != "status"@.len());
    assert("export"@.len() != "开团"@.len());
    assert("export"@.len() != "解锁"@.len());
    assert("export"@.len() != "open"@.len());
    assert("export"@[0] != "unlock"@[0]);
    assert("export"@.len() != "锁位"@.len());
    assert("export"@.len() != "锁定"@.len());
    assert("export"@.len() != "结团"@.len());
    assert("export"@.len() != "结束"@.len());
    assert("export"@.len() != "lock"@.len());
    assert("export"@.len() != "close"@.len());
    assert("export"@.len() != "状态"@.len());
    assert("export"@[0] != "status"@[0]);
}

proof fn lemma_word_at(s: Seq<char>, i: int)
    requires
        0 <= i <= s.len(),
        forall|j: int| 0 <= j < i ==> !is_ws(#[trigger] s[j]),
        i == s.len() || is_ws(s[i]),
    ensures
        word_at(s) == s.take(i),
    decreases i,
{
    if i > 0 {
        lemma_word_at(s.drop_first(), i - 1);
        assert(seq![s[0]] + s.drop_first().take(i - 1) =~= s.take(i));
    } else {
        assert(s.take(0) =~= Seq::<char>::empty());
    }
}

proof fn lemma_first_word(s: Seq<char>, a: int)
    requires
        0 <= a <= s.len(),
        forall|j: int| 0 <= j < a ==> is_ws(#[trigger] s[j]),
    ensures
        first_word(s) == first_word(s.skip(a)),
    decreases a,
{
    if a > 0 {
        lemma_first_word(s.drop_first(), a - 1);
        assert(s.drop_first().skip(a - 1) =~= s.skip(a));
    } else {
        assert(s.skip(0) =~= s);
    }
}

/// The action of an administrator command: its first word.
pub fn admin_action(cmd: &str) -> (r: AdminAction)
    ensures
        action_named(first_word(cmd@), r),
{
    let s = chars_of(cmd);
    let mut a: usize = 0;
    while a < s.len() && is_whitespace(s[a])
        invariant
            a <= s@.len(),
            forall|j: int| 0 <= j < a ==> is_ws(#[trigger] s@[j]),
        decreases s@.len() - a,
    {
        a = a + 1;
    }
    let mut b: usize = a;
    while b < s.len() && !is_whitespace(s[b])
        invariant
            a <= b <= s@.len(),
            forall|j: int| a <= j < b ==> !is_ws(#[trigger] s@[j]),
        decreases s@.len() - b,
    {
        b = b + 1;
    }
    proof {
        lemma_first_word(s@, a as int);
        let t = s@.skip(a as int);
        assert forall|j: int| 0 <= j < b - a implies !is_ws(#[trigger] t[j]) by {
            assert(t[j] == s@[a + j]);
        }
        if b < s@.len() {
            assert(t[b - a] == s@[b as int]);
        }
        lemma_word_at(t, b - a);
        if a < s@.len() {
            assert(!is_ws(t[0]));
        }
        assert(t.take(b - a) =~= s@.subrange(a as int, b as int));
    }
    let w = string_of(&crate::text::slice_chars(&s, a, b));
    let wv = w.as_str();
    if str_eq(wv, "开团") || str_eq(wv, "解锁") || str_eq(wv, "open") || str_eq(wv, "unlock") {
        AdminAction::Open
    } else if str_eq(wv, "锁位") || str_eq(wv, "锁定") || str_eq(wv, "结团") || str_eq(wv, "结束")
        || str_eq(wv, "lock") || str_eq(wv, "close") {
        AdminAction::Lock
    } else if str_eq(wv, "状态") || str_eq(wv, "status") {
        AdminAction::Status
    } else if str_eq(wv, "导出") || str_eq(wv, "export") {
        AdminAction::Export
    } else {
        AdminAction::Unsupported(w)
    }
}

/// Runs an administrator command other than an export on the lock:
/// opening unlocks, locking locks, the status changes nothing; the finish
/// reports the version. An export is left to the caller (`None`).
pub fn run_admin_action(action: &AdminAction, locked: &mut bool, version: i64) -> (r: Option<Finish>)
    ensures
        match action {
            AdminAction::Open => !*final(locked) && (r matches Some(f) && finished(
                f,
                "Applied"@,
                "已开团（解锁）"@,
                Some("已开团（解锁），当前版本 #"@ + int_text(version as int)),
            )),
            AdminAction::Lock => *final(locked) && (r matches Some(f) && finished(
                f,
                "Applied"@,
                "已锁定"@,
                Some("已锁定，当前版本 #"@ + int_text(version as int)),
            )),
            AdminAction::Status => *final(locked) == *old(locked) && (r matches Some(f) && finished(
                f,
                "Applied"@,
                "状态"@,
                Some(
                    "版本 #"@ + int_text(version as int) + "，锁定="@ + if *old(locked) {
                        "true"@
                    } else {
                        "false"@
                    },
                ),
            )),
            AdminAction::Export => *final(locked) == *old(locked) && r is None,
            AdminAction::Unsupported(o) => *final(locked) == *old(locked) && (r matches Some(f)
                && finished(
                f,
                "Rejected"@,
                "未支持的管理员命令："@ + o@,
                Some("未支持的管理员命令："@ + o@),
            )),
        },
{
    match action {
        AdminAction::Open => {
            *locked = false;
            let mut m = chars_of("已开团（解锁），当前版本 #");
            push_i64(&mut m, version);
            Some(Finish { status: owned("Applied"), detail: owned("已开团（解锁）"), reply: Some(string_of(&m)) })
        },
        AdminAction::Lock => {
            *locked = true;
            let mut m = chars_of("已锁定，当前版本 #");
            push_i64(&mut m, version);
            Some(Finish { status: owned("Applied"), detail: owned("已锁定"), reply: Some(string_of(&m)) })
        },
        AdminAction::Status => {
            let mut m = chars_of("版本 #");
            push_i64(&mut m, version);
            append_str(&mut m, "，锁定=");
            append_str(
                &mut m,
                if *locked {
                    "true"
                } else {
                    "false"
                },
            );
            Some(Finish { status: owned("Applied"), detail: owned("状态"), reply: Some(string_of(&m)) })
        },
        AdminAction::Export => None,
        AdminAction::Unsupported(o) => {
            let mut m = chars_of("未支持的管理员命令：");
            append_str(&mut m, o.as_str());
            let text = string_of(&m);
            let reply = text.clone();
            Some(Finish { status: owned("Rejected"), detail: text, reply: Some(reply) })
        },
    }
}

} // verus!
