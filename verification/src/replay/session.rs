//! Replay sessions: the conditions a replay may override, the per-message
//! views and outcomes, and the difference between the baseline board and
//! the replayed one.
use vstd::prelude::*;

use crate::domain::event::{ClaimCancelled, DomainEvent, EventEnvelope, EventId, EventStatus};
use crate::domain::{AllocationSnapshot, ClaimId, Item, ItemId, RoundContext, RoundId, UserId};
use crate::llm::pipeline::{as_claim, window_of};
use crate::messages::MessageRecord;
use crate::parser::normalize::{clean_nickname, nickname_parts};
use crate::parser::parsed_event::{ParsedIntent, ParsedMessage, ResolveResult};
use crate::parser::policy::{phase_refusal, phase_rejection};
use crate::parser::reply::reply_text;
use crate::parser::rule_parser::{rule_parse, RuleParser};
use crate::parser::validation::{validated, EventValidator, ValidationOutcome};
use crate::replay::state_diff::{diff_of, sums_fit, StateDiff};
use crate::round::{first_phase, phase_at, PhaseWindow};
use crate::settings::{
    in_priority_window, in_window, is_priority_user, priority_match, str_views, AppConfig,
    ItemConfig,
};
use crate::settlement::SettlementConfig;
use crate::text::{
    append_str, ascii_lower, chars_eq, chars_of, dec_text, int_text, is_blank, lower_ascii, opt_view, owned,
    push_i64, push_u64, string_of, trim, trim_chars, views,
};

verus! {

/// Conditions a replay may override; `None` keeps the base configuration's.
pub struct ReplayOverrides {
    pub priority_users: Option<Vec<String>>,
    pub phases: Option<Vec<PhaseWindow>>,
    pub items: Option<Vec<ItemConfig>>,
    pub whitelist_members: Option<Vec<String>>,
    pub settlement: Option<SettlementConfig>,
}

/// The configuration a replay runs under: `base` with the member
/// priority list, phase windows, catalogue items and member whitelist
/// replaced by those the overrides give (a settlement override is not
/// applied here). The caller keeps its own copy of the base.
pub fn apply_overrides(base: AppConfig, overrides: ReplayOverrides) -> (r: AppConfig)
    ensures
        r.revision == base.revision,
        r.llm == base.llm,
        r.display == base.display,
        r.members == base.members,
        r.settlement == base.settlement,
        r.active_round_id == base.active_round_id,
        r.round.round_id == base.round.round_id,
        r.round.title == base.round.title,
        r.round.group_id == base.round.group_id,
        r.round.priority_window == base.round.priority_window,
        r.round.priority_users == match overrides.priority_users {
            Some(v) => v,
            None => base.round.priority_users,
        },
        r.round.phases == match overrides.phases {
            Some(v) => v,
            None => base.round.phases,
        },
        r.round.items == match overrides.items {
            Some(v) => v,
            None => base.round.items,
        },
        r.gateway.whitelist_members == match overrides.whitelist_members {
            Some(v) => v,
            None => base.gateway.whitelist_members,
        },
        r.gateway.bind == base.gateway.bind,
        r.gateway.whitelist_groups == base.gateway.whitelist_groups,
        r.gateway.heartbeat_secs == base.gateway.heartbeat_secs,
        r.gateway.reply_enabled == base.gateway.reply_enabled,
        r.gateway.allowed_actions == base.gateway.allowed_actions,
        r.gateway.admin_commands_enabled == base.gateway.admin_commands_enabled,
        overrides.priority_users is None && overrides.phases is None && overrides.items is None
            && overrides.whitelist_members is None ==> r == base,
{
    let mut cfg = base;
    let ReplayOverrides { priority_users, phases, items, whitelist_members, settlement: _ } = overrides;
    if let Some(v) = priority_users {
        cfg.round.priority_users = v;
    }
    if let Some(v) = phases {
        cfg.round.phases = v;
    }
    if let Some(v) = items {
        cfg.round.items = v;
    }
    if let Some(v) = whitelist_members {
        cfg.gateway.whitelist_members = v;
    }
    cfg
}

impl ReplayOverrides {
    /// Nothing is overridden.
    pub fn is_empty(&self) -> (r: bool)
        ensures
            r == (self.priority_users is None && self.phases is None && self.items is None
                && self.whitelist_members is None && self.settlement is None),
    {
        self.priority_users.is_none() && self.phases.is_none() && self.items.is_none()
            && self.whitelist_members.is_none() && self.settlement.is_none()
    }
}

/// A replayed message as listed.
pub struct ReplayMessageView {
    pub seq: i64,
    pub group_id: String,
    pub user_id: String,
    pub nickname: String,
    pub text: String,
    pub timestamp_ms: i64,
    pub is_admin: bool,
    pub status: String,
    pub detail: String,
}

/// What replaying one message did.
pub struct ReplayOutcome {
    pub seq: i64,
    pub status: String,
    pub detail: String,
    pub applied: bool,
}

/// The difference between the baseline board and the replayed one.
pub struct ReplayDiff {
    pub base_version: i64,
    pub replay_version: i64,
    pub changed: bool,
    pub state: StateDiff,
}

impl ReplayDiff {
    /// Compares two boards: they differ when their versions differ or the
    /// state diff has any change.
    pub fn from_boards(before: &AllocationSnapshot, after: &AllocationSnapshot) -> (r: ReplayDiff)
        requires
            sums_fit(*before),
            sums_fit(*after),
        ensures
            diff_of(r.state, *before, *after),
            r.base_version == before.version,
            r.replay_version == after.version,
            r.changed == (before.version != after.version || r.state.slot_changes@.len() > 0
                || r.state.claim_changes@.len() > 0 || r.state.user_total_changes@.len() > 0
                || r.state.item_total_changes@.len() > 0 || r.state.settlement_changes@.len() > 0),
    {
        let state = StateDiff::from_snapshots(before, after);
        let changed = before.version != after.version || state.slot_changes.len() > 0
            || state.claim_changes.len() > 0 || state.user_total_changes.len() > 0
            || state.item_total_changes.len() > 0 || state.settlement_changes.len() > 0;
        ReplayDiff { base_version: before.version, replay_version: after.version, changed, state }
    }
}

// ---------------------------------------------------------------------------
// Replaying one logged message
// ---------------------------------------------------------------------------
/// What replaying a logged message gives: its status and detail, the events
/// it adds, whether it is a claim by a priority member, and whether it
/// modifies an earlier claim. An applied record's detail is the description
/// of its event (see `described`).
pub struct Processed {
    pub status: String,
    pub detail: String,
    pub events: Vec<EventEnvelope>,
    pub priority_claim: bool,
    pub is_modify: bool,
}

/// The record was not applied: this status and detail, no events.
pub open spec fn skipped_as(p: Processed, status: Seq<char>, detail: Seq<char>) -> bool {
    p.status@ == status && p.detail@ == detail && p.events@.len() == 0 && !p.priority_claim
        && !p.is_modify
}

fn skipped(status: &str, detail: String) -> (r: Processed)
    ensures
        skipped_as(r, status@, detail@),
{
    Processed { status: owned(status), detail, events: Vec::new(), priority_claim: false, is_modify: false }
}

/// `e` with ids derived from the record number: event `evt-<seq>`, and for
/// a claim the claim `claim-<seq>`; everything else as it was.
pub open spec fn stable_ids(e: EventEnvelope, seq: i64, r: EventEnvelope) -> bool {
    &&& r.event_id.0@ == "evt-"@ + int_text(seq as int)
    &&& r.round_id == e.round_id
    &&& r.group_id == e.group_id
    &&& r.user_id == e.user_id
    &&& r.raw_message_id == e.raw_message_id
    &&& r.event_type == e.event_type
    &&& r.effective_at_ms == e.effective_at_ms
    &&& r.sequence == e.sequence
    &&& r.status == e.status
    &&& match (e.payload, r.payload) {
        (DomainEvent::ClaimCreated(a), DomainEvent::ClaimCreated(b)) => b.claim_id.0@ == "claim-"@
            + int_text(seq as int) && b.user_id == a.user_id && b.items == a.items && b.source_text
            == a.source_text,
        (DomainEvent::ClaimCancelled(a), DomainEvent::ClaimCancelled(b)) => a == b,
        _ => false,
    }
}

/// Gives the event ids derived from the record number, so that replaying
/// the same log gives the same events (see `stable_ids`).
pub fn stabilize_event(event: &mut EventEnvelope, seq: i64)
    ensures
        stable_ids(*old(event), seq, *final(event)),
{
    let mut id = chars_of("evt-");
    push_i64(&mut id, seq);
    event.event_id = EventId(string_of(&id));
    match &mut event.payload {
        DomainEvent::ClaimCreated(c) => {
            let mut cid = chars_of("claim-");
            push_i64(&mut cid, seq);
            c.claim_id = ClaimId(string_of(&cid));
        },
        DomainEvent::ClaimCancelled(_) => {},
    }
}

/// The cancellation a replayed modification puts before its claim, for its
/// `index`-th line: event `evt-<seq>-cancel-<index>`, the member's claim of
/// `item_id` cancelled for "改单", at the record's time and number.
pub open spec fn replay_cancel(rec: MessageRecord, round_id: Seq<char>, now_ms: i64, item_id: ItemId, index: int, c: EventEnvelope) -> bool {
    &&& c.event_id.0@ == "evt-"@ + int_text(rec.seq as int) + "-cancel-"@ + dec_text(index as nat)
    &&& c.round_id.0@ == round_id
    &&& c.group_id@ == rec.group_id@
    &&& c.user_id.0@ == rec.user_id@
    &&& opt_view(c.raw_message_id) == Some(rec.message_id@)
    &&& c.event_type@ == "claim_cancelled"@
    &&& c.effective_at_ms == now_ms
    &&& c.sequence == rec.seq
    &&& c.payload matches DomainEvent::ClaimCancelled(x) && x.target_claim_id is None
        && x.target_item_id == Some(item_id) && x.quantity is None && opt_view(x.reason) == Some(
        "改单"@,
    )
    &&& c.status == EventStatus::Active
}

fn cancel_line(round_id: &String, rec: &MessageRecord, now_ms: i64, item_id: ItemId, index: usize) -> (r: EventEnvelope)
    ensures
        replay_cancel(*rec, round_id@, now_ms, item_id, index as int, r),
{
    let mut id = chars_of("evt-");
    push_i64(&mut id, rec.seq);
    crate::text::append_str(&mut id, "-cancel-");
    push_u64(&mut id, index as u64);
    EventEnvelope {
        event_id: EventId(string_of(&id)),
        round_id: RoundId(round_id.clone()),
        group_id: rec.group_id.clone(),
        user_id: UserId(rec.user_id.clone()),
        raw_message_id: Some(rec.message_id.clone()),
        event_type: owned("claim_cancelled"),
        effective_at_ms: now_ms,
        sequence: rec.seq,
        payload: DomainEvent::ClaimCancelled(
            ClaimCancelled {
                target_claim_id: None,
                target_item_id: Some(item_id),
                quantity: None,
                reason: Some(owned("改单")),
            },
        ),
        status: EventStatus::Active,
    }
}

/// The display name of a logged sender: the nickname, or the user id when blank.
pub open spec fn record_display(rec: MessageRecord) -> Seq<char> {
    if trim(rec.nickname@).len() == 0 {
        rec.user_id@
    } else {
        rec.nickname@
    }
}

/// The names a logged sender is matched by: user id, nickname, cleaned
/// identity and display name.
pub open spec fn record_names(rec: MessageRecord) -> Seq<Seq<char>> {
    seq![rec.user_id@, rec.nickname@, nickname_parts(rec.nickname@).0, record_display(rec)]
}

/// The lines a replayed modification cancels first: those of its claim.
pub open spec fn modified_lines(ev: EventEnvelope, is_modify: bool) -> Seq<crate::domain::event::ClaimLine> {
    match ev.payload {
        DomainEvent::ClaimCreated(c) => if is_modify {
            c.items@
        } else {
            Seq::empty()
        },
        _ => Seq::empty(),
    }
}

/// The gates of a replayed event: the priority window and the phase rules;
/// an event that passes is applied after the cancellations of a modification.
pub open spec fn replay_gated(cfg: AppConfig, ev: EventEnvelope, rec: MessageRecord, is_modify: bool, now_ms: i64, r: Processed) -> bool {
    let is_priority = priority_match(views(cfg.round.priority_users@), record_names(rec));
    let phase = first_phase(cfg.round.phases@, rec.timestamp_ms);
    if in_window(window_of(cfg), rec.timestamp_ms) && !is_priority {
        skipped_as(r, "Rejected"@, "优先时段仅限预存(购物金)用户"@)
    } else if cfg.round.phases@.len() > 0 && phase is Some && phase_refusal(cfg, ev, phase->0, is_priority) is Some {
        skipped_as(r, "Rejected"@, phase_refusal(cfg, ev, phase->0, is_priority)->0)
    } else {
        let lines = modified_lines(ev, is_modify);
        &&& r.status@ == "Applied"@
        &&& r.is_modify == is_modify
        &&& r.priority_claim == (is_priority && ev.payload is ClaimCreated)
        &&& r.events@.len() == lines.len() + 1
        &&& forall|i: int|
            0 <= i < lines.len() ==> replay_cancel(
                rec,
                cfg.round.round_id@,
                now_ms,
                lines[i].item_id,
                i,
                #[trigger] r.events@[i],
            )
        &&& r.events@[lines.len() as int] == ev
    }
}

/// Replaying a logged message: dropped records and members outside the
/// whitelist are dropped; blank text is ignored; slash commands are only
/// recorded (from an administrator) or refused; otherwise the rule parser's
/// reading (a modification read as a claim) is validated, and an event with
/// stable ids goes through the gates.
pub open spec fn replayed(
    cfg: AppConfig,
    rec: MessageRecord,
    items: Seq<Item>,
    ctxs: Seq<RoundContext>,
    threshold_pct: u32,
    now_ms: i64,
    r: Processed,
) -> bool {
    let text = trim(rec.text@);
    if ascii_lower(rec.routed@) == "drop"@ {
        skipped_as(r, "Dropped"@, "非白名单/Drop"@)
    } else if cfg.gateway.whitelist_members@.len() > 0 && !priority_match(
        views(cfg.gateway.whitelist_members@),
        record_names(rec),
    ) {
        skipped_as(r, "Dropped"@, "成员不在白名单"@)
    } else if text.len() == 0 {
        skipped_as(r, "Ignored"@, "空消息"@)
    } else if text[0] == '/' {
        if rec.is_admin {
            skipped_as(r, "Applied"@, "管理员命令已记录"@)
        } else {
            skipped_as(r, "Rejected"@, "非管理员斜杠命令"@)
        }
    } else {
        exists|parsed: ParsedMessage|
            #![trigger rule_parse(text, items, parsed)]
            rule_parse(text, items, parsed) && {
                let p = as_claim(parsed);
                if p.intent == ParsedIntent::Claim && p.items@.len() == 0 && p.ambiguous_parts@.len() == 0 {
                    skipped_as(r, "Ignored"@, "未解析出商品"@)
                } else {
                    exists|u: UserId, res: Seq<ResolveResult>, out: ValidationOutcome|
                        #![trigger validated(threshold_pct, p, u, rec.group_id@, Some(rec.message_id@), ctxs, now_ms, rec.seq, res, out)]
                        u.0@ == rec.user_id@ && validated(
                            threshold_pct,
                            p,
                            u,
                            rec.group_id@,
                            Some(rec.message_id@),
                            ctxs,
                            now_ms,
                            rec.seq,
                            res,
                            out,
                        ) && match out {
                            ValidationOutcome::Accepted(ev) => exists|sev: EventEnvelope|
                                #![trigger stable_ids(ev, rec.seq, sev)]
                                stable_ids(ev, rec.seq, sev) && replay_gated(
                                    cfg,
                                    sev,
                                    rec,
                                    parsed.intent == ParsedIntent::Modify,
                                    now_ms,
                                    r,
                                ),
                            ValidationOutcome::NeedConfirm(reply) => skipped_as(
                                r,
                                "NeedConfirm"@,
                                match reply_text(reply) {
                                    Some(t) => t,
                                    None => "需要确认"@,
                                },
                            ),
                            ValidationOutcome::Reject(reply) => skipped_as(
                                r,
                                "Rejected"@,
                                match reply_text(reply) {
                                    Some(t) => t,
                                    None => "校验拒绝"@,
                                },
                            ),
                            ValidationOutcome::Ignore => skipped_as(
                                r,
                                "Ignored"@,
                                "无法识别为排谷/撤销意图"@,
                            ),
                        }
                }
            }
    }
}

/// The gates of a replayed event (see `replay_gated`).
fn replay_gate(cfg: &AppConfig, event: EventEnvelope, rec: &MessageRecord, display: &String, identity: &String, is_modify: bool, now_ms: i64) -> (r: Processed)
    requires
        display@ == record_display(*rec),
        identity@ == nickname_parts(rec.nickname@).0,
    ensures
        replay_gated(*cfg, event, *rec, is_modify, now_ms, r),
{
    let cands: [&str; 4] = [rec.user_id.as_str(), rec.nickname.as_str(), identity.as_str(), display.as_str()];
    assert(str_views(cands@) =~= record_names(*rec));
    let is_priority = is_priority_user(cfg.round.priority_users.as_slice(), cands.as_slice());
    let window = match &cfg.round.priority_window {
        Some(w) => Some((w.start_ms, w.end_ms)),
        None => None,
    };
    if in_priority_window(window, rec.timestamp_ms) && !is_priority {
        return skipped("Rejected", owned("优先时段仅限预存(购物金)用户"));
    }
    if cfg.round.phases.len() > 0 {
        if let Some(phase) = phase_at(cfg.round.phases.as_slice(), rec.timestamp_ms) {
            if let Some(detail) = phase_rejection(cfg, &event, phase, is_priority) {
                return skipped("Rejected", detail);
            }
        }
    }
    let priority_claim = is_priority && match &event.payload {
        DomainEvent::ClaimCreated(_) => true,
        _ => false,
    };
    let ghost lines = modified_lines(event, is_modify);
    let mut events: Vec<EventEnvelope> = Vec::new();
    if is_modify {
        match &event.payload {
            DomainEvent::ClaimCreated(c) => {
                let mut k: usize = 0;
                while k < c.items.len()
                    invariant
                        k <= c.items@.len(),
                        lines == c.items@,
                        events@.len() == k,
                        forall|i: int|
                            0 <= i < k ==> replay_cancel(
                                *rec,
                                cfg.round.round_id@,
                                now_ms,
                                lines[i].item_id,
                                i,
                                #[trigger] events@[i],
                            ),
                    decreases c.items@.len() - k,
                {
                    let e = cancel_line(&cfg.round.round_id, rec, now_ms, c.items[k].item_id.duplicate(), k);
                    events.push(e);
                    k = k + 1;
                }
            },
            _ => {},
        }
    }
    let ghost before = events@;
    events.push(event);
    assert(forall|i: int| 0 <= i < before.len() ==> events@[i] == before[i]);
    Processed { status: owned("Applied"), detail: String::new(), events, priority_claim, is_modify }
}

/// The detail of an applied event with this description: marked `改单：`
/// for a modification.
pub open spec fn applied_text(description: Seq<char>, is_modify: bool) -> Seq<char> {
    if is_modify {
        "改单："@ + description
    } else {
        description
    }
}

/// A record that added events has as detail the description `describe`
/// gives of its last event (the applied one; see `applied_text`).
pub open spec fn described<F: Fn(&EventEnvelope) -> String>(describe: F, p: Processed) -> bool {
    p.events@.len() > 0 ==> exists|s: String|
        call_ensures(describe, (&p.events@.last(),), s) && #[trigger] applied_text(s@, p.is_modify)
            == p.detail@
}

/// Replays one logged message against the catalogue (see `replayed`);
/// `now_ms` is the record's time, and `describe` gives the description of
/// an applied event (see `described`).
pub fn process_record<F: Fn(&EventEnvelope) -> String>(
    cfg: &AppConfig,
    rec: &MessageRecord,
    items: &[Item],
    round_contexts: &[RoundContext],
    validator: &EventValidator,
    now_ms: i64,
    describe: &F,
) -> (r: Processed)
    requires
        forall|e: &EventEnvelope| call_requires(*describe, (e,)),
    ensures
        replayed(*cfg, *rec, items@, round_contexts@, validator.confidence_threshold_pct, now_ms, r),
        described(*describe, r),
{
    let mut p = replay_outcome(cfg, rec, items, round_contexts, validator, now_ms);
    if p.events.len() > 0 {
        let last = p.events.len() - 1;
        let d = describe(&p.events[last]);
        let mut m: Vec<char> = Vec::new();
        if p.is_modify {
            append_str(&mut m, "改单：");
        }
        append_str(&mut m, d.as_str());
        proof {
            assert(applied_text(d@, p.is_modify) == m@);
        }
        p.detail = string_of(&m);
        proof {
            assert(p.events@.last() == p.events@[last as int]);
            assert(call_ensures(*describe, (&p.events@.last(),), d) && applied_text(d@, p.is_modify) == p.detail@);
        }
    }
    p
}

/// Replays one logged message (see `replayed`), the detail of an applied
/// event left to `process_record`.
fn replay_outcome(
    cfg: &AppConfig,
    rec: &MessageRecord,
    items: &[Item],
    round_contexts: &[RoundContext],
    validator: &EventValidator,
    now_ms: i64,
) -> (r: Processed)
    ensures
        replayed(*cfg, *rec, items@, round_contexts@, validator.confidence_threshold_pct, now_ms, r),
{
    let display = if is_blank(rec.nickname.as_str()) {
        rec.user_id.clone()
    } else {
        rec.nickname.clone()
    };
    let (identity, _) = clean_nickname(rec.nickname.as_str());
    proof {
        reveal_strlit("drop");
    }
    if chars_eq(&lower_ascii(&chars_of(rec.routed.as_str())), &chars_of("drop")) {
        return skipped("Dropped", owned("非白名单/Drop"));
    }
    let cands: [&str; 4] = [rec.user_id.as_str(), rec.nickname.as_str(), identity.as_str(), display.as_str()];
    assert(str_views(cands@) =~= record_names(*rec));
    if cfg.gateway.whitelist_members.len() > 0 && !is_priority_user(
        cfg.gateway.whitelist_members.as_slice(),
        cands.as_slice(),
    ) {
        return skipped("Dropped", owned("成员不在白名单"));
    }
    let tv = trim_chars(&chars_of(rec.text.as_str()));
    if tv.len() == 0 {
        return skipped("Ignored", owned("空消息"));
    }
    if tv[0] == '/' {
        if rec.is_admin {
            return skipped("Applied", owned("管理员命令已记录"));
        } else {
            return skipped("Rejected", owned("非管理员斜杠命令"));
        }
    }
    let text = string_of(&tv);
    let parsed = RuleParser::parse(text.as_str(), items, rec.is_admin);
    let ghost given = parsed;
    let is_modify = parsed.intent == ParsedIntent::Modify;
    let mut p = parsed;
    if is_modify {
        p.intent = ParsedIntent::Claim;
    }
    assert(p == as_claim(given));
    if p.intent == ParsedIntent::Claim && p.items.len() == 0 && p.ambiguous_parts.len() == 0 {
        return skipped("Ignored", owned("未解析出商品"));
    }
    let user_id = UserId(rec.user_id.clone());
    let out = validator.validate(
        p,
        &user_id,
        rec.group_id.as_str(),
        Some(rec.message_id.clone()),
        round_contexts,
        now_ms,
        rec.seq,
        // the replay gives every event and claim an id of its record's
        // number (`stabilize_event`), and a confirmation token is never
        // shown, so the random bytes play no part here
        [0u8; 16],
        [0u8; 16],
    );
    match out {
        ValidationOutcome::Accepted(event) => {
            let ghost ev0 = event;
            let mut event = event;
            stabilize_event(&mut event, rec.seq);
            let r = replay_gate(cfg, event, rec, &display, &identity, is_modify, now_ms);
            assert(stable_ids(ev0, rec.seq, event));
            r
        },
        ValidationOutcome::NeedConfirm(reply) => {
            let detail = match reply.text_content() {
                Some(t) => owned(t),
                None => owned("需要确认"),
            };
            skipped("NeedConfirm", detail)
        },
        ValidationOutcome::Reject(reply) => {
            let detail = match reply.text_content() {
                Some(t) => owned(t),
                None => owned("校验拒绝"),
            };
            skipped("Rejected", detail)
        },
        ValidationOutcome::Ignore => skipped("Ignored", owned("无法识别为排谷/撤销意图")),
    }
}

// ---------------------------------------------------------------------------
// Replaying a log
// ---------------------------------------------------------------------------
/// Confidence threshold (percent) of a replay's validation.
pub const REPLAY_CONFIDENCE_THRESHOLD_PCT: u32 = 65;

/// Whether `chrono::DateTime::<Utc>::from_timestamp_millis` can represent
/// `ms`: the instant lies between the first millisecond of -262143-01-01
/// and the last of +262142-12-31 (UTC), chrono's first and last dates.
pub open spec fn utc_millis_ok(ms: i64) -> bool {
    -8334601228800000 <= ms <= 8210266876799999
}

/// Calls `chrono::DateTime::<chrono::Utc>::from_timestamp_millis(ms)` and
/// tells whether it gave a time.
#[verifier::external_body]
fn utc_millis_representable(ms: i64) -> (r: bool)
    ensures
        r == utc_millis_ok(ms),
{
    chrono::DateTime::<chrono::Utc>::from_timestamp_millis(ms).is_some()
}

/// The time of an event made from a record: the record's time when the
/// calendar holds it, else the clock reading.
pub open spec fn event_time(ms: i64, clock_ms: i64) -> i64 {
    if utc_millis_ok(ms) {
        ms
    } else {
        clock_ms
    }
}

/// The time of an event made from a record (see `event_time`).
pub fn event_time_of(ms: i64, clock_ms: i64) -> (r: i64)
    ensures
        r == event_time(ms, clock_ms),
{
    if utc_millis_representable(ms) {
        ms
    } else {
        clock_ms
    }
}

/// Record `a` comes no later than `b`: by time, then by number.
pub open spec fn time_le(a: MessageRecord, b: MessageRecord) -> bool {
    a.timestamp_ms < b.timestamp_ms || (a.timestamp_ms == b.timestamp_ms && a.seq <= b.seq)
}

/// Index `i` inserted into `order` after every index whose record comes no later.
pub open spec fn insert_by_time(rs: Seq<MessageRecord>, order: Seq<int>, i: int) -> Seq<int>
    decreases order.len(),
{
    if order.len() == 0 {
        seq![i]
    } else if time_le(rs[order.last()], rs[i]) {
        order.push(i)
    } else {
        insert_by_time(rs, order.drop_last(), i).push(order.last())
    }
}

/// The indices of the first `n` records in replay order: by time, then by
/// number, records equal in both keeping their order (a stable sort).
pub open spec fn time_order(rs: Seq<MessageRecord>, n: int) -> Seq<int>
    decreases n,
{
    if n <= 0 {
        Seq::empty()
    } else {
        insert_by_time(rs, time_order(rs, n - 1), n - 1)
    }
}

proof fn lemma_insert_by_time(rs: Seq<MessageRecord>, order: Seq<int>, i: int, p: int)
    requires
        0 <= p <= order.len(),
        forall|j: int| p <= j < order.len() ==> !time_le(rs[#[trigger] order[j]], rs[i]),
        p == 0 || time_le(rs[order[p - 1]], rs[i]),
    ensures
        insert_by_time(rs, order, i) == order.take(p).push(i) + order.skip(p),
    decreases order.len() - p,
{
    if order.len() == p {
        if order.len() > 0 {
            assert(order.take(p).push(i) + order.skip(p) =~= order.push(i));
        } else {
            assert(order.take(p).push(i) + order.skip(p) =~= seq![i]);
        }
    } else {
        let d = order.drop_last();
        assert forall|j: int| p <= j < d.len() implies !time_le(rs[#[trigger] d[j]], rs[i]) by {
            assert(d[j] == order[j]);
        }
        lemma_insert_by_time(rs, d, i, p);
        assert(d.take(p).push(i) + d.skip(p) + seq![order.last()] =~= order.take(p).push(i) + order.skip(p));
    }
}

/// The replay order of the records (see `time_order`).
fn order_by_time(rs: &[MessageRecord]) -> (r: Vec<usize>)
    ensures
        r@.len() == rs@.len(),
        forall|k: int| 0 <= k < r@.len() ==> (#[trigger] r@[k]) < rs@.len(),
        r@.map_values(|x: usize| x as int) == time_order(rs@, rs@.len() as int),
{
    let mut order: Vec<usize> = Vec::new();
    let mut i: usize = 0;
    while i < rs.len()
        invariant
            i <= rs@.len(),
            order@.len() == i,
            forall|k: int| 0 <= k < order@.len() ==> (#[trigger] order@[k]) < i,
            order@.map_values(|x: usize| x as int) == time_order(rs@, i as int),
        decreases rs@.len() - i,
    {
        let ghost oi = order@.map_values(|x: usize| x as int);
        let mut p: usize = order.len();
        while p > 0 && !time_le_exec(&rs[order[p - 1]], &rs[i])
            invariant
                p <= order@.len(),
                i < rs@.len(),
                oi == order@.map_values(|x: usize| x as int),
                forall|k: int| 0 <= k < order@.len() ==> (#[trigger] order@[k]) < i,
                forall|j: int| p <= j < oi.len() ==> !time_le(rs@[#[trigger] oi[j]], rs@[i as int]),
            decreases p,
        {
            p = p - 1;
        }
        proof {
            lemma_insert_by_time(rs@, oi, i as int, p as int);
        }
        let ghost before = order@;
        order.insert(p, i);
        proof {
            assert(order@.map_values(|x: usize| x as int) =~= oi.take(p as int).push(i as int) + oi.skip(p as int));
            assert forall|k: int| 0 <= k < order@.len() implies (#[trigger] order@[k]) < i + 1 by {
                if k < p {
                    assert(order@[k] == before[k]);
                } else if k > p {
                    assert(order@[k] == before[k - 1]);
                }
            }
        }
        i = i + 1;
    }
    order
}

fn time_le_exec(a: &MessageRecord, b: &MessageRecord) -> (r: bool)
    ensures
        r == time_le(*a, *b),
{
    a.timestamp_ms < b.timestamp_ms || (a.timestamp_ms == b.timestamp_ms && a.seq <= b.seq)
}

/// The catalogue items of the configured round.
pub open spec fn catalogue_items(cfg: AppConfig, items: Seq<Item>) -> bool {
    items.len() == cfg.round.items@.len() && forall|i: int|
        0 <= i < items.len() ==> crate::settings::item_matches_config(
            #[trigger] items[i],
            cfg.round.items@[i],
            cfg.round.round_id@,
            i,
        )
}

/// The events of the first `n` processed records, in order.
pub open spec fn all_events(ps: Seq<Processed>, n: int) -> Seq<EventEnvelope>
    decreases n,
{
    if n <= 0 {
        Seq::empty()
    } else {
        all_events(ps, n - 1) + ps[n - 1].events@
    }
}

/// Members granted priority in the first `n` records: the sender of each
/// record that added events with a priority claim, each listed once.
pub open spec fn priority_members(rs: Seq<MessageRecord>, order: Seq<int>, ps: Seq<Processed>, n: int) -> Seq<Seq<char>>
    decreases n,
{
    if n <= 0 {
        Seq::empty()
    } else {
        let prev = priority_members(rs, order, ps, n - 1);
        let u = rs[order[n - 1]].user_id@;
        if ps[n - 1].events@.len() > 0 && ps[n - 1].priority_claim && !prev.contains(u) {
            prev.push(u)
        } else {
            prev
        }
    }
}

/// The latest record time among the first `n` in order (0 when none is later).
pub open spec fn latest_time(rs: Seq<MessageRecord>, order: Seq<int>, n: int) -> i64
    decreases n,
{
    if n <= 0 {
        0
    } else {
        let prev = latest_time(rs, order, n - 1);
        let t = rs[order[n - 1]].timestamp_ms;
        if t > prev {
            t
        } else {
            prev
        }
    }
}

/// What replaying a log gives, before the board is rebuilt: a view and an
/// outcome per record in replay order, the events added, the members who
/// earned priority, and the latest record time.
pub struct Computed {
    pub messages: Vec<ReplayMessageView>,
    pub outcomes: Vec<ReplayOutcome>,
    pub events: Vec<EventEnvelope>,
    pub priority_users: Vec<String>,
    pub latest_ts: i64,
}

/// The view and outcome of a processed record.
pub open spec fn listed(rec: MessageRecord, p: Processed, v: ReplayMessageView, o: ReplayOutcome) -> bool {
    &&& v.seq == rec.seq && v.group_id@ == rec.group_id@ && v.user_id@ == rec.user_id@
    &&& v.nickname@ == rec.nickname@ && v.text@ == rec.text@ && v.timestamp_ms == rec.timestamp_ms
    &&& v.is_admin == rec.is_admin && v.status@ == p.status@ && v.detail@ == p.detail@
    &&& o.seq == rec.seq && o.status@ == p.status@ && o.detail@ == p.detail@
    &&& o.applied == (p.status@ == "Applied"@)
}

/// The log replayed with these catalogue items, round context and
/// processed records: one processed record per record in replay order (each
/// as `replayed` says, at its event time), listed in that order, with their
/// events, the members who earned priority, and the latest record time.
pub open spec fn replay_log(
    cfg: AppConfig,
    records: Seq<MessageRecord>,
    clock_ms: i64,
    items: Seq<Item>,
    ctx: RoundContext,
    ps: Seq<Processed>,
    r: Computed,
) -> bool {
    let order = time_order(records, records.len() as int);
    let n = records.len() as int;
    &&& catalogue_items(cfg, items)
    &&& crate::llm::pipeline::round_context(cfg, ctx)
    &&& ps.len() == n
    &&& r.messages@.len() == n
    &&& r.outcomes@.len() == n
    &&& forall|k: int|
        0 <= k < n ==> replayed(
            cfg,
            records[order[k]],
            items,
            seq![ctx],
            REPLAY_CONFIDENCE_THRESHOLD_PCT,
            event_time(records[order[k]].timestamp_ms, clock_ms),
            #[trigger] ps[k],
        ) && listed(records[order[k]], ps[k], r.messages@[k], r.outcomes@[k])
    &&& r.events@ == all_events(ps, n)
    &&& views(r.priority_users@) == priority_members(records, order, ps, n)
    &&& r.latest_ts == latest_time(records, order, n)
}

/// Replays a log: each record in replay order is processed (see `replayed`,
/// with its event time), and its view, outcome and events collected.
/// `clock_ms` is the clock reading used for a record whose time the
/// calendar cannot hold; `describe` gives the description of an applied
/// event (see `described`).
pub fn compute_records<F: Fn(&EventEnvelope) -> String>(
    cfg: &AppConfig,
    records: &[MessageRecord],
    clock_ms: i64,
    describe: &F,
) -> (r: Computed)
    requires
        forall|e: &EventEnvelope| call_requires(*describe, (e,)),
    ensures
        exists|items: Seq<Item>, ctx: RoundContext, ps: Seq<Processed>|
            #[trigger] replay_log(*cfg, records@, clock_ms, items, ctx, ps, r)
                && forall|k: int| 0 <= k < ps.len() ==> described(*describe, #[trigger] ps[k]),
{
    let items = cfg.round.to_items();
    let ctx = RoundContext {
        round_id: RoundId(cfg.round.round_id.clone()),
        title: cfg.round.title.clone(),
        items: cfg.round.to_items(),
    };
    let mut ctxs: Vec<RoundContext> = Vec::new();
    ctxs.push(ctx);
    let ghost ctx_v = ctxs@[0];
    assert(ctxs@ =~= seq![ctx_v]);
    assert(crate::llm::pipeline::round_context(*cfg, ctx_v));
    let validator = EventValidator::new(REPLAY_CONFIDENCE_THRESHOLD_PCT);
    let order = order_by_time(records);
    let ghost ord = time_order(records@, records@.len() as int);
    assert(forall|k: int| 0 <= k < order@.len() ==> order@[k] as int == ord[k]) by {
        assert forall|k: int| 0 <= k < order@.len() implies order@[k] as int == ord[k] by {
            assert(order@.map_values(|x: usize| x as int)[k] == order@[k] as int);
        }
    }
    let mut messages: Vec<ReplayMessageView> = Vec::new();
    let mut outcomes: Vec<ReplayOutcome> = Vec::new();
    let mut events: Vec<EventEnvelope> = Vec::new();
    let mut priority_users: Vec<String> = Vec::new();
    let mut latest: i64 = 0;
    let ghost mut ps: Seq<Processed> = Seq::empty();
    let mut k: usize = 0;
    while k < order.len()
        invariant
            k <= order@.len(),
            order@.len() == records@.len(),
            forall|j: int| 0 <= j < order@.len() ==> (#[trigger] order@[j]) < records@.len(),
            forall|j: int| 0 <= j < order@.len() ==> order@[j] as int == ord[j],
            ord == time_order(records@, records@.len() as int),
            catalogue_items(*cfg, items@),
            ctxs@ == seq![ctx_v],
            validator.confidence_threshold_pct == REPLAY_CONFIDENCE_THRESHOLD_PCT,
            ps.len() == k,
            forall|e: &EventEnvelope| call_requires(*describe, (e,)),
            forall|j: int| 0 <= j < k ==> described(*describe, #[trigger] ps[j]),
            messages@.len() == k,
            outcomes@.len() == k,
            forall|j: int|
                0 <= j < k ==> replayed(
                    *cfg,
                    records@[ord[j]],
                    items@,
                    seq![ctx_v],
                    REPLAY_CONFIDENCE_THRESHOLD_PCT,
                    event_time(records@[ord[j]].timestamp_ms, clock_ms),
                    #[trigger] ps[j],
                ) && listed(records@[ord[j]], ps[j], messages@[j], outcomes@[j]),
            events@ == all_events(ps, k as int),
            views(priority_users@) == priority_members(records@, ord, ps, k as int),
            latest == latest_time(records@, ord, k as int),
        decreases order@.len() - k,
    {
        let idx = order[k];
        let rec = &records[idx];
        if rec.timestamp_ms > latest {
            latest = rec.timestamp_ms;
        }
        let now_ms = event_time_of(rec.timestamp_ms, clock_ms);
        let mut p = process_record(cfg, rec, items.as_slice(), ctxs.as_slice(), &validator, now_ms, describe);
        let ghost pv = p;
        let ghost prev_users = views(priority_users@);
        if p.events.len() > 0 {
            if p.priority_claim {
                let mut seen = false;
                let mut q: usize = 0;
                while q < priority_users.len()
                    invariant
                        q <= priority_users@.len(),
                        views(priority_users@) == prev_users,
                        seen == exists|j: int| 0 <= j < q && priority_users@[j]@ == rec.user_id@,
                    decreases priority_users@.len() - q,
                {
                    if crate::text::str_eq(priority_users[q].as_str(), rec.user_id.as_str()) {
                        seen = true;
                    }
                    q = q + 1;
                }
                proof {
                    if seen {
                        let j = choose|j: int| 0 <= j < q && priority_users@[j]@ == rec.user_id@;
                        assert(prev_users[j] == rec.user_id@);
                    } else {
                        assert forall|j: int| 0 <= j < prev_users.len() implies prev_users[j] != rec.user_id@ by {
                            assert(prev_users[j] == priority_users@[j]@);
                        }
                    }
                }
                if !seen {
                    priority_users.push(rec.user_id.clone());
                    assert(views(priority_users@) =~= prev_users.push(rec.user_id@));
                }
            }
            events.append(&mut p.events);
        }
        let applied = crate::text::str_eq(p.status.as_str(), "Applied");
        messages.push(ReplayMessageView {
            seq: rec.seq,
            group_id: rec.group_id.clone(),
            user_id: rec.user_id.clone(),
            nickname: rec.nickname.clone(),
            text: rec.text.clone(),
            timestamp_ms: rec.timestamp_ms,
            is_admin: rec.is_admin,
            status: p.status.clone(),
            detail: p.detail.clone(),
        });
        outcomes.push(ReplayOutcome { seq: rec.seq, status: p.status, detail: p.detail, applied });
        proof {
            let old_ps = ps;
            ps = ps.push(pv);
            lemma_all_events_prefix(ps, k as int);
            lemma_priority_prefix(records@, ord, ps, k as int);
            assert(ps.take(k as int) =~= old_ps);
            assert(ps[k as int] == pv);
            assert(all_events(ps, k + 1) == all_events(ps, k as int) + pv.events@);
            assert forall|j: int| 0 <= j < k + 1 implies replayed(
                *cfg,
                records@[ord[j]],
                items@,
                seq![ctx_v],
                REPLAY_CONFIDENCE_THRESHOLD_PCT,
                event_time(records@[ord[j]].timestamp_ms, clock_ms),
                #[trigger] ps[j],
            ) && listed(records@[ord[j]], ps[j], messages@[j], outcomes@[j]) by {
                if j < k {
                    assert(ps[j] == old_ps[j]);
                }
            }
        }
        k = k + 1;
    }
    let r = Computed { messages, outcomes, events, priority_users, latest_ts: latest };
    assert(replay_log(*cfg, records@, clock_ms, items@, ctx_v, ps, r));
    r
}

proof fn lemma_all_events_prefix(ps: Seq<Processed>, k: int)
    requires
        0 <= k < ps.len(),
    ensures
        all_events(ps, k) == all_events(ps.take(k), k),
    decreases k,
{
    if k > 0 {
        lemma_all_events_prefix(ps, k - 1);
        lemma_all_events_prefix(ps.take(k), k - 1);
        assert(ps.take(k).take(k - 1) =~= ps.take(k - 1));
        assert(ps.take(k)[k - 1] == ps[k - 1]);
    }
}

proof fn lemma_priority_prefix(rs: Seq<MessageRecord>, order: Seq<int>, ps: Seq<Processed>, k: int)
    requires
        0 <= k < ps.len(),
    ensures
        priority_members(rs, order, ps, k) == priority_members(rs, order, ps.take(k), k),
    decreases k,
{
    if k > 0 {
        lemma_priority_prefix(rs, order, ps, k - 1);
        lemma_priority_prefix(rs, order, ps.take(k), k - 1);
        assert(ps.take(k).take(k - 1) =~= ps.take(k - 1));
        assert(ps.take(k)[k - 1] == ps[k - 1]);
    }
}

/// The replay applies the live pipeline's gates: for the same event, sent
/// at the same time by a sender of the same priority standing, the replay
/// applies it exactly when the live pipeline (unlocked) does, and otherwise
/// refuses it with the same detail.
pub proof fn replay_gates_match_live(
    cfg: AppConfig,
    event: EventEnvelope,
    ev: crate::bus::IncomingEvent,
    identity: Seq<char>,
    display: Seq<char>,
    rec: MessageRecord,
    is_modify: bool,
    now_ms: i64,
    live: crate::llm::pipeline::Admission,
    replay: Processed,
)
    requires
        crate::llm::pipeline::gated(cfg, event, ev, identity, display, false, is_modify, live),
        replay_gated(cfg, event, rec, is_modify, now_ms, replay),
        rec.timestamp_ms == ev.timestamp_ms,
        crate::llm::pipeline::sender_priority(cfg, ev, identity, display) == priority_match(
            views(cfg.round.priority_users@),
            record_names(rec),
        ),
    ensures
        (live is Apply) == (replay.status@ == "Applied"@),
        live matches crate::llm::pipeline::Admission::Finished(f) ==> f.status@ == "Rejected"@
            && replay.status@ == "Rejected"@ && f.detail@ == replay.detail@,
{
    reveal_strlit("Applied");
    reveal_strlit("Rejected");
    assert("Applied"@[0] != "Rejected"@[0]);
}

/// The replay keeps exactly the members the gateway's member whitelist
/// admits, when every whitelist entry is non-blank: a record is dropped as
/// not whitelisted just when `member_allowed` would refuse its sender's names.
pub proof fn replay_whitelist_matches_gateway(cfg: AppConfig, rec: MessageRecord)
    requires
        forall|i: int|
            0 <= i < cfg.gateway.whitelist_members@.len() ==> trim(
                #[trigger] cfg.gateway.whitelist_members@[i]@,
            ).len() > 0,
    ensures
        (cfg.gateway.whitelist_members@.len() > 0 && !priority_match(
            views(cfg.gateway.whitelist_members@),
            record_names(rec),
        )) == !crate::parser::policy::member_listed(
            views(cfg.gateway.whitelist_members@),
            record_names(rec),
        ),
{
    let ws = views(cfg.gateway.whitelist_members@);
    let names = record_names(rec);
    if priority_match(ws, names) {
        let (i, k) = choose|i: int, k: int|
            0 <= i < ws.len() && 0 <= k < names.len() && names[k] == trim(ws[i]);
        assert(trim(cfg.gateway.whitelist_members@[i]@).len() > 0);
    }
}

} // verus!
