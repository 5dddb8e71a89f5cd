//! The validation layer: turns a parsed message into a domain event, a
//! request for confirmation, a refusal, or nothing.
use vstd::prelude::*;

use crate::domain::event::{
    ClaimCancelled, ClaimCreated, ClaimLine, DomainEvent, EventEnvelope, EventId, EventStatus,
};
use crate::domain::{ClaimId, ClaimType, ItemId, RoundContext, RoundId, SlotPolicy, UserId};
use crate::parser::alias_match::{resolution_of, resolve_item, resolve_multiple_items};
use crate::parser::normalize::{
    claim_type_class, normalize_claim_item, or_empty, slot_policy_class, whole_box_token,
};
use crate::parser::parsed_event::{ParsedClaimItem, ParsedIntent, ParsedMessage, ResolveResult};
use crate::parser::reply::BotReply;
use crate::text::{
    append_chars, append_str, chars_of, contains, contains_str, dec_text, join, opt_view,
    push_u64, str_eq, string_of, views,
};

verus! {

/// What validation makes of a parsed message.
pub enum ValidationOutcome {
    Accepted(EventEnvelope),
    NeedConfirm(BotReply),
    Reject(BotReply),
    Ignore,
}

/// Validates parsed messages; messages parsed with less confidence than the
/// threshold (in whole percent) are refused.
pub struct EventValidator {
    pub confidence_threshold_pct: u32,
}

impl EventValidator {
    /// A validator with the given confidence threshold (percent).
    pub fn new(confidence_threshold_pct: u32) -> (r: EventValidator)
        ensures
            r.confidence_threshold_pct == confidence_threshold_pct,
    {
        EventValidator { confidence_threshold_pct }
    }
}


// ---------------------------------------------------------------------------
// Specifications
// ---------------------------------------------------------------------------
/// The claim type of a normalized claim-type name (`Split` by default).
pub open spec fn claim_type_of_name(n: Option<Seq<char>>) -> ClaimType {
    if n == Some("Single"@) {
        ClaimType::Single
    } else if n == Some("GiftClaim"@) {
        ClaimType::GiftClaim
    } else {
        ClaimType::Split
    }
}

/// The slot policy of a normalized slot-policy name (`Normal` by default).
pub open spec fn slot_policy_of_name(n: Option<Seq<char>>) -> SlotPolicy {
    if n == Some("TailLocked"@) {
        SlotPolicy::TailLocked
    } else if n == Some("AdminFixed"@) {
        SlotPolicy::AdminFixed
    } else if n == Some("ColumnLocked"@) {
        SlotPolicy::ColumnLocked
    } else {
        SlotPolicy::Normal
    }
}

/// Each slot-policy name gives its own policy: `TailLocked`, `AdminFixed`
/// and `ColumnLocked` their namesakes; no name, or any other name, gives
/// `Normal`. So an event line keeps the locked column, tail or
/// administrator slot its claim line asked for.
pub proof fn slot_policy_names_keep_their_policy(n: Option<Seq<char>>)
    ensures
        slot_policy_of_name(Some("TailLocked"@)) == SlotPolicy::TailLocked,
        slot_policy_of_name(Some("AdminFixed"@)) == SlotPolicy::AdminFixed,
        slot_policy_of_name(Some("ColumnLocked"@)) == SlotPolicy::ColumnLocked,
        n != Some("TailLocked"@) && n != Some("AdminFixed"@) && n != Some("ColumnLocked"@)
            ==> slot_policy_of_name(n) == SlotPolicy::Normal,
{
    reveal_strlit("TailLocked");
    reveal_strlit("AdminFixed");
    reveal_strlit("ColumnLocked");
    assert("ColumnLocked"@ != "TailLocked"@) by {
        assert("ColumnLocked"@[0] != "TailLocked"@[0]);
    }
    assert("ColumnLocked"@ != "AdminFixed"@) by {
        assert("ColumnLocked"@[0] != "AdminFixed"@[0]);
    }
    assert("AdminFixed"@ != "TailLocked"@) by {
        assert("AdminFixed"@[0] != "TailLocked"@[0]);
    }
}

/// The event line of a claim line whose normalized slot policy is
/// `ColumnLocked` locks its column.
pub proof fn column_lock_reaches_the_event(line: ClaimLine, p: ParsedClaimItem, res: ResolveResult)
    requires
        line_of_claim(line, p, res),
        normalized_slot_policy(p) == Some("ColumnLocked"@),
    ensures
        line.slot_policy == SlotPolicy::ColumnLocked,
{
    slot_policy_names_keep_their_policy(None);
}

/// The normalized claim-type name of a claim line (`normalize_claim_item`).
pub open spec fn normalized_claim_type(p: ParsedClaimItem) -> Option<Seq<char>> {
    if whole_box_token(or_empty(opt_view(p.slot_policy))) {
        Some("Single"@)
    } else {
        match opt_view(p.claim_type) {
            Some(ct) => Some(claim_type_class(ct)),
            None => None,
        }
    }
}

/// The normalized slot-policy name of a claim line (`normalize_claim_item`).
pub open spec fn normalized_slot_policy(p: ParsedClaimItem) -> Option<Seq<char>> {
    match opt_view(p.slot_policy) {
        Some(sp) => Some(slot_policy_class(sp)),
        None => None,
    }
}

/// The event line made of a claim line resolved to `res`.
pub open spec fn line_of_claim(line: ClaimLine, p: ParsedClaimItem, res: ResolveResult) -> bool {
    &&& Some(line.item_id) == res.item_id
    &&& line.quantity == p.quantity
    &&& line.claim_type == claim_type_of_name(normalized_claim_type(p))
    &&& line.slot_policy == slot_policy_of_name(normalized_slot_policy(p))
    &&& line.is_proxy_card == match p.is_proxy_card {
        Some(b) => b,
        None => false,
    }
    &&& line.notes == p.notes
}

/// Index of the first claim line that did not resolve, or -1.
pub open spec fn first_unresolved(res: Seq<ResolveResult>) -> int
    decreases res.len(),
{
    if res.len() == 0 {
        -1
    } else if first_unresolved(res.drop_last()) >= 0 {
        first_unresolved(res.drop_last())
    } else if !res.last().resolved {
        res.len() - 1
    } else {
        -1
    }
}

/// The round a cancellation targets: with a hint, the first active round
/// whose title or id contains it (else the first round); without, the first.
pub open spec fn cancel_round(rounds: Seq<RoundContext>, hint: Option<Seq<char>>) -> RoundId {
    match hint {
        Some(h) => if exists|k: int| 0 <= k < rounds.len() && (contains(rounds[k].title@, h) || contains(rounds[k].round_id.0@, h)) {
            rounds[hinted_round(rounds, h)].round_id
        } else {
            rounds[0].round_id
        },
        None => rounds[0].round_id,
    }
}

/// Index of the first round whose title or id contains `h`, or -1.
pub open spec fn hinted_round(rounds: Seq<RoundContext>, h: Seq<char>) -> int
    decreases rounds.len(),
{
    if rounds.len() == 0 {
        -1
    } else if hinted_round(rounds.drop_last(), h) >= 0 {
        hinted_round(rounds.drop_last(), h)
    } else if contains(rounds.last().title@, h) || contains(rounds.last().round_id.0@, h) {
        rounds.len() - 1
    } else {
        -1
    }
}

/// The envelope fields every event of a message shares.
pub open spec fn envelope_of(
    ev: EventEnvelope,
    user_id: UserId,
    group_id: Seq<char>,
    raw_message_id: Option<Seq<char>>,
    now_ms: i64,
    sequence: i64,
    event_type: Seq<char>,
) -> bool {
    &&& ev.group_id@ == group_id
    &&& ev.user_id == user_id
    &&& opt_view(ev.raw_message_id) == raw_message_id
    &&& ev.event_type@ == event_type
    &&& ev.effective_at_ms == now_ms
    &&& ev.sequence == sequence
    &&& ev.status == EventStatus::Active
}

/// The `claim_created` event of a claim whose lines resolved to `res`.
pub open spec fn claim_event(
    ev: EventEnvelope,
    parsed: ParsedMessage,
    user_id: UserId,
    group_id: Seq<char>,
    raw_message_id: Option<Seq<char>>,
    now_ms: i64,
    sequence: i64,
    res: Seq<ResolveResult>,
) -> bool {
    let items = parsed.items@;
    &&& envelope_of(ev, user_id, group_id, raw_message_id, now_ms, sequence, "claim_created"@)
    &&& Some(ev.round_id) == res[0].round_id
    &&& match ev.payload {
        DomainEvent::ClaimCreated(c) => {
            &&& c.user_id == user_id
            &&& c.items@.len() == items.len()
            &&& forall|k: int| 0 <= k < items.len() ==> line_of_claim(#[trigger] c.items@[k], items[k], res[k])
            &&& c.source_text@ == items[0].name@
        },
        _ => false,
    }
}

/// The `claim_cancelled` event of a cancellation.
pub open spec fn cancel_event(
    ev: EventEnvelope,
    parsed: ParsedMessage,
    user_id: UserId,
    group_id: Seq<char>,
    raw_message_id: Option<Seq<char>>,
    rounds: Seq<RoundContext>,
    now_ms: i64,
    sequence: i64,
    res: Seq<ResolveResult>,
) -> bool {
    let items = parsed.items@;
    &&& envelope_of(ev, user_id, group_id, raw_message_id, now_ms, sequence, "claim_cancelled"@)
    &&& ev.round_id == cancel_round(rounds, opt_view(parsed.round_hint))
    &&& match ev.payload {
        DomainEvent::ClaimCancelled(c) => {
            &&& c.target_claim_id is None
            &&& c.target_item_id == (if items.len() > 0 {
                res[0].item_id
            } else {
                None
            })
            &&& c.quantity == (if items.len() > 0 {
                Some(items[0].quantity)
            } else {
                None
            })
            &&& opt_view(c.reason) == opt_view(parsed.cancel_target_hint)
        },
        _ => false,
    }
}

/// The outcome is a refusal with the given text.
pub open spec fn refused_with(r: ValidationOutcome, text: Seq<char>) -> bool {
    match r {
        ValidationOutcome::Reject(BotReply::Text(t)) => t@ == text,
        _ => false,
    }
}

/// The validation rule: low confidence is refused; uncertain parts ask for
/// confirmation; a claim whose lines all resolve becomes a `claim_created`
/// event (else the first unresolved line is refused with its ambiguity or
/// as unknown); a cancellation becomes a `claim_cancelled` event for the
/// hinted round (refused without active rounds); an administrator command is
/// refused; anything else is ignored.
pub open spec fn validated(
    threshold_pct: u32,
    parsed: ParsedMessage,
    user_id: UserId,
    group_id: Seq<char>,
    raw_message_id: Option<Seq<char>>,
    rounds: Seq<RoundContext>,
    now_ms: i64,
    sequence: i64,
    res: Seq<ResolveResult>,
    r: ValidationOutcome,
) -> bool {
    let items = parsed.items@;
    if parsed.confidence_pct < threshold_pct {
        refused_with(
            r,
            "识别置信度不足 ("@ + dec_text(parsed.confidence_pct as nat) + "%)，请按格式重发。"@,
        )
    } else if parsed.ambiguous_parts@.len() > 0 {
        match r {
            ValidationOutcome::NeedConfirm(BotReply::NeedConfirm { text, .. }) => text@
                == "以下部分不确定："@ + join(views(parsed.ambiguous_parts@), "，"@) + "。请回复确认。"@,
            _ => false,
        }
    } else {
        match parsed.intent {
            ParsedIntent::Claim => res.len() == items.len() && (forall|k: int|
                0 <= k < res.len() ==> resolution_of(items[k], rounds, #[trigger] res[k])) && {
                let j = first_unresolved(res);
                if j >= 0 {
                    refused_with(
                        r,
                        match res[j].ambiguity {
                            Some(m) => m@,
                            None => "无法识别商品："@ + items[j].name@,
                        },
                    )
                } else {
                    match r {
                        ValidationOutcome::Accepted(ev) => claim_event(
                            ev,
                            parsed,
                            user_id,
                            group_id,
                            raw_message_id,
                            now_ms,
                            sequence,
                            res,
                        ),
                        _ => false,
                    }
                }
            },
            ParsedIntent::Cancel => if rounds.len() == 0 {
                refused_with(r, "没有活跃的团可撤销。"@)
            } else {
                (items.len() > 0 ==> res.len() > 0 && resolution_of(items[0], rounds, res[0])) && match r {
                    ValidationOutcome::Accepted(ev) => cancel_event(
                        ev,
                        parsed,
                        user_id,
                        group_id,
                        raw_message_id,
                        rounds,
                        now_ms,
                        sequence,
                        res,
                    ),
                    _ => false,
                }
            },
            ParsedIntent::AdminCommand => refused_with(r, "管理员命令请使用斜杠命令格式。"@),
            _ => r is Ignore,
        }
    }
}

/// The random ids of an outcome: a confirmation token and an event id are
/// the random UUID made from `id_bytes`, a claim id the one made from
/// `claim_bytes`.
pub open spec fn fresh_ids(r: ValidationOutcome, id_bytes: Seq<u8>, claim_bytes: Seq<u8>) -> bool {
    match r {
        ValidationOutcome::NeedConfirm(BotReply::NeedConfirm { confirm_token, .. }) => confirm_token@
            == crate::domain::uuid_v4_text(id_bytes),
        ValidationOutcome::Accepted(ev) => ev.event_id.0@ == crate::domain::uuid_v4_text(id_bytes) && (
        ev.payload matches DomainEvent::ClaimCreated(c) ==> c.claim_id.0@ == crate::domain::uuid_v4_text(
            claim_bytes,
        )),
        _ => true,
    }
}

/// A resolved claim line names its round and item.
proof fn lemma_resolved_ids(p: ParsedClaimItem, rounds: Seq<RoundContext>, r: ResolveResult)
    requires
        resolution_of(p, rounds, r),
        r.resolved,
    ensures
        r.round_id is Some,
        r.item_id is Some,
{
}

proof fn lemma_first_unresolved_prefix(res: Seq<ResolveResult>, i: int)
    requires
        0 <= i < res.len(),
        first_unresolved(res.take(i)) == -1,
        !res[i].resolved,
    ensures
        first_unresolved(res) == i,
    decreases res.len() - i,
{
    assert(res.take(i + 1).drop_last() =~= res.take(i));
    assert(first_unresolved(res.take(i + 1)) == i);
    lemma_first_unresolved_keeps(res, i, i + 1);
}

proof fn lemma_first_unresolved_keeps(res: Seq<ResolveResult>, i: int, k: int)
    requires
        0 <= i < k <= res.len(),
        first_unresolved(res.take(k)) == i,
    ensures
        first_unresolved(res) == i,
    decreases res.len() - k,
{
    if k < res.len() {
        assert(res.take(k + 1).drop_last() =~= res.take(k));
        lemma_first_unresolved_keeps(res, i, k + 1);
    } else {
        assert(res.take(k) =~= res);
    }
}

proof fn lemma_no_unresolved(res: Seq<ResolveResult>)
    requires
        first_unresolved(res) == -1,
    ensures
        forall|q: int| 0 <= q < res.len() ==> (#[trigger] res[q]).resolved,
    decreases res.len(),
{
    if res.len() > 0 {
        lemma_no_unresolved(res.drop_last());
        assert forall|q: int| 0 <= q < res.len() implies (#[trigger] res[q]).resolved by {
            if q < res.len() - 1 {
                assert(res.drop_last()[q] == res[q]);
            }
        }
    }
}

/// A message whose confidence is below the threshold is always refused.
pub proof fn low_confidence_is_refused(
    threshold_pct: u32,
    parsed: ParsedMessage,
    user_id: UserId,
    group_id: Seq<char>,
    raw_message_id: Option<Seq<char>>,
    rounds: Seq<RoundContext>,
    now_ms: i64,
    sequence: i64,
    res: Seq<ResolveResult>,
    r: ValidationOutcome,
)
    requires
        validated(threshold_pct, parsed, user_id, group_id, raw_message_id, rounds, now_ms, sequence, res, r),
        parsed.confidence_pct < threshold_pct,
    ensures
        r is Reject,
{
}

/// A claim is accepted only when it is confident, unambiguous, and every one
/// of its lines resolved to an item of an active round.
pub proof fn accepted_claims_are_resolved(
    threshold_pct: u32,
    parsed: ParsedMessage,
    user_id: UserId,
    group_id: Seq<char>,
    raw_message_id: Option<Seq<char>>,
    rounds: Seq<RoundContext>,
    now_ms: i64,
    sequence: i64,
    res: Seq<ResolveResult>,
    r: ValidationOutcome,
)
    requires
        validated(threshold_pct, parsed, user_id, group_id, raw_message_id, rounds, now_ms, sequence, res, r),
        parsed.intent is Claim,
        r is Accepted,
    ensures
        parsed.confidence_pct >= threshold_pct,
        parsed.ambiguous_parts@.len() == 0,
        res.len() == parsed.items@.len(),
        forall|q: int|
            0 <= q < res.len() ==> (#[trigger] res[q]).resolved && res[q].round_id is Some
                && res[q].item_id is Some,
{
    assert(first_unresolved(res) < 0);
    lemma_no_unresolved(res);
    assert forall|q: int| 0 <= q < res.len() implies (#[trigger] res[q]).resolved && res[q].round_id is Some
        && res[q].item_id is Some by {
        lemma_resolved_ids(parsed.items@[q], rounds, res[q]);
    }
}

/// The event line of a claim line resolved to `item_id`.
fn claim_line(pi: &ParsedClaimItem, item_id: ItemId) -> (r: ClaimLine)
    ensures
        r.item_id == item_id,
        r.quantity == pi.quantity,
        r.claim_type == claim_type_of_name(normalized_claim_type(*pi)),
        r.slot_policy == slot_policy_of_name(normalized_slot_policy(*pi)),
        r.is_proxy_card == match pi.is_proxy_card {
            Some(b) => b,
            None => false,
        },
        r.notes == pi.notes,
{
    let normalized = normalize_claim_item(pi);
    let claim_type = match &normalized.claim_type {
        Some(t) => if str_eq(t.as_str(), "Single") {
            ClaimType::Single
        } else if str_eq(t.as_str(), "GiftClaim") {
            ClaimType::GiftClaim
        } else {
            ClaimType::Split
        },
        None => ClaimType::Split,
    };
    let slot_policy = match &normalized.slot_policy {
        Some(t) => if str_eq(t.as_str(), "TailLocked") {
            SlotPolicy::TailLocked
        } else if str_eq(t.as_str(), "AdminFixed") {
            SlotPolicy::AdminFixed
        } else if str_eq(t.as_str(), "ColumnLocked") {
            SlotPolicy::ColumnLocked
        } else {
            SlotPolicy::Normal
        },
        None => SlotPolicy::Normal,
    };
    let notes = match &normalized.notes {
        Some(n) => Some(n.clone()),
        None => crate::text::clone_opt(&pi.notes),
    };
    ClaimLine {
        item_id,
        quantity: pi.quantity,
        claim_type,
        slot_policy,
        is_proxy_card: match pi.is_proxy_card {
            Some(b) => b,
            None => false,
        },
        notes,
    }
}

/// The round a cancellation targets (see `cancel_round`).
fn pick_cancel_round(rounds: &[RoundContext], hint: &Option<String>) -> (r: RoundId)
    requires
        rounds@.len() > 0,
    ensures
        r == cancel_round(rounds@, opt_view(*hint)),
{
    match hint {
        Some(h) => {
            let hc = chars_of(h.as_str());
            let mut k: usize = 0;
            while k < rounds.len()
                invariant
                    k <= rounds@.len(),
                    hc@ == h@,
                    opt_view(*hint) == Some(h@),
                    rounds@.len() > 0,
                    hinted_round(rounds@.take(k as int), h@) == -1,
                    forall|q: int|
                        0 <= q < k ==> !(contains(rounds@[q].title@, h@) || contains(
                            rounds@[q].round_id.0@,
                            h@,
                        )),
                decreases rounds@.len() - k,
            {
                assert(rounds@.take(k + 1).drop_last() =~= rounds@.take(k as int));
                let t = chars_of(rounds[k].title.as_str());
                let id = chars_of(rounds[k].round_id.0.as_str());
                if crate::text::contains_chars(&t, &hc) || crate::text::contains_chars(&id, &hc) {
                    proof {
                        lemma_hinted_extend(rounds@, h@, k as int);
                        lemma_hinted_stable(rounds@, h@, k as int, k + 1);
                        assert(exists|q: int|
                            0 <= q < rounds@.len() && (contains(rounds@[q].title@, h@) || contains(
                                rounds@[q].round_id.0@,
                                h@,
                            ))) by {
                            assert(contains(rounds@[k as int].title@, h@) || contains(
                                rounds@[k as int].round_id.0@,
                                h@,
                            ));
                        }
                        assert(opt_view(*hint) == Some(h@));
                        assert(hinted_round(rounds@, h@) == k);
                        assert(cancel_round(rounds@, Some(h@)) == rounds@[k as int].round_id);
                    }
                    return rounds[k].round_id.duplicate();
                }
                k = k + 1;
            }
            rounds[0].round_id.duplicate()
        },
        None => rounds[0].round_id.duplicate(),
    }
}

proof fn lemma_hinted_extend(rounds: Seq<RoundContext>, h: Seq<char>, k: int)
    requires
        0 <= k < rounds.len(),
        hinted_round(rounds.take(k), h) == -1,
        contains(rounds[k].title@, h) || contains(rounds[k].round_id.0@, h),
    ensures
        hinted_round(rounds.take(k + 1), h) == k,
{
    assert(rounds.take(k + 1).drop_last() =~= rounds.take(k));
}

proof fn lemma_hinted_stable(rounds: Seq<RoundContext>, h: Seq<char>, i: int, k: int)
    requires
        0 <= i < k <= rounds.len(),
        hinted_round(rounds.take(k), h) == i,
    ensures
        hinted_round(rounds, h) == i,
    decreases rounds.len() - k,
{
    if k < rounds.len() {
        assert(rounds.take(k + 1).drop_last() =~= rounds.take(k));
        lemma_hinted_stable(rounds, h, i, k + 1);
    } else {
        assert(rounds.take(k) =~= rounds);
    }
}

impl EventValidator {
    /// Validates a parsed message (see `validated`). Event, claim and
    /// confirmation ids are fresh random UUIDs.
    pub fn validate(
        &self,
        parsed: ParsedMessage,
        user_id: &UserId,
        group_id: &str,
        raw_message_id: Option<String>,
        active_rounds: &[RoundContext],
        now_ms: i64,
        sequence: i64,
        id_bytes: [u8; 16],
        claim_bytes: [u8; 16],
    ) -> (r: ValidationOutcome)
        requires
            !(parsed.intent == ParsedIntent::Claim && parsed.confidence_pct
                >= self.confidence_threshold_pct && parsed.ambiguous_parts@.len() == 0
                && parsed.items@.len() == 0),
        ensures
            exists|res: Seq<ResolveResult>|
                validated(
                    self.confidence_threshold_pct,
                    parsed,
                    *user_id,
                    group_id@,
                    opt_view(raw_message_id),
                    active_rounds@,
                    now_ms,
                    sequence,
                    res,
                    r,
                ),
            fresh_ids(r, id_bytes@, claim_bytes@),
    {
        let ghost raw_v = opt_view(raw_message_id);
        if parsed.confidence_pct < self.confidence_threshold_pct {
            let mut m = chars_of("识别置信度不足 (");
            push_u64(&mut m, parsed.confidence_pct as u64);
            append_str(&mut m, "%)，请按格式重发。");
            let r = ValidationOutcome::Reject(BotReply::Text(string_of(&m)));
            assert(validated(
                self.confidence_threshold_pct,
                parsed,
                *user_id,
                group_id@,
                raw_v,
                active_rounds@,
                now_ms,
                sequence,
                Seq::empty(),
                r,
            ));
            return r;
        }
        let ghost amb = parsed.ambiguous_parts@;
        if parsed.ambiguous_parts.len() > 0 {
            let mut m = chars_of("以下部分不确定：");
            crate::text::append_joined(&mut m, parsed.ambiguous_parts.as_slice(), "，");
            append_str(&mut m, "。请回复确认。");
            let r = ValidationOutcome::NeedConfirm(
                BotReply::NeedConfirm { text: string_of(&m), confirm_token: crate::domain::uuid_from_random(id_bytes) },
            );
            assert(validated(
                self.confidence_threshold_pct,
                parsed,
                *user_id,
                group_id@,
                raw_v,
                active_rounds@,
                now_ms,
                sequence,
                Seq::empty(),
                r,
            ));
            return r;
        }
        match parsed.intent {
            ParsedIntent::Claim => {
                let resolved = resolve_multiple_items(parsed.items.as_slice(), active_rounds);
                let mut i: usize = 0;
                while i < resolved.len()
                    invariant
                        i <= resolved@.len(),
                        resolved@.len() == parsed.items@.len(),
                        parsed.intent == ParsedIntent::Claim,
                        parsed.confidence_pct >= self.confidence_threshold_pct,
                        parsed.ambiguous_parts@.len() == 0,
                        raw_v == opt_view(raw_message_id),
                        forall|q: int|
                            0 <= q < resolved@.len() ==> resolution_of(
                                parsed.items@[q],
                                active_rounds@,
                                #[trigger] resolved@[q],
                            ),
                        first_unresolved(resolved@.take(i as int)) == -1,
                    decreases resolved@.len() - i,
                {
                    assert(resolved@.take(i + 1).drop_last() =~= resolved@.take(i as int));
                    if !resolved[i].resolved {
                        proof {
                            lemma_first_unresolved_prefix(resolved@, i as int);
                        }
                        let text = match &resolved[i].ambiguity {
                            Some(msg) => msg.clone(),
                            None => {
                                let mut m = chars_of("无法识别商品：");
                                append_str(&mut m, parsed.items[i].name.as_str());
                                string_of(&m)
                            },
                        };
                        let r = ValidationOutcome::Reject(BotReply::Text(text));
                        assert(validated(
                            self.confidence_threshold_pct,
                            parsed,
                            *user_id,
                            group_id@,
                            raw_v,
                            active_rounds@,
                            now_ms,
                            sequence,
                            resolved@,
                            r,
                        ));
                        return r;
                    }
                    i = i + 1;
                }
                assert(resolved@.take(resolved@.len() as int) =~= resolved@);
                proof {
                    lemma_no_unresolved(resolved@);
                    lemma_resolved_ids(parsed.items@[0], active_rounds@, resolved@[0]);
                }
                let round_id = match &resolved[0].round_id {
                    Some(rid) => rid.duplicate(),
                    None => RoundId(String::new()),
                };
                let mut lines: Vec<ClaimLine> = Vec::new();
                let mut k: usize = 0;
                while k < parsed.items.len()
                    invariant
                        k <= parsed.items@.len(),
                        resolved@.len() == parsed.items@.len(),
                        forall|q: int|
                            0 <= q < resolved@.len() ==> resolution_of(
                                parsed.items@[q],
                                active_rounds@,
                                #[trigger] resolved@[q],
                            ),
                        forall|q: int| 0 <= q < resolved@.len() ==> (#[trigger] resolved@[q]).resolved,
                        lines@.len() == k,
                        forall|q: int|
                            0 <= q < k ==> line_of_claim(
                                #[trigger] lines@[q],
                                parsed.items@[q],
                                resolved@[q],
                            ),
                    decreases parsed.items@.len() - k,
                {
                    proof {
                        lemma_resolved_ids(parsed.items@[k as int], active_rounds@, resolved@[k as int]);
                    }
                    let item_id = match &resolved[k].item_id {
                        Some(id) => id.duplicate(),
                        None => ItemId(String::new()),
                    };
                    lines.push(claim_line(&parsed.items[k], item_id));
                    k = k + 1;
                }
                let ev = EventEnvelope {
                    event_id: EventId(crate::domain::uuid_from_random(id_bytes)),
                    round_id,
                    group_id: crate::text::owned(group_id),
                    user_id: user_id.duplicate(),
                    raw_message_id,
                    event_type: crate::text::owned("claim_created"),
                    effective_at_ms: now_ms,
                    sequence,
                    payload: DomainEvent::ClaimCreated(
                        ClaimCreated {
                            claim_id: ClaimId(crate::domain::uuid_from_random(claim_bytes)),
                            user_id: user_id.duplicate(),
                            items: lines,
                            source_text: parsed.items[0].name.clone(),
                        },
                    ),
                    status: EventStatus::Active,
                };
                let r = ValidationOutcome::Accepted(ev);
                assert(validated(
                    self.confidence_threshold_pct,
                    parsed,
                    *user_id,
                    group_id@,
                    raw_v,
                    active_rounds@,
                    now_ms,
                    sequence,
                    resolved@,
                    r,
                ));
                r
            },
            ParsedIntent::Cancel => {
                if active_rounds.len() == 0 {
                    let r = ValidationOutcome::Reject(BotReply::Text(crate::text::owned("没有活跃的团可撤销。")));
                    assert(validated(
                        self.confidence_threshold_pct,
                        parsed,
                        *user_id,
                        group_id@,
                        raw_v,
                        active_rounds@,
                        now_ms,
                        sequence,
                        Seq::empty(),
                        r,
                    ));
                    return r;
                }
                let round_id = pick_cancel_round(active_rounds, &parsed.round_hint);
                let ghost mut w: Seq<ResolveResult> = Seq::empty();
                let (target_item_id, quantity) = if parsed.items.len() > 0 {
                    let res0 = resolve_item(&parsed.items[0], active_rounds);
                    let target = match &res0.item_id {
                        Some(id) => Some(id.duplicate()),
                        None => None,
                    };
                    proof {
                        w = seq![res0];
                    }
                    (target, Some(parsed.items[0].quantity))
                } else {
                    (None, None)
                };
                let ev = EventEnvelope {
                    event_id: EventId(crate::domain::uuid_from_random(id_bytes)),
                    round_id,
                    group_id: crate::text::owned(group_id),
                    user_id: user_id.duplicate(),
                    raw_message_id,
                    event_type: crate::text::owned("claim_cancelled"),
                    effective_at_ms: now_ms,
                    sequence,
                    payload: DomainEvent::ClaimCancelled(
                        ClaimCancelled {
                            target_claim_id: None,
                            target_item_id,
                            quantity,
                            reason: parsed.cancel_target_hint,
                        },
                    ),
                    status: EventStatus::Active,
                };
                let r = ValidationOutcome::Accepted(ev);
                assert(validated(
                    self.confidence_threshold_pct,
                    parsed,
                    *user_id,
                    group_id@,
                    raw_v,
                    active_rounds@,
                    now_ms,
                    sequence,
                    w,
                    r,
                ));
                r
            },
            ParsedIntent::AdminCommand => {
                let r = ValidationOutcome::Reject(BotReply::Text(crate::text::owned("管理员命令请使用斜杠命令格式。")));
                assert(validated(
                    self.confidence_threshold_pct,
                    parsed,
                    *user_id,
                    group_id@,
                    raw_v,
                    active_rounds@,
                    now_ms,
                    sequence,
                    Seq::empty(),
                    r,
                ));
                r
            },
            _ => {
                let r = ValidationOutcome::Ignore;
                assert(validated(
                    self.confidence_threshold_pct,
                    parsed,
                    *user_id,
                    group_id@,
                    raw_v,
                    active_rounds@,
                    now_ms,
                    sequence,
                    Seq::empty(),
                    r,
                ));
                r
            },
        }
    }
}

} // verus!
