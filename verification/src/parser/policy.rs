//! Admission policy shared by the live pipeline and the replay: group and
//! member whitelists, the priority window, priority users, phase labels.
use vstd::prelude::*;

use crate::domain::event::{ClaimLine, DomainEvent, EventEnvelope};
use crate::round::{can_cancel, can_claim, claim_allowed, RoundPhase};
use crate::settings::{class_in, in_window, is_priority_user, priority_match, str_views, AppConfig};
use crate::text::{append_str, chars_of, opt_view, str_eq, string_of, trim, trimmed, views};

pub use crate::round::phase_at;
pub use crate::settings::in_priority_window;

verus! {

/// The group is on the whitelist (an empty list admits no group).
pub open spec fn group_listed(groups: Seq<Seq<char>>, group_id: Seq<char>) -> bool {
    exists|i: int| 0 <= i < groups.len() && groups[i] == group_id
}

/// The member whitelist admits the candidates: an empty list admits
/// everyone; otherwise some non-blank entry, trimmed, equals a candidate.
pub open spec fn member_listed(members: Seq<Seq<char>>, candidates: Seq<Seq<char>>) -> bool {
    members.len() == 0 || exists|i: int, k: int|
        0 <= i < members.len() && 0 <= k < candidates.len() && trim(members[i]).len() > 0
            && candidates[k] == trim(members[i])
}

/// Label of a phase in rejection messages.
pub open spec fn phase_title(p: RoundPhase) -> Seq<char> {
    match p {
        RoundPhase::Phase0 => "Phase 0"@,
        RoundPhase::PhaseI => "Phase I"@,
        RoundPhase::PhaseII => "Phase II"@,
        RoundPhase::PhaseIII => "Phase III"@,
        RoundPhase::Settling => "结算"@,
        RoundPhase::Locked => "锁定"@,
    }
}

/// Group whitelist: only a listed `group_id` passes (an empty list admits no
/// group, as the gateway routes).
pub fn group_allowed(whitelist_groups: &[String], group_id: &str) -> (r: bool)
    ensures
        r == group_listed(views(whitelist_groups@), group_id@),
        whitelist_groups@.len() == 0 ==> !r,
{
    let mut i: usize = 0;
    while i < whitelist_groups.len()
        invariant
            i <= whitelist_groups@.len(),
            forall|j: int| 0 <= j < i ==> whitelist_groups@[j]@ != group_id@,
        decreases whitelist_groups@.len() - i,
    {
        if str_eq(whitelist_groups[i].as_str(), group_id) {
            assert(views(whitelist_groups@)[i as int] == group_id@);
            return true;
        }
        i = i + 1;
    }
    assert forall|j: int| 0 <= j < views(whitelist_groups@).len() implies views(
        whitelist_groups@,
    )[j] != group_id@ by {
        assert(whitelist_groups@[j]@ != group_id@);
    }
    false
}

/// Member whitelist: an empty list admits everyone; otherwise some entry,
/// trimmed and non-blank, must equal one of the candidate strings.
pub fn member_allowed(whitelist_members: &[String], candidates: &[&str]) -> (r: bool)
    ensures
        r == member_listed(views(whitelist_members@), str_views(candidates@)),
        whitelist_members@.len() == 0 ==> r,
{
    if whitelist_members.len() == 0 {
        return true;
    }
    let mut i: usize = 0;
    while i < whitelist_members.len()
        invariant
            i <= whitelist_members@.len(),
            forall|a: int, k: int|
                0 <= a < i && 0 <= k < candidates@.len() && trim(whitelist_members@[a]@).len() > 0
                    ==> candidates@[k]@ != trim(whitelist_members@[a]@),
        decreases whitelist_members@.len() - i,
    {
        let m = trimmed(whitelist_members[i].as_str());
        if m.len() > 0 {
            assert(m@ == trim(whitelist_members@[i as int]@));
            let mut k: usize = 0;
            while k < candidates.len()
                invariant
                    k <= candidates@.len(),
                    i < whitelist_members@.len(),
                    m@.len() > 0,
                    m@ == trim(whitelist_members@[i as int]@),
                    forall|j: int| 0 <= j < k ==> candidates@[j]@ != m@,
                decreases candidates@.len() - k,
            {
                if crate::text::str_eq_chars(candidates[k], &m) {
                    assert(str_views(candidates@)[k as int] == trim(
                        views(whitelist_members@)[i as int],
                    ));
                    return true;
                }
                k = k + 1;
            }
        }
        i = i + 1;
    }
    assert forall|a: int, k: int|
        0 <= a < views(whitelist_members@).len() && 0 <= k < str_views(candidates@).len() && trim(
            views(whitelist_members@)[a],
        ).len() > 0 implies str_views(candidates@)[k] != trim(views(whitelist_members@)[a]) by {
        assert(candidates@[k]@ != trim(whitelist_members@[a]@));
    }
    false
}

/// The configured priority window `[start_ms, end_ms)`; `None` means no window.
pub fn priority_window(cfg: &AppConfig) -> (r: Option<(i64, i64)>)
    ensures
        r == match cfg.round.priority_window {
            Some(w) => Some((w.start_ms, w.end_ms)),
            None => None::<(i64, i64)>,
        },
{
    match &cfg.round.priority_window {
        Some(w) => Some((w.start_ms, w.end_ms)),
        None => None,
    }
}

/// Priority-user test; the candidates are `[user_id, nickname, identity, display]`.
pub fn is_priority(cfg: &AppConfig, candidates: &[&str]) -> (r: bool)
    ensures
        r == priority_match(views(cfg.round.priority_users@), str_views(candidates@)),
{
    is_priority_user(cfg.round.priority_users.as_slice(), candidates)
}

/// Whether `timestamp_ms` lies in the configured priority window.
pub fn in_priority_at(cfg: &AppConfig, timestamp_ms: i64) -> (r: bool)
    ensures
        r == match cfg.round.priority_window {
            Some(w) => w.start_ms <= timestamp_ms && timestamp_ms < w.end_ms,
            None => false,
        },
{
    in_priority_window(priority_window(cfg), timestamp_ms)
}

/// Label of a phase in messages.
pub fn phase_label(phase: RoundPhase) -> (r: &'static str)
    ensures
        r@ == phase_title(phase),
{
    match phase {
        RoundPhase::Phase0 => "Phase 0",
        RoundPhase::PhaseI => "Phase I",
        RoundPhase::PhaseII => "Phase II",
        RoundPhase::PhaseIII => "Phase III",
        RoundPhase::Settling => "结算",
        RoundPhase::Locked => "锁定",
    }
}

/// Index of the first claim line whose item may not be claimed in `phase`, or -1.
pub open spec fn first_refused_line(cfg: AppConfig, lines: Seq<ClaimLine>, phase: RoundPhase, is_priority: bool) -> int
    decreases lines.len(),
{
    if lines.len() == 0 {
        -1
    } else if first_refused_line(cfg, lines.drop_last(), phase, is_priority) >= 0 {
        first_refused_line(cfg, lines.drop_last(), phase, is_priority)
    } else if !claim_allowed(phase, class_in(cfg.round.items@, lines.last().item_id.0@), is_priority) {
        lines.len() - 1
    } else {
        -1
    }
}

/// Why an event is refused in `phase`, if it is: nothing passes a locked
/// round; a claim is refused when one of its items may not be claimed, a
/// cancellation when its item may not be cancelled (by the item's class).
pub open spec fn phase_refusal(cfg: AppConfig, event: EventEnvelope, phase: RoundPhase, is_priority: bool) -> Option<Seq<char>> {
    let label = phase_title(phase);
    if phase == RoundPhase::Locked {
        Some("阶段越权："@ + label + "阶段已锁定，禁止操作"@)
    } else {
        match event.payload {
            DomainEvent::ClaimCreated(c) => if first_refused_line(cfg, c.items@, phase, is_priority) >= 0 {
                Some("阶段越权："@ + label + "阶段不允许排该商品"@)
            } else {
                None
            },
            DomainEvent::ClaimCancelled(c) => match c.target_item_id {
                Some(id) => if !claim_allowed(phase, class_in(cfg.round.items@, id.0@), is_priority) {
                    Some("阶段越权："@ + label + "阶段不允许撤销该商品"@)
                } else {
                    None
                },
                None => None,
            },
        }
    }
}

/// The phase permission check of an event (see `phase_refusal`).
pub fn phase_rejection(cfg: &AppConfig, event: &EventEnvelope, phase: RoundPhase, is_priority: bool) -> (r: Option<String>)
    ensures
        opt_view(r) == phase_refusal(*cfg, *event, phase, is_priority),
{
    let label = phase_label(phase);
    if phase == RoundPhase::Locked {
        let mut m = chars_of("阶段越权：");
        append_str(&mut m, label);
        append_str(&mut m, "阶段已锁定，禁止操作");
        return Some(string_of(&m));
    }
    match &event.payload {
        DomainEvent::ClaimCreated(c) => {
            let mut i: usize = 0;
            while i < c.items.len()
                invariant
                    i <= c.items@.len(),
                    event.payload == DomainEvent::ClaimCreated(*c),
                    label@ == phase_title(phase),
                    phase != RoundPhase::Locked,
                    first_refused_line(*cfg, c.items@.take(i as int), phase, is_priority) == -1,
                decreases c.items@.len() - i,
            {
                assert(c.items@.take(i + 1).drop_last() =~= c.items@.take(i as int));
                let class = cfg.round.item_class(c.items[i].item_id.0.as_str());
                if !can_claim(phase, class, is_priority) {
                    proof {
                        lemma_refused_prefix(*cfg, c.items@, phase, is_priority, i as int);
                    }
                    let mut m = chars_of("阶段越权：");
                    append_str(&mut m, label);
                    append_str(&mut m, "阶段不允许排该商品");
                    return Some(string_of(&m));
                }
                i = i + 1;
            }
            assert(c.items@.take(c.items@.len() as int) =~= c.items@);
            None
        },
        DomainEvent::ClaimCancelled(c) => match &c.target_item_id {
            Some(id) => {
                let class = cfg.round.item_class(id.0.as_str());
                if !can_cancel(phase, class, is_priority) {
                    let mut m = chars_of("阶段越权：");
                    append_str(&mut m, label);
                    append_str(&mut m, "阶段不允许撤销该商品");
                    Some(string_of(&m))
                } else {
                    None
                }
            },
            None => None,
        },
    }
}

/// A line refused at position `i`, after none before it, makes the whole list refused.
proof fn lemma_refused_prefix(cfg: AppConfig, lines: Seq<ClaimLine>, phase: RoundPhase, is_priority: bool, i: int)
    requires
        0 <= i < lines.len(),
        first_refused_line(cfg, lines.take(i), phase, is_priority) == -1,
        !claim_allowed(phase, class_in(cfg.round.items@, lines[i].item_id.0@), is_priority),
    ensures
        first_refused_line(cfg, lines, phase, is_priority) >= 0,
    decreases lines.len() - i,
{
    assert(lines.take(i + 1).drop_last() =~= lines.take(i));
    assert(first_refused_line(cfg, lines.take(i + 1), phase, is_priority) == i);
    lemma_refused_grows(cfg, lines, phase, is_priority, i + 1);
}

/// Once a prefix has a refused line, every longer prefix has one.
proof fn lemma_refused_grows(cfg: AppConfig, lines: Seq<ClaimLine>, phase: RoundPhase, is_priority: bool, k: int)
    requires
        0 <= k <= lines.len(),
        first_refused_line(cfg, lines.take(k), phase, is_priority) >= 0,
    ensures
        first_refused_line(cfg, lines, phase, is_priority) >= 0,
    decreases lines.len() - k,
{
    if k < lines.len() {
        assert(lines.take(k + 1).drop_last() =~= lines.take(k));
        lemma_refused_grows(cfg, lines, phase, is_priority, k + 1);
    } else {
        assert(lines.take(k) =~= lines);
    }
}

} // verus!
