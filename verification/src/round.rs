//! Round phases and the claim/cancel permission matrix.
use vstd::prelude::*;

use crate::text::{ascii_upper, chars_of, chars_eq, trim, trim_chars, upper_ascii};

verus! {

/// Phase of a round.
#[derive(Clone, Copy, Debug, PartialEq, Eq, Structural)]
pub enum RoundPhase {
    Phase0,
    PhaseI,
    PhaseII,
    PhaseIII,
    Settling,
    Locked,
}

/// Stable machine-readable name of a phase.
pub open spec fn phase_key(p: RoundPhase) -> Seq<char> {
    match p {
        RoundPhase::Phase0 => "phase0"@,
        RoundPhase::PhaseI => "phase1"@,
        RoundPhase::PhaseII => "phase2"@,
        RoundPhase::PhaseIII => "phase3"@,
        RoundPhase::Settling => "settling"@,
        RoundPhase::Locked => "locked"@,
    }
}

/// Display label of a phase.
pub open spec fn phase_display(p: RoundPhase) -> Seq<char> {
    match p {
        RoundPhase::Phase0 => "开团前"@,
        RoundPhase::PhaseI => "全量排谷"@,
        RoundPhase::PhaseII => "优先排谷"@,
        RoundPhase::PhaseIII => "全员可改"@,
        RoundPhase::Settling => "结算中"@,
        RoundPhase::Locked => "已锁定"@,
    }
}

impl RoundPhase {
    /// Stable machine-readable identifier (for the API and the front end).
    pub fn as_str(&self) -> (r: &'static str)
        ensures
            r@ == phase_key(*self),
    {
        match self {
            RoundPhase::Phase0 => "phase0",
            RoundPhase::PhaseI => "phase1",
            RoundPhase::PhaseII => "phase2",
            RoundPhase::PhaseIII => "phase3",
            RoundPhase::Settling => "settling",
            RoundPhase::Locked => "locked",
        }
    }

    /// Display label.
    pub fn label(&self) -> (r: &'static str)
        ensures
            r@ == phase_display(*self),
    {
        match self {
            RoundPhase::Phase0 => "开团前",
            RoundPhase::PhaseI => "全量排谷",
            RoundPhase::PhaseII => "优先排谷",
            RoundPhase::PhaseIII => "全员可改",
            RoundPhase::Settling => "结算中",
            RoundPhase::Locked => "已锁定",
        }
    }
}

/// A phase active on the half-open interval `[start_ms, end_ms)`.
#[derive(Clone, Copy, Debug)]
pub struct PhaseWindow {
    pub phase: RoundPhase,
    pub start_ms: i64,
    pub end_ms: i64,
}

/// Class of an item: `A` (blind boxes / variants, phase-restricted) or `B`.
#[derive(Clone, Copy, Debug, PartialEq, Eq, Structural)]
pub enum ItemClass {
    A,
    B,
}

/// The class named by `s`: `A`/`a` or `B`/`b` after trimming.
pub open spec fn class_named(s: Seq<char>) -> Option<ItemClass> {
    let u = ascii_upper(trim(s));
    if u == seq!['A'] {
        Some(ItemClass::A)
    } else if u == seq!['B'] {
        Some(ItemClass::B)
    } else {
        None
    }
}

impl ItemClass {
    /// `"A"` / `"a"` is A, `"B"` / `"b"` is B (surrounding whitespace ignored);
    /// anything else is `None`.
    pub fn parse(s: &str) -> (r: Option<ItemClass>)
        ensures
            r == class_named(s@),
    {
        let v = chars_of(s);
        let t = trim_chars(&v);
        let u = upper_ascii(&t);
        if u.len() == 1 && u[0] == 'A' {
            assert(u@ =~= seq!['A']);
            Some(ItemClass::A)
        } else if u.len() == 1 && u[0] == 'B' {
            assert(u@ =~= seq!['B']);
            Some(ItemClass::B)
        } else {
            None
        }
    }
}

/// `ts` lies in the window.
pub open spec fn in_window(w: PhaseWindow, ts: i64) -> bool {
    w.start_ms <= ts && ts < w.end_ms
}

/// The phase of the first window (in order) that contains `ts`.
pub open spec fn first_phase(ws: Seq<PhaseWindow>, ts: i64) -> Option<RoundPhase>
    decreases ws.len(),
{
    if ws.len() == 0 {
        None
    } else if in_window(ws[0], ts) {
        Some(ws[0].phase)
    } else {
        first_phase(ws.drop_first(), ts)
    }
}

/// The phase of the first window that contains `timestamp_ms`, if any.
pub fn phase_at(windows: &[PhaseWindow], timestamp_ms: i64) -> (r: Option<RoundPhase>)
    ensures
        r == first_phase(windows@, timestamp_ms),
{
    let mut i: usize = 0;
    assert(windows@.skip(0) =~= windows@);
    while i < windows.len()
        invariant
            i <= windows@.len(),
            first_phase(windows@, timestamp_ms) == first_phase(windows@.skip(i as int), timestamp_ms),
        decreases windows@.len() - i,
    {
        let w = windows[i];
        assert(windows@.skip(i as int).drop_first() =~= windows@.skip(i + 1));
        if timestamp_ms >= w.start_ms && timestamp_ms < w.end_ms {
            return Some(w.phase);
        }
        i = i + 1;
    }
    None
}

/// The permission matrix: who may claim an item of class `class` in `phase`.
pub open spec fn claim_allowed(phase: RoundPhase, class: ItemClass, is_priority: bool) -> bool {
    match phase {
        RoundPhase::Phase0 => false,
        RoundPhase::PhaseI => class == ItemClass::B,
        RoundPhase::PhaseII => class == ItemClass::B || is_priority,
        RoundPhase::PhaseIII => true,
        RoundPhase::Settling => true,
        RoundPhase::Locked => false,
    }
}

/// Whether a claim on an item of class `class` is allowed in `phase`.
pub fn can_claim(phase: RoundPhase, class: ItemClass, is_priority: bool) -> (r: bool)
    ensures
        r == claim_allowed(phase, class, is_priority),
{
    match phase {
        RoundPhase::Phase0 => false,
        RoundPhase::PhaseI => class == ItemClass::B,
        RoundPhase::PhaseII => match class {
            ItemClass::B => true,
            ItemClass::A => is_priority,
        },
        RoundPhase::PhaseIII | RoundPhase::Settling => true,
        RoundPhase::Locked => false,
    }
}

/// Whether cancelling a claim on an item of class `class` is allowed in
/// `phase` (the same matrix as claiming).
pub fn can_cancel(phase: RoundPhase, class: ItemClass, is_priority: bool) -> (r: bool)
    ensures
        r == claim_allowed(phase, class, is_priority),
{
    can_claim(phase, class, is_priority)
}

/// Nothing may be claimed or cancelled while a round is locked or before it opens.
pub proof fn locked_and_unopened_rounds_refuse_everything(class: ItemClass, is_priority: bool)
    ensures
        !claim_allowed(RoundPhase::Locked, class, is_priority),
        !claim_allowed(RoundPhase::Phase0, class, is_priority),
{
}

/// Priority only ever widens permissions: whatever a regular member may do in a
/// phase, a priority member may do too.
pub proof fn priority_never_restricts(phase: RoundPhase, class: ItemClass)
    ensures
        claim_allowed(phase, class, false) ==> claim_allowed(phase, class, true),
{
}

/// Phase III ("everyone may modify") and settling let everyone claim or
/// cancel anything, whatever the item's class and the member's priority.
pub proof fn late_phases_let_everyone_claim(class: ItemClass, is_priority: bool)
    ensures
        claim_allowed(RoundPhase::PhaseIII, class, is_priority),
        claim_allowed(RoundPhase::Settling, class, is_priority),
{
}

/// Phase I admits class B items only, for everyone; phase II admits class B
/// items for everyone and class A items for priority members only.
pub proof fn early_phases_follow_item_class(is_priority: bool)
    ensures
        claim_allowed(RoundPhase::PhaseI, ItemClass::B, is_priority),
        !claim_allowed(RoundPhase::PhaseI, ItemClass::A, is_priority),
        claim_allowed(RoundPhase::PhaseII, ItemClass::B, is_priority),
        claim_allowed(RoundPhase::PhaseII, ItemClass::A, is_priority) == is_priority,
{
}

} // verus!
