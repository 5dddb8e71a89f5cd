//! Claims that name only a variant (a character) and not its item: the
//! first-match pass over the catalogue, and what is done when lines stay
//! unresolved — ask the model to clarify, or fall back.
use vstd::prelude::*;

use crate::domain::{ItemId, RoundContext, RoundId};
use crate::parser::alias_match::{first_match, first_match_of};
use crate::parser::parsed_event::{ParsedClaimItem, ParsedMessage};
use crate::settings::AppConfig;
use crate::text::{opt_view, str_eq, views};

verus! {

/// The outcome of resolving bare variant names.
pub enum BareVariantOutcome {
    /// Every line resolved (also after a clarification).
    Resolved(ParsedMessage),
    /// Clarification failed and falling back to rules is allowed: the
    /// message is ignored as no claim.
    FallbackIgnore,
    /// Clarification failed without fallback: the message is refused.
    FallbackReject,
}

/// The fallback when clarification fails.
pub fn fallback(fallback_to_rules: bool) -> (r: BareVariantOutcome)
    ensures
        fallback_to_rules ==> r is FallbackIgnore,
        !fallback_to_rules ==> r is FallbackReject,
{
    if fallback_to_rules {
        BareVariantOutcome::FallbackIgnore
    } else {
        BareVariantOutcome::FallbackReject
    }
}

/// A claim line after the first-match pass: an unresolved line whose name
/// first-matches the catalogue takes that round, item and variant.
pub open spec fn after_first_match(p: ParsedClaimItem, rounds: Seq<RoundContext>) -> ParsedClaimItem {
    if p.resolved_item_id is Some {
        p
    } else {
        match first_match_of(p.name@, rounds) {
            Some((rid, iid, vid)) => ParsedClaimItem {
                resolved_round_id: Some(rid.0),
                resolved_item_id: Some(iid.0),
                resolved_variant_id: vid,
                ..p
            },
            None => p,
        }
    }
}

/// The names of the lines the first-match pass leaves unresolved, in order.
pub open spec fn unmatched_names(items: Seq<ParsedClaimItem>, rounds: Seq<RoundContext>) -> Seq<Seq<char>>
    decreases items.len(),
{
    if items.len() == 0 {
        Seq::empty()
    } else {
        let prev = unmatched_names(items.drop_last(), rounds);
        let p = items.last();
        if p.resolved_item_id is None && first_match_of(p.name@, rounds) is None {
            prev.push(p.name@)
        } else {
            prev
        }
    }
}

/// The first-match pass: every unresolved line resolved by first match
/// where possible; gives the names still unresolved.
pub fn first_match_pass(parsed: ParsedMessage, rounds: &[RoundContext]) -> (r: (ParsedMessage, Vec<String>))
    ensures
        r.0.intent == parsed.intent,
        r.0.round_hint == parsed.round_hint,
        r.0.cancel_target_hint == parsed.cancel_target_hint,
        r.0.admin_command == parsed.admin_command,
        r.0.confidence_pct == parsed.confidence_pct,
        r.0.ambiguous_parts == parsed.ambiguous_parts,
        r.0.items@ == parsed.items@.map_values(|p: ParsedClaimItem| after_first_match(p, rounds@)),
        views(r.1@) == unmatched_names(parsed.items@, rounds@),
{
    let ghost all = parsed.items@;
    let mut parsed = parsed;
    let mut rest: Vec<ParsedClaimItem> = Vec::new();
    std::mem::swap(&mut rest, &mut parsed.items);
    let mut done: Vec<ParsedClaimItem> = Vec::new();
    let mut unresolved: Vec<String> = Vec::new();
    let ghost mut k: int = 0;
    while rest.len() > 0
        invariant
            0 <= k <= all.len(),
            rest@ == all.skip(k),
            done@ == all.take(k).map_values(|p: ParsedClaimItem| after_first_match(p, rounds@)),
            views(unresolved@) == unmatched_names(all.take(k), rounds@),
        decreases rest@.len(),
    {
        let mut pi = rest.remove(0);
        proof {
            assert(all[k] == pi);
            assert(all.take(k + 1).drop_last() =~= all.take(k));
            assert(all.skip(k).remove(0) =~= all.skip(k + 1));
        }
        let ghost before_u = views(unresolved@);
        if pi.resolved_item_id.is_none() {
            match first_match(pi.name.as_str(), rounds) {
                Some((rid, iid, vid)) => {
                    pi.resolved_round_id = Some(rid.0);
                    pi.resolved_item_id = Some(iid.0);
                    pi.resolved_variant_id = vid;
                },
                None => {
                    unresolved.push(pi.name.clone());
                    assert(views(unresolved@) =~= before_u.push(all[k].name@));
                },
            }
        }
        let ghost before_d = done@;
        done.push(pi);
        proof {
            assert(done@ =~= all.take(k + 1).map_values(|p: ParsedClaimItem| after_first_match(p, rounds@)));
            k = k + 1;
        }
    }
    proof {
        assert(all.take(k) =~= all);
    }
    parsed.items = done;
    (parsed, unresolved)
}

/// What to do about bare variant names before any model is asked.
pub enum BareVariantStep {
    /// Decided.
    Done(BareVariantOutcome),
    /// Ask the model to clarify these names of the (first-matched) message.
    Clarify { parsed: ParsedMessage, unresolved: Vec<String> },
}

/// The first steps of resolving bare variant names: a message with doubts
/// is kept as it is (it will ask for confirmation); otherwise the
/// first-match pass runs, and a message with no lines or nothing left
/// unresolved is resolved; else the model clarifies when enabled, and the
/// fallback applies when not.
pub fn bare_variant_step(cfg: &AppConfig, parsed: ParsedMessage, rounds: &[RoundContext]) -> (r: BareVariantStep)
    ensures
        parsed.ambiguous_parts@.len() > 0 ==> (r matches BareVariantStep::Done(BareVariantOutcome::Resolved(p)) && p == parsed),
        parsed.ambiguous_parts@.len() == 0 ==> {
            let items = parsed.items@.map_values(|p: ParsedClaimItem| after_first_match(p, rounds@));
            let names = unmatched_names(parsed.items@, rounds@);
            if parsed.items@.len() == 0 || names.len() == 0 {
                r matches BareVariantStep::Done(BareVariantOutcome::Resolved(p)) && p.items@ == items
                    && p.intent == parsed.intent && p.confidence_pct == parsed.confidence_pct
            } else if !cfg.llm.enabled {
                r matches BareVariantStep::Done(o) && (cfg.llm.fallback_to_rules ==> o is FallbackIgnore)
                    && (!cfg.llm.fallback_to_rules ==> o is FallbackReject)
            } else {
                r matches BareVariantStep::Clarify { parsed: p, unresolved: u } && p.items@ == items
                    && views(u@) == names
            }
        },
{
    if parsed.ambiguous_parts.len() > 0 {
        return BareVariantStep::Done(BareVariantOutcome::Resolved(parsed));
    }
    let (p, unresolved) = first_match_pass(parsed, rounds);
    if p.items.len() == 0 || unresolved.len() == 0 {
        return BareVariantStep::Done(BareVariantOutcome::Resolved(p));
    }
    if !cfg.llm.enabled {
        return BareVariantStep::Done(fallback(cfg.llm.fallback_to_rules));
    }
    BareVariantStep::Clarify { parsed: p, unresolved }
}

// ---------------------------------------------------------------------------
// The model's clarification
// ---------------------------------------------------------------------------
/// One clarified name: the name, and the item and variant it means.
pub struct LlmClarifyMatch {
    pub name: Option<String>,
    pub item: Option<String>,
    pub variant: Option<String>,
}

/// The model's clarification: a match per name, or one item and variant.
pub struct LlmClarify {
    pub matches: Vec<LlmClarifyMatch>,
    pub item: Option<String>,
    pub variant: Option<String>,
}

/// Index of the first match for `name`, or -1.
pub open spec fn match_index(ms: Seq<LlmClarifyMatch>, name: Seq<char>) -> int
    decreases ms.len(),
{
    if ms.len() == 0 {
        -1
    } else if match_index(ms.drop_last(), name) >= 0 {
        match_index(ms.drop_last(), name)
    } else if opt_view(ms.last().name) == Some(name) {
        ms.len() - 1
    } else {
        -1
    }
}

/// The item and variant the clarification gives for the `index`-th
/// unresolved name: the match naming it, else the match at that position,
/// else (for the first name) the top-level item and variant.
pub open spec fn answer_of(c: LlmClarify, index: int, name: Seq<char>) -> Option<(Option<String>, Option<String>)> {
    let k = match_index(c.matches@, name);
    if k >= 0 {
        Some((c.matches@[k].item, c.matches@[k].variant))
    } else if 0 <= index < c.matches@.len() {
        Some((c.matches@[index].item, c.matches@[index].variant))
    } else if index == 0 && (c.item is Some || c.variant is Some) {
        Some((c.item, c.variant))
    } else {
        None
    }
}

proof fn lemma_match_index(ms: Seq<LlmClarifyMatch>, name: Seq<char>)
    ensures
        -1 <= match_index(ms, name) < ms.len(),
        match_index(ms, name) >= 0 ==> opt_view(ms[match_index(ms, name)].name) == Some(name),
        match_index(ms, name) < 0 ==> forall|q: int| 0 <= q < ms.len() ==> opt_view(#[trigger] ms[q].name) != Some(name),
    decreases ms.len(),
{
    if ms.len() > 0 {
        lemma_match_index(ms.drop_last(), name);
        assert forall|q: int| 0 <= q < ms.len() - 1 implies ms[q] == ms.drop_last()[q] by {}
    }
}

proof fn lemma_match_index_first(ms: Seq<LlmClarifyMatch>, name: Seq<char>, i: int)
    requires
        0 <= i < ms.len(),
        opt_view(ms[i].name) == Some(name),
        forall|q: int| 0 <= q < i ==> opt_view(#[trigger] ms[q].name) != Some(name),
    ensures
        match_index(ms, name) == i,
{
    lemma_match_index(ms, name);
    let j = match_index(ms, name);
    assert(j >= 0);
    if j < i {
        assert(opt_view(ms[j].name) != Some(name));
    }
    if j > i {
        lemma_match_index_prefix(ms, name, i);
    }
}

proof fn lemma_match_index_prefix(ms: Seq<LlmClarifyMatch>, name: Seq<char>, i: int)
    requires
        0 <= i < ms.len(),
        opt_view(ms[i].name) == Some(name),
    ensures
        0 <= match_index(ms, name) <= i,
    decreases ms.len(),
{
    if i < ms.len() - 1 {
        assert(ms.drop_last()[i] == ms[i]);
        lemma_match_index_prefix(ms.drop_last(), name, i);
    } else {
        lemma_match_index(ms.drop_last(), name);
    }
}

impl LlmClarify {
    /// The item and variant given for the `index`-th unresolved `name`
    /// (see `answer_of`).
    pub fn answer_for(&self, index: usize, name: &str) -> (r: Option<(Option<String>, Option<String>)>)
        ensures
            match answer_of(*self, index as int, name@) {
                Some((i, v)) => r matches Some((a, b)) && opt_view(a) == opt_view(i) && opt_view(b)
                    == opt_view(v),
                None => r is None,
            },
    {
        let mut k: usize = 0;
        while k < self.matches.len()
            invariant
                k <= self.matches@.len(),
                forall|q: int| 0 <= q < k ==> opt_view(#[trigger] self.matches@[q].name) != Some(name@),
            decreases self.matches@.len() - k,
        {
            let hit = match &self.matches[k].name {
                Some(n) => str_eq(n.as_str(), name),
                None => false,
            };
            if hit {
                proof {
                    lemma_match_index_first(self.matches@, name@, k as int);
                }
                let m = &self.matches[k];
                return Some((crate::text::clone_opt(&m.item), crate::text::clone_opt(&m.variant)));
            }
            k = k + 1;
        }
        proof {
            lemma_match_index(self.matches@, name@);
            if match_index(self.matches@, name@) >= 0 {
                let j = match_index(self.matches@, name@);
                assert(opt_view(self.matches@[j].name) != Some(name@));
            }
        }
        if index < self.matches.len() {
            let m = &self.matches[index];
            return Some((crate::text::clone_opt(&m.item), crate::text::clone_opt(&m.variant)));
        }
        if index == 0 && (self.item.is_some() || self.variant.is_some()) {
            return Some((crate::text::clone_opt(&self.item), crate::text::clone_opt(&self.variant)));
        }
        None
    }
}

/// Index of the first still-unresolved line named `name`, or -1.
pub open spec fn open_line(items: Seq<ParsedClaimItem>, name: Seq<char>) -> int
    decreases items.len(),
{
    if items.len() == 0 {
        -1
    } else if open_line(items.drop_last(), name) >= 0 {
        open_line(items.drop_last(), name)
    } else if items.last().resolved_item_id is None && items.last().name@ == name {
        items.len() - 1
    } else {
        -1
    }
}

proof fn lemma_open_line(items: Seq<ParsedClaimItem>, name: Seq<char>, i: int)
    requires
        0 <= i <= items.len(),
        forall|q: int| 0 <= q < i ==> !(#[trigger] items[q].resolved_item_id is None && items[q].name@ == name),
    ensures
        i < items.len() && items[i].resolved_item_id is None && items[i].name@ == name ==> open_line(items, name) == i,
        i == items.len() ==> open_line(items, name) == -1,
    decreases items.len(),
{
    if items.len() > 0 {
        let d = items.drop_last();
        if i < items.len() {
            if i < items.len() - 1 {
                assert forall|q: int| 0 <= q < i implies !(#[trigger] d[q].resolved_item_id is None && d[q].name@ == name) by {
                    assert(d[q] == items[q]);
                }
                assert(d[i] == items[i]);
                lemma_open_line(d, name, i);
            } else {
                assert forall|q: int| 0 <= q < d.len() implies !(#[trigger] d[q].resolved_item_id is None && d[q].name@ == name) by {
                    assert(d[q] == items[q]);
                }
                lemma_open_line(d, name, d.len() as int);
            }
        } else {
            assert forall|q: int| 0 <= q < d.len() implies !(#[trigger] d[q].resolved_item_id is None && d[q].name@ == name) by {
                assert(d[q] == items[q]);
            }
            lemma_open_line(d, name, d.len() as int);
        }
    }
}

/// Records a clarified resolution on the first still-unresolved line named
/// `name`; `false` (nothing changed) when there is none.
pub fn apply_clarified(parsed: &mut ParsedMessage, name: &str, round_id: RoundId, item_id: ItemId, variant_id: Option<String>) -> (found: bool)
    ensures
        found == (open_line(old(parsed).items@, name@) >= 0),
        final(parsed).intent == old(parsed).intent,
        final(parsed).confidence_pct == old(parsed).confidence_pct,
        final(parsed).ambiguous_parts == old(parsed).ambiguous_parts,
        !found ==> final(parsed).items@ == old(parsed).items@,
        found ==> {
            let k = open_line(old(parsed).items@, name@);
            let p = old(parsed).items@[k];
            final(parsed).items@ == old(parsed).items@.update(
                k,
                ParsedClaimItem {
                    resolved_round_id: Some(round_id.0),
                    resolved_item_id: Some(item_id.0),
                    resolved_variant_id: variant_id,
                    ..p
                },
            )
        },
{
    let mut k: usize = 0;
    while k < parsed.items.len()
        invariant
            k <= parsed.items@.len(),
            *parsed == *old(parsed),
            forall|q: int| 0 <= q < k ==> !(#[trigger] parsed.items@[q].resolved_item_id is None && parsed.items@[q].name@ == name@),
        decreases parsed.items@.len() - k,
    {
        if parsed.items[k].resolved_item_id.is_none() && str_eq(parsed.items[k].name.as_str(), name) {
            proof {
                lemma_open_line(parsed.items@, name@, k as int);
            }
            let mut items: Vec<ParsedClaimItem> = Vec::new();
            std::mem::swap(&mut items, &mut parsed.items);
            let mut pi = items.remove(k);
            pi.resolved_round_id = Some(round_id.0);
            pi.resolved_item_id = Some(item_id.0);
            pi.resolved_variant_id = variant_id;
            items.insert(k, pi);
            parsed.items = items;
            proof {
                assert(parsed.items@ =~= old(parsed).items@.update(k as int, pi));
            }
            return true;
        }
        k = k + 1;
    }
    proof {
        lemma_open_line(parsed.items@, name@, k as int);
    }
    false
}

} // verus!
