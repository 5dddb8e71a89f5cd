//! Alias suggestions from the model for the whole catalogue in one request:
//! what is asked, and which of the model's suggestions are kept (only the
//! requested items, in request order, with their aliases trimmed and
//! de-duplicated). Any failure degrades to an empty answer.
use vstd::prelude::*;

use crate::text::{
    ascii_lower, chars_eq, chars_of, lower_ascii, owned, string_of, trim, trim_chars, views,
};

verus! {

/// An item of the request: id, name and current aliases.
pub struct AliasSuggestItem {
    pub item_id: String,
    pub name: String,
    pub aliases: Vec<String>,
}

/// The request: the items, and the mode (only `aliases`).
pub struct SuggestAliasesBody {
    pub items: Vec<AliasSuggestItem>,
    pub mode: Option<String>,
}

/// One suggestion as the model wrote it.
pub struct LlmAliasSuggestion {
    pub item_id: Option<String>,
    pub aliases: Vec<String>,
    pub verdict: Option<String>,
}

/// A kept suggestion: the requested item, its aliases, and whether the model
/// judged them the best (`best`) or only filled them in (`filled`).
pub struct AliasSuggestion {
    pub item_id: String,
    pub aliases: Vec<String>,
    pub verdict: &'static str,
}

// ---------------------------------------------------------------------------
// The request
// ---------------------------------------------------------------------------
/// What becomes of a request before the model is asked.
pub enum AliasPlan {
    /// Answer `degraded` with this message.
    Degraded(String),
    /// Nothing to suggest for: answer with no suggestions.
    NoItems,
    /// Ask the model.
    Ask,
}

/// A request names a mode other than `aliases` (in any ASCII case) when its
/// trimmed mode is not blank and differs from it.
pub open spec fn unsupported_mode(mode: Option<String>) -> bool {
    match mode {
        Some(m) => trim(m@).len() > 0 && ascii_lower(trim(m@)) != "aliases"@,
        None => false,
    }
}

/// The plan of a request: an unsupported mode degrades with
/// `不支持的 mode：<mode>`; no items gives no suggestions; else the model is asked.
pub fn alias_plan(body: &SuggestAliasesBody) -> (r: AliasPlan)
    ensures
        unsupported_mode(body.mode) ==> (r matches AliasPlan::Degraded(m) && m@ == "不支持的 mode："@
            + trim(body.mode->0@)),
        !unsupported_mode(body.mode) && body.items@.len() == 0 ==> r is NoItems,
        !unsupported_mode(body.mode) && body.items@.len() > 0 ==> r is Ask,
{
    if let Some(m) = &body.mode {
        let t = trim_chars(&chars_of(m.as_str()));
        if t.len() > 0 && !chars_eq(&lower_ascii(&t), &chars_of("aliases")) {
            let mut msg = chars_of("不支持的 mode：");
            crate::text::append_chars(&mut msg, &t);
            return AliasPlan::Degraded(string_of(&msg));
        }
    }
    if body.items.len() == 0 {
        AliasPlan::NoItems
    } else {
        AliasPlan::Ask
    }
}

// ---------------------------------------------------------------------------
// Keeping suggestions
// ---------------------------------------------------------------------------
/// The aliases trimmed, without blanks, each kept once (first occurrence).
pub open spec fn dedupe(s: Seq<Seq<char>>) -> Seq<Seq<char>>
    decreases s.len(),
{
    if s.len() == 0 {
        Seq::empty()
    } else {
        let d = dedupe(s.drop_last());
        let t = trim(s.last());
        if t.len() == 0 || d.contains(t) {
            d
        } else {
            d.push(t)
        }
    }
}

/// The aliases trimmed, without blanks and duplicates, in order.
pub fn dedupe_aliases(aliases: &[String]) -> (r: Vec<String>)
    ensures
        views(r@) == dedupe(views(aliases@)),
{
    let mut out: Vec<String> = Vec::new();
    let mut i: usize = 0;
    while i < aliases.len()
        invariant
            i <= aliases@.len(),
            views(out@) == dedupe(views(aliases@.take(i as int))),
        decreases aliases@.len() - i,
    {
        proof {
            assert(views(aliases@.take(i + 1)).drop_last() =~= views(aliases@.take(i as int)));
            assert(views(aliases@.take(i + 1)).last() == aliases@[i as int]@);
        }
        let t = trim_chars(&chars_of(aliases[i].as_str()));
        if t.len() > 0 {
            let mut seen = false;
            let mut k: usize = 0;
            while k < out.len()
                invariant
                    k <= out@.len(),
                    !seen ==> forall|j: int| 0 <= j < k ==> out@[j]@ != t@,
                    seen ==> views(out@).contains(t@),
                decreases out@.len() - k,
            {
                if !seen && chars_eq(&chars_of(out[k].as_str()), &t) {
                    seen = true;
                    assert(views(out@)[k as int] == t@);
                }
                k = k + 1;
            }
            if !seen {
                assert(!views(out@).contains(t@)) by {
                    if views(out@).contains(t@) {
                        let j = choose|j: int| 0 <= j < views(out@).len() && views(out@)[j] == t@;
                        assert(out@[j]@ == t@);
                    }
                }
                let ghost before = views(out@);
                out.push(string_of(&t));
                assert(views(out@) =~= before.push(t@));
            }
        }
        i = i + 1;
    }
    assert(aliases@.take(aliases@.len() as int) =~= aliases@);
    out
}

/// Whether a verdict, trimmed and in ASCII lower case, is `best`.
pub open spec fn is_best(v: Option<String>) -> bool {
    match v {
        Some(x) => ascii_lower(trim(x@)) == "best"@,
        None => false,
    }
}

/// The suggestion is for the item with the trimmed id `target`.
pub open spec fn names_item(s: LlmAliasSuggestion, target: Seq<char>) -> bool {
    s.item_id matches Some(x) && trim(x@) == target
}

/// Index of the first suggestion for `target`, or -1.
pub open spec fn suggestion_index(out: Seq<LlmAliasSuggestion>, target: Seq<char>) -> int
    decreases out.len(),
{
    if out.len() == 0 {
        -1
    } else if suggestion_index(out.drop_last(), target) >= 0 {
        suggestion_index(out.drop_last(), target)
    } else if names_item(out.last(), target) {
        out.len() - 1
    } else {
        -1
    }
}

/// The suggestion used for the request item at `idx`: the first one naming
/// it, else the one at the same position when that names no item, else none (-1).
pub open spec fn chosen(out: Seq<LlmAliasSuggestion>, item: AliasSuggestItem, idx: int) -> int {
    let k = suggestion_index(out, trim(item.item_id@));
    if k >= 0 {
        k
    } else if 0 <= idx < out.len() && out[idx].item_id is None {
        idx
    } else {
        -1
    }
}

/// A kept suggestion as plain values: item id, aliases, verdict text.
pub type KeptV = (Seq<char>, Seq<Seq<char>>, Seq<char>);

/// The view of a kept suggestion.
pub open spec fn kept_view(s: AliasSuggestion) -> KeptV {
    (s.item_id@, views(s.aliases@), s.verdict@)
}

/// The verdict reported: `best` for a best verdict, `filled` otherwise.
pub open spec fn verdict_text(best: bool) -> Seq<char> {
    if best {
        "best"@
    } else {
        "filled"@
    }
}

/// The suggestions kept for the first `n` request items, in request order:
/// for each item with a chosen suggestion, its aliases (or the item's own
/// when the suggestion gives none) de-duplicated, unless the verdict is not
/// `best` and no alias remains; the verdict reads `best` or `filled`.
pub open spec fn kept(out: Seq<LlmAliasSuggestion>, items: Seq<AliasSuggestItem>, n: int) -> Seq<KeptV>
    decreases n,
{
    if n <= 0 {
        Seq::empty()
    } else {
        let prev = kept(out, items, n - 1);
        let item = items[n - 1];
        let k = chosen(out, item, n - 1);
        if k < 0 {
            prev
        } else {
            let best = is_best(out[k].verdict);
            let source = if out[k].aliases@.len() == 0 {
                views(item.aliases@)
            } else {
                views(out[k].aliases@)
            };
            let aliases = dedupe(source);
            if !best && aliases.len() == 0 {
                prev
            } else {
                prev.push((item.item_id@, aliases, verdict_text(best)))
            }
        }
    }
}

proof fn lemma_suggestion_index(out: Seq<LlmAliasSuggestion>, target: Seq<char>, i: int)
    requires
        0 <= i <= out.len(),
        forall|j: int| 0 <= j < i ==> !names_item(#[trigger] out[j], target),
    ensures
        i < out.len() && names_item(out[i], target) ==> suggestion_index(out, target) == i,
        i == out.len() ==> suggestion_index(out, target) == -1,
    decreases out.len() - i,
{
    if i < out.len() {
        if names_item(out[i], target) {
            lemma_suggestion_index_first(out, target, i);
        } else {
            lemma_suggestion_index(out, target, i + 1);
        }
    } else if out.len() > 0 {
        lemma_suggestion_index_none(out, target);
    }
}

proof fn lemma_suggestion_index_none(out: Seq<LlmAliasSuggestion>, target: Seq<char>)
    requires
        forall|j: int| 0 <= j < out.len() ==> !names_item(#[trigger] out[j], target),
    ensures
        suggestion_index(out, target) == -1,
    decreases out.len(),
{
    if out.len() > 0 {
        let d = out.drop_last();
        assert forall|j: int| 0 <= j < d.len() implies !names_item(#[trigger] d[j], target) by {
            assert(d[j] == out[j]);
        }
        lemma_suggestion_index_none(d, target);
    }
}

proof fn lemma_suggestion_index_first(out: Seq<LlmAliasSuggestion>, target: Seq<char>, i: int)
    requires
        0 <= i < out.len(),
        names_item(out[i], target),
        forall|j: int| 0 <= j < i ==> !names_item(#[trigger] out[j], target),
    ensures
        suggestion_index(out, target) == i,
    decreases out.len() - i,
{
    if i < out.len() - 1 {
        let d = out.drop_last();
        assert(d[i] == out[i]);
        assert forall|j: int| 0 <= j < i implies !names_item(#[trigger] d[j], target) by {
            assert(d[j] == out[j]);
        }
        lemma_suggestion_index_first(d, target, i);
    } else {
        let d = out.drop_last();
        assert forall|j: int| 0 <= j < d.len() implies !names_item(#[trigger] d[j], target) by {
            assert(d[j] == out[j]);
        }
        lemma_suggestion_index_none(d, target);
    }
}

/// The suggestion chosen for the request item at `idx` (see `chosen`).
fn choose_suggestion(out: &[LlmAliasSuggestion], item: &AliasSuggestItem, idx: usize) -> (r: Option<usize>)
    ensures
        match r {
            Some(k) => k < out@.len() && chosen(out@, *item, idx as int) == k,
            None => chosen(out@, *item, idx as int) == -1,
        },
{
    let target = trim_chars(&chars_of(item.item_id.as_str()));
    let mut j: usize = 0;
    while j < out.len()
        invariant
            j <= out@.len(),
            target@ == trim(item.item_id@),
            forall|q: int| 0 <= q < j ==> !names_item(#[trigger] out@[q], target@),
        decreases out@.len() - j,
    {
        let hit = match &out[j].item_id {
            Some(x) => chars_eq(&trim_chars(&chars_of(x.as_str())), &target),
            None => false,
        };
        if hit {
            proof {
                lemma_suggestion_index(out@, target@, j as int);
            }
            return Some(j);
        }
        j = j + 1;
    }
    proof {
        lemma_suggestion_index(out@, target@, j as int);
    }
    if idx < out.len() && out[idx].item_id.is_none() {
        Some(idx)
    } else {
        None
    }
}

/// Whether a verdict is `best` (see `is_best`).
fn verdict_is_best(v: &Option<String>) -> (r: bool)
    ensures
        r == is_best(*v),
{
    match v {
        Some(x) => {
            let t = lower_ascii(&trim_chars(&chars_of(x.as_str())));
            chars_eq(&t, &chars_of("best"))
        },
        None => false,
    }
}

/// The model's suggestions kept for the request (see `kept`); `None` when
/// none is kept.
pub fn keep_suggestions(out: &[LlmAliasSuggestion], items: &[AliasSuggestItem]) -> (r: Option<Vec<AliasSuggestion>>)
    ensures
        match r {
            Some(v) => v@.len() > 0 && v@.map_values(|s: AliasSuggestion| kept_view(s)) == kept(
                out@,
                items@,
                items@.len() as int,
            ),
            None => kept(out@, items@, items@.len() as int).len() == 0,
        },
{
    let mut result: Vec<AliasSuggestion> = Vec::new();
    let mut i: usize = 0;
    while i < items.len()
        invariant
            i <= items@.len(),
            result@.map_values(|s: AliasSuggestion| kept_view(s)) == kept(out@, items@, i as int),
        decreases items@.len() - i,
    {
        let item = &items[i];
        match choose_suggestion(out, item, i) {
            Some(k) => {
                let best = verdict_is_best(&out[k].verdict);
                let aliases = if out[k].aliases.len() == 0 {
                    dedupe_aliases(item.aliases.as_slice())
                } else {
                    dedupe_aliases(out[k].aliases.as_slice())
                };
                if best || aliases.len() > 0 {
                    let ghost before = result@.map_values(|s: AliasSuggestion| kept_view(s));
                    let verdict: &'static str = if best {
                        "best"
                    } else {
                        "filled"
                    };
                    result.push(AliasSuggestion { item_id: item.item_id.clone(), aliases, verdict });
                    assert(result@.map_values(|s: AliasSuggestion| kept_view(s)) =~= before.push(
                        kept(out@, items@, i + 1).last(),
                    ));
                }
            },
            None => {},
        }
        i = i + 1;
    }
    if result.len() > 0 {
        Some(result)
    } else {
        None
    }
}

/// De-duplicated aliases are non-blank, trimmed, and distinct.
pub proof fn dedupe_is_clean(s: Seq<Seq<char>>)
    ensures
        forall|i: int| 0 <= i < dedupe(s).len() ==> (#[trigger] dedupe(s)[i]).len() > 0,
        forall|i: int, j: int| 0 <= i < j < dedupe(s).len() ==> dedupe(s)[i] != dedupe(s)[j],
    decreases s.len(),
{
    if s.len() > 0 {
        dedupe_is_clean(s.drop_last());
        let d = dedupe(s.drop_last());
        let t = trim(s.last());
        if !(t.len() == 0 || d.contains(t)) {
            assert forall|i: int, j: int| 0 <= i < j < d.push(t).len() implies d.push(t)[i] != d.push(t)[j] by {
                if j == d.len() {
                    assert(d.push(t)[i] == d[i]);
                    if d[i] == t {
                        assert(d.contains(t));
                    }
                }
            }
        }
    }
}

} // verus!
