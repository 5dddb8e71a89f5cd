//! Who claimed what: the board's member summaries grouped by display name,
//! each with the items claimed and their quantities.
use vstd::prelude::*;

use crate::domain::{AllocationSnapshot, UserItemLine, UserSummary};
use crate::text::{chars_lt, owned, chars_of, lemma_seq_lt_irreflexive, lemma_seq_lt_total, lemma_seq_lt_transitive, seq_lt, str_eq, strictly_sorted};

verus! {

/// A member's summary as shown: display name, identity, and the claimed
/// `(item name, quantity)` lines.
pub struct SenderLines {
    pub display: String,
    pub identity: String,
    pub items: Vec<(String, u32)>,
}

/// One display name with what it claimed: the identity of its first summary,
/// and each item name once with the total quantity.
pub struct WhoWhat {
    pub display: String,
    pub identity: String,
    pub items: Vec<(String, u32)>,
}

// ---------------------------------------------------------------------------
// Specifications
// ---------------------------------------------------------------------------
/// The item names of the lines.
pub open spec fn line_keys(ls: Seq<(String, u32)>) -> Seq<Seq<char>> {
    ls.map_values(|l: (String, u32)| l.0@)
}

/// Total quantity of the lines named `n`.
pub open spec fn lines_total(ls: Seq<(String, u32)>, n: Seq<char>) -> int
    decreases ls.len(),
{
    if ls.len() == 0 {
        0
    } else {
        lines_total(ls.drop_last(), n) + if ls.last().0@ == n {
            ls.last().1 as int
        } else {
            0
        }
    }
}

/// Some line is named `n`.
pub open spec fn has_name(ls: Seq<(String, u32)>, n: Seq<char>) -> bool {
    exists|i: int| 0 <= i < ls.len() && ls[i].0@ == n
}

/// Total quantity of item `n` over the summaries shown as `d`.
pub open spec fn display_total(es: Seq<SenderLines>, d: Seq<char>, n: Seq<char>) -> int
    decreases es.len(),
{
    if es.len() == 0 {
        0
    } else {
        display_total(es.drop_last(), d, n) + if es.last().display@ == d {
            lines_total(es.last().items@, n)
        } else {
            0
        }
    }
}

/// Some summary is shown as `d`.
pub open spec fn has_display(es: Seq<SenderLines>, d: Seq<char>) -> bool {
    exists|k: int| 0 <= k < es.len() && es[k].display@ == d
}

/// Some summary shown as `d` has a line named `n`.
pub open spec fn claims_name(es: Seq<SenderLines>, d: Seq<char>, n: Seq<char>) -> bool {
    exists|k: int| 0 <= k < es.len() && es[k].display@ == d && has_name(es[k].items@, n)
}

/// The identity of the first summary shown as `d`.
pub open spec fn first_identity(es: Seq<SenderLines>, d: Seq<char>) -> Seq<char>
    decreases es.len(),
{
    if es.len() == 0 {
        Seq::empty()
    } else if has_display(es.drop_last(), d) {
        first_identity(es.drop_last(), d)
    } else {
        es.last().identity@
    }
}

/// The display names of the groups.
pub open spec fn group_keys(gs: Seq<WhoWhat>) -> Seq<Seq<char>> {
    gs.map_values(|g: WhoWhat| g.display@)
}

/// A group's items: each name once, in increasing order, with the total of
/// the summaries shown as its display name.
pub open spec fn items_of(es: Seq<SenderLines>, d: Seq<char>, ls: Seq<(String, u32)>) -> bool {
    &&& strictly_sorted(line_keys(ls))
    &&& forall|n: Seq<char>| #[trigger] has_name(ls, n) == claims_name(es, d, n)
    &&& forall|n: Seq<char>| #[trigger] lines_total(ls, n) == display_total(es, d, n)
}

/// The grouping: one group per display name, in increasing order, with the
/// identity of its first summary and its items (see `items_of`).
pub open spec fn grouped(es: Seq<SenderLines>, gs: Seq<WhoWhat>) -> bool {
    &&& strictly_sorted(group_keys(gs))
    &&& forall|d: Seq<char>| has_display(es, d) == (exists|j: int| 0 <= j < gs.len() && #[trigger] gs[j].display@ == d)
    &&& forall|j: int|
        0 <= j < gs.len() ==> (#[trigger] gs[j]).identity@ == first_identity(es, gs[j].display@)
            && items_of(es, gs[j].display@, gs[j].items@)
}

// ---------------------------------------------------------------------------
// Lemmas
// ---------------------------------------------------------------------------
proof fn lemma_lines_total_concat(a: Seq<(String, u32)>, b: Seq<(String, u32)>, n: Seq<char>)
    ensures
        lines_total(a + b, n) == lines_total(a, n) + lines_total(b, n),
    decreases b.len(),
{
    if b.len() == 0 {
        assert(a + b =~= a);
    } else {
        lemma_lines_total_concat(a, b.drop_last(), n);
        assert((a + b).drop_last() =~= a + b.drop_last());
    }
}

proof fn lemma_lines_total_nonneg(a: Seq<(String, u32)>, n: Seq<char>)
    ensures
        lines_total(a, n) >= 0,
    decreases a.len(),
{
    if a.len() > 0 {
        lemma_lines_total_nonneg(a.drop_last(), n);
    }
}

proof fn lemma_lines_total_absent(a: Seq<(String, u32)>, n: Seq<char>)
    requires
        !has_name(a, n),
    ensures
        lines_total(a, n) == 0,
    decreases a.len(),
{
    if a.len() > 0 {
        assert(!has_name(a.drop_last(), n)) by {
            if has_name(a.drop_last(), n) {
                let i = choose|i: int| 0 <= i < a.drop_last().len() && a.drop_last()[i].0@ == n;
                assert(a[i].0@ == n);
            }
        }
        lemma_lines_total_absent(a.drop_last(), n);
        assert(a.last().0@ != n) by {
            if a.last().0@ == n {
                assert(a[a.len() - 1].0@ == n);
            }
        }
    }
}

proof fn lemma_lines_total_single(x: (String, u32), n: Seq<char>)
    ensures
        lines_total(seq![x], n) == if x.0@ == n {
            x.1 as int
        } else {
            0
        },
{
    let s = seq![x];
    assert(s.drop_last() =~= Seq::<(String, u32)>::empty());
    assert(s.last() == x);
    assert(lines_total(s.drop_last(), n) == 0);
}

/// Lines with distinct names: the total of a present name is its line's quantity.
proof fn lemma_lines_total_at(a: Seq<(String, u32)>, j: int)
    requires
        0 <= j < a.len(),
        strictly_sorted(line_keys(a)),
    ensures
        lines_total(a, a[j].0@) == a[j].1 as int,
{
    let n = a[j].0@;
    let l = a.take(j);
    let r = a.skip(j + 1);
    assert(a =~= l + seq![a[j]] + r);
    assert(!has_name(l, n)) by {
        if has_name(l, n) {
            let i = choose|i: int| 0 <= i < l.len() && l[i].0@ == n;
            assert(line_keys(a)[i] == n && line_keys(a)[j] == n);
            lemma_seq_lt_irreflexive(n);
        }
    }
    assert(!has_name(r, n)) by {
        if has_name(r, n) {
            let i = choose|i: int| 0 <= i < r.len() && r[i].0@ == n;
            assert(r[i] == a[j + 1 + i]);
            assert(line_keys(a)[j + 1 + i] == n && line_keys(a)[j] == n);
            lemma_seq_lt_irreflexive(n);
        }
    }
    lemma_lines_total_absent(l, n);
    lemma_lines_total_absent(r, n);
    lemma_lines_total_concat(l + seq![a[j]], r, n);
    lemma_lines_total_concat(l, seq![a[j]], n);
    lemma_lines_total_single(a[j], n);
}

proof fn lemma_display_total_step(es: Seq<SenderLines>, k: int, d: Seq<char>, n: Seq<char>)
    requires
        0 <= k < es.len(),
    ensures
        display_total(es.take(k + 1), d, n) == display_total(es.take(k), d, n) + if es[k].display@ == d {
            lines_total(es[k].items@, n)
        } else {
            0
        },
{
    assert(es.take(k + 1).drop_last() =~= es.take(k));
}

proof fn lemma_display_total_grows(es: Seq<SenderLines>, k: int, d: Seq<char>, n: Seq<char>)
    requires
        0 <= k <= es.len(),
    ensures
        display_total(es.take(k), d, n) <= display_total(es, d, n),
    decreases es.len() - k,
{
    if k < es.len() {
        lemma_display_total_step(es, k, d, n);
        lemma_lines_total_nonneg(es[k].items@, n);
        lemma_display_total_grows(es, k + 1, d, n);
    } else {
        assert(es.take(k) =~= es);
    }
}

proof fn lemma_first_identity_step(es: Seq<SenderLines>, k: int, d: Seq<char>)
    requires
        0 <= k < es.len(),
    ensures
        first_identity(es.take(k + 1), d) == if has_display(es.take(k), d) {
            first_identity(es.take(k), d)
        } else {
            es[k].identity@
        },
{
    assert(es.take(k + 1).drop_last() =~= es.take(k));
}

// ---------------------------------------------------------------------------
// Sorted lists
// ---------------------------------------------------------------------------
/// Where `d` is or would go among the groups: `(true, j)` when group `j`
/// has it, else `(false, p)` with every earlier group before it and every
/// later one after it.
fn find_group(gs: &Vec<WhoWhat>, d: &String) -> (r: (bool, usize))
    requires
        strictly_sorted(group_keys(gs@)),
    ensures
        r.0 ==> r.1 < gs@.len() && gs@[r.1 as int].display@ == d@,
        !r.0 ==> r.1 <= gs@.len() && (forall|j: int| 0 <= j < r.1 ==> seq_lt(#[trigger] gs@[j].display@, d@))
            && (forall|j: int| r.1 <= j < gs@.len() ==> seq_lt(d@, #[trigger] gs@[j].display@)),
{
    let dv = chars_of(d.as_str());
    let mut j: usize = 0;
    while j < gs.len() && chars_lt(&chars_of(gs[j].display.as_str()), &dv)
        invariant
            j <= gs@.len(),
            dv@ == d@,
            forall|q: int| 0 <= q < j ==> seq_lt(#[trigger] gs@[q].display@, d@),
        decreases gs@.len() - j,
    {
        j = j + 1;
    }
    if j < gs.len() && str_eq(gs[j].display.as_str(), d.as_str()) {
        return (true, j);
    }
    proof {
        if j < gs@.len() {
            let x = gs@[j as int].display@;
            lemma_seq_lt_total(x, d@);
            assert forall|q: int| j <= q < gs@.len() implies seq_lt(d@, #[trigger] gs@[q].display@) by {
                if q > j {
                    assert(group_keys(gs@)[j as int] == x && group_keys(gs@)[q] == gs@[q].display@);
                    lemma_seq_lt_transitive(d@, x, gs@[q].display@);
                }
            }
        }
    }
    (false, j)
}

/// Where `n` is or would go among the lines (as `find_group`).
fn find_line(ls: &Vec<(String, u32)>, n: &String) -> (r: (bool, usize))
    requires
        strictly_sorted(line_keys(ls@)),
    ensures
        r.0 ==> r.1 < ls@.len() && ls@[r.1 as int].0@ == n@,
        !r.0 ==> r.1 <= ls@.len() && (forall|j: int| 0 <= j < r.1 ==> seq_lt(#[trigger] ls@[j].0@, n@))
            && (forall|j: int| r.1 <= j < ls@.len() ==> seq_lt(n@, #[trigger] ls@[j].0@)),
{
    let nv = chars_of(n.as_str());
    let mut j: usize = 0;
    while j < ls.len() && chars_lt(&chars_of(ls[j].0.as_str()), &nv)
        invariant
            j <= ls@.len(),
            nv@ == n@,
            forall|q: int| 0 <= q < j ==> seq_lt(#[trigger] ls@[q].0@, n@),
        decreases ls@.len() - j,
    {
        j = j + 1;
    }
    if j < ls.len() && str_eq(ls[j].0.as_str(), n.as_str()) {
        return (true, j);
    }
    proof {
        if j < ls@.len() {
            let x = ls@[j as int].0@;
            lemma_seq_lt_total(x, n@);
            assert forall|q: int| j <= q < ls@.len() implies seq_lt(n@, #[trigger] ls@[q].0@) by {
                if q > j {
                    assert(line_keys(ls@)[j as int] == x && line_keys(ls@)[q] == ls@[q].0@);
                    lemma_seq_lt_transitive(n@, x, ls@[q].0@);
                }
            }
        }
    }
    (false, j)
}

/// Adds `q` to the line named `n` (a new line when there is none).
fn add_line(ls: &mut Vec<(String, u32)>, n: &String, q: u32)
    requires
        strictly_sorted(line_keys(old(ls)@)),
        lines_total(old(ls)@, n@) + q <= u32::MAX,
    ensures
        strictly_sorted(line_keys(final(ls)@)),
        forall|m: Seq<char>| #[trigger] has_name(final(ls)@, m) == (has_name(old(ls)@, m) || m == n@),
        forall|m: Seq<char>|
            #[trigger] lines_total(final(ls)@, m) == lines_total(old(ls)@, m) + if m == n@ {
                q as int
            } else {
                0
            },
{
    let ghost s = ls@;
    let (found, j) = find_line(ls, n);
    if found {
        proof {
            lemma_lines_total_at(s, j as int);
        }
        let cur = ls[j].1;
        let name = ls[j].0.clone();
        let x = (name, cur + q);
        proof {
            let l = s.take(j as int);
            let r = s.skip(j + 1);
            assert(s =~= l + seq![s[j as int]] + r);
            assert(s.update(j as int, x) =~= l + seq![x] + r);
            assert forall|m: Seq<char>| #[trigger] lines_total(s.update(j as int, x), m) == lines_total(s, m) + if m == n@ {
                q as int
            } else {
                0
            } by {
                lemma_lines_total_concat(l + seq![s[j as int]], r, m);
                lemma_lines_total_concat(l, seq![s[j as int]], m);
                lemma_lines_total_concat(l + seq![x], r, m);
                lemma_lines_total_concat(l, seq![x], m);
                lemma_lines_total_single(s[j as int], m);
                lemma_lines_total_single(x, m);
            }
            assert(line_keys(s.update(j as int, x)) =~= line_keys(s));
            assert forall|m: Seq<char>| #[trigger] has_name(s.update(j as int, x), m) == (has_name(s, m) || m == n@) by {
                if has_name(s, m) {
                    let i = choose|i: int| 0 <= i < s.len() && s[i].0@ == m;
                    assert(s.update(j as int, x)[i].0@ == m);
                }
                if has_name(s.update(j as int, x), m) {
                    let i = choose|i: int| 0 <= i < s.len() && s.update(j as int, x)[i].0@ == m;
                    assert(s[i].0@ == m);
                }
                if m == n@ {
                    assert(s[j as int].0@ == m);
                }
            }
        }
        ls.set(j, x);
    } else {
        let x = (n.clone(), q);
        proof {
            let l = s.take(j as int);
            let r = s.skip(j as int);
            assert(s =~= l + r);
            assert(s.insert(j as int, x) =~= l + seq![x] + r);
            assert forall|m: Seq<char>| #[trigger] lines_total(s.insert(j as int, x), m) == lines_total(s, m) + if m == n@ {
                q as int
            } else {
                0
            } by {
                lemma_lines_total_concat(l, r, m);
                lemma_lines_total_concat(l + seq![x], r, m);
                lemma_lines_total_concat(l, seq![x], m);
                lemma_lines_total_single(x, m);
            }
            let t = s.insert(j as int, x);
            assert forall|a: int, b: int| 0 <= a < b < t.len() implies seq_lt(line_keys(t)[a], line_keys(t)[b]) by {
                if b < j {
                    assert(t[a] == s[a] && t[b] == s[b]);
                    assert(line_keys(s)[a] == s[a].0@ && line_keys(s)[b] == s[b].0@);
                } else if b == j {
                    assert(t[a] == s[a]);
                } else if a == j {
                    assert(t[b] == s[b - 1]);
                } else if a < j {
                    assert(t[a] == s[a] && t[b] == s[b - 1]);
                    lemma_seq_lt_transitive(s[a].0@, n@, s[b - 1].0@);
                } else {
                    assert(t[a] == s[a - 1] && t[b] == s[b - 1]);
                    assert(line_keys(s)[a - 1] == s[a - 1].0@ && line_keys(s)[b - 1] == s[b - 1].0@);
                }
            }
            assert forall|m: Seq<char>| #[trigger] has_name(t, m) == (has_name(s, m) || m == n@) by {
                if has_name(s, m) {
                    let i = choose|i: int| 0 <= i < s.len() && s[i].0@ == m;
                    if i < j {
                        assert(t[i] == s[i]);
                    } else {
                        assert(t[i + 1] == s[i]);
                    }
                }
                if has_name(t, m) {
                    let i = choose|i: int| 0 <= i < t.len() && t[i].0@ == m;
                    if i < j {
                        assert(t[i] == s[i]);
                    } else if i > j {
                        assert(t[i] == s[i - 1]);
                    }
                }
                if m == n@ {
                    assert(t[j as int].0@ == m);
                }
            }
        }
        ls.insert(j, x);
    }
}

// ---------------------------------------------------------------------------
// Grouping
// ---------------------------------------------------------------------------
/// A member's summary as shown: the display name known for the member, else
/// the member id; the identity known for the member, else that display name;
/// and one `(item name, quantity)` line per claimed line, in order.
pub fn sender_lines(summary: &UserSummary, display: Option<String>, identity: Option<String>) -> (r: SenderLines)
    ensures
        r.display@ == match display {
            Some(d) => d@,
            None => summary.user_id.0@,
        },
        r.identity@ == match identity {
            Some(i) => i@,
            None => r.display@,
        },
        r.items@.len() == summary.items@.len(),
        forall|i: int|
            0 <= i < summary.items@.len() ==> (#[trigger] r.items@[i]).0@ == summary.items@[i].item_name@
                && r.items@[i].1 == summary.items@[i].quantity,
{
    let shown = match display {
        Some(d) => d,
        None => owned(summary.user_id.0.as_str()),
    };
    let who = match identity {
        Some(i) => i,
        None => owned(shown.as_str()),
    };
    let mut items: Vec<(String, u32)> = Vec::new();
    let mut i: usize = 0;
    while i < summary.items.len()
        invariant
            i <= summary.items@.len(),
            items@.len() == i,
            forall|q: int|
                0 <= q < i ==> (#[trigger] items@[q]).0@ == summary.items@[q].item_name@
                    && items@[q].1 == summary.items@[q].quantity,
        decreases summary.items@.len() - i,
    {
        let line = &summary.items[i];
        items.push((owned(line.item_name.as_str()), line.quantity));
        i = i + 1;
    }
    SenderLines { display: shown, identity: who, items }
}

/// Who claimed what (see `grouped`): the summaries grouped by display name
/// in increasing order, each group with the identity of its first summary
/// and each item name once with its total quantity.
pub fn who_whats(entries: &[SenderLines]) -> (r: Vec<WhoWhat>)
    requires
        forall|d: Seq<char>, n: Seq<char>| #[trigger] display_total(entries@, d, n) <= u32::MAX,
    ensures
        grouped(entries@, r@),
{
    let ghost es = entries@;
    let mut gs: Vec<WhoWhat> = Vec::new();
    let mut k: usize = 0;
    proof {
        assert(es.take(0) =~= Seq::<SenderLines>::empty());
    }
    while k < entries.len()
        invariant
            k <= es.len(),
            es == entries@,
            forall|d: Seq<char>, n: Seq<char>| #[trigger] display_total(es, d, n) <= u32::MAX,
            grouped(es.take(k as int), gs@),
        decreases es.len() - k,
    {
        let e = &entries[k];
        let ghost pre = es.take(k as int);
        let ghost post = es.take(k + 1);
        let (found, j) = find_group(&gs, &e.display);
        let ghost gs0 = gs@;
        if !found {
            let g = WhoWhat { display: e.display.clone(), identity: e.identity.clone(), items: Vec::new() };
            gs.insert(j, g);
        }
        proof {
            lemma_grouped_frame(es, k as int, pre, post, gs0, gs@, j as int, found);
        }
        let ghost gs1 = gs@;
        let mut items: Vec<(String, u32)> = Vec::new();
        std::mem::swap(&mut items, &mut gs[j].items);
        let ghost it0 = items@;
        let mut i: usize = 0;
        while i < e.items.len()
            invariant
                i <= e.items@.len(),
                k < es.len(),
                es == entries@,
                *e == es[k as int],
                pre == es.take(k as int),
                forall|d: Seq<char>, n: Seq<char>| #[trigger] display_total(es, d, n) <= u32::MAX,
                strictly_sorted(line_keys(items@)),
                forall|m: Seq<char>| #[trigger] has_name(items@, m) == (has_name(it0, m) || has_name(e.items@.take(i as int), m)),
                forall|m: Seq<char>| #[trigger] lines_total(items@, m) == lines_total(it0, m) + lines_total(e.items@.take(i as int), m),
                forall|m: Seq<char>| #[trigger] lines_total(it0, m) == display_total(pre, e.display@, m),
                strictly_sorted(line_keys(it0)),
            decreases e.items@.len() - i,
        {
            let (n, q) = (&e.items[i].0, e.items[i].1);
            proof {
                let tk = e.items@.take(i as int);
                let tk1 = e.items@.take(i + 1);
                assert(tk1 =~= tk + seq![e.items@[i as int]]);
                lemma_lines_total_concat(tk, seq![e.items@[i as int]], n@);
                lemma_lines_total_single(e.items@[i as int], n@);
                lemma_display_total_step(es, k as int, e.display@, n@);
                lemma_display_total_grows(es, k + 1, e.display@, n@);
                lemma_lines_total_concat(tk1, e.items@.skip(i + 1), n@);
                assert(e.items@ =~= tk1 + e.items@.skip(i + 1));
                lemma_lines_total_nonneg(e.items@.skip(i + 1), n@);
            }
            add_line(&mut items, n, q);
            proof {
                let tk = e.items@.take(i as int);
                let tk1 = e.items@.take(i + 1);
                assert(tk1 =~= tk + seq![e.items@[i as int]]);
                assert forall|m: Seq<char>| #[trigger] lines_total(items@, m) == lines_total(it0, m) + lines_total(tk1, m) by {
                    lemma_lines_total_concat(tk, seq![e.items@[i as int]], m);
                    lemma_lines_total_single(e.items@[i as int], m);
                }
                assert forall|m: Seq<char>| #[trigger] has_name(items@, m) == (has_name(it0, m) || has_name(tk1, m)) by {
                    if has_name(tk, m) {
                        let a = choose|a: int| 0 <= a < tk.len() && tk[a].0@ == m;
                        assert(tk1[a] == tk[a]);
                    }
                    if has_name(tk1, m) {
                        let a = choose|a: int| 0 <= a < tk1.len() && tk1[a].0@ == m;
                        if a < i {
                            assert(tk1[a] == tk[a]);
                        }
                    }
                    if m == n@ {
                        assert(tk1[i as int].0@ == m);
                    }
                }
            }
            i = i + 1;
        }
        let ghost it1 = items@;
        gs[j].items = items;
        proof {
            assert(e.items@.take(i as int) =~= e.items@);
            lemma_group_step(es, k as int, pre, post, gs1, gs@, j as int, it0, it1);
        }
        k = k + 1;
    }
    proof {
        assert(es.take(k as int) =~= es);
    }
    gs
}

proof fn lemma_display_total_zero(es: Seq<SenderLines>, d: Seq<char>, n: Seq<char>)
    requires
        !has_display(es, d),
    ensures
        display_total(es, d, n) == 0,
    decreases es.len(),
{
    if es.len() > 0 {
        assert(!has_display(es.drop_last(), d)) by {
            if has_display(es.drop_last(), d) {
                let q = choose|q: int| 0 <= q < es.drop_last().len() && es.drop_last()[q].display@ == d;
                assert(es[q].display@ == d);
            }
        }
        lemma_display_total_zero(es.drop_last(), d, n);
        assert(es.last().display@ != d) by {
            if es.last().display@ == d {
                assert(es[es.len() - 1].display@ == d);
            }
        }
    }
}

/// After the group of entry `k`'s display name is found or inserted (empty),
/// every group is as the first `k` entries make it, and that group holds
/// the first summary's identity.
proof fn lemma_grouped_frame(
    es: Seq<SenderLines>,
    k: int,
    pre: Seq<SenderLines>,
    post: Seq<SenderLines>,
    gs0: Seq<WhoWhat>,
    gs1: Seq<WhoWhat>,
    j: int,
    found: bool,
)
    requires
        0 <= k < es.len(),
        pre == es.take(k),
        post == es.take(k + 1),
        0 <= j,
        grouped(pre, gs0),
        found ==> j < gs0.len() && gs0[j].display@ == es[k].display@ && gs1 == gs0,
        !found ==> j <= gs0.len() && (forall|q: int| 0 <= q < j ==> seq_lt(#[trigger] gs0[q].display@, es[k].display@))
            && (forall|q: int| j <= q < gs0.len() ==> seq_lt(es[k].display@, #[trigger] gs0[q].display@))
            && gs1 == gs0.insert(j, gs1[j]) && gs1[j].display@ == es[k].display@
            && gs1[j].identity@ == es[k].identity@ && gs1[j].items@.len() == 0,
    ensures
        strictly_sorted(group_keys(gs1)),
        j < gs1.len(),
        gs1[j].display@ == es[k].display@,
        gs1[j].identity@ == first_identity(post, es[k].display@),
        strictly_sorted(line_keys(gs1[j].items@)),
        forall|m: Seq<char>| #[trigger] has_name(gs1[j].items@, m) == claims_name(pre, es[k].display@, m),
        forall|m: Seq<char>| #[trigger] lines_total(gs1[j].items@, m) == display_total(pre, es[k].display@, m),
        forall|d: Seq<char>| has_display(post, d) == (exists|q: int| 0 <= q < gs1.len() && #[trigger] gs1[q].display@ == d),
        forall|q: int|
            0 <= q < gs1.len() && q != j ==> (#[trigger] gs1[q]).identity@ == first_identity(post, gs1[q].display@)
                && items_of(post, gs1[q].display@, gs1[q].items@),
{
    let e = es[k];
    assert(post.drop_last() =~= pre);
    assert(post.last() == e);
    lemma_first_identity_step(es, k, e.display@);
    assert forall|d: Seq<char>| #[trigger] has_display(post, d) == (has_display(pre, d) || d == e.display@) by {
        if has_display(pre, d) {
            let q = choose|q: int| 0 <= q < pre.len() && pre[q].display@ == d;
            assert(post[q] == pre[q]);
        }
        if has_display(post, d) {
            let q = choose|q: int| 0 <= q < post.len() && post[q].display@ == d;
            if q < k {
                assert(post[q] == pre[q]);
            }
        }
        if d == e.display@ {
            assert(post[k].display@ == d);
        }
    }
    if found {
        assert(gs0[j].display@ == e.display@);
        assert(exists|x: int| 0 <= x < gs0.len() && #[trigger] gs0[x].display@ == e.display@);
        assert(has_display(pre, e.display@));
    } else {
        gs0.insert_ensures(j, gs1[j]);
        assert(!has_display(pre, e.display@)) by {
            if has_display(pre, e.display@) {
                let q = choose|q: int| 0 <= q < gs0.len() && #[trigger] gs0[q].display@ == e.display@;
                lemma_seq_lt_irreflexive(e.display@);
            }
        }
        assert forall|m: Seq<char>| !claims_name(pre, e.display@, m) by {
            if claims_name(pre, e.display@, m) {
                let q = choose|q: int| 0 <= q < pre.len() && pre[q].display@ == e.display@ && has_name(pre[q].items@, m);
                assert(has_display(pre, e.display@));
            }
        }
        assert forall|m: Seq<char>| #[trigger] has_name(gs1[j].items@, m) == claims_name(pre, e.display@, m) by {}
        assert forall|m: Seq<char>| #[trigger] lines_total(gs1[j].items@, m) == display_total(pre, e.display@, m) by {
            lemma_display_total_zero(pre, e.display@, m);
        }
        assert forall|a: int, b: int| 0 <= a < b < gs1.len() implies seq_lt(group_keys(gs1)[a], group_keys(gs1)[b]) by {
            if b < j {
                assert(gs1[a] == gs0[a] && gs1[b] == gs0[b]);
                assert(group_keys(gs0)[a] == gs0[a].display@ && group_keys(gs0)[b] == gs0[b].display@);
            } else if b == j {
                assert(gs1[a] == gs0[a]);
            } else if a == j {
                assert(gs1[b] == gs0[b - 1]);
            } else if a < j {
                assert(gs1[a] == gs0[a] && gs1[b] == gs0[b - 1]);
                lemma_seq_lt_transitive(gs0[a].display@, e.display@, gs0[b - 1].display@);
            } else {
                assert(gs1[a] == gs0[a - 1] && gs1[b] == gs0[b - 1]);
                assert(group_keys(gs0)[a - 1] == gs0[a - 1].display@ && group_keys(gs0)[b - 1] == gs0[b - 1].display@);
            }
        }
    }
    assert forall|d: Seq<char>| has_display(post, d) == (exists|q: int| 0 <= q < gs1.len() && #[trigger] gs1[q].display@ == d) by {
        if has_display(post, d) {
            if d == e.display@ {
                assert(gs1[j].display@ == d);
            } else {
                let q = choose|q: int| 0 <= q < gs0.len() && #[trigger] gs0[q].display@ == d;
                if found {
                    assert(gs1[q].display@ == d);
                } else if q < j {
                    assert(gs1[q] == gs0[q]);
                } else {
                    assert(gs1[q + 1] == gs0[q]);
                }
            }
        }
        if exists|q: int| 0 <= q < gs1.len() && #[trigger] gs1[q].display@ == d {
            let q = choose|q: int| 0 <= q < gs1.len() && #[trigger] gs1[q].display@ == d;
            if q != j {
                if found {
                    assert(gs0[q].display@ == d);
                } else if q < j {
                    assert(gs0[q] == gs1[q]);
                } else {
                    assert(gs0[q - 1] == gs1[q]);
                }
            }
        }
    }
    assert forall|q: int| 0 <= q < gs1.len() && q != j implies (#[trigger] gs1[q]).identity@ == first_identity(post, gs1[q].display@)
        && items_of(post, gs1[q].display@, gs1[q].items@) by {
        let p = if found || q < j {
            q
        } else {
            q - 1
        };
        assert(gs1[q] == gs0[p]);
        let d = gs0[p].display@;
        assert(d != e.display@) by {
            if d == e.display@ {
                if found {
                    assert(group_keys(gs0)[p] == d && group_keys(gs0)[j] == d);
                    if p < j {
                        lemma_seq_lt_irreflexive(d);
                    } else {
                        lemma_seq_lt_irreflexive(d);
                    }
                } else {
                    lemma_seq_lt_irreflexive(d);
                }
            }
        }
        lemma_first_identity_step(es, k, d);
        assert(has_display(pre, d)) by {
            assert(exists|x: int| 0 <= x < gs0.len() && #[trigger] gs0[x].display@ == d);
        }
        assert forall|m: Seq<char>| #[trigger] claims_name(post, d, m) == claims_name(pre, d, m) by {
            if claims_name(post, d, m) {
                let x = choose|x: int| 0 <= x < post.len() && post[x].display@ == d && has_name(post[x].items@, m);
                assert(x < k);
                assert(post[x] == pre[x]);
            }
            if claims_name(pre, d, m) {
                let x = choose|x: int| 0 <= x < pre.len() && pre[x].display@ == d && has_name(pre[x].items@, m);
                assert(post[x] == pre[x]);
            }
        }
        assert forall|m: Seq<char>| #[trigger] display_total(post, d, m) == display_total(pre, d, m) by {
            lemma_display_total_step(es, k, d, m);
        }
    }
    assert forall|m: Seq<char>| #[trigger] has_name(gs1[j].items@, m) == claims_name(pre, e.display@, m) by {
        if found {
            assert(gs1[j] == gs0[j]);
        }
    }
    assert forall|m: Seq<char>| #[trigger] lines_total(gs1[j].items@, m) == display_total(pre, e.display@, m) by {
        if found {
            assert(gs1[j] == gs0[j]);
        } else {
            lemma_display_total_zero(pre, e.display@, m);
        }
    }
}

/// After entry `k`'s lines are added to its group, the groups are as the
/// first `k + 1` entries make them.
proof fn lemma_group_step(
    es: Seq<SenderLines>,
    k: int,
    pre: Seq<SenderLines>,
    post: Seq<SenderLines>,
    gs1: Seq<WhoWhat>,
    gs2: Seq<WhoWhat>,
    j: int,
    it0: Seq<(String, u32)>,
    it1: Seq<(String, u32)>,
)
    requires
        0 <= k < es.len(),
        pre == es.take(k),
        post == es.take(k + 1),
        0 <= j < gs1.len(),
        gs2.len() == gs1.len(),
        forall|q: int| 0 <= q < gs1.len() && q != j ==> gs2[q] == gs1[q],
        gs2[j].display@ == gs1[j].display@,
        gs2[j].identity@ == gs1[j].identity@,
        gs2[j].items@ == it1,
        gs1[j].display@ == es[k].display@,
        strictly_sorted(group_keys(gs1)),
        gs1[j].identity@ == first_identity(post, es[k].display@),
        forall|d: Seq<char>| has_display(post, d) == (exists|q: int| 0 <= q < gs1.len() && #[trigger] gs1[q].display@ == d),
        forall|q: int|
            0 <= q < gs1.len() && q != j ==> (#[trigger] gs1[q]).identity@ == first_identity(post, gs1[q].display@)
                && items_of(post, gs1[q].display@, gs1[q].items@),
        strictly_sorted(line_keys(it1)),
        forall|m: Seq<char>| #[trigger] has_name(it1, m) == (has_name(it0, m) || has_name(es[k].items@, m)),
        forall|m: Seq<char>| #[trigger] lines_total(it1, m) == lines_total(it0, m) + lines_total(es[k].items@, m),
        forall|m: Seq<char>| #[trigger] has_name(it0, m) == claims_name(pre, es[k].display@, m),
        forall|m: Seq<char>| #[trigger] lines_total(it0, m) == display_total(pre, es[k].display@, m),
    ensures
        grouped(post, gs2),
{
    let e = es[k];
    let d = e.display@;
    assert(post.drop_last() =~= pre);
    assert(post[k] == e);
    assert(group_keys(gs2) =~= group_keys(gs1)) by {
        assert forall|q: int| 0 <= q < gs1.len() implies group_keys(gs2)[q] == group_keys(gs1)[q] by {
            if q != j {
                assert(gs2[q] == gs1[q]);
            }
        }
    }
    assert forall|x: Seq<char>| has_display(post, x) == (exists|q: int| 0 <= q < gs2.len() && #[trigger] gs2[q].display@ == x) by {
        if exists|q: int| 0 <= q < gs1.len() && #[trigger] gs1[q].display@ == x {
            let q = choose|q: int| 0 <= q < gs1.len() && #[trigger] gs1[q].display@ == x;
            if q != j {
                assert(gs2[q] == gs1[q]);
            }
            assert(gs2[q].display@ == x);
        }
        if exists|q: int| 0 <= q < gs2.len() && #[trigger] gs2[q].display@ == x {
            let q = choose|q: int| 0 <= q < gs2.len() && #[trigger] gs2[q].display@ == x;
            if q != j {
                assert(gs2[q] == gs1[q]);
            }
            assert(gs1[q].display@ == x);
        }
    }
    assert forall|m: Seq<char>| #[trigger] claims_name(post, d, m) == (claims_name(pre, d, m) || has_name(e.items@, m)) by {
        if claims_name(pre, d, m) {
            let x = choose|x: int| 0 <= x < pre.len() && pre[x].display@ == d && has_name(pre[x].items@, m);
            assert(post[x] == pre[x]);
        }
        if claims_name(post, d, m) {
            let x = choose|x: int| 0 <= x < post.len() && post[x].display@ == d && has_name(post[x].items@, m);
            if x < k {
                assert(post[x] == pre[x]);
            }
        }
        if has_name(e.items@, m) {
            assert(post[k].display@ == d && has_name(post[k].items@, m));
        }
    }
    assert forall|m: Seq<char>| #[trigger] display_total(post, d, m) == display_total(pre, d, m) + lines_total(e.items@, m) by {
        lemma_display_total_step(es, k, d, m);
    }
    assert forall|q: int| 0 <= q < gs2.len() implies (#[trigger] gs2[q]).identity@ == first_identity(post, gs2[q].display@)
        && items_of(post, gs2[q].display@, gs2[q].items@) by {
        if q != j {
            assert(gs2[q] == gs1[q]);
        } else {
            assert forall|m: Seq<char>| #[trigger] has_name(gs2[j].items@, m) == claims_name(post, d, m) by {}
            assert forall|m: Seq<char>| #[trigger] lines_total(gs2[j].items@, m) == display_total(post, d, m) by {}
        }
    }
}

} // verus!

verus! {

// ---------------------------------------------------------------------------
// Message feed and workflow counts
// ---------------------------------------------------------------------------
/// One handled message as the feed shows it.
pub struct BoardMessage {
    pub seq: i64,
    pub display: String,
    pub text: String,
    pub status: String,
    pub detail: String,
}

/// The messages after `since`, in their order.
pub open spec fn after_seq(ms: Seq<BoardMessage>, since: i64) -> Seq<BoardMessage>
    decreases ms.len(),
{
    if ms.len() == 0 {
        Seq::empty()
    } else if ms.last().seq > since {
        after_seq(ms.drop_last(), since).push(ms.last())
    } else {
        after_seq(ms.drop_last(), since)
    }
}

fn copy_message(m: &BoardMessage) -> (r: BoardMessage)
    ensures
        r.seq == m.seq,
        r.display@ == m.display@,
        r.text@ == m.text@,
        r.status@ == m.status@,
        r.detail@ == m.detail@,
{
    BoardMessage {
        seq: m.seq,
        display: owned(m.display.as_str()),
        text: owned(m.text.as_str()),
        status: owned(m.status.as_str()),
        detail: owned(m.detail.as_str()),
    }
}

/// The two messages hold the same values.
pub open spec fn same_message(a: BoardMessage, b: BoardMessage) -> bool {
    &&& a.seq == b.seq
    &&& a.display@ == b.display@
    &&& a.text@ == b.text@
    &&& a.status@ == b.status@
    &&& a.detail@ == b.detail@
}

/// The feed after `since`: each message whose sequence number is greater,
/// in order.
pub fn messages_since(msgs: &[BoardMessage], since: i64) -> (r: Vec<BoardMessage>)
    ensures
        r@.len() == after_seq(msgs@, since).len(),
        forall|i: int| 0 <= i < r@.len() ==> same_message(#[trigger] r@[i], after_seq(msgs@, since)[i]),
{
    let mut out: Vec<BoardMessage> = Vec::new();
    let mut i: usize = 0;
    while i < msgs.len()
        invariant
            i <= msgs@.len(),
            out@.len() == after_seq(msgs@.take(i as int), since).len(),
            forall|q: int| 0 <= q < out@.len() ==> same_message(#[trigger] out@[q], after_seq(msgs@.take(i as int), since)[q]),
        decreases msgs@.len() - i,
    {
        proof {
            assert(msgs@.take(i + 1).drop_last() =~= msgs@.take(i as int));
            assert(msgs@.take(i + 1).last() == msgs@[i as int]);
        }
        if msgs[i].seq > since {
            let c = copy_message(&msgs[i]);
            out.push(c);
        }
        i = i + 1;
    }
    proof {
        assert(msgs@.take(i as int) =~= msgs@);
    }
    out
}

/// Total quantity of the lines.
pub open spec fn lines_quantity(ls: Seq<UserItemLine>) -> int
    decreases ls.len(),
{
    if ls.len() == 0 {
        0
    } else {
        lines_quantity(ls.drop_last()) + ls.last().quantity
    }
}

/// Total quantity claimed over the summaries.
pub open spec fn claimed_quantity(ss: Seq<UserSummary>) -> int
    decreases ss.len(),
{
    if ss.len() == 0 {
        0
    } else {
        claimed_quantity(ss.drop_last()) + lines_quantity(ss.last().items@)
    }
}

proof fn lemma_lines_quantity_nonneg(ls: Seq<UserItemLine>)
    ensures
        lines_quantity(ls) >= 0,
    decreases ls.len(),
{
    if ls.len() > 0 {
        lemma_lines_quantity_nonneg(ls.drop_last());
    }
}

proof fn lemma_claimed_nonneg(ss: Seq<UserSummary>)
    ensures
        claimed_quantity(ss) >= 0,
    decreases ss.len(),
{
    if ss.len() > 0 {
        lemma_claimed_nonneg(ss.drop_last());
        lemma_lines_quantity_nonneg(ss.last().items@);
    }
}

proof fn lemma_claimed_prefix(ss: Seq<UserSummary>, k: int)
    requires
        0 <= k <= ss.len(),
    ensures
        0 <= claimed_quantity(ss.take(k)) <= claimed_quantity(ss),
    decreases ss.len() - k,
{
    lemma_claimed_nonneg(ss.take(k));
    if k < ss.len() {
        lemma_claimed_prefix(ss, k + 1);
        assert(ss.take(k + 1).drop_last() =~= ss.take(k));
        lemma_lines_quantity_nonneg(ss[k].items@);
    } else {
        assert(ss.take(k) =~= ss);
    }
}

proof fn lemma_lines_prefix(ls: Seq<UserItemLine>, k: int)
    requires
        0 <= k <= ls.len(),
    ensures
        0 <= lines_quantity(ls.take(k)) <= lines_quantity(ls),
    decreases ls.len() - k,
{
    if k < ls.len() {
        lemma_lines_prefix(ls, k + 1);
        assert(ls.take(k + 1).drop_last() =~= ls.take(k));
    } else {
        assert(ls.take(k) =~= ls);
    }
    lemma_lines_quantity_nonneg(ls.take(k));
}

/// The quantity claimed on the board: the sum over every member's lines,
/// none without a board.
pub fn claims_total(snapshot: Option<&AllocationSnapshot>) -> (r: u64)
    requires
        match snapshot {
            Some(s) => claimed_quantity(s.user_summaries@) <= u64::MAX,
            None => true,
        },
    ensures
        r == match snapshot {
            Some(s) => claimed_quantity(s.user_summaries@),
            None => 0,
        },
{
    match snapshot {
        None => 0,
        Some(s) => {
            let ghost ss = s.user_summaries@;
            let mut total: u64 = 0;
            let mut k: usize = 0;
            while k < s.user_summaries.len()
                invariant
                    k <= ss.len(),
                    ss == s.user_summaries@,
                    claimed_quantity(ss) <= u64::MAX,
                    total == claimed_quantity(ss.take(k as int)),
                decreases ss.len() - k,
            {
                let items = &s.user_summaries[k].items;
                let ghost ls = items@;
                proof {
                    assert(ss.take(k + 1).drop_last() =~= ss.take(k as int));
                    lemma_claimed_prefix(ss, k + 1);
                }
                let mut i: usize = 0;
                while i < items.len()
                    invariant
                        i <= ls.len(),
                        ls == items@,
                        k < ss.len(),
                        ls == ss[k as int].items@,
                        claimed_quantity(ss.take(k + 1)) <= u64::MAX,
                        claimed_quantity(ss.take(k + 1)) == claimed_quantity(ss.take(k as int)) + lines_quantity(ls),
                        total == claimed_quantity(ss.take(k as int)) + lines_quantity(ls.take(i as int)),
                    decreases ls.len() - i,
                {
                    proof {
                        assert(ls.take(i + 1).drop_last() =~= ls.take(i as int));
                        lemma_lines_prefix(ls, i + 1);
                    }
                    total = total + items[i].quantity as u64;
                    i = i + 1;
                }
                proof {
                    assert(ls.take(i as int) =~= ls);
                }
                k = k + 1;
            }
            proof {
                assert(ss.take(k as int) =~= ss);
            }
            total
        },
    }
}

/// The workflow counters: lock state, board version, numbers of events,
/// messages and eligibilities, and the quantity claimed on the board.
pub struct WorkflowView {
    pub locked: bool,
    pub version: i64,
    pub events: u64,
    pub messages: u64,
    pub claims: u64,
    pub eligibilities: u64,
}

/// The workflow counters of a pipeline state (see `claims_total`).
pub fn workflow_view(
    locked: bool,
    version: i64,
    events: usize,
    messages: usize,
    eligibilities: usize,
    snapshot: Option<&AllocationSnapshot>,
) -> (r: WorkflowView)
    requires
        match snapshot {
            Some(s) => claimed_quantity(s.user_summaries@) <= u64::MAX,
            None => true,
        },
    ensures
        r.locked == locked,
        r.version == version,
        r.events == events,
        r.messages == messages,
        r.eligibilities == eligibilities,
        r.claims == match snapshot {
            Some(s) => claimed_quantity(s.user_summaries@),
            None => 0,
        },
{
    WorkflowView {
        locked,
        version,
        events: events as u64,
        messages: messages as u64,
        claims: claims_total(snapshot),
        eligibilities: eligibilities as u64,
    }
}

} // verus!
