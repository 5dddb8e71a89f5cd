//! Round library: validity of round ids (they name files).
use vstd::prelude::*;

use crate::settings::{AppConfig, RoundSettings};
use crate::text::{
    append_str, chars_eq, chars_lt, chars_of, join_path, joined, opt_view, seq_lt, string_of, trim, trim_chars,
};

verus! {

/// Name for what `char::is_alphanumeric` returns (Unicode `Alphabetic` or `Numeric`).
pub uninterp spec fn unicode_alnum(c: char) -> bool;

/// Calls `char::is_alphanumeric`.
#[verifier::external_body]
fn is_alphanumeric(c: char) -> (r: bool)
    ensures
        r == unicode_alnum(c),
{
    c.is_alphanumeric()
}

/// A character allowed in a round id.
pub open spec fn id_char_ok(c: char) -> bool {
    c != '/' && c != '\\' && c != '.' && c != ':' && (unicode_alnum(c) || c == '_' || c == '-')
}

/// A valid round id: after trimming, non-empty, at most 64 characters, only
/// letters, digits (including CJK), `_` and `-` — so no path separators,
/// dots or colons.
pub open spec fn valid_round_id(id: Seq<char>) -> bool {
    let t = trim(id);
    t.len() > 0 && t.len() <= 64 && forall|i: int| 0 <= i < t.len() ==> id_char_ok(#[trigger] t[i])
}

/// A valid round id, trimmed, names a plain file: it holds no path
/// separator, dot or colon.
pub proof fn valid_round_id_is_a_plain_name(id: Seq<char>)
    requires
        valid_round_id(id),
    ensures
        forall|i: int|
            0 <= i < trim(id).len() ==> #[trigger] trim(id)[i] != '/' && trim(id)[i] != '\\'
                && trim(id)[i] != '.' && trim(id)[i] != ':',
{
    assert forall|i: int| 0 <= i < trim(id).len() implies #[trigger] trim(id)[i] != '/' && trim(id)[i]
        != '\\' && trim(id)[i] != '.' && trim(id)[i] != ':' by {
        assert(id_char_ok(trim(id)[i]));
    }
}

/// The file of a round in the rounds directory: `<dir>/<round_id>.json`,
/// the id trimmed.
pub fn round_file(dir: &str, round_id: &str) -> (r: String)
    ensures
        r@ == joined(dir@, trim(round_id@) + ".json"@),
{
    let mut name = trim_chars(&chars_of(round_id));
    append_str(&mut name, ".json");
    let name = string_of(&name);
    join_path(dir, name.as_str())
}

/// Round-id validity (the id names the file `<round_id>.json`).
pub fn is_valid_round_id(id: &str) -> (r: bool)
    ensures
        r == valid_round_id(id@),
{
    let v = chars_of(id);
    let t = trim_chars(&v);
    if t.len() == 0 || t.len() > 64 {
        return false;
    }
    let mut i: usize = 0;
    while i < t.len()
        invariant
            i <= t@.len(),
            t@ == trim(id@),
            forall|j: int| 0 <= j < i ==> id_char_ok(#[trigger] t@[j]),
        decreases t@.len() - i,
    {
        let c = t[i];
        if c == '/' || c == '\\' || c == '.' || c == ':' {
            assert(!id_char_ok(t@[i as int]));
            return false;
        }
        if !(is_alphanumeric(c) || c == '_' || c == '-') {
            assert(!id_char_ok(t@[i as int]));
            return false;
        }
        i = i + 1;
    }
    true
}

// ---------------------------------------------------------------------------
// The active round at start-up
// ---------------------------------------------------------------------------
/// The id of the active round file to read, when the configuration names a
/// non-blank one: trimmed.
pub fn active_file_id(cfg: &AppConfig) -> (r: Option<String>)
    ensures
        match cfg.active_round_id {
            Some(a) => if trim(a@).len() > 0 {
                r matches Some(t) && t@ == trim(a@)
            } else {
                r is None
            },
            None => r is None,
        },
{
    match &cfg.active_round_id {
        Some(a) => {
            let t = trim_chars(&chars_of(a.as_str()));
            if t.len() > 0 {
                Some(string_of(&t))
            } else {
                None
            }
        },
        None => None,
    }
}

/// What start-up made of the active round.
pub enum ActiveResolution {
    /// The active round's file was read and now is the round.
    Loaded,
    /// The configured round becomes the active one (its file is to be
    /// written); `newly_set` when the active id changed.
    Claimed { newly_set: bool },
    /// Nothing to do: no file was read and the configured round has a blank id.
    Unchanged,
}

/// Start-up resolution of the active round, given the round read from the
/// active round's file (when the configuration names one and it exists):
/// a read round becomes the round (taking the active id when its own is
/// blank); otherwise a configured round with a non-blank id becomes the
/// active one.
pub fn resolve_active(cfg: &mut AppConfig, loaded: Option<RoundSettings>) -> (r: ActiveResolution)
    requires
        loaded is Some ==> old(cfg).active_round_id is Some,
    ensures
        match loaded {
            Some(l) => r is Loaded && final(cfg).active_round_id == old(cfg).active_round_id && (if trim(l.round_id@).len() == 0 {
                final(cfg).round.round_id@ == trim(old(cfg).active_round_id->0@) && final(cfg).round.title == l.title
                    && final(cfg).round.items == l.items && final(cfg).round.phases == l.phases
                    && final(cfg).round.group_id == l.group_id
                    && final(cfg).round.priority_users == l.priority_users
                    && final(cfg).round.priority_window == l.priority_window
            } else {
                final(cfg).round == l
            }) && final(cfg).gateway == old(cfg).gateway && final(cfg).revision == old(cfg).revision,
            None => {
                let current = trim(old(cfg).round.round_id@);
                if current.len() == 0 {
                    r is Unchanged && *final(cfg) == *old(cfg)
                } else {
                    r matches ActiveResolution::Claimed { newly_set } && newly_set == (opt_view(old(cfg).active_round_id) != Some(current))
                        && opt_view(final(cfg).active_round_id) == Some(current)
                        && final(cfg).round == old(cfg).round && final(cfg).gateway == old(cfg).gateway
                        && final(cfg).revision == old(cfg).revision
                }
            },
        },
{
    match loaded {
        Some(l) => {
            let mut l = l;
            if crate::text::is_blank(l.round_id.as_str()) {
                let a = match &cfg.active_round_id {
                    Some(a) => string_of(&trim_chars(&chars_of(a.as_str()))),
                    None => String::new(),
                };
                l.round_id = a;
            }
            cfg.round = l;
            ActiveResolution::Loaded
        },
        None => {
            let current = trim_chars(&chars_of(cfg.round.round_id.as_str()));
            if current.len() == 0 {
                return ActiveResolution::Unchanged;
            }
            let newly_set = match &cfg.active_round_id {
                Some(a) => !chars_eq(&chars_of(a.as_str()), &current),
                None => true,
            };
            cfg.active_round_id = Some(string_of(&current));
            ActiveResolution::Claimed { newly_set }
        },
    }
}

// ---------------------------------------------------------------------------
// Listing the round library
// ---------------------------------------------------------------------------
/// A round file: its id and when it was last written, in nanoseconds from
/// the Unix epoch (negative before it), when known.
pub struct RoundFileInfo {
    pub round_id: String,
    pub modified: Option<i128>,
}

/// `a` may be listed before `b`: more recently written first (a known time
/// before an unknown one), then by id.
pub open spec fn listed_first(a: RoundFileInfo, b: RoundFileInfo) -> bool {
    match (a.modified, b.modified) {
        (Some(x), Some(y)) => x > y || (x == y && !seq_lt(b.round_id@, a.round_id@)),
        (Some(_), None) => true,
        (None, Some(_)) => false,
        (None, None) => !seq_lt(b.round_id@, a.round_id@),
    }
}

/// `f` inserted after every entry that may be listed before it.
pub open spec fn insert_listed(s: Seq<RoundFileInfo>, f: RoundFileInfo) -> Seq<RoundFileInfo>
    decreases s.len(),
{
    if s.len() == 0 {
        seq![f]
    } else if listed_first(s.last(), f) {
        s.push(f)
    } else {
        insert_listed(s.drop_last(), f).push(s.last())
    }
}

/// The files in listing order (a stable sort).
pub open spec fn listing_order(s: Seq<RoundFileInfo>) -> Seq<RoundFileInfo>
    decreases s.len(),
{
    if s.len() == 0 {
        Seq::empty()
    } else {
        insert_listed(listing_order(s.drop_last()), s.last())
    }
}

proof fn lemma_insert_listed(s: Seq<RoundFileInfo>, f: RoundFileInfo, p: int)
    requires
        0 <= p <= s.len(),
        forall|j: int| p <= j < s.len() ==> !listed_first(#[trigger] s[j], f),
        p == 0 || listed_first(s[p - 1], f),
    ensures
        insert_listed(s, f) == s.take(p).push(f) + s.skip(p),
    decreases s.len() - p,
{
    if s.len() == p {
        if s.len() > 0 {
            assert(s.take(p).push(f) + s.skip(p) =~= s.push(f));
        } else {
            assert(s.take(p).push(f) + s.skip(p) =~= seq![f]);
        }
    } else {
        let d = s.drop_last();
        assert forall|j: int| p <= j < d.len() implies !listed_first(#[trigger] d[j], f) by {
            assert(d[j] == s[j]);
        }
        lemma_insert_listed(d, f, p);
        assert(d.take(p).push(f) + d.skip(p) + seq![s.last()] =~= s.take(p).push(f) + s.skip(p));
    }
}

fn listed_first_exec(a: &RoundFileInfo, b: &RoundFileInfo) -> (r: bool)
    ensures
        r == listed_first(*a, *b),
{
    let ids_ok = !chars_lt(&chars_of(b.round_id.as_str()), &chars_of(a.round_id.as_str()));
    match (a.modified, b.modified) {
        (Some(x), Some(y)) => x > y || (x == y && ids_ok),
        (Some(_), None) => true,
        (None, Some(_)) => false,
        (None, None) => ids_ok,
    }
}

/// The round files in listing order: the most recently written first, then
/// by id (see `listing_order`).
pub fn order_round_files(files: Vec<RoundFileInfo>) -> (r: Vec<RoundFileInfo>)
    ensures
        r@ == listing_order(files@),
{
    let ghost all = files@;
    let mut rest = files;
    let mut out: Vec<RoundFileInfo> = Vec::new();
    let ghost mut k: int = 0;
    while rest.len() > 0
        invariant
            0 <= k <= all.len(),
            rest@ == all.skip(k),
            out@ == listing_order(all.take(k)),
        decreases rest@.len(),
    {
        let f = rest.remove(0);
        proof {
            assert(all.take(k + 1).drop_last() =~= all.take(k));
            assert(all[k] == f);
            assert(all.skip(k).remove(0) =~= all.skip(k + 1));
        }
        let mut p: usize = out.len();
        while p > 0 && !listed_first_exec(&out[p - 1], &f)
            invariant
                p <= out@.len(),
                out@ == listing_order(all.take(k)),
                forall|j: int| p <= j < out@.len() ==> !listed_first(#[trigger] out@[j], f),
            decreases p,
        {
            p = p - 1;
        }
        proof {
            lemma_insert_listed(out@, f, p as int);
            assert(out@.insert(p as int, f) =~= out@.take(p as int).push(f) + out@.skip(p as int));
        }
        out.insert(p, f);
        proof {
            k = k + 1;
        }
    }
    proof {
        assert(all.take(k) =~= all);
    }
    out
}

} // verus!
