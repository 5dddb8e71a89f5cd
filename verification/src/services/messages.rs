//! Message records edited through the API: the field checks, the record a
//! create request makes, and the record an update request leaves.
use vstd::prelude::*;

use crate::messages::MessageRecord;
use crate::services::ServiceError;
use crate::text::{is_blank, opt_view, owned, trim};

verus! {

/// Why a record is refused, if it is: blank user, blank text, non-positive
/// timestamp, blank group — checked in that order.
pub open spec fn record_problem(rec: MessageRecord) -> Option<Seq<char>> {
    if trim(rec.user_id@).len() == 0 {
        Some("user_id 不能为空"@)
    } else if trim(rec.text@).len() == 0 {
        Some("text 不能为空"@)
    } else if rec.timestamp_ms <= 0 {
        Some("timestamp_ms 必须为正"@)
    } else if trim(rec.group_id@).len() == 0 {
        Some("group_id 不能为空"@)
    } else {
        None
    }
}

/// Checks the fields a stored record must have (see `record_problem`).
pub fn validate_record(rec: &MessageRecord) -> (r: Result<(), String>)
    ensures
        match record_problem(*rec) {
            Some(m) => r matches Err(e) && e@ == m,
            None => r is Ok,
        },
{
    if is_blank(rec.user_id.as_str()) {
        return Err(owned("user_id 不能为空"));
    }
    if is_blank(rec.text.as_str()) {
        return Err(owned("text 不能为空"));
    }
    if rec.timestamp_ms <= 0 {
        return Err(owned("timestamp_ms 必须为正"));
    }
    if is_blank(rec.group_id.as_str()) {
        return Err(owned("group_id 不能为空"));
    }
    Ok(())
}

/// Optimistic concurrency: a request naming a revision other than the
/// current one is stale.
pub fn check_revision(requested: Option<u64>, current: u64) -> (r: Result<(), ServiceError>)
    ensures
        match requested {
            Some(rev) if rev != current => r matches Err(ServiceError::StaleRevision(c)) && c
                == current,
            _ => r is Ok,
        },
{
    match requested {
        Some(rev) => {
            if rev != current {
                return Err(ServiceError::StaleRevision(current));
            }
            Ok(())
        },
        None => Ok(()),
    }
}

/// A request to add a message.
pub struct CreateInput {
    pub user_id: String,
    pub nickname: String,
    pub text: String,
    pub timestamp_ms: Option<i64>,
    pub is_admin: bool,
    pub group_id: Option<String>,
    pub message_id: Option<String>,
    pub routed: Option<String>,
    pub status: Option<String>,
    pub detail: Option<String>,
    pub revision: Option<u64>,
    pub recompute: Option<bool>,
}

/// A request to change fields of a message.
pub struct UpdateInput {
    pub user_id: Option<String>,
    pub nickname: Option<String>,
    pub text: Option<String>,
    pub timestamp_ms: Option<i64>,
    pub is_admin: Option<bool>,
    pub group_id: Option<String>,
    pub routed: Option<String>,
    pub status: Option<String>,
    pub detail: Option<String>,
    pub revision: Option<u64>,
    pub recompute: Option<bool>,
}

/// The value of an optional string, or the fallback when absent.
pub open spec fn or_else(o: Option<String>, fallback: Seq<char>) -> Seq<char> {
    match o {
        Some(s) => s@,
        None => fallback,
    }
}

/// The record a create request makes: the given fields; the round's group
/// when no non-blank group is given; `admin-<uuid>` (the random UUID made
/// from `id_bytes`) when no non-blank message id is given; `now_ms` when no
/// timestamp is given; routed `message`, status `Pending` and an empty
/// detail by default.
pub fn new_record(body: CreateInput, seq: i64, default_group: &String, now_ms: i64, id_bytes: [u8; 16]) -> (r: MessageRecord)
    ensures
        r.seq == seq,
        r.group_id@ == match body.group_id {
            Some(g) => if trim(g@).len() > 0 {
                g@
            } else {
                default_group@
            },
            None => default_group@,
        },
        r.user_id@ == body.user_id@,
        r.nickname@ == body.nickname@,
        match body.message_id {
            Some(m) if trim(m@).len() > 0 => r.message_id@ == m@,
            _ => r.message_id@ == "admin-"@ + crate::domain::uuid_v4_text(id_bytes@),
        },
        r.text@ == body.text@,
        r.timestamp_ms == match body.timestamp_ms {
            Some(t) => t,
            None => now_ms,
        },
        r.is_admin == body.is_admin,
        r.routed@ == or_else(body.routed, "message"@),
        r.status@ == or_else(body.status, "Pending"@),
        r.detail@ == or_else(body.detail, Seq::empty()),
{
    let group_id = match body.group_id {
        Some(g) => if is_blank(g.as_str()) {
            default_group.clone()
        } else {
            g
        },
        None => default_group.clone(),
    };
    let ghost given = body.message_id;
    let message_id = match body.message_id {
        Some(m) => if is_blank(m.as_str()) {
            admin_message_id(id_bytes)
        } else {
            m
        },
        None => admin_message_id(id_bytes),
    };
    MessageRecord {
        seq,
        group_id,
        user_id: body.user_id,
        nickname: body.nickname,
        message_id,
        text: body.text,
        timestamp_ms: match body.timestamp_ms {
            Some(t) => t,
            None => now_ms,
        },
        is_admin: body.is_admin,
        routed: match body.routed {
            Some(s) => s,
            None => owned("message"),
        },
        status: match body.status {
            Some(s) => s,
            None => owned("Pending"),
        },
        detail: match body.detail {
            Some(s) => s,
            None => String::new(),
        },
    }
}

/// `admin-` followed by the random UUID made from `id_bytes`.
fn admin_message_id(id_bytes: [u8; 16]) -> (r: String)
    ensures
        r@ == "admin-"@ + crate::domain::uuid_v4_text(id_bytes@),
{
    let u = crate::domain::uuid_from_random(id_bytes);
    let mut out = crate::text::chars_of("admin-");
    crate::text::append_str(&mut out, u.as_str());
    crate::text::string_of(&out)
}

/// `target` with every field the request gives replaced.
pub open spec fn patched(target: MessageRecord, body: UpdateInput, r: MessageRecord) -> bool {
    &&& r.seq == target.seq
    &&& r.message_id@ == target.message_id@
    &&& r.user_id@ == or_else(body.user_id, target.user_id@)
    &&& r.nickname@ == or_else(body.nickname, target.nickname@)
    &&& r.text@ == or_else(body.text, target.text@)
    &&& r.timestamp_ms == match body.timestamp_ms {
        Some(t) => t,
        None => target.timestamp_ms,
    }
    &&& r.is_admin == match body.is_admin {
        Some(b) => b,
        None => target.is_admin,
    }
    &&& r.group_id@ == or_else(body.group_id, target.group_id@)
    &&& r.routed@ == or_else(body.routed, target.routed@)
    &&& r.status@ == or_else(body.status, target.status@)
    &&& r.detail@ == or_else(body.detail, target.detail@)
}

/// The record's fields as plain values.
pub open spec fn record_view(r: MessageRecord) -> (
    i64,
    Seq<char>,
    Seq<char>,
    Seq<char>,
    Seq<char>,
    Seq<char>,
    i64,
    bool,
    Seq<char>,
    Seq<char>,
    Seq<char>,
) {
    (
        r.seq,
        r.group_id@,
        r.user_id@,
        r.nickname@,
        r.message_id@,
        r.text@,
        r.timestamp_ms,
        r.is_admin,
        r.routed@,
        r.status@,
        r.detail@,
    )
}

/// An update that gives no field leaves the record as it was, so it passes
/// exactly when the stored record does.
pub proof fn empty_update_keeps_record(target: MessageRecord, body: UpdateInput, r: MessageRecord)
    requires
        body.user_id is None,
        body.nickname is None,
        body.text is None,
        body.timestamp_ms is None,
        body.is_admin is None,
        body.group_id is None,
        body.routed is None,
        body.status is None,
        body.detail is None,
        patched(target, body, r),
    ensures
        record_view(r) == record_view(target),
        record_problem(r) == record_problem(target),
{
}

/// Applying the same update twice gives the record that applying it once gives.
pub proof fn update_is_idempotent(target: MessageRecord, body: UpdateInput, once: MessageRecord, twice: MessageRecord)
    requires
        patched(target, body, once),
        patched(once, body, twice),
    ensures
        record_view(twice) == record_view(once),
{
}

/// A copy of `o`, or of `fallback` when absent.
fn pick(o: &Option<String>, fallback: &String) -> (r: String)
    ensures
        r@ == or_else(*o, fallback@),
{
    match o {
        Some(s) => s.clone(),
        None => fallback.clone(),
    }
}

/// The record an update request leaves: the patched record when it passes
/// `validate_record`, else the reason it does not (the stored record then
/// stays as it was).
pub fn patch_record(target: &MessageRecord, body: &UpdateInput) -> (r: Result<MessageRecord, String>)
    ensures
        match r {
            Ok(rec) => patched(*target, *body, rec) && record_problem(rec) is None,
            Err(e) => exists|rec: MessageRecord|
                patched(*target, *body, rec) && record_problem(rec) == Some(e@),
        },
{
    let candidate = MessageRecord {
        seq: target.seq,
        group_id: pick(&body.group_id, &target.group_id),
        user_id: pick(&body.user_id, &target.user_id),
        nickname: pick(&body.nickname, &target.nickname),
        message_id: target.message_id.clone(),
        text: pick(&body.text, &target.text),
        timestamp_ms: match body.timestamp_ms {
            Some(t) => t,
            None => target.timestamp_ms,
        },
        is_admin: match body.is_admin {
            Some(b) => b,
            None => target.is_admin,
        },
        routed: pick(&body.routed, &target.routed),
        status: pick(&body.status, &target.status),
        detail: pick(&body.detail, &target.detail),
    };
    match validate_record(&candidate) {
        Ok(()) => Ok(candidate),
        Err(e) => Err(e),
    }
}

// ---------------------------------------------------------------------------
// Listing
// ---------------------------------------------------------------------------
/// The page size of a listing: 500 by default, else the requested size
/// clamped to `1..=5000`.
pub open spec fn page_limit(limit: Option<usize>) -> usize {
    match limit {
        Some(l) => if l < 1 {
            1
        } else if l > 5000 {
            5000
        } else {
            l
        },
        None => 500,
    }
}

/// `r` inserted into `s` after every record whose number is not larger.
pub open spec fn insert_by_seq(s: Seq<MessageRecord>, r: MessageRecord) -> Seq<MessageRecord>
    decreases s.len(),
{
    if s.len() == 0 {
        seq![r]
    } else if s.last().seq <= r.seq {
        s.push(r)
    } else {
        insert_by_seq(s.drop_last(), r).push(s.last())
    }
}

/// The records ordered by number; records with the same number keep their
/// order (a stable sort).
pub open spec fn sort_by_seq(s: Seq<MessageRecord>) -> Seq<MessageRecord>
    decreases s.len(),
{
    if s.len() == 0 {
        Seq::empty()
    } else {
        insert_by_seq(sort_by_seq(s.drop_last()), s.last())
    }
}

/// The records numbered after `since`, in order.
pub open spec fn after_seq(s: Seq<MessageRecord>, since: i64) -> Seq<MessageRecord> {
    s.filter(|r: MessageRecord| r.seq > since)
}

/// The records are in non-decreasing order of number.
pub open spec fn seq_ordered(s: Seq<MessageRecord>) -> bool {
    forall|i: int, j: int| 0 <= i < j < s.len() ==> s[i].seq <= s[j].seq
}

proof fn lemma_insert_by_seq(s: Seq<MessageRecord>, r: MessageRecord)
    requires
        seq_ordered(s),
    ensures
        seq_ordered(insert_by_seq(s, r)),
        insert_by_seq(s, r).to_multiset() == s.to_multiset().insert(r),
        insert_by_seq(s, r).len() == s.len() + 1,
        forall|i: int|
            0 <= i < insert_by_seq(s, r).len() ==> #[trigger] insert_by_seq(s, r)[i] == r
                || exists|k: int| 0 <= k < s.len() && s[k] == insert_by_seq(s, r)[i],
    decreases s.len(),
{
    broadcast use vstd::seq_lib::group_to_multiset_ensures;

    if s.len() == 0 {
        assert(insert_by_seq(s, r) == seq![r]);
        assert(seq![r] =~= Seq::<MessageRecord>::empty().push(r));
    } else if s.last().seq <= r.seq {
        assert forall|i: int| 0 <= i < s.len() implies #[trigger] s.push(r)[i] == s[i] by {}
    } else {
        let d = s.drop_last();
        assert(seq_ordered(d)) by {
            assert forall|i: int, j: int| 0 <= i < j < d.len() implies d[i].seq <= d[j].seq by {
                assert(d[i] == s[i] && d[j] == s[j]);
            }
        }
        lemma_insert_by_seq(d, r);
        let m = insert_by_seq(d, r);
        let res = m.push(s.last());
        assert(res == insert_by_seq(s, r));
        assert forall|i: int| 0 <= i < m.len() implies (#[trigger] m[i]).seq <= s.last().seq by {
            if m[i] != r {
                let k = choose|k: int| 0 <= k < d.len() && d[k] == m[i];
                assert(d[k] == s[k]);
            }
        }
        assert forall|i: int, j: int| 0 <= i < j < res.len() implies res[i].seq <= res[j].seq by {
            if j == res.len() - 1 {
                assert(res[i] == m[i]);
            } else {
                assert(res[i] == m[i] && res[j] == m[j]);
            }
        }
        assert(s =~= d.push(s.last()));
        assert forall|i: int| 0 <= i < res.len() implies #[trigger] res[i] == r || exists|k: int|
            0 <= k < s.len() && s[k] == res[i] by {
            if i == res.len() - 1 {
                assert(s[s.len() - 1] == res[i]);
            } else if m[i] != r {
                let k = choose|k: int| 0 <= k < d.len() && d[k] == m[i];
                assert(s[k] == res[i]);
            }
        }
    }
}

/// Ordering by number gives the same records (as a multiset), in
/// non-decreasing order of number.
pub proof fn sort_by_seq_orders(s: Seq<MessageRecord>)
    ensures
        seq_ordered(sort_by_seq(s)),
        sort_by_seq(s).to_multiset() == s.to_multiset(),
    decreases s.len(),
{
    broadcast use vstd::seq_lib::group_to_multiset_ensures;

    if s.len() > 0 {
        sort_by_seq_orders(s.drop_last());
        lemma_insert_by_seq(sort_by_seq(s.drop_last()), s.last());
        assert(s =~= s.drop_last().push(s.last()));
    } else {
        assert(s.to_multiset() =~= vstd::multiset::Multiset::empty());
        assert(sort_by_seq(s).to_multiset() =~= vstd::multiset::Multiset::empty());
    }
}

/// A page of the message log.
pub struct MessagePage {
    /// The records of the page.
    pub records: Vec<MessageRecord>,
    /// How many records are numbered after `since` in all.
    pub total: usize,
    /// The page size used.
    pub limit: usize,
}

proof fn lemma_insert_at(s: Seq<MessageRecord>, r: MessageRecord, p: int)
    requires
        0 <= p <= s.len(),
        forall|j: int| p <= j < s.len() ==> (#[trigger] s[j]).seq > r.seq,
        p == 0 || s[p - 1].seq <= r.seq,
    ensures
        insert_by_seq(s, r) == s.take(p).push(r) + s.skip(p),
    decreases s.len() - p,
{
    if s.len() == p {
        if s.len() > 0 {
            assert(s.take(p).push(r) + s.skip(p) =~= s.push(r));
        } else {
            assert(s.take(p).push(r) + s.skip(p) =~= seq![r]);
        }
    } else {
        let d = s.drop_last();
        assert forall|j: int| p <= j < d.len() implies (#[trigger] d[j]).seq > r.seq by {
            assert(d[j] == s[j]);
        }
        lemma_insert_at(d, r, p);
        assert(d.take(p).push(r) + d.skip(p) + seq![s.last()] =~= s.take(p).push(r) + s.skip(p));
    }
}

/// Inserts `r` after the records numbered no higher (see `insert_by_seq`).
fn insert_record(out: &mut Vec<MessageRecord>, r: MessageRecord)
    ensures
        final(out)@ == insert_by_seq(old(out)@, r),
{
    let mut p: usize = out.len();
    while p > 0 && out[p - 1].seq > r.seq
        invariant
            p <= out@.len(),
            out@ == old(out)@,
            forall|j: int| p <= j < out@.len() ==> (#[trigger] out@[j]).seq > r.seq,
        decreases p,
    {
        p = p - 1;
    }
    proof {
        lemma_insert_at(out@, r, p as int);
        assert(out@.insert(p as int, r) =~= out@.take(p as int).push(r) + out@.skip(p as int));
    }
    out.insert(p, r);
}

/// The listing of the message log after `since`: the records ordered by
/// number (stably), those numbered after `since`, and the first
/// `page_limit(limit)` of them, with how many there were in all.
pub fn message_page(records: Vec<MessageRecord>, since: i64, limit: Option<usize>) -> (r: MessagePage)
    ensures
        r.limit == page_limit(limit),
        r.total == after_seq(sort_by_seq(records@), since).len(),
        r.records@ == after_seq(sort_by_seq(records@), since).take(
            if r.total < r.limit {
                r.total as int
            } else {
                r.limit as int
            },
        ),
{
    let ghost all = records@;
    let mut rest = records;
    let mut sorted: Vec<MessageRecord> = Vec::new();
    let ghost mut k: int = 0;
    while rest.len() > 0
        invariant
            0 <= k <= all.len(),
            rest@ == all.skip(k),
            sorted@ == sort_by_seq(all.take(k)),
        decreases rest@.len(),
    {
        let r = rest.remove(0);
        proof {
            assert(all.take(k + 1).drop_last() =~= all.take(k));
            assert(all[k] == r);
        }
        insert_record(&mut sorted, r);
        proof {
            assert(all.skip(k).remove(0) =~= all.skip(k + 1));
            k = k + 1;
        }
    }
    proof {
        assert(all.skip(k).len() == 0);
        assert(all.take(k) =~= all);
    }
    let ghost ordered = sorted@;
    let mut page: Vec<MessageRecord> = Vec::new();
    let ghost mut j: int = 0;
    while sorted.len() > 0
        invariant
            0 <= j <= ordered.len(),
            sorted@ == ordered.skip(j),
            page@ == after_seq(ordered.take(j), since),
        decreases sorted@.len(),
    {
        let r = sorted.remove(0);
        proof {
            assert(ordered[j] == r);
            assert(ordered.take(j + 1).drop_last() =~= ordered.take(j));
            reveal(Seq::filter);
            assert(ordered.skip(j).remove(0) =~= ordered.skip(j + 1));
        }
        if r.seq > since {
            page.push(r);
        }
        proof {
            j = j + 1;
        }
    }
    proof {
        assert(ordered.take(j) =~= ordered);
    }
    let total = page.len();
    let lim: usize = match limit {
        Some(l) => if l < 1 {
            1
        } else if l > 5000 {
            5000
        } else {
            l
        },
        None => 500,
    };
    page.truncate(lim);
    MessagePage { records: page, total, limit: lim }
}

} // verus!
