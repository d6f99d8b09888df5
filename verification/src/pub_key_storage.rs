//! The key store: the rotation engine.
//!
//! A `KeyDB` owns the single current signing key set plus a time-sorted
//! history of retired public keys. It rotates the current key when its
//! quantum has elapsed, answers point and range lookups over the history by
//! predecessor search, verifies proofs against the key that was
//! authoritative at the claimed instant, and reconciles persisted state with
//! the wall clock after a restart.

use vstd::prelude::*;

use crate::crypto::{
    b64_decode, b64_decode_of, b64_of, pub_key_of, sig_of, sig_valid, verify_signature,
};
use crate::datetime_utils::{
    floor_secs, on_boundary, time_ns, time_wf, DateTimeRange, ProveWhenTime, TimeModel,
    QUANTUM_SECS,
};
use crate::errors::Error;
use crate::key_types::{
    key_wf, nonce_prefix, proof_wf, raw_msg_to_signable, record_wf, signable_of, KeyModel,
    RecordModel, SignResponse, SingleKeySet, TimedPublicKey,
};

verus! {

/// The most entries a range lookup returns, to bound response size.
pub const MAX_RANGE_RESULTS: usize = 50;

/// A record's position on the timeline, in nanoseconds.
pub open spec fn rec_ns(r: RecordModel) -> int {
    time_ns(r.time)
}

/// The records of a history, as their models.
pub open spec fn views(s: Seq<TimedPublicKey>) -> Seq<RecordModel> {
    s.map_values(|k: TimedPublicKey| k@)
}

/// Strictly ascending by time: sorted with no duplicate times.
pub open spec fn sorted_by_time(h: Seq<RecordModel>) -> bool {
    forall|i: int, j: int| 0 <= i < j < h.len() ==> rec_ns(#[trigger] h[i]) < rec_ns(#[trigger] h[j])
}

/// Some record in the history carries exactly this instant.
pub open spec fn has_time(h: Seq<RecordModel>, t: int) -> bool {
    exists|i: int| 0 <= i < h.len() && rec_ns(#[trigger] h[i]) == t
}

/// The number of leading records strictly before `t`; for a sorted history,
/// the insertion point of `t`.
pub open spec fn ipos(h: Seq<RecordModel>, t: int) -> int
    decreases h.len(),
{
    if h.len() == 0 {
        0
    } else if rec_ns(h[0]) < t {
        1 + ipos(h.drop_first(), t)
    } else {
        0
    }
}

/// A history with `r` placed at its insertion point, unless a record with
/// the same instant is already there, in which case the history is kept.
pub open spec fn insert_by_time(h: Seq<RecordModel>, r: RecordModel) -> Seq<RecordModel> {
    if has_time(h, rec_ns(r)) {
        h
    } else {
        h.insert(ipos(h, rec_ns(r)), r)
    }
}

/// The record a key set leaves behind: its generation instant and its
/// rendered public half.
pub open spec fn retired(k: KeyModel) -> RecordModel {
    RecordModel { time: k.time, pk: k.pk_b64 }
}

/// The insertion point is within bounds.
pub proof fn lemma_ipos_bounds(h: Seq<RecordModel>, t: int)
    ensures
        0 <= ipos(h, t) <= h.len(),
    decreases h.len(),
{
    if h.len() != 0 && rec_ns(h[0]) < t {
        lemma_ipos_bounds(h.drop_first(), t);
    }
}

/// In a sorted history the insertion point splits the records into those
/// strictly before `t` and those at or past it.
pub proof fn lemma_ipos_split(h: Seq<RecordModel>, t: int)
    requires
        sorted_by_time(h),
    ensures
        0 <= ipos(h, t) <= h.len(),
        forall|k: int| 0 <= k < ipos(h, t) ==> rec_ns(#[trigger] h[k]) < t,
        forall|k: int| ipos(h, t) <= k < h.len() ==> rec_ns(#[trigger] h[k]) >= t,
    decreases h.len(),
{
    lemma_ipos_bounds(h, t);
    if h.len() != 0 {
        if rec_ns(h[0]) < t {
            let rest = h.drop_first();
            assert(sorted_by_time(rest)) by {
                assert forall|i: int, j: int| 0 <= i < j < rest.len() implies rec_ns(
                    #[trigger] rest[i],
                ) < rec_ns(#[trigger] rest[j]) by {
                    assert(rest[i] == h[i + 1]);
                    assert(rest[j] == h[j + 1]);
                }
            }
            lemma_ipos_split(rest, t);
            assert forall|k: int| 0 <= k < ipos(h, t) implies rec_ns(#[trigger] h[k]) < t by {
                if k > 0 {
                    assert(rest[k - 1] == h[k]);
                }
            }
            assert forall|k: int| ipos(h, t) <= k < h.len() implies rec_ns(#[trigger] h[k])
                >= t by {
                assert(rest[k - 1] == h[k]);
            }
        } else {
            assert forall|k: int| 0 <= k < h.len() implies rec_ns(#[trigger] h[k]) >= t by {
                if k > 0 {
                    assert(rec_ns(h[0]) < rec_ns(h[k]));
                }
            }
        }
    }
}

/// In a sorted history the split characterizes the insertion point: any
/// index with everything before it strictly below `t` and everything from it
/// on at or past `t` is the insertion point.
pub proof fn lemma_ipos_unique(h: Seq<RecordModel>, t: int, i: int)
    requires
        sorted_by_time(h),
        0 <= i <= h.len(),
        forall|k: int| 0 <= k < i ==> rec_ns(#[trigger] h[k]) < t,
        forall|k: int| i <= k < h.len() ==> rec_ns(#[trigger] h[k]) >= t,
    ensures
        i == ipos(h, t),
{
    lemma_ipos_split(h, t);
    if i < ipos(h, t) {
        assert(rec_ns(h[i]) < t);
    } else if i > ipos(h, t) {
        assert(rec_ns(h[ipos(h, t)]) < t);
    }
}

/// Inserting a fresh instant at its insertion point keeps the history
/// sorted.
pub proof fn lemma_insert_sorted(h: Seq<RecordModel>, r: RecordModel)
    requires
        sorted_by_time(h),
        !has_time(h, rec_ns(r)),
    ensures
        sorted_by_time(insert_by_time(h, r)),
        insert_by_time(h, r).len() == h.len() + 1,
{
    let t = rec_ns(r);
    let p = ipos(h, t);
    lemma_ipos_split(h, t);
    let g = h.insert(p, r);
    assert forall|k: int| p <= k < h.len() implies rec_ns(#[trigger] h[k]) > t by {
        assert(rec_ns(h[k]) >= t);
        assert(!(rec_ns(h[k]) == t));
    }
    assert forall|i: int, j: int| 0 <= i < j < g.len() implies rec_ns(#[trigger] g[i]) < rec_ns(
        #[trigger] g[j],
    ) by {
        if i < p {
            assert(g[i] == h[i]);
        } else if i == p {
            assert(g[i] == r);
        } else {
            assert(g[i] == h[i - 1]);
        }
        if j < p {
            assert(g[j] == h[j]);
        } else if j == p {
            assert(g[j] == r);
        } else {
            assert(g[j] == h[j - 1]);
        }
    }
}

/// The insertion point can only grow with the threshold.
pub proof fn lemma_ipos_monotone(h: Seq<RecordModel>, t1: int, t2: int)
    requires
        t1 <= t2,
    ensures
        ipos(h, t1) <= ipos(h, t2),
    decreases h.len(),
{
    lemma_ipos_bounds(h, t1);
    lemma_ipos_bounds(h, t2);
    if h.len() != 0 && rec_ns(h[0]) < t1 {
        lemma_ipos_monotone(h.drop_first(), t1, t2);
    }
}

/// In a sorted history, an instant is present exactly when the two
/// insertion points around it differ.
pub proof fn lemma_has_time_ipos(h: Seq<RecordModel>, t: int)
    requires
        sorted_by_time(h),
    ensures
        has_time(h, t) <==> ipos(h, t + 1) > ipos(h, t),
{
    lemma_ipos_split(h, t);
    lemma_ipos_split(h, t + 1);
    if has_time(h, t) {
        let w = choose|w: int| 0 <= w < h.len() && rec_ns(h[w]) == t;
        assert(rec_ns(h[w]) == t);
        assert(w >= ipos(h, t));
        assert(w < ipos(h, t + 1));
    }
    if ipos(h, t + 1) > ipos(h, t) {
        let p = ipos(h, t);
        assert(rec_ns(h[p]) >= t);
        assert(rec_ns(h[p]) < t + 1);
        assert(has_time(h, t)) by {
            assert(0 <= p < h.len() && rec_ns(h[p]) == t);
        }
    }
}

/// Whatever instants a history answers to, it still answers to after an
/// insertion; and it answers to the inserted instant.
pub proof fn lemma_insert_has_time(h: Seq<RecordModel>, r: RecordModel, t: int)
    requires
        has_time(h, t) || t == rec_ns(r),
    ensures
        has_time(insert_by_time(h, r), t),
{
    let g = insert_by_time(h, r);
    if has_time(h, rec_ns(r)) {
        if t == rec_ns(r) {
        } else {
            let w = choose|w: int| 0 <= w < h.len() && rec_ns(h[w]) == t;
            assert(rec_ns(g[w]) == t);
        }
    } else {
        let p = ipos(h, rec_ns(r));
        lemma_ipos_bounds(h, rec_ns(r));
        if t == rec_ns(r) {
            assert(rec_ns(g[p]) == t);
        } else {
            let w = choose|w: int| 0 <= w < h.len() && rec_ns(h[w]) == t;
            if w < p {
                assert(rec_ns(g[w]) == t);
            } else {
                assert(g[w + 1] == h[w]);
                assert(rec_ns(g[w + 1]) == t);
            }
        }
    }
}

/// Every record of a history with one inserted is the inserted record or
/// one of the old ones.
pub proof fn lemma_insert_members(h: Seq<RecordModel>, r: RecordModel)
    ensures
        forall|i: int|
            0 <= i < insert_by_time(h, r).len() ==> #[trigger] insert_by_time(h, r)[i] == r
                || exists|j: int| 0 <= j < h.len() && h[j] == insert_by_time(h, r)[i],
{
    let g = insert_by_time(h, r);
    if !has_time(h, rec_ns(r)) {
        let p = ipos(h, rec_ns(r));
        lemma_ipos_bounds(h, rec_ns(r));
        assert forall|i: int| 0 <= i < g.len() implies #[trigger] g[i] == r || exists|j: int|
            0 <= j < h.len() && h[j] == g[i] by {
            if i < p {
                assert(h[i] == g[i]);
            } else if i > p {
                assert(h[i - 1] == g[i]);
            }
        }
    } else {
        assert forall|i: int| 0 <= i < g.len() implies #[trigger] g[i] == r || exists|j: int|
            0 <= j < h.len() && h[j] == g[i] by {
            assert(h[i] == g[i]);
        }
    }
}

/// In a sorted non-empty history the last record is the latest: no record
/// sits past it on the timeline.
pub proof fn lemma_last_latest(h: Seq<RecordModel>, t: int)
    requires
        sorted_by_time(h),
        h.len() > 0,
        has_time(h, t),
    ensures
        rec_ns(h[h.len() - 1]) >= t,
{
    let w = choose|w: int| 0 <= w < h.len() && rec_ns(h[w]) == t;
    assert(rec_ns(h[w]) == t);
    if w < h.len() - 1 {
        assert(rec_ns(h[w]) < rec_ns(h[h.len() - 1]));
    }
}

/// What a point lookup answers, apart from the refusal of instants the clock
/// has not reached: the current key for instants at or past its generation;
/// otherwise the closest record at or before the instant — nearest without
/// exceeding — and a refusal for instants before all recorded history.
pub open spec fn lookup_det(current: KeyModel, h: Seq<RecordModel>, t: TimeModel) -> Result<
    (TimeModel, Seq<char>),
    Error,
> {
    if time_ns(t) >= time_ns(current.time) {
        Ok((current.time, current.pk_b64))
    } else {
        let n = ipos(h, time_ns(t) + 1);
        if n == 0 {
            Err(Error::BeforeHistory)
        } else {
            Ok((h[n - 1].time, h[n - 1].pk))
        }
    }
}

/// A point lookup judged against the instant `now`: instants past `now` are
/// refused, the rest answer as `lookup_det`.
pub open spec fn lookup_full(
    current: KeyModel,
    h: Seq<RecordModel>,
    t: TimeModel,
    now: TimeModel,
) -> Result<(TimeModel, Seq<char>), Error> {
    if time_ns(now) < time_ns(t) {
        Err(Error::FutureTime)
    } else {
        lookup_det(current, h, t)
    }
}

/// What proof verification answers, apart from the refusal of claimed
/// instants the clock has not reached. The key authoritative at the claimed
/// instant is looked up; a proof claiming any other key is refused as a key
/// mismatch; then the signature is checked over the canonical payload
/// rebuilt from the proof's own timestamp, message and nonce, against the
/// looked-up key. A store-held public key that is not valid base64 is
/// refused as a decode failure, as is a signature field that is not.
pub open spec fn verify_det(current: KeyModel, h: Seq<RecordModel>, p: SignResponse) -> Result<
    (),
    Error,
> {
    match lookup_det(current, h, p.timestamp@) {
        Err(e) => Err(e),
        Ok(found) => if found.1 != p.public_key@ {
            Err(Error::KeyMismatch)
        } else {
            match b64_decode_of(found.1) {
                None => Err(Error::Decode),
                Some(pk_bytes) => match b64_decode_of(p.signature@) {
                    None => Err(Error::Decode),
                    Some(sig_bytes) => if sig_valid(
                        pk_bytes,
                        signable_of(p.timestamp@, p.message@, p.nonce@),
                        sig_bytes,
                    ) {
                        Ok(())
                    } else {
                        Err(Error::SignatureMismatch)
                    },
                },
            }
        },
    }
}

/// The slice of a history answering a range request: the records with
/// instants in `[start_ns, end_ns)`, capped at `MAX_RANGE_RESULTS` entries
/// from the front.
pub open spec fn range_window(h: Seq<RecordModel>, start_ns: int, end_ns: int) -> Seq<
    RecordModel,
> {
    let lo = ipos(h, start_ns);
    let hi0 = ipos(h, end_ns);
    let hi = if hi0 - lo > MAX_RANGE_RESULTS as int {
        lo + MAX_RANGE_RESULTS as int
    } else {
        hi0
    };
    h.subrange(lo, hi)
}

/// Places a record into a sorted history at its position; a record whose
/// instant is already present is dropped, keeping the existing one.
fn insert_record(v: &mut Vec<TimedPublicKey>, r: TimedPublicKey)
    requires
        sorted_by_time(views(old(v)@)),
        forall|i: int| 0 <= i < old(v)@.len() ==> record_wf(#[trigger] old(v)@[i]@),
        record_wf(r@),
    ensures
        views(final(v)@) == insert_by_time(views(old(v)@), r@),
        sorted_by_time(views(final(v)@)),
        forall|i: int| 0 <= i < final(v)@.len() ==> record_wf(#[trigger] final(v)@[i]@),
        has_time(views(old(v)@), rec_ns(r@)) ==> final(v)@ == old(v)@,
        (forall|k: int|
            0 <= k < old(v)@.len() ==> rec_ns(#[trigger] views(old(v)@)[k]) < rec_ns(r@))
            ==> final(v)@ == old(v)@.push(r),
        final(v)@ == old(v)@ || exists|p: int|
            0 <= p <= old(v)@.len() && final(v)@ == old(v)@.insert(p, r),
{
    let ghost h = views(v@);
    let ghost t = rec_ns(r@);
    proof {
        lemma_ipos_split(h, t);
    }
    let mut i: usize = 0;
    while i < v.len() && v[i].time().is_before(r.time())
        invariant
            0 <= i <= v@.len(),
            views(v@) == h,
            sorted_by_time(h),
            forall|k: int| 0 <= k < v@.len() ==> record_wf(#[trigger] v@[k]@),
            record_wf(r@),
            t == rec_ns(r@),
            forall|k: int| 0 <= k < i ==> rec_ns(#[trigger] h[k]) < t,
        decreases v@.len() - i,
    {
        proof {
            assert(views(v@)[i as int] == v@[i as int]@);
        }
        i = i + 1;
    }
    proof {
        assert(i < v@.len() ==> views(v@)[i as int] == v@[i as int]@);
    }
    if i < v.len() && v[i].time().is_same(r.time()) {
        // A record for this instant already exists; keep it.
        proof {
            assert(rec_ns(h[i as int]) == t);
            assert(has_time(h, t));
        }
        return ;
    }
    proof {
        assert(i < v@.len() ==> rec_ns(h[i as int]) > t || rec_ns(h[i as int]) == t);
        assert forall|k: int| i <= k < h.len() implies rec_ns(#[trigger] h[k]) >= t by {
            if k > i {
                assert(rec_ns(h[i as int]) < rec_ns(h[k]));
            }
        }
        assert(!has_time(h, t)) by {
            if has_time(h, t) {
                let w = choose|w: int| 0 <= w < h.len() && rec_ns(h[w]) == t;
                assert(rec_ns(h[w]) == t);
            }
        }
        lemma_ipos_unique(h, t, i as int);
        lemma_insert_sorted(h, r@);
    }
    v.insert(i, r);
    proof {
        assert(views(v@) =~= h.insert(i as int, r@));
        if i == h.len() {
            assert(h.insert(i as int, r@) =~= h.push(r@));
            assert(v@ =~= old(v)@.push(r));
        }
    }
}

/// A record sits exactly on the whole-second boundary instant `b`.
pub open spec fn boundary_filled(h: Seq<RecordModel>, b: int) -> bool {
    has_time(h, b * 1_000_000_000)
}

/// Every instant recorded in `pre_h` is still recorded in `h`.
pub open spec fn preserves_times(pre_h: Seq<RecordModel>, h: Seq<RecordModel>) -> bool {
    forall|j: int| 0 <= j < pre_h.len() ==> has_time(h, rec_ns(#[trigger] pre_h[j]))
}

/// Every record of a recovered history is accounted for: it was loaded, or
/// it archives the current key, or it is a back-filled record on a quantum
/// boundary.
pub open spec fn recovery_provenance(
    pre_h: Seq<RecordModel>,
    cur: KeyModel,
    h: Seq<RecordModel>,
) -> bool {
    forall|i: int|
        0 <= i < h.len() ==> (exists|j: int| 0 <= j < pre_h.len() && pre_h[j] == #[trigger] h[i])
            || h[i] == retired(cur) || on_boundary(h[i].time)
}

/// An insertion preserves every recorded instant.
pub proof fn lemma_step_preserves(pre_h: Seq<RecordModel>, h: Seq<RecordModel>, r: RecordModel)
    requires
        preserves_times(pre_h, h),
    ensures
        preserves_times(pre_h, insert_by_time(h, r)),
{
    assert forall|j: int| 0 <= j < pre_h.len() implies has_time(
        insert_by_time(h, r),
        rec_ns(#[trigger] pre_h[j]),
    ) by {
        lemma_insert_has_time(h, r, rec_ns(pre_h[j]));
    }
}

/// Preserved instants chain across two recovery steps.
pub proof fn lemma_preserves_trans(a: Seq<RecordModel>, b: Seq<RecordModel>, c: Seq<RecordModel>)
    requires
        preserves_times(a, b),
        preserves_times(b, c),
    ensures
        preserves_times(a, c),
{
    assert forall|j: int| 0 <= j < a.len() implies has_time(c, rec_ns(#[trigger] a[j])) by {
        let w = choose|w: int| 0 <= w < b.len() && rec_ns(b[w]) == rec_ns(a[j]);
        assert(has_time(c, rec_ns(b[w])));
    }
}

/// Provenance chains across two recovery steps around the same current key.
pub proof fn lemma_prov_trans(
    a: Seq<RecordModel>,
    cur: KeyModel,
    b: Seq<RecordModel>,
    c: Seq<RecordModel>,
)
    requires
        recovery_provenance(a, cur, b),
        recovery_provenance(b, cur, c),
    ensures
        recovery_provenance(a, cur, c),
{
    assert forall|i: int| 0 <= i < c.len() implies (exists|j: int|
        0 <= j < a.len() && a[j] == #[trigger] c[i]) || c[i] == retired(cur) || on_boundary(
        c[i].time,
    ) by {
        if !(c[i] == retired(cur) || on_boundary(c[i].time)) {
            let w = choose|w: int| 0 <= w < b.len() && b[w] == c[i];
            assert((exists|j: int| 0 <= j < a.len() && a[j] == b[w]) || b[w] == retired(cur)
                || on_boundary(b[w].time));
        }
    }
}

/// The wrap-up of a recovery run: given the effects of the sorting,
/// archiving and back-filling steps, the recovered store's contract
/// follows. `s1` is the sorted loaded history, `s2` the history after the
/// current key was archived where needed, `db` the final store.
proof fn lemma_defrost_wrapup(
    pre: KeyDB,
    s1: Seq<RecordModel>,
    s2: Seq<RecordModel>,
    db: KeyDB,
    latest_matches: bool,
)
    requires
        db.wf(),
        db.current() == pre.current(),
        key_wf(pre.current()),
        sorted_by_time(s1),
        forall|i: int| 0 <= i < s1.len() ==> record_wf(#[trigger] s1[i]),
        s1.len() >= 1,
        latest_matches == (s1.last().pk == pre.current().pk_b64),
        latest_matches ==> s2 == s1,
        !latest_matches ==> has_time(s2, time_ns(pre.current().time)),
        preserves_times(s1, s2),
        preserves_times(pre.history(), s2),
        recovery_provenance(pre.history(), pre.current(), s2),
        has_time(s2, rec_ns(s1.last())),
        preserves_times(s2, db.history()),
        recovery_provenance(s2, pre.current(), db.history()),
        floor_secs(s1.last().time.secs) >= floor_secs(pre.current().time.secs) ==> db.history()
            == s2,
        floor_secs(s1.last().time.secs) < floor_secs(pre.current().time.secs) ==> has_time(
            db.history(),
            floor_secs(pre.current().time.secs) * 1_000_000_000,
        ),
        forall|b: int|
            floor_secs(s1.last().time.secs) < b <= floor_secs(pre.current().time.secs) && b % (
            QUANTUM_SECS as int) == 0 ==> #[trigger] boundary_filled(db.history(), b),
        pre.wf() ==> s1 == pre.history(),
        KeyDB::recovered(pre) ==> s2 == s1 && db.history() == s2,
    ensures
        preserves_times(pre.history(), db.history()),
        recovery_provenance(pre.history(), pre.current(), db.history()),
        db.history().len() > 0,
        KeyDB::recovered(pre) ==> KeyDB::same_state(pre, db),
        pre.wf() && pre.history().len() > 0 && pre.history().last().pk != pre.current().pk_b64
            ==> has_time(db.history(), time_ns(pre.current().time)),
        pre.wf() && pre.history().len() > 0 ==> forall|b: int|
            floor_secs(pre.history().last().time.secs) < b <= floor_secs(
                pre.current().time.secs,
            ) && b % (QUANTUM_SECS as int) == 0 ==> #[trigger] boundary_filled(db.history(), b),
        KeyDB::regular_recovery(pre) ==> KeyDB::recovered(db),
{
    let fin = db.history();
    let cur = pre.current();
    lemma_preserves_trans(pre.history(), s2, fin);
    lemma_prov_trans(pre.history(), cur, s2, fin);
    // The latest loaded instant is still recorded, so the final latest
    // record sits at or past it on the timeline.
    assert(has_time(fin, rec_ns(s1.last()))) by {
        let w = choose|w: int| 0 <= w < s2.len() && rec_ns(s2[w]) == rec_ns(s1.last());
        assert(has_time(fin, rec_ns(s2[w])));
    }
    lemma_last_latest(fin, rec_ns(s1.last()));
    crate::datetime_utils::lemma_ns_order(fin.last().time, s1.last().time);
    crate::datetime_utils::lemma_floor_mono(s1.last().time.secs, fin.last().time.secs);
    crate::datetime_utils::lemma_floor_secs(s1.last().time.secs);
    crate::datetime_utils::lemma_floor_secs(cur.time.secs);
    if floor_secs(s1.last().time.secs) < floor_secs(cur.time.secs) {
        // A record now sits on the floor of the current instant.
        let bns = floor_secs(cur.time.secs) * 1_000_000_000;
        assert(has_time(fin, bns));
        lemma_last_latest(fin, bns);
        assert(fin.last().time.secs >= floor_secs(cur.time.secs)) by {
            crate::datetime_utils::lemma_ns_order(
                fin.last().time,
                TimeModel {
                    secs: floor_secs(cur.time.secs),
                    nanos: 0,
                    rendered: fin.last().time.rendered,
                },
            );
        }
        crate::datetime_utils::lemma_floor_mono(floor_secs(cur.time.secs), fin.last().time.secs);
        if on_boundary(cur.time) {
            assert(bns == time_ns(cur.time));
        }
    }
    if KeyDB::recovered(pre) {
        assert(KeyDB::same_state(pre, db));
    }
    if pre.wf() && pre.history().len() > 0 {
        if pre.history().last().pk != cur.pk_b64 {
            assert(!latest_matches);
            let w2 = choose|w2: int| 0 <= w2 < s2.len() && rec_ns(s2[w2]) == time_ns(cur.time);
            assert(has_time(fin, rec_ns(s2[w2])));
        }
    }
    if KeyDB::regular_recovery(pre) {
        assert(KeyDB::recovered(db)) by {
            if s1.last().pk != cur.pk_b64 {
                let w = choose|w: int| 0 <= w < s2.len() && rec_ns(s2[w]) == time_ns(cur.time);
                assert(has_time(fin, rec_ns(s2[w])));
            } else if floor_secs(s1.last().time.secs) >= floor_secs(cur.time.secs) {
                assert(fin == s2 && s2 == s1);
                assert(fin.last().pk == cur.pk_b64);
            } else {
                assert(on_boundary(cur.time));
                assert(has_time(fin, time_ns(cur.time)));
            }
        }
    }
}

/// Inserting an accounted-for record keeps the provenance of a recovery.
pub proof fn lemma_step_prov(
    pre_h: Seq<RecordModel>,
    cur: KeyModel,
    h: Seq<RecordModel>,
    r: RecordModel,
)
    requires
        recovery_provenance(pre_h, cur, h),
        r == retired(cur) || on_boundary(r.time),
    ensures
        recovery_provenance(pre_h, cur, insert_by_time(h, r)),
{
    let g = insert_by_time(h, r);
    lemma_insert_members(h, r);
    assert forall|i: int| 0 <= i < g.len() implies (exists|j: int|
        0 <= j < pre_h.len() && pre_h[j] == #[trigger] g[i]) || g[i] == retired(cur)
        || on_boundary(g[i].time) by {
        if g[i] != r {
            let j0 = choose|j0: int| 0 <= j0 < h.len() && h[j0] == g[i];
            assert(0 <= j0 < h.len());
            assert((exists|j: int| 0 <= j < pre_h.len() && pre_h[j] == h[j0]) || h[j0] == retired(
                cur,
            ) || on_boundary(h[j0].time));
        }
    }
}

/// Every record of `out` is one of the records of `orig`.
pub open spec fn from_among(orig: Seq<TimedPublicKey>, out: Seq<TimedPublicKey>) -> bool {
    forall|i: int|
        0 <= i < out.len() ==> exists|j: int| 0 <= j < orig.len() && orig[j] == #[trigger] out[i]
}

/// Sorts a history into strict time order. Loaded order is not trusted, so
/// this is defensive: an already-sorted history comes back untouched, and
/// where a loaded history holds two records for one instant, the first one
/// is kept.
fn sort_history(v: &mut Vec<TimedPublicKey>)
    requires
        forall|i: int| 0 <= i < old(v)@.len() ==> record_wf(#[trigger] old(v)@[i]@),
    ensures
        sorted_by_time(views(final(v)@)),
        forall|i: int| 0 <= i < final(v)@.len() ==> record_wf(#[trigger] final(v)@[i]@),
        sorted_by_time(views(old(v)@)) ==> final(v)@ == old(v)@,
        forall|j: int|
            0 <= j < old(v)@.len() ==> has_time(
                views(final(v)@),
                rec_ns(#[trigger] old(v)@[j]@),
            ),
        from_among(old(v)@, final(v)@),
{
    let ghost orig = v@;
    let mut result: Vec<TimedPublicKey> = Vec::new();
    let mut i: usize = 0;
    while i < v.len()
        invariant
            0 <= i <= v@.len(),
            v@ == orig,
            forall|k: int| 0 <= k < orig.len() ==> record_wf(#[trigger] orig[k]@),
            sorted_by_time(views(result@)),
            forall|k: int| 0 <= k < result@.len() ==> record_wf(#[trigger] result@[k]@),
            forall|j: int|
                0 <= j < i ==> has_time(views(result@), rec_ns(#[trigger] orig[j]@)),
            from_among(orig, result@),
            sorted_by_time(views(orig)) ==> result@ == orig.subrange(0, i as int),
        decreases v@.len() - i,
    {
        let rec = v[i].clone();
        let ghost pre = result@;
        proof {
            if sorted_by_time(views(orig)) {
                assert forall|k: int| 0 <= k < pre.len() implies rec_ns(#[trigger] views(pre)[k])
                    < rec_ns(rec@) by {
                    assert(views(pre)[k] == pre[k]@);
                    assert(pre[k] == orig[k]);
                    assert(views(orig)[k] == orig[k]@);
                    assert(views(orig)[i as int] == orig[i as int]@);
                }
            }
        }
        insert_record(&mut result, rec);
        proof {
            assert forall|j: int| 0 <= j < i + 1 implies has_time(
                views(result@),
                rec_ns(#[trigger] orig[j]@),
            ) by {
                if j < i {
                    lemma_insert_has_time(views(pre), rec@, rec_ns(orig[j]@));
                } else {
                    lemma_insert_has_time(views(pre), rec@, rec_ns(rec@));
                }
            }
            if sorted_by_time(views(orig)) {
                assert(result@ == pre.push(rec));
                assert(result@ =~= orig.subrange(0, (i + 1) as int));
            }
        }
        i = i + 1;
    }
    proof {
        if sorted_by_time(views(orig)) {
            assert(result@ =~= orig);
        }
    }
    let ghost fin = result@;
    *v = result;
    proof {
        assert(from_among(orig, fin));
        assert(v@ == fin);
    }
}

/// The key store: the current signing key set plus the sorted history of
/// retired public keys.
pub struct KeyDB {
    current_key: SingleKeySet,
    old_keys: Vec<TimedPublicKey>,
}

/// The element-wise well-formedness of a store's records, read off its
/// storage vector.
proof fn lemma_wf_elements(db: &KeyDB)
    requires
        db.wf_data(),
    ensures
        forall|i: int| 0 <= i < db.old_keys@.len() ==> record_wf(#[trigger] db.old_keys@[i]@),
{
    assert forall|i: int| 0 <= i < db.old_keys@.len() implies record_wf(
        #[trigger] db.old_keys@[i]@,
    ) by {
        assert(db.history()[i] == db.old_keys@[i]@);
    }
}

/// The converse: element-wise record well-formedness gives `wf_data`.
proof fn lemma_elements_wf(db: &KeyDB)
    requires
        key_wf(db.current()),
        forall|i: int| 0 <= i < db.old_keys@.len() ==> record_wf(#[trigger] db.old_keys@[i]@),
    ensures
        db.wf_data(),
{
    assert forall|i: int| 0 <= i < db.history().len() implies record_wf(
        #[trigger] db.history()[i],
    ) by {
        assert(db.history()[i] == db.old_keys@[i]@);
    }
}

impl KeyDB {
    /// The model of the current key set.
    pub closed spec fn current(&self) -> KeyModel {
        self.current_key@
    }

    /// The models of the historical records, in storage order.
    pub closed spec fn history(&self) -> Seq<RecordModel> {
        views(self.old_keys@)
    }

    /// Every part individually well-formed; what a store freshly rebuilt
    /// from persisted parts satisfies before recovery has run.
    pub open spec fn wf_data(&self) -> bool {
        &&& key_wf(self.current())
        &&& forall|i: int| 0 <= i < self.history().len() ==> record_wf(#[trigger] self.history()[i])
    }

    /// A consistent store: well-formed parts and a strictly time-sorted
    /// history. Established by construction or by recovery, preserved by
    /// every operation.
    pub open spec fn wf(&self) -> bool {
        &&& self.wf_data()
        &&& sorted_by_time(self.history())
    }

    /// The two stores hold the same state, model for model.
    pub open spec fn same_state(pre: KeyDB, post: KeyDB) -> bool {
        post.current() == pre.current() && post.history() == pre.history()
    }

    /// A fresh store: a newly generated current key stamped with the current
    /// instant, and an empty history.
    pub fn new() -> (r: Result<KeyDB, Error>)
        ensures
            match r {
                Ok(db) => db.wf() && db.history().len() == 0,
                Err(e) => e == Error::Random,
            },
    {
        let current_key = match SingleKeySet::new() {
            Ok(k) => k,
            Err(e) => {
                return Err(e);
            },
        };
        let db = KeyDB { current_key, old_keys: Vec::new() };
        proof {
            assert(db.history() =~= Seq::<RecordModel>::empty());
        }
        Ok(db)
    }

    /// A store rebuilt from persisted parts, exactly as loaded. It must be
    /// run through `defrost` before any other operation: the loaded history
    /// order is not trusted.
    pub fn from_parts(current: SingleKeySet, old_keys: Vec<TimedPublicKey>) -> (r: KeyDB)
        requires
            key_wf(current@),
            forall|i: int| 0 <= i < old_keys@.len() ==> record_wf(#[trigger] old_keys@[i]@),
        ensures
            r.current() == current@,
            r.history() == views(old_keys@),
            r.wf_data(),
    {
        let db = KeyDB { current_key: current, old_keys };
        proof {
            assert forall|i: int| 0 <= i < db.history().len() implies record_wf(
                #[trigger] db.history()[i],
            ) by {
                assert(db.history()[i] == db.old_keys@[i]@);
            }
        }
        db
    }

    /// Read access to the current key set.
    pub fn current_key(&self) -> (r: &SingleKeySet)
        ensures
            r@ == self.current(),
    {
        &self.current_key
    }

    /// Read access to the historical records, in time order.
    pub fn old_keys(&self) -> (r: &Vec<TimedPublicKey>)
        ensures
            views(r@) == self.history(),
    {
        &self.old_keys
    }

    /// Retires the current key — archiving its public half, attested by a
    /// proof the outgoing key signs before it is discarded — and installs
    /// `new` in its place. If a record for the outgoing key's instant is
    /// already archived, that record is kept and nothing is added. On
    /// failure of the random source the store is unchanged.
    pub fn rotate(&mut self, new: SingleKeySet) -> (r: Result<(), Error>)
        requires
            old(self).wf(),
            key_wf(new@),
        ensures
            match r {
                Ok(()) => {
                    &&& final(self).wf()
                    &&& final(self).current() == new@
                    &&& final(self).history() == insert_by_time(
                        old(self).history(),
                        retired(old(self).current()),
                    )
                    &&& final(self).history().len() >= old(self).history().len()
                    &&& !has_time(old(self).history(), time_ns(old(self).current().time))
                        ==> final(self).history().len() == old(self).history().len() + 1
                },
                Err(e) => e == Error::Random && KeyDB::same_state(*old(self), *final(self)),
            },
    {
        let rec = match TimedPublicKey::from_single_keyset(&self.current_key) {
            Ok(t) => t,
            Err(e) => {
                return Err(e);
            },
        };
        proof {
            if !has_time(self.history(), rec_ns(rec@)) {
                lemma_insert_sorted(self.history(), rec@);
            }
            assert forall|i: int| 0 <= i < self.old_keys@.len() implies record_wf(
                #[trigger] self.old_keys@[i]@,
            ) by {
                assert(self.history()[i] == self.old_keys@[i]@);
            }
        }
        insert_record(&mut self.old_keys, rec);
        self.current_key = new;
        Ok(())
    }

    /// Whether the current key has expired for this quantum.
    fn time_to_switch(&self, now: &ProveWhenTime) -> (r: bool)
        requires
            self.wf(),
            time_wf(now@),
        ensures
            r == (time_ns(self.current().time) < time_ns(
                TimeModel { secs: floor_secs(now@.secs), nanos: 0, rendered: now@.rendered },
            )),
    {
        let fl = now.floored();
        self.current_key.time_generated().is_before(&fl)
    }

    /// The current key set, rotating first if its quantum has elapsed: when
    /// the current key's generation instant lies strictly before the floor
    /// of the present instant, the key is retired and a fresh one, stamped
    /// with that floor value, takes its place. On failure of the random
    /// source the store is unchanged.
    pub fn get_current(&mut self) -> (r: Result<SingleKeySet, Error>)
        requires
            old(self).wf(),
        ensures
            match r {
                Ok(k) => {
                    &&& final(self).wf()
                    &&& k@ == final(self).current()
                    &&& KeyDB::same_state(*old(self), *final(self)) || KeyDB::rotated(
                        *old(self),
                        *final(self),
                    )
                    &&& final(self).history().len() >= old(self).history().len()
                },
                Err(e) => e == Error::Random && KeyDB::same_state(*old(self), *final(self)),
            },
    {
        let now = ProveWhenTime::now();
        if self.time_to_switch(&now) {
            let fl = now.floored();
            let fresh = match SingleKeySet::from_time(fl) {
                Ok(k) => k,
                Err(e) => {
                    return Err(e);
                },
            };
            match self.rotate(fresh) {
                Ok(()) => {},
                Err(e) => {
                    return Err(e);
                },
            }
        }
        Ok(self.current_key.clone())
    }

    /// The number of records strictly before `limit` on the timeline, found
    /// by binary search over the sorted history.
    fn count_below(&self, limit: Ghost<int>, t: &ProveWhenTime, inclusive: bool) -> (r: usize)
        requires
            self.wf(),
            time_wf(t@),
            limit@ == if inclusive {
                time_ns(t@) + 1
            } else {
                time_ns(t@)
            },
        ensures
            r as int == ipos(self.history(), limit@),
    {
        let ghost h = self.history();
        proof {
            lemma_ipos_split(h, limit@);
        }
        let mut lo: usize = 0;
        let mut hi: usize = self.old_keys.len();
        while lo < hi
            invariant
                0 <= lo <= hi <= self.old_keys@.len(),
                self.wf(),
                time_wf(t@),
                h == self.history(),
                limit@ == if inclusive {
                    time_ns(t@) + 1
                } else {
                    time_ns(t@)
                },
                forall|k: int| 0 <= k < lo ==> rec_ns(#[trigger] h[k]) < limit@,
                forall|k: int| hi <= k < h.len() ==> rec_ns(#[trigger] h[k]) >= limit@,
            decreases hi - lo,
        {
            let mid = lo + (hi - lo) / 2;
            proof {
                assert(h[mid as int] == self.old_keys@[mid as int]@);
                assert(record_wf(h[mid as int]));
            }
            let before = if inclusive {
                self.old_keys[mid].time().is_before(t) || self.old_keys[mid].time().is_same(t)
            } else {
                self.old_keys[mid].time().is_before(t)
            };
            if before {
                proof {
                    assert forall|k: int| 0 <= k < mid + 1 implies rec_ns(#[trigger] h[k])
                        < limit@ by {
                        if k < mid {
                            assert(rec_ns(h[k]) < rec_ns(h[mid as int]));
                        }
                    }
                }
                lo = mid + 1;
            } else {
                proof {
                    assert forall|k: int| mid <= k < h.len() implies rec_ns(#[trigger] h[k])
                        >= limit@ by {
                        if k > mid {
                            assert(rec_ns(h[mid as int]) < rec_ns(h[k]));
                        }
                    }
                }
                hi = mid;
            }
        }
        proof {
            lemma_ipos_unique(h, limit@, lo as int);
        }
        lo
    }

    /// Whether some record in the history carries exactly this instant.
    fn contains_time(&self, t: &ProveWhenTime) -> (r: bool)
        requires
            self.wf(),
            time_wf(t@),
        ensures
            r == has_time(self.history(), time_ns(t@)),
    {
        let n1 = self.count_below(Ghost(time_ns(t@) + 1), t, true);
        let n0 = self.count_below(Ghost(time_ns(t@)), t, false);
        proof {
            lemma_has_time_ipos(self.history(), time_ns(t@));
        }
        n1 > n0
    }

    /// Looks up the key authoritative at `rtime`, judged against the instant
    /// `now`: instants past `now` are refused; from the current key's
    /// generation instant onward the current key is authoritative; earlier
    /// instants resolve to the closest history record at or before them —
    /// nearest without exceeding — and instants before all recorded history
    /// are refused. Exactly `lookup_full`.
    pub fn lookup_at(&self, rtime: &ProveWhenTime, now: &ProveWhenTime) -> (r: Result<
        (ProveWhenTime, String),
        Error,
    >)
        requires
            self.wf(),
            time_wf(rtime@),
            time_wf(now@),
        ensures
            match r {
                Ok(p) => time_wf(p.0@) && lookup_full(self.current(), self.history(), rtime@, now@)
                    == Ok::<(TimeModel, Seq<char>), Error>((p.0@, p.1@)),
                Err(e) => lookup_full(self.current(), self.history(), rtime@, now@) == Err::<
                    (TimeModel, Seq<char>),
                    Error,
                >(e),
            },
    {
        let ghost h = self.history();
        if now.is_before(rtime) {
            return Err(Error::FutureTime);
        }
        if !rtime.is_before(self.current_key.time_generated()) {
            return Ok(
                (
                    self.current_key.time_generated().clone(),
                    self.current_key.pub_key_base64().to_owned(),
                ),
            );
        }
        let n = self.count_below(Ghost(time_ns(rtime@) + 1), rtime, true);
        if n == 0 {
            return Err(Error::BeforeHistory);
        }
        proof {
            lemma_ipos_bounds(h, time_ns(rtime@) + 1);
            assert(h[n - 1] == self.old_keys@[n - 1]@);
            assert(record_wf(h[n - 1]));
        }
        let rec = &self.old_keys[n - 1];
        Ok((rec.time().clone(), rec.public_key().to_owned()))
    }

    /// Looks up the key authoritative at `rtime`, judged against the present
    /// instant. Apart from the refusal of instants the clock has not
    /// reached, the answer is exactly `lookup_det` on the store.
    pub fn get_public_key_by_time(&self, rtime: &ProveWhenTime) -> (r: Result<
        (ProveWhenTime, String),
        Error,
    >)
        requires
            self.wf(),
            time_wf(rtime@),
        ensures
            match r {
                Ok(p) => time_wf(p.0@) && lookup_det(self.current(), self.history(), rtime@)
                    == Ok::<(TimeModel, Seq<char>), Error>((p.0@, p.1@)),
                Err(e) => e == Error::FutureTime || lookup_det(
                    self.current(),
                    self.history(),
                    rtime@,
                ) == Err::<(TimeModel, Seq<char>), Error>(e),
            },
    {
        let now = ProveWhenTime::now();
        self.lookup_at(rtime, &now)
    }

    /// The records whose instants fall in the half-open window
    /// `[start, end)`, in time order, capped at `MAX_RANGE_RESULTS` entries
    /// from the front; fails exactly when `end` precedes `start`.
    pub fn range(&self, start: &ProveWhenTime, end: &ProveWhenTime) -> (r: Result<
        Vec<TimedPublicKey>,
        Error,
    >)
        requires
            self.wf(),
            time_wf(start@),
            time_wf(end@),
        ensures
            match r {
                Ok(v) => {
                    &&& time_ns(start@) <= time_ns(end@)
                    &&& views(v@) == range_window(self.history(), time_ns(start@), time_ns(end@))
                },
                Err(e) => e == Error::MalformedRange && time_ns(end@) < time_ns(start@),
            },
    {
        let ghost h = self.history();
        if end.is_before(start) {
            return Err(Error::MalformedRange);
        }
        let lo = self.count_below(Ghost(time_ns(start@)), start, false);
        let hi0 = self.count_below(Ghost(time_ns(end@)), end, false);
        proof {
            lemma_ipos_bounds(h, time_ns(start@));
            lemma_ipos_bounds(h, time_ns(end@));
            lemma_ipos_monotone(h, time_ns(start@), time_ns(end@));
        }
        let hi = if hi0 - lo > MAX_RANGE_RESULTS {
            lo + MAX_RANGE_RESULTS
        } else {
            hi0
        };
        let mut out: Vec<TimedPublicKey> = Vec::new();
        let mut i = lo;
        while i < hi
            invariant
                lo <= i <= hi <= self.old_keys@.len(),
                h == self.history(),
                self.wf(),
                views(out@) =~= h.subrange(lo as int, i as int),
            decreases hi - i,
        {
            proof {
                assert(h[i as int] == self.old_keys@[i as int]@);
            }
            let ghost prev = out@;
            out.push(self.old_keys[i].clone());
            proof {
                assert(views(prev).len() == prev.len());
                assert(prev.len() == i - lo);
                assert(out@ == prev.push(self.old_keys@[i as int]));
                assert forall|k: int| 0 <= k < out@.len() implies views(out@)[k] == h.subrange(
                    lo as int,
                    (i + 1) as int,
                )[k] by {
                    assert(views(out@)[k] == out@[k]@);
                    if k < prev.len() {
                        assert(out@[k] == prev[k]);
                        assert(views(prev)[k] == prev[k]@);
                        assert(views(prev)[k] == h.subrange(lo as int, i as int)[k]);
                    } else {
                        assert(out@[k] == self.old_keys@[i as int]);
                        assert(h.subrange(lo as int, (i + 1) as int)[k] == h[i as int]);
                    }
                }
                assert(views(out@).len() == out@.len());
                assert(views(out@) =~= h.subrange(lo as int, (i + 1) as int));
            }
            i = i + 1;
        }
        proof {
            assert(views(out@) =~= range_window(h, time_ns(start@), time_ns(end@)));
        }
        Ok(out)
    }

    /// Verifies a proof, judged against the instant `now`: exactly
    /// `verify_det`, with claimed instants past `now` refused first.
    pub fn verify_at(&self, message: &SignResponse, now: &ProveWhenTime) -> (r: Result<(), Error>)
        requires
            self.wf(),
            proof_wf(*message),
            time_wf(now@),
        ensures
            r == (if time_ns(now@) < time_ns(message.timestamp@) {
                Err::<(), Error>(Error::FutureTime)
            } else {
                verify_det(self.current(), self.history(), *message)
            }),
    {
        let (_key_time, pk_base64) = match self.lookup_at(&message.timestamp, now) {
            Ok(p) => p,
            Err(e) => {
                return Err(e);
            },
        };
        if pk_base64 != message.public_key {
            return Err(Error::KeyMismatch);
        }
        let pk_bytes = match b64_decode(pk_base64.as_str()) {
            Ok(b) => b,
            Err(e) => {
                return Err(e);
            },
        };
        let sig_bytes = match b64_decode(message.signature.as_str()) {
            Ok(b) => b,
            Err(e) => {
                return Err(e);
            },
        };
        let payload = raw_msg_to_signable(
            &message.timestamp,
            message.message.as_str(),
            message.nonce.as_str(),
        );
        if verify_signature(pk_bytes.as_slice(), payload.as_str(), sig_bytes.as_slice()) {
            Ok(())
        } else {
            Err(Error::SignatureMismatch)
        }
    }

    /// Verifies a proof against the key that was authoritative at its
    /// claimed instant, judged against the present instant. Apart from the
    /// refusal of claimed instants the clock has not reached, the verdict is
    /// exactly `verify_det` on the store.
    pub fn verify(&self, message: &SignResponse) -> (r: Result<(), Error>)
        requires
            self.wf(),
            proof_wf(*message),
        ensures
            r == Err::<(), Error>(Error::FutureTime) || r == verify_det(
                self.current(),
                self.history(),
                *message,
            ),
    {
        let now = ProveWhenTime::now();
        self.verify_at(message, &now)
    }

    /// Signs a message with the key current for the present instant,
    /// rotating first if the quantum has elapsed. The proof returned binds
    /// the signing instant, the message and a fresh nonce under the
    /// (possibly new) current key. On failure of the random source the store
    /// is unchanged.
    pub fn sign(&mut self, msg: &str) -> (r: Result<SignResponse, Error>)
        requires
            old(self).wf(),
        ensures
            match r {
                Ok(p) => {
                    &&& final(self).wf()
                    &&& KeyDB::same_state(*old(self), *final(self)) || KeyDB::rotated(
                        *old(self),
                        *final(self),
                    )
                    &&& proof_wf(p)
                    &&& p.message@ == msg@
                    &&& p.key_time@ == final(self).current().time
                    &&& p.public_key@ == final(self).current().pk_b64
                    &&& exists|data: Seq<u8>|
                        data.len() == 32 && p.nonce@ == nonce_prefix()
                            + #[trigger] b64_of(data)
                    &&& b64_decode_of(p.signature@) == Some(
                        sig_of(
                            final(self).current().pkcs8,
                            signable_of(p.timestamp@, msg@, p.nonce@),
                        ),
                    )
                    &&& sig_valid(
                        pub_key_of(final(self).current().pkcs8),
                        signable_of(p.timestamp@, msg@, p.nonce@),
                        sig_of(
                            final(self).current().pkcs8,
                            signable_of(p.timestamp@, msg@, p.nonce@),
                        ),
                    )
                },
                Err(e) => e == Error::Random,
            },
    {
        let signer = match self.get_current() {
            Ok(k) => k,
            Err(e) => {
                return Err(e);
            },
        };
        let now = ProveWhenTime::now();
        signer.sign(now, msg)
    }

    /// Round trip: a proof exactly as `sign` builds it over the store's
    /// current key — claiming that key's rendered public half, carrying a
    /// signature that decodes to the key's detached signature over the
    /// canonical payload of its own timestamp, message and nonce — verifies,
    /// whenever its timestamp does not predate the key's generation and the
    /// verifying clock has reached that timestamp.
    pub proof fn lemma_sign_round_trip(
        current: KeyModel,
        h: Seq<RecordModel>,
        p: SignResponse,
        now: TimeModel,
    )
        requires
            key_wf(current),
            p.public_key@ == current.pk_b64,
            b64_decode_of(p.signature@) == Some(
                sig_of(current.pkcs8, signable_of(p.timestamp@, p.message@, p.nonce@)),
            ),
            sig_valid(
                pub_key_of(current.pkcs8),
                signable_of(p.timestamp@, p.message@, p.nonce@),
                sig_of(current.pkcs8, signable_of(p.timestamp@, p.message@, p.nonce@)),
            ),
            time_ns(p.timestamp@) >= time_ns(current.time),
            time_ns(now) >= time_ns(p.timestamp@),
        ensures
            verify_det(current, h, p) == Ok::<(), Error>(()),
            lookup_full(current, h, p.timestamp@, now) == Ok::<(TimeModel, Seq<char>), Error>(
                (current.time, current.pk_b64),
            ),
    {
    }

    /// A store on which recovery has nothing left to do: consistent,
    /// non-empty history whose latest record either carries the current
    /// key's public half or is accompanied by a record at the current key's
    /// own instant, and no whole quantum boundary between the latest
    /// recorded instant and the current key's instant remains unfilled.
    pub open spec fn recovered(db: KeyDB) -> bool {
        &&& db.wf()
        &&& db.history().len() > 0
        &&& (db.history().last().pk == db.current().pk_b64 || has_time(
            db.history(),
            time_ns(db.current().time),
        ))
        &&& floor_secs(db.history().last().time.secs) >= floor_secs(db.current().time.secs)
    }

    /// The loaded states from which recovery provably reaches a `recovered`
    /// store: a sorted store whose latest record does not already carry the
    /// current key's public half while whole quantum boundaries up to an
    /// off-boundary current instant remain unfilled.
    pub open spec fn regular_recovery(db: KeyDB) -> bool {
        &&& db.wf()
        &&& (db.history().len() == 0 || db.history().last().pk != db.current().pk_b64
            || floor_secs(db.history().last().time.secs) >= floor_secs(db.current().time.secs)
            || on_boundary(db.current().time))
    }

    /// Archives the current key: a record for its generation instant,
    /// attested by a proof it signs, is placed into the history — unless a
    /// record at that instant is already there, in which case nothing
    /// changes and nothing is signed. On failure of the random source the
    /// store is unchanged.
    fn archive_current(&mut self) -> (r: Result<(), Error>)
        requires
            old(self).wf(),
        ensures
            match r {
                Ok(()) => {
                    &&& final(self).wf()
                    &&& final(self).current() == old(self).current()
                    &&& final(self).history() == insert_by_time(
                        old(self).history(),
                        retired(old(self).current()),
                    )
                },
                Err(e) => {
                    &&& e == Error::Random
                    &&& KeyDB::same_state(*old(self), *final(self))
                    &&& !has_time(old(self).history(), time_ns(old(self).current().time))
                },
            },
    {
        let ct = self.current_key.time_generated().clone();
        if self.contains_time(&ct) {
            return Ok(());
        }
        let rec = match TimedPublicKey::from_single_keyset(&self.current_key) {
            Ok(t) => t,
            Err(e) => {
                return Err(e);
            },
        };
        proof {
            lemma_wf_elements(self);
            lemma_insert_sorted(self.history(), rec@);
        }
        insert_record(&mut self.old_keys, rec);
        proof {
            lemma_elements_wf(self);
        }
        Ok(())
    }

    /// Back-fills the history: for every whole quantum boundary strictly
    /// after the floor of `latest_time`, up to and including the floor of
    /// the current key's instant, a brand-new key set is synthesized and
    /// archived — except at instants already recorded. When no boundary
    /// lies in that window the store is untouched. On failure of the random
    /// source the records archived so far remain.
    #[verifier::loop_isolation(false)]
    #[verifier::rlimit(60)]
    fn back_fill(&mut self, latest_time: &ProveWhenTime) -> (r: Result<(), Error>)
        requires
            old(self).wf(),
            time_wf(latest_time@),
        ensures
            final(self).wf(),
            final(self).current() == old(self).current(),
            preserves_times(old(self).history(), final(self).history()),
            recovery_provenance(
                old(self).history(),
                old(self).current(),
                final(self).history(),
            ),
            floor_secs(latest_time@.secs) >= floor_secs(old(self).current().time.secs)
                ==> r is Ok && KeyDB::same_state(*old(self), *final(self)),
            r is Ok && floor_secs(latest_time@.secs) < floor_secs(old(self).current().time.secs)
                ==> has_time(
                final(self).history(),
                floor_secs(old(self).current().time.secs) * 1_000_000_000,
            ),
            r is Ok ==> forall|b: int|
                floor_secs(latest_time@.secs) < b <= floor_secs(old(self).current().time.secs)
                    && b % (QUANTUM_SECS as int) == 0 ==> #[trigger] boundary_filled(
                    final(self).history(),
                    b,
                ),
            r is Err ==> r.unwrap_err() == Error::Random,
    {
        let ghost pre = *self;
        let gen = DateTimeRange::new(latest_time, self.current_key.time_generated());
        let times = gen.into_times();
        let ghost start_secs = floor_secs(latest_time@.secs);
        let ghost bound_secs = floor_secs(pre.current().time.secs);
        proof {
            crate::datetime_utils::lemma_floor_secs(latest_time@.secs);
            crate::datetime_utils::lemma_floor_secs(pre.current().time.secs);
            if bound_secs > start_secs {
                crate::datetime_utils::lemma_range_len_pos(start_secs, bound_secs);
            }
            assert(start_secs >= bound_secs ==> times@.len() == 0);
        }
        let mut i: usize = 0;
        while i < times.len()
            invariant
                0 <= i <= times@.len(),
                self.wf(),
                self.current() == pre.current(),
                preserves_times(pre.history(), self.history()),
                recovery_provenance(pre.history(), pre.current(), self.history()),
                times@.len() == 0 ==> self.history() == pre.history(),
                forall|j: int|
                    0 <= j < i ==> has_time(self.history(), time_ns(#[trigger] times@[j]@)),
            decreases times@.len() - i,
        {
            let t = times[i].clone();
            let ghost tv = t@;
            if !self.contains_time(&t) {
                let key = match SingleKeySet::from_time(t) {
                    Ok(k) => k,
                    Err(e) => {
                        return Err(e);
                    },
                };
                let rec = match TimedPublicKey::from_single_keyset(&key) {
                    Ok(t2) => t2,
                    Err(e) => {
                        return Err(e);
                    },
                };
                let ghost hb = self.history();
                proof {
                    lemma_wf_elements(self);
                    assert(rec@.time == tv);
                    lemma_step_preserves(pre.history(), hb, rec@);
                    lemma_step_prov(pre.history(), pre.current(), hb, rec@);
                    lemma_insert_has_time(hb, rec@, rec_ns(rec@));
                    assert forall|j: int| 0 <= j < i + 1 implies has_time(
                        insert_by_time(hb, rec@),
                        time_ns(#[trigger] times@[j]@),
                    ) by {
                        if j < i {
                            lemma_insert_has_time(hb, rec@, time_ns(times@[j]@));
                        }
                    }
                }
                insert_record(&mut self.old_keys, rec);
                proof {
                    lemma_elements_wf(self);
                }
            }
            i = i + 1;
        }
        proof {
            if times@.len() > 0 {
                crate::datetime_utils::lemma_range_len_pos(start_secs, bound_secs);
                let lastt = times@[times@.len() - 1]@;
                assert(lastt.secs == bound_secs && lastt.nanos == 0);
                assert(has_time(self.history(), time_ns(lastt)));
                assert(time_ns(lastt) == bound_secs * 1_000_000_000);
            }
            assert forall|b: int|
                start_secs < b <= bound_secs && b % (QUANTUM_SECS as int)
                    == 0 implies #[trigger] boundary_filled(self.history(), b) by {
                crate::datetime_utils::lemma_boundary_index(start_secs, bound_secs, b);
                let k = (b - start_secs) / (QUANTUM_SECS as int);
                assert(times@[k - 1]@.secs == start_secs + (QUANTUM_SECS as int) * k);
                assert(times@[k - 1]@.nanos == 0);
                assert(has_time(self.history(), time_ns(times@[k - 1]@)));
                assert(time_ns(times@[k - 1]@) == b * 1_000_000_000);
            }
        }
        Ok(())
    }

    /// Reconciles a loaded store with its own contents; to be run once
    /// after loading persisted state, before any other operation. The
    /// history is sorted — loaded order is not trusted. A store with an
    /// empty history archives its current key and stops. Otherwise, if the
    /// latest record does not carry the current key's public half, the
    /// current key is archived: it was never archived before shutdown.
    /// Finally, a brand-new key set is synthesized and archived for every
    /// whole quantum boundary between the latest recorded instant and the
    /// current key's instant, back-filling rotations missed while the
    /// process was down. Back-filled keys are freshly generated, not
    /// reconstructions of keys that ever really signed: a proof signed
    /// during the gap against a key that was never persisted stays
    /// unverifiable. That gap-filling approximation is deliberate, and a
    /// documented limitation rather than a security property. Running
    /// recovery on an already-recovered store changes nothing.
    #[verifier::spinoff_prover]
    #[verifier::rlimit(100)]
    pub fn defrost(&mut self) -> (r: Result<(), Error>)
        requires
            old(self).wf_data(),
        ensures
            final(self).wf(),
            final(self).current() == old(self).current(),
            preserves_times(old(self).history(), final(self).history()),
            recovery_provenance(
                old(self).history(),
                old(self).current(),
                final(self).history(),
            ),
            KeyDB::recovered(*old(self)) ==> r is Ok && KeyDB::same_state(
                *old(self),
                *final(self),
            ),
            r is Ok ==> final(self).history().len() > 0,
            r is Ok && old(self).history().len() == 0 ==> final(self).history().len() == 1
                && final(self).history()[0] == retired(old(self).current()),
            r is Ok && old(self).wf() && old(self).history().len() > 0 && old(
                self,
            ).history().last().pk != old(self).current().pk_b64 ==> has_time(
                final(self).history(),
                time_ns(old(self).current().time),
            ),
            r is Ok && old(self).wf() && old(self).history().len() > 0 ==> forall|b: int|
                floor_secs(old(self).history().last().time.secs) < b <= floor_secs(
                    old(self).current().time.secs,
                ) && b % (QUANTUM_SECS as int) == 0 ==> #[trigger] boundary_filled(
                    final(self).history(),
                    b,
                ),
            r is Ok && KeyDB::regular_recovery(*old(self)) ==> KeyDB::recovered(*final(self)),
            r is Err ==> r.unwrap_err() == Error::Random,
    {
        let ghost pre = *self;
        proof {
            lemma_wf_elements(self);
        }
        sort_history(&mut self.old_keys);
        let ghost s1 = self.history();
        proof {
            lemma_elements_wf(self);
            assert(preserves_times(pre.history(), s1)) by {
                assert forall|j: int| 0 <= j < pre.history().len() implies has_time(
                    s1,
                    rec_ns(#[trigger] pre.history()[j]),
                ) by {
                    assert(pre.history()[j] == pre.old_keys@[j]@);
                }
            }
            assert(recovery_provenance(pre.history(), pre.current(), s1)) by {
                assert forall|i: int| 0 <= i < s1.len() implies (exists|j: int|
                    0 <= j < pre.history().len() && pre.history()[j] == #[trigger] s1[i])
                    || s1[i] == retired(pre.current()) || on_boundary(s1[i].time) by {
                    assert(s1[i] == self.old_keys@[i]@);
                    let j = choose|j: int|
                        0 <= j < pre.old_keys@.len() && pre.old_keys@[j] == self.old_keys@[i];
                    assert(pre.history()[j] == pre.old_keys@[j]@);
                }
            }
            if pre.wf() {
                assert(self.old_keys@ == pre.old_keys@);
                assert(s1 == pre.history());
            }
            if pre.history().len() == 0 {
                assert(sorted_by_time(pre.history()));
                assert(s1 == pre.history());
            }
        }
        if self.old_keys.len() == 0 {
            let r = self.archive_current();
            proof {
                if pre.history().len() > 0 {
                    assert(has_time(s1, rec_ns(pre.history()[0])));
                    assert(false);
                }
                if r is Ok {
                    lemma_ipos_bounds(s1, time_ns(pre.current().time));
                    assert(self.history() == s1.insert(0, retired(pre.current())));
                    assert(self.history().last() == retired(pre.current()));
                }
            }
            return r;
        }
        let last_idx = self.old_keys.len() - 1;
        proof {
            assert(s1[last_idx as int] == self.old_keys@[last_idx as int]@);
        }
        let latest_time = self.old_keys[last_idx].time().clone();
        let latest_matches = self.old_keys[last_idx].pk_equals(
            self.current_key.pub_key_base64(),
        );
        proof {
            assert(latest_time@ == s1.last().time);
            assert(latest_matches == (s1.last().pk == pre.current().pk_b64));
        }
        if !latest_matches {
            match self.archive_current() {
                Ok(()) => {},
                Err(e) => {
                    proof {
                        if KeyDB::recovered(pre) {
                            assert(has_time(s1, time_ns(pre.current().time)));
                            assert(false);
                        }
                    }
                    return Err(e);
                },
            }
        }
        let ghost s2 = self.history();
        proof {
            if !latest_matches {
                lemma_step_preserves(pre.history(), s1, retired(pre.current()));
                lemma_step_prov(pre.history(), pre.current(), s1, retired(pre.current()));
                lemma_step_preserves(s1, s1, retired(pre.current()));
                lemma_insert_has_time(s1, retired(pre.current()), time_ns(pre.current().time));
            } else {
                assert(preserves_times(s1, s2)) by {
                    assert forall|j: int| 0 <= j < s1.len() implies has_time(
                        s2,
                        rec_ns(#[trigger] s1[j]),
                    ) by {
                        assert(0 <= j < s2.len() && rec_ns(s2[j]) == rec_ns(s1[j]));
                    }
                }
            }
            assert(s2.len() >= 1);
            assert(has_time(s2, rec_ns(s1.last()))) by {
                let w = choose|w: int| 0 <= w < s1.len() && rec_ns(s1[w]) == rec_ns(s1.last());
                assert(has_time(s2, rec_ns(s1[w])));
            }
        }
        match self.back_fill(&latest_time) {
            Ok(()) => {},
            Err(e) => {
                proof {
                    lemma_preserves_trans(pre.history(), s2, self.history());
                    lemma_prov_trans(pre.history(), pre.current(), s2, self.history());
                    if KeyDB::recovered(pre) {
                        assert(floor_secs(latest_time@.secs) >= floor_secs(
                            pre.current().time.secs,
                        ));
                        assert(false);
                    }
                }
                return Err(e);
            },
        }
        proof {
            assert(latest_time@ == s1.last().time);
            assert(latest_matches ==> s2 == s1);
            if KeyDB::recovered(pre) {
                assert(s2 == s1 && self.history() == s2);
            }
            lemma_defrost_wrapup(pre, s1, s2, *self, latest_matches);
        }
        Ok(())
    }

    /// What an accepted proof guarantees: the key it claims is exactly the
    /// one that was authoritative at its claimed instant, and the signature
    /// it carries is cryptographically valid for that key over the canonical
    /// payload rebuilt from its own timestamp, message and nonce. Any
    /// tampering that breaks either fact makes verification fail.
    pub proof fn lemma_verify_soundness(current: KeyModel, h: Seq<RecordModel>, p: SignResponse)
        requires
            verify_det(current, h, p) == Ok::<(), Error>(()),
        ensures
            lookup_det(current, h, p.timestamp@) is Ok,
            p.public_key@ == lookup_det(current, h, p.timestamp@).unwrap().1,
            b64_decode_of(p.public_key@) is Some,
            b64_decode_of(p.signature@) is Some,
            sig_valid(
                b64_decode_of(p.public_key@).unwrap(),
                signable_of(p.timestamp@, p.message@, p.nonce@),
                b64_decode_of(p.signature@).unwrap(),
            ),
    {
    }

    /// Tamper sensitivity of the key identity: a proof claiming any public
    /// key other than the one authoritative at its claimed instant is
    /// refused as a key mismatch, before any cryptography runs.
    pub proof fn lemma_verify_key_tamper(current: KeyModel, h: Seq<RecordModel>, p: SignResponse)
        requires
            lookup_det(current, h, p.timestamp@) is Ok,
            lookup_det(current, h, p.timestamp@).unwrap().1 != p.public_key@,
        ensures
            verify_det(current, h, p) == Err::<(), Error>(Error::KeyMismatch),
    {
    }

    /// One rotation step: the old current key's record was archived (or was
    /// already present) and a strictly newer, boundary-aligned key is now
    /// current.
    pub open spec fn rotated(pre: KeyDB, post: KeyDB) -> bool {
        &&& post.history() == insert_by_time(pre.history(), retired(pre.current()))
        &&& key_wf(post.current())
        &&& on_boundary(post.current().time)
        &&& time_ns(pre.current().time) < time_ns(post.current().time)
        &&& !has_time(pre.history(), time_ns(pre.current().time)) ==> post.history().len()
            == pre.history().len() + 1
    }
}

} // verus!

