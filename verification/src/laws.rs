//! What holds of every buffer and of every history of operations on it.

use crate::lemmas::{
    lemma_filter_has_id, lemma_filter_keeps, lemma_filter_none, lemma_filter_origin,
    lemma_filter_keeps_order, lemma_filter_wf, lemma_oldest_first_permutes,
    lemma_oldest_first_sorted, lemma_position,
};
use crate::message::{MessageStatus, MessageView};
use crate::model::{
    claim_len, claim_prefix, ids_increase, in_status, is_kept, is_retry_eligible, oldest_first,
    other_than, StoreView,
};
use crate::trace::{failures_of, StoreOp};
use vstd::prelude::*;

verus! {

/// Every operation keeps the invariant of the buffer, and never takes back
/// an identifier that was assigned.
pub proof fn law_step_keeps_invariant(s: StoreView, op: StoreOp)
    requires
        s.wf(),
    ensures
        s.apply(op).wf(),
        s.last_id <= s.apply(op).last_id,
{
    match op {
        StoreOp::Enqueue { payload, now } => {},
        StoreOp::MarkProcessing { id, now } => {},
        StoreOp::MarkSent { id } => {
            lemma_filter_wf(s.rows, s.last_id, other_than(id));
        },
        StoreOp::MarkFailed { id, now } => {},
        StoreOp::Purge { max_age_hours, now } => {
            lemma_filter_wf(s.rows, s.last_id, is_kept(max_age_hours, now));
        },
        StoreOp::Recover => {},
    }
}

/// Every history keeps the invariant of the buffer.
pub proof fn law_history_keeps_invariant(s: StoreView, ops: Seq<StoreOp>)
    requires
        s.wf(),
    ensures
        s.apply_all(ops).wf(),
        s.last_id <= s.apply_all(ops).last_id,
    decreases ops.len(),
{
    if ops.len() > 0 {
        law_history_keeps_invariant(s, ops.drop_last());
        law_step_keeps_invariant(s.apply_all(ops.drop_last()), ops.last());
    }
}

/// Ingestion puts the message into the buffer as a pending record under an
/// identifier that no record had before, and touches no other record.
pub proof fn law_enqueue_adds_record(s: StoreView, payload: Seq<char>, now: i64)
    requires
        s.wf(),
        s.has_room(),
    ensures
        !s.contains_id((s.last_id + 1) as i64),
        s.enqueue(payload, now).holds(MessageView::fresh((s.last_id + 1) as i64, payload, now)),
        s.enqueue(payload, now).rows.len() == s.rows.len() + 1,
        forall|m: MessageView| s.holds(m) ==> s.enqueue(payload, now).holds(m),
{
    let id = (s.last_id + 1) as i64;
    let t = s.enqueue(payload, now);
    law_step_keeps_invariant(s, StoreOp::Enqueue { payload, now });
    lemma_position(t, s.rows.len() as int);
    assert forall|m: MessageView| s.holds(m) implies t.holds(m) by {
        law_step_effect(s, StoreOp::Enqueue { payload, now }, m.id);
    }
}

/// What one operation does to one record: it takes the record out exactly
/// if it releases it, and else leaves it in the buffer, changed as
/// [`StoreOp::touch`] says.
pub proof fn law_step_effect(s: StoreView, op: StoreOp, id: i64)
    requires
        s.wf(),
        s.contains_id(id),
    ensures
        op.releases(s, id) ==> !s.apply(op).contains_id(id),
        !op.releases(s, id) ==> s.apply(op).contains_id(id) && s.apply(op).get(id) == op.touch(
            s.get(id),
        ),
{
    let t = s.apply(op);
    let k = s.index_of(id);
    law_step_keeps_invariant(s, op);
    lemma_position(s, k);
    match op {
        StoreOp::Enqueue { payload, now } => {
            assert(t.rows[k] == s.rows[k]);
            lemma_position(t, k);
        },
        StoreOp::MarkProcessing { id: claimed, now } => {
            assert(t.rows[k] == op.touch(s.rows[k]));
            lemma_position(t, k);
        },
        StoreOp::MarkSent { id: sent } => {
            lemma_filter_has_id(s.rows, other_than(sent), id);
            if sent != id {
                let j = lemma_filter_keeps(s.rows, other_than(sent), k);
                lemma_position(t, j);
            }
        },
        StoreOp::MarkFailed { id: failed, now } => {
            assert(t.rows[k] == op.touch(s.rows[k]));
            lemma_position(t, k);
        },
        StoreOp::Purge { max_age_hours, now } => {
            let kept = is_kept(max_age_hours, now);
            lemma_filter_has_id(s.rows, kept, id);
            if s.get(id).stale(max_age_hours, now) {
                assert forall|c: int| 0 <= c < s.rows.len() && (#[trigger] s.rows[c]).id
                    == id implies !kept(s.rows[c]) by {
                    lemma_position(s, c);
                }
            } else {
                let j = lemma_filter_keeps(s.rows, kept, k);
                lemma_position(t, j);
            }
        },
        StoreOp::Recover => {
            assert(t.rows[k] == op.touch(s.rows[k]));
            lemma_position(t, k);
        },
    }
}

/// An identifier that was assigned and whose record has left the buffer
/// never names a record again.
pub proof fn law_no_return(s: StoreView, op: StoreOp, id: i64)
    requires
        s.wf(),
        !s.contains_id(id),
        id <= s.last_id,
    ensures
        !s.apply(op).contains_id(id),
{
    let t = s.apply(op);
    if t.contains_id(id) {
        let j = t.index_of(id);
        match op {
            StoreOp::Enqueue { payload, now } => {
                if j < s.rows.len() {
                    assert(s.rows[j].id == id);
                }
            },
            StoreOp::MarkProcessing { id: claimed, now } => {
                assert(s.rows[j].id == id);
            },
            StoreOp::MarkSent { id: sent } => {
                let k = lemma_filter_origin(s.rows, other_than(sent), j);
                assert(s.rows[k].id == id);
            },
            StoreOp::MarkFailed { id: failed, now } => {
                assert(s.rows[j].id == id);
            },
            StoreOp::Purge { max_age_hours, now } => {
                let k = lemma_filter_origin(s.rows, is_kept(max_age_hours, now), j);
                assert(s.rows[k].id == id);
            },
            StoreOp::Recover => {
                assert(s.rows[j].id == id);
            },
        }
    }
}

/// A record that is in the buffer before and after a history was in it
/// all the time.
pub proof fn law_present_throughout(s: StoreView, ops: Seq<StoreOp>, id: i64, k: int)
    requires
        s.wf(),
        s.contains_id(id),
        s.apply_all(ops).contains_id(id),
        0 <= k <= ops.len(),
    ensures
        s.apply_all(ops.take(k)).contains_id(id),
    decreases ops.len(),
{
    if k == ops.len() {
        assert(ops.take(k) =~= ops);
    } else {
        let front = ops.drop_last();
        let mid = s.apply_all(front);
        law_history_keeps_invariant(s, front);
        lemma_position(s, s.index_of(id));
        if !mid.contains_id(id) {
            law_no_return(mid, ops.last(), id);
        }
        law_present_throughout(s, front, id, k);
        assert(front.take(k) =~= ops.take(k));
    }
}

/// Nothing is lost silently: whatever is ingested, claimed, delivered,
/// failed, purged or recovered in whatever order, a record leaves the
/// buffer only by an operation that releases it, that is, when it was
/// delivered or when the janitor found it failed and past the retention
/// window. Restarts are part of the history: recovery loses nothing.
pub proof fn law_no_silent_loss(s: StoreView, ops: Seq<StoreOp>, id: i64)
    requires
        s.wf(),
        s.contains_id(id),
    ensures
        s.apply_all(ops).contains_id(id) || exists|k: int|
            0 <= k < ops.len() && (#[trigger] ops[k]).releases(s.apply_all(ops.take(k)), id),
    decreases ops.len(),
{
    if ops.len() > 0 {
        let front = ops.drop_last();
        let mid = s.apply_all(front);
        let last = ops.len() - 1;
        law_no_silent_loss(s, front, id);
        law_history_keeps_invariant(s, front);
        if mid.contains_id(id) {
            law_step_effect(mid, ops.last(), id);
            if ops.last().releases(mid, id) {
                assert(ops.take(last) =~= front);
                assert(ops[last].releases(s.apply_all(ops.take(last)), id));
            }
        } else {
            let k = choose|k: int|
                0 <= k < front.len() && (#[trigger] front[k]).releases(
                    s.apply_all(front.take(k)),
                    id,
                );
            assert(front.take(k) =~= ops.take(k));
            assert(ops[k].releases(s.apply_all(ops.take(k)), id));
        }
    }
}

/// A record keeps its identifier, its payload and its time of ingestion
/// for as long as it is in the buffer.
pub proof fn law_payload_is_immutable(s: StoreView, ops: Seq<StoreOp>, id: i64)
    requires
        s.wf(),
        s.contains_id(id),
        s.apply_all(ops).contains_id(id),
    ensures
        s.apply_all(ops).get(id).id == id,
        s.apply_all(ops).get(id).payload == s.get(id).payload,
        s.apply_all(ops).get(id).created_at == s.get(id).created_at,
    decreases ops.len(),
{
    lemma_position(s, s.index_of(id));
    if ops.len() > 0 {
        let front = ops.drop_last();
        let mid = s.apply_all(front);
        law_present_throughout(s, ops, id, ops.len() - 1);
        assert(ops.take(ops.len() - 1) =~= front);
        law_payload_is_immutable(s, front, id);
        law_history_keeps_invariant(s, front);
        law_step_effect(mid, ops.last(), id);
    }
}

/// Over any history, the retry count of a record grows by one with each
/// failed delivery attempt that is recorded for it, up to the largest count
/// that can be stored, and by nothing else. It never decreases, and for a
/// record that entered the buffer with count 0 it is the number of failed
/// attempts.
pub proof fn law_retry_count_counts_failures(s: StoreView, ops: Seq<StoreOp>, id: i64)
    requires
        s.wf(),
        s.contains_id(id),
        s.apply_all(ops).contains_id(id),
    ensures
        s.apply_all(ops).get(id).retry_count == if s.get(id).retry_count + failures_of(ops, id)
            <= i64::MAX {
            s.get(id).retry_count + failures_of(ops, id)
        } else {
            i64::MAX as int
        },
        s.apply_all(ops).get(id).retry_count >= s.get(id).retry_count,
    decreases ops.len(),
{
    lemma_position(s, s.index_of(id));
    if ops.len() > 0 {
        let front = ops.drop_last();
        let mid = s.apply_all(front);
        law_present_throughout(s, ops, id, ops.len() - 1);
        assert(ops.take(ops.len() - 1) =~= front);
        law_retry_count_counts_failures(s, front, id);
        law_payload_is_immutable(s, front, id);
        law_history_keeps_invariant(s, front);
        law_step_effect(mid, ops.last(), id);
    }
}

/// After recovery no record is in a delivery attempt, so a second recovery
/// finds nothing and changes nothing; and recovery of a buffer without such
/// records is no change at all.
pub proof fn law_recovery_is_idempotent(s: StoreView)
    ensures
        s.reset_processing().count(MessageStatus::Processing) == 0,
        s.reset_processing().reset_processing() == s.reset_processing(),
        s.count(MessageStatus::Processing) == 0 ==> s.reset_processing() == s,
{
    let stuck = in_status(MessageStatus::Processing);
    let once = s.reset_processing();
    lemma_filter_none(once.rows, stuck);
    assert(once.reset_processing().rows =~= once.rows);
    if s.count(MessageStatus::Processing) == 0 {
        assert forall|k: int| 0 <= k < s.rows.len() implies (#[trigger] s.rows[k]).status
            != MessageStatus::Processing by {
            if s.rows[k].status == MessageStatus::Processing {
                let j = lemma_filter_keeps(s.rows, stuck, k);
            }
        }
        assert(once.rows =~= s.rows);
    }
}

/// What every claim is: of the records that pass `pred`, the first
/// `claim_len` in the order "older first, then earlier arrival".
///
/// Each claimed record is a record of the rows and passes; the claim is
/// strictly ordered; and a record that passes and was not claimed stands
/// behind every claimed one.
pub proof fn law_claim(rows: Seq<MessageView>, pred: spec_fn(MessageView) -> bool, limit: i32)
    requires
        ids_increase(rows),
    ensures
        ({
            let claim = claim_prefix(oldest_first(rows.filter(pred)), limit);
            &&& claim.len() == claim_len(limit, rows.filter(pred).len())
            &&& forall|i: int|
                0 <= i < claim.len() ==> rows.contains(#[trigger] claim[i]) && pred(claim[i])
            &&& forall|i: int, j: int|
                0 <= i < j < claim.len() ==> (#[trigger] claim[i]).before(#[trigger] claim[j])
            &&& forall|k: int, i: int|
                0 <= k < rows.len() && pred(#[trigger] rows[k]) && !claim.contains(rows[k]) && 0
                    <= i < claim.len() ==> (#[trigger] claim[i]).before(rows[k])
        }),
{
    let passing = rows.filter(pred);
    let queue = oldest_first(passing);
    let claim = claim_prefix(queue, limit);
    lemma_oldest_first_permutes(passing);
    lemma_filter_keeps_order(rows, pred);
    lemma_oldest_first_sorted(passing);
    assert forall|i: int| 0 <= i < claim.len() implies rows.contains(#[trigger] claim[i]) && pred(
        claim[i],
    ) by {
        assert(queue.contains(queue[i]));
        assert(passing.contains(claim[i]));
        let j = choose|j: int| 0 <= j < passing.len() && passing[j] == claim[i];
        let k = lemma_filter_origin(rows, pred, j);
        assert(rows[k] == claim[i]);
    }
    assert forall|i: int, j: int| 0 <= i < j < claim.len() implies (#[trigger] claim[i]).before(
        #[trigger] claim[j],
    ) by {
        assert(queue[i].before(queue[j]));
    }
    assert forall|k: int, i: int|
        0 <= k < rows.len() && pred(#[trigger] rows[k]) && !claim.contains(rows[k]) && 0 <= i
            < claim.len() implies (#[trigger] claim[i]).before(rows[k]) by {
        let j = lemma_filter_keeps(rows, pred, k);
        assert(passing.contains(passing[j]));
        assert(queue.contains(rows[k]));
        let c = choose|c: int| 0 <= c < queue.len() && queue[c] == rows[k];
        if c < claim.len() {
            assert(claim[c] == rows[k]);
        } else {
            assert(queue[i].before(queue[c]));
        }
    }
}

/// A record of the rows of a well-formed buffer is held by the buffer.
pub proof fn law_rows_are_held(s: StoreView, m: MessageView)
    requires
        s.wf(),
    ensures
        s.rows.contains(m) <==> s.holds(m),
{
    if s.rows.contains(m) {
        let k = choose|k: int| 0 <= k < s.rows.len() && s.rows[k] == m;
        lemma_position(s, k);
    }
    if s.holds(m) {
        let k = s.index_of(m.id);
        assert(s.rows[k] == m);
    }
}

/// A claim of pending records hands out pending records of the buffer in
/// the order of their ingestion, never a younger one before an older one,
/// and passes over no pending record that is older than a claimed one.
pub proof fn law_pending_claim_is_fifo(s: StoreView, limit: i32)
    requires
        s.wf(),
    ensures
        ({
            let claim = s.pending_claim(limit);
            &&& claim.len() == claim_len(limit, s.count(MessageStatus::Pending))
            &&& forall|i: int|
                0 <= i < claim.len() ==> s.holds(#[trigger] claim[i]) && claim[i].status
                    == MessageStatus::Pending
            &&& forall|i: int, j: int|
                0 <= i < j < claim.len() ==> (#[trigger] claim[i]).created_at
                    <= (#[trigger] claim[j]).created_at
            &&& forall|i: int, j: int|
                0 <= i < j < claim.len() ==> (#[trigger] claim[i]).before(#[trigger] claim[j])
            &&& forall|m: MessageView, i: int|
                #![trigger s.holds(m), claim[i]]
                s.holds(m) && m.status == MessageStatus::Pending && !claim.contains(m) && 0 <= i
                    < claim.len() ==> claim[i].before(m)
        }),
{
    let pred = in_status(MessageStatus::Pending);
    let claim = s.pending_claim(limit);
    law_claim(s.rows, pred, limit);
    assert forall|i: int| 0 <= i < claim.len() implies s.holds(#[trigger] claim[i])
        && claim[i].status == MessageStatus::Pending by {
        law_rows_are_held(s, claim[i]);
    }
    assert forall|i: int, j: int| 0 <= i < j < claim.len() implies (#[trigger] claim[i]).created_at
        <= (#[trigger] claim[j]).created_at by {
        assert(claim[i].before(claim[j]));
    }
    assert forall|m: MessageView, i: int|
        #![trigger s.holds(m), claim[i]]
        s.holds(m) && m.status == MessageStatus::Pending && !claim.contains(m) && 0 <= i
            < claim.len() implies claim[i].before(m) by {
        let k = s.index_of(m.id);
        assert(pred(s.rows[k]));
    }
}

/// A claim of retry candidates hands out only failed records of the buffer
/// that have retries left and whose backoff has elapsed, in the order of
/// their ingestion.
pub proof fn law_retry_claim_is_eligible(
    s: StoreView,
    max_retries: i32,
    retry_delay_secs: i64,
    limit: i32,
    now: i64,
)
    requires
        s.wf(),
    ensures
        ({
            let claim = s.retry_claim(max_retries, retry_delay_secs, limit, now);
            &&& claim.len() <= s.count(MessageStatus::Failed)
            &&& limit >= 0 ==> claim.len() <= limit
            &&& forall|i: int|
                0 <= i < claim.len() ==> {
                    &&& s.holds(#[trigger] claim[i])
                    &&& claim[i].status == MessageStatus::Failed
                    &&& claim[i].retry_count < max_retries
                    &&& claim[i].backoff_elapsed(retry_delay_secs, now)
                }
            &&& forall|i: int, j: int|
                0 <= i < j < claim.len() ==> (#[trigger] claim[i]).before(#[trigger] claim[j])
            &&& forall|m: MessageView, i: int|
                #![trigger s.holds(m), claim[i]]
                s.holds(m) && m.retry_eligible(max_retries, retry_delay_secs, now)
                    && !claim.contains(m) && 0 <= i < claim.len() ==> claim[i].before(m)
        }),
{
    let pred = is_retry_eligible(max_retries, retry_delay_secs, now);
    let claim = s.retry_claim(max_retries, retry_delay_secs, limit, now);
    law_claim(s.rows, pred, limit);
    assert forall|i: int| 0 <= i < claim.len() implies s.holds(#[trigger] claim[i]) by {
        law_rows_are_held(s, claim[i]);
    }
    assert forall|m: MessageView, i: int|
        #![trigger s.holds(m), claim[i]]
        s.holds(m) && m.retry_eligible(max_retries, retry_delay_secs, now) && !claim.contains(m)
            && 0 <= i < claim.len() implies claim[i].before(m) by {
        let k = s.index_of(m.id);
        assert(pred(s.rows[k]));
    }
    assert(s.rows.filter(pred).len() <= s.count(MessageStatus::Failed)) by {
        lemma_subfilter_len(s.rows, pred, in_status(MessageStatus::Failed));
    }
}

/// Of two tests of which the first implies the second, the first passes no
/// more records.
proof fn lemma_subfilter_len(
    rows: Seq<MessageView>,
    narrow: spec_fn(MessageView) -> bool,
    wide: spec_fn(MessageView) -> bool,
)
    requires
        forall|m: MessageView| #[trigger] narrow(m) ==> wide(m),
    ensures
        rows.filter(narrow).len() <= rows.filter(wide).len(),
    decreases rows.len(),
{
    reveal(Seq::filter);
    if rows.len() > 0 {
        lemma_subfilter_len(rows.drop_last(), narrow, wide);
    }
}

/// A failed record that has used up its retries is never claimed for a
/// retry, however long ago its last attempt was.
pub proof fn law_exhausted_never_retried(
    s: StoreView,
    m: MessageView,
    max_retries: i32,
    retry_delay_secs: i64,
    limit: i32,
    now: i64,
)
    requires
        s.wf(),
        m.retry_count >= max_retries,
    ensures
        !s.retry_claim(max_retries, retry_delay_secs, limit, now).contains(m),
        !s.retry_queue(max_retries, retry_delay_secs, now).contains(m),
{
    let pred = is_retry_eligible(max_retries, retry_delay_secs, now);
    let passing = s.rows.filter(pred);
    let queue = s.retry_queue(max_retries, retry_delay_secs, now);
    let claim = s.retry_claim(max_retries, retry_delay_secs, limit, now);
    lemma_oldest_first_permutes(passing);
    if queue.contains(m) {
        assert(passing.contains(m));
        let j = choose|j: int| 0 <= j < passing.len() && passing[j] == m;
        let k = lemma_filter_origin(s.rows, pred, j);
    }
    if claim.contains(m) {
        let i = choose|i: int| 0 <= i < claim.len() && claim[i] == m;
        assert(queue[i] == m);
    }
}

/// A failed record whose last attempt lies `waited` seconds back is not
/// claimed for a retry while `waited` is less than the backoff. Once
/// `waited` has reached the backoff, and while the record has retries left,
/// it is in the retry queue, and it is claimed unless the limit cuts the
/// claim off before it, in which case only records that stand before it
/// are claimed.
pub proof fn law_backoff_honored(
    s: StoreView,
    m: MessageView,
    last_attempt: i64,
    max_retries: i32,
    retry_delay_secs: i64,
    limit: i32,
    now: i64,
)
    requires
        s.wf(),
        s.holds(m),
        m.status == MessageStatus::Failed,
        m.last_attempt == Some(last_attempt),
    ensures
        ({
            let queue = s.retry_queue(max_retries, retry_delay_secs, now);
            let claim = s.retry_claim(max_retries, retry_delay_secs, limit, now);
            let waited = now - last_attempt;
            &&& waited < retry_delay_secs ==> !queue.contains(m) && !claim.contains(m)
            &&& waited >= retry_delay_secs && m.retry_count < max_retries ==> {
                &&& queue.contains(m)
                &&& claim.len() == queue.len() ==> claim.contains(m)
                &&& !claim.contains(m) ==> forall|i: int|
                    0 <= i < claim.len() ==> (#[trigger] claim[i]).before(m)
            }
        }),
{
    let pred = is_retry_eligible(max_retries, retry_delay_secs, now);
    let passing = s.rows.filter(pred);
    let queue = s.retry_queue(max_retries, retry_delay_secs, now);
    let claim = s.retry_claim(max_retries, retry_delay_secs, limit, now);
    let waited = now - last_attempt;
    lemma_oldest_first_permutes(passing);
    law_claim(s.rows, pred, limit);
    if waited < retry_delay_secs {
        if queue.contains(m) {
            assert(passing.contains(m));
            let j = choose|j: int| 0 <= j < passing.len() && passing[j] == m;
            let k = lemma_filter_origin(s.rows, pred, j);
        }
        if claim.contains(m) {
            let i = choose|i: int| 0 <= i < claim.len() && claim[i] == m;
            assert(queue[i] == m);
        }
    }
    if waited >= retry_delay_secs && m.retry_count < max_retries {
        let k = s.index_of(m.id);
        assert(pred(s.rows[k]));
        let j = lemma_filter_keeps(s.rows, pred, k);
        assert(passing.contains(passing[j]));
        assert(queue.contains(m));
        if claim.len() == queue.len() {
            assert(claim =~= queue);
        }
    }
}

/// Every record has a way on: a pending record is in the pending queue; a
/// record left in a delivery attempt is pending after recovery; a failed
/// record that is due for a retry is in the retry queue; and a failed
/// record past the retention window is discarded by the janitor.
pub proof fn law_no_record_is_stuck(
    s: StoreView,
    id: i64,
    max_retries: i32,
    retry_delay_secs: i64,
    max_age_hours: i64,
    now: i64,
)
    requires
        s.wf(),
        s.contains_id(id),
    ensures
        s.get(id).status == MessageStatus::Pending ==> s.pending_queue().contains(s.get(id)),
        s.get(id).status == MessageStatus::Processing ==> s.reset_processing().contains_id(id)
            && s.reset_processing().get(id) == s.get(id).requeued(),
        s.get(id).retry_eligible(max_retries, retry_delay_secs, now) ==> s.retry_queue(
            max_retries,
            retry_delay_secs,
            now,
        ).contains(s.get(id)),
        s.get(id).stale(max_age_hours, now) ==> !s.purge_stale_failed(
            max_age_hours,
            now,
        ).contains_id(id),
{
    let k = s.index_of(id);
    let m = s.get(id);
    if m.status == MessageStatus::Pending {
        let pred = in_status(MessageStatus::Pending);
        let passing = s.rows.filter(pred);
        lemma_oldest_first_permutes(passing);
        let j = lemma_filter_keeps(s.rows, pred, k);
        assert(passing.contains(passing[j]));
    }
    if m.status == MessageStatus::Processing {
        law_step_effect(s, StoreOp::Recover, id);
    }
    if m.retry_eligible(max_retries, retry_delay_secs, now) {
        let pred = is_retry_eligible(max_retries, retry_delay_secs, now);
        let passing = s.rows.filter(pred);
        lemma_oldest_first_permutes(passing);
        let j = lemma_filter_keeps(s.rows, pred, k);
        assert(passing.contains(passing[j]));
    }
    if m.stale(max_age_hours, now) {
        law_step_effect(s, StoreOp::Purge { max_age_hours, now }, id);
    }
}

} // verus!
