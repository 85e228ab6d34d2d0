//! The buffer itself: the records in memory and the operations on them.

use crate::clock::unix_seconds;
use crate::laws::{
    law_pending_claim_is_fifo, law_recovery_is_idempotent, law_retry_claim_is_eligible,
};
use crate::lemmas::{
    lemma_filter_all, lemma_filter_one_out, lemma_filter_step, lemma_filter_wf, lemma_insert_pos,
    lemma_insert_pos_is, lemma_len_bounded, lemma_oldest_first_len, lemma_oldest_pending,
    lemma_position, lemma_retries_sum_step,
};
use crate::message::{BufferedMessage, MessageStatus, MessageView, SECONDS_PER_HOUR};
use crate::model::{
    claim_len, claim_pairs, claim_prefix, has_id, ids_increase, in_status, is_kept, is_retry_eligible,
    is_stale, oldest_first, other_than, retries_sum, rows_in_range, with_status, StoreView,
};
use vstd::prelude::*;

verus! {

/// Why an operation of the buffer did not take place.
#[derive(Clone, Copy, Debug, PartialEq, Eq, Structural)]
pub enum StoreError {
    /// No record has the identifier that was given.
    NotFound,
    /// The record is already claimed for a delivery attempt.
    AlreadyProcessing,
    /// Every identifier has been assigned.
    Full,
    /// A counter would no longer fit its type.
    CounterOverflow,
    /// The system clock could not be read as seconds since the epoch.
    Clock,
    /// The records handed to `restore` break the invariant of the buffer.
    Inconsistent,
}

/// The number of retry candidates that one claim hands out at most.
pub const RETRY_CLAIM_LIMIT: i32 = 50;

/// A summary of what the buffer holds.
#[derive(Clone, Copy, Debug)]
pub struct BufferStats {
    /// Records waiting for a delivery attempt.
    pub pending_count: i64,
    /// Records claimed for a delivery attempt.
    pub processing_count: i64,
    /// Records whose last delivery attempt failed.
    pub failed_count: i64,
    /// Ingestion time of the oldest pending record, if any is pending.
    pub oldest_pending_timestamp: Option<i64>,
    /// Failed delivery attempts over all records in the buffer.
    pub total_retries: i64,
}

/// The queue of messages and their delivery state.
pub struct BufferDb {
    rows: Vec<BufferedMessage>,
    last_id: i64,
}

impl View for BufferDb {
    type V = StoreView;

    closed spec fn view(&self) -> StoreView {
        StoreView { rows: self.rows.deep_view(), last_id: self.last_id }
    }
}

/// The position of the record `id` in `rows`, by bisection.
fn position(rows: &Vec<BufferedMessage>, id: i64) -> (r: Option<usize>)
    requires
        ids_increase(rows.deep_view()),
    ensures
        match r {
            Some(k) => k < rows.len() && rows[k as int].id == id,
            None => !has_id(rows.deep_view(), id),
        },
{
    let ghost view = rows.deep_view();
    let mut low: usize = 0;
    let mut high: usize = rows.len();
    while low < high
        invariant
            view == rows.deep_view(),
            ids_increase(view),
            low <= high <= rows.len(),
            forall|i: int| 0 <= i < low ==> (#[trigger] view[i]).id < id,
            forall|i: int| high <= i < rows.len() ==> (#[trigger] view[i]).id > id,
        decreases high - low,
    {
        let middle: usize = low + (high - low) / 2;
        let found: i64 = rows[middle].id;
        assert(view[middle as int].id == found);
        if found == id {
            return Some(middle);
        } else if found < id {
            low = middle + 1;
        } else {
            high = middle;
        }
    }
    None
}

/// The records of `rows` at the positions `picked`, in that order.
spec fn select(rows: Seq<MessageView>, picked: Seq<usize>) -> Seq<MessageView> {
    picked.map_values(|k: usize| rows[k as int])
}

/// Orders the records at the positions `picked` oldest first and hands out
/// the identifier and a copy of the payload of as many as `limit` allows.
fn hand_out(rows: &Vec<BufferedMessage>, picked: &Vec<usize>, limit: i32) -> (out: Vec<
    (i64, String),
>)
    requires
        forall|t: int| 0 <= t < picked.len() ==> (#[trigger] picked[t]) < rows.len(),
    ensures
        out.deep_view() == claim_pairs(
            claim_prefix(oldest_first(select(rows.deep_view(), picked@)), limit),
        ),
{
    let ghost view = rows.deep_view();
    let mut order: Vec<usize> = Vec::new();
    let mut t: usize = 0;
    assert(select(view, order@) =~= oldest_first(select(view, picked@.take(0))));
    while t < picked.len()
        invariant
            t <= picked.len(),
            view == rows.deep_view(),
            forall|u: int| 0 <= u < picked.len() ==> (#[trigger] picked[u]) < rows.len(),
            forall|u: int| 0 <= u < order.len() ==> (#[trigger] order[u]) < rows.len(),
            select(view, order@) == oldest_first(select(view, picked@.take(t as int))),
        decreases picked.len() - t,
    {
        let k: usize = picked[t];
        let created: i64 = rows[k].created_at;
        let ghost queue = select(view, order@);
        let mut p: usize = order.len();
        while p > 0 && rows[order[p - 1]].created_at > created
            invariant
                p <= order.len(),
                view == rows.deep_view(),
                queue == select(view, order@),
                forall|u: int| 0 <= u < order.len() ==> (#[trigger] order[u]) < rows.len(),
                forall|u: int| p <= u < order.len() ==> (#[trigger] queue[u]).created_at > created,
            decreases p,
        {
            p = p - 1;
        }
        proof {
            let m = view[k as int];
            let next = select(view, picked@.take(t + 1));
            lemma_insert_pos_is(queue, m, p as int);
            lemma_insert_pos(queue, m);
            assert(next.drop_last() =~= select(view, picked@.take(t as int)));
            assert(next.last() == m);
        }
        order.insert(p, k);
        proof {
            assert(select(view, order@) =~= queue.insert(p as int, view[k as int]));
        }
        t = t + 1;
    }
    assert(picked@.take(t as int) =~= picked@);
    let ghost queue = select(view, order@);
    let n: usize = if limit < 0 || order.len() <= limit as usize {
        order.len()
    } else {
        limit as usize
    };
    let mut out: Vec<(i64, String)> = Vec::new();
    let mut u: usize = 0;
    assert(out.deep_view() =~= claim_pairs(queue.take(0)));
    while u < n
        invariant
            u <= n <= order.len(),
            view == rows.deep_view(),
            queue == select(view, order@),
            forall|u: int| 0 <= u < order.len() ==> (#[trigger] order[u]) < rows.len(),
            out.deep_view() == claim_pairs(queue.take(u as int)),
        decreases n - u,
    {
        let k: usize = order[u];
        let ghost so_far = out.deep_view();
        out.push((rows[k].id, rows[k].raw_syslog.clone()));
        proof {
            assert(out.deep_view() =~= so_far.push((view[k as int].id, view[k as int].payload)));
            assert(claim_pairs(queue.take(u + 1)) =~= so_far.push(
                (view[k as int].id, view[k as int].payload),
            ));
        }
        u = u + 1;
    }
    out
}

/// `t` is the earliest ingestion time among the pending records that stand
/// before position `i`.
spec fn oldest_among(rows: Seq<MessageView>, i: int, t: i64) -> bool {
    &&& exists|k: int|
        0 <= k < i && (#[trigger] rows[k]).status == MessageStatus::Pending && rows[k].created_at
            == t
    &&& forall|k: int|
        0 <= k < i && (#[trigger] rows[k]).status == MessageStatus::Pending ==> t
            <= rows[k].created_at
}

/// A pending record that is no younger than those before it is the oldest
/// one up to and including itself.
proof fn lemma_oldest_among_found(rows: Seq<MessageView>, i: int, t: i64)
    requires
        0 <= i < rows.len(),
        rows[i].status == MessageStatus::Pending,
        rows[i].created_at == t,
        forall|k: int|
            0 <= k < i && (#[trigger] rows[k]).status == MessageStatus::Pending ==> t
                <= rows[k].created_at,
    ensures
        oldest_among(rows, i + 1, t),
{
}

/// The oldest pending record stays the oldest when the next record is not
/// an older pending one.
proof fn lemma_oldest_among_kept(rows: Seq<MessageView>, i: int, t: i64)
    requires
        0 <= i < rows.len(),
        oldest_among(rows, i, t),
        rows[i].status == MessageStatus::Pending ==> t <= rows[i].created_at,
    ensures
        oldest_among(rows, i + 1, t),
{
    let k = choose|k: int|
        0 <= k < i && (#[trigger] rows[k]).status == MessageStatus::Pending && rows[k].created_at
            == t;
    assert(0 <= k < i + 1 && rows[k].status == MessageStatus::Pending && rows[k].created_at == t);
}

impl BufferDb {
    #[verifier::type_invariant]
    pub(crate) open spec fn inv(self) -> bool {
        self@.wf()
    }

    /// A buffer without records.
    pub fn new() -> (db: BufferDb)
        ensures
            db@ == StoreView::empty(),
            db@.wf(),
    {
        let db = BufferDb { rows: Vec::new(), last_id: 0 };
        assert(db@.rows =~= Seq::<MessageView>::empty());
        db
    }

    /// Rebuilds a buffer from records that were saved earlier, together with
    /// the highest identifier that had been assigned. Refuses records that
    /// no buffer could have held: identifiers that do not grow, lie outside
    /// `1 ..= last_id`, or a negative retry count.
    pub fn restore(rows: Vec<BufferedMessage>, last_id: i64) -> (r: Result<BufferDb, StoreError>)
        ensures
            r is Ok <==> (StoreView { rows: rows.deep_view(), last_id }).wf(),
            r matches Ok(db) ==> db@ == (StoreView { rows: rows.deep_view(), last_id }) && db@.wf(),
            r matches Err(e) ==> e == StoreError::Inconsistent,
    {
        let ghost view = rows.deep_view();
        if last_id < 0 {
            return Err(StoreError::Inconsistent);
        }
        let mut previous: i64 = 0;
        let mut i: usize = 0;
        while i < rows.len()
            invariant
                view == rows.deep_view(),
                i <= rows.len(),
                0 <= previous <= last_id,
                rows_in_range(view.take(i as int), last_id),
                ids_increase(view.take(i as int)),
                forall|j: int| 0 <= j < i ==> (#[trigger] view[j]).id <= previous,
                previous == if i == 0 {
                    0
                } else {
                    view[i - 1].id
                },
            decreases rows.len() - i,
        {
            let m = &rows[i];
            assert(view[i as int] == m@);
            if m.id <= previous || m.id > last_id || m.retry_count < 0 {
                proof {
                    if m.id <= previous && i > 0 {
                        assert(view[i - 1].id >= view[i as int].id);
                    }
                }
                return Err(StoreError::Inconsistent);
            }
            proof {
                let next = view.take(i + 1);
                assert forall|a: int, b: int| 0 <= a < b < next.len() implies next[a].id
                    < next[b].id by {
                    if b < i {
                        assert(view.take(i as int)[a].id < view.take(i as int)[b].id);
                    } else {
                        assert(view[a].id <= previous);
                    }
                }
                assert forall|a: int| 0 <= a < next.len() implies 1 <= (#[trigger] next[a]).id
                    <= last_id && next[a].retry_count >= 0 by {
                    if a < i {
                        assert(view.take(i as int)[a].retry_count >= 0);
                    }
                }
            }
            previous = m.id;
            i = i + 1;
        }
        assert(view.take(i as int) =~= view);
        Ok(BufferDb { rows, last_id })
    }

    /// The number of records in the buffer.
    pub fn len(&self) -> (n: usize)
        ensures
            n == self@.rows.len(),
            self@.wf(),
    {
        proof {
            use_type_invariant(self);
        }
        self.rows.len()
    }

    /// Whether the buffer holds no record.
    pub fn is_empty(&self) -> (b: bool)
        ensures
            b == (self@.rows.len() == 0),
    {
        self.rows.len() == 0
    }

    /// The highest identifier assigned so far; 0 if none was.
    pub fn last_id(&self) -> (id: i64)
        ensures
            id == self@.last_id,
    {
        self.last_id
    }

    /// A copy of the record `id`, if it is in the buffer.
    pub fn get(&self, id: i64) -> (r: Option<BufferedMessage>)
        ensures
            r is Some <==> self@.contains_id(id),
            r matches Some(m) ==> m@ == self@.get(id),
            self@.wf(),
    {
        proof {
            use_type_invariant(self);
        }
        match position(&self.rows, id) {
            None => None,
            Some(k) => {
                proof {
                    lemma_position(self@, k as int);
                }
                Some(self.rows[k].duplicate())
            },
        }
    }

    /// A copy of every record, in the order of their identifiers.
    pub fn rows(&self) -> (out: Vec<BufferedMessage>)
        ensures
            out.deep_view() == self@.rows,
            self@.wf(),
    {
        proof {
            use_type_invariant(self);
        }
        let mut out: Vec<BufferedMessage> = Vec::new();
        let mut i: usize = 0;
        while i < self.rows.len()
            invariant
                i <= self.rows.len(),
                out.deep_view() == self@.rows.take(i as int),
            decreases self.rows.len() - i,
        {
            let ghost so_far = out.deep_view();
            out.push(self.rows[i].duplicate());
            assert(out.deep_view() =~= so_far.push(self@.rows[i as int]));
            assert(self@.rows.take(i + 1) =~= so_far.push(self@.rows[i as int]));
            i = i + 1;
        }
        assert(self@.rows.take(i as int) =~= self@.rows);
        out
    }

    /// Ingests `raw_syslog` at `now`: appends it as a pending record under
    /// the next identifier. Fails only when the identifiers are used up.
    pub fn store_log_at(&mut self, raw_syslog: &str, now: i64) -> (r: Result<(), StoreError>)
        ensures
            r is Ok <==> old(self)@.has_room(),
            r is Err ==> r == Err::<(), StoreError>(StoreError::Full),
            final(self)@ == old(self)@.enqueue(raw_syslog@, now),
            final(self)@.wf(),
    {
        proof {
            use_type_invariant(&*self);
        }
        if self.last_id == i64::MAX {
            return Err(StoreError::Full);
        }
        let id: i64 = self.last_id + 1;
        let mut rows: Vec<BufferedMessage> = Vec::new();
        std::mem::swap(&mut rows, &mut self.rows);
        rows.push(
            BufferedMessage {
                id,
                raw_syslog: raw_syslog.to_owned(),
                created_at: now,
                retry_count: 0,
                status: MessageStatus::Pending,
                last_attempt: None,
            },
        );
        proof {
            assert(rows.deep_view() =~= old(self)@.rows.push(
                MessageView::fresh(id, raw_syslog@, now),
            ));
        }
        self.last_id = id;
        self.rows = rows;
        Ok(())
    }

    /// Claims record `id` for a delivery attempt at `now`.
    ///
    /// The claim is the serialization point between tasks: of two tasks
    /// that picked the same record, only the first one gets it.
    pub fn mark_processing_at(&mut self, id: i64, now: i64) -> (r: Result<(), StoreError>)
        ensures
            r is Ok <==> old(self)@.claimable(id),
            r == Err::<(), StoreError>(StoreError::NotFound) <==> !old(self)@.contains_id(id),
            r == Err::<(), StoreError>(StoreError::AlreadyProcessing) <==> old(self)@.contains_id(id)
                && !old(self)@.claimable(id),
            final(self)@ == old(self)@.mark_processing(id, now),
            r is Err ==> final(self)@ == old(self)@,
            final(self)@.wf(),
    {
        proof {
            use_type_invariant(&*self);
        }
        let ghost before = self@;
        match position(&self.rows, id) {
            None => {
                assert(before.mark_processing(id, now).rows =~= before.rows);
                Err(StoreError::NotFound)
            },
            Some(k) => {
                proof {
                    lemma_position(before, k as int);
                }
                if self.rows[k].status == MessageStatus::Processing {
                    assert(before.mark_processing(id, now).rows =~= before.rows);
                    Err(StoreError::AlreadyProcessing)
                } else {
                    let mut rows: Vec<BufferedMessage> = Vec::new();
                    std::mem::swap(&mut rows, &mut self.rows);
                    rows[k].status = MessageStatus::Processing;
                    rows[k].last_attempt = Some(now);
                    proof {
                        assert(rows.deep_view() =~= before.mark_processing(id, now).rows);
                    }
                    self.rows = rows;
                    Ok(())
                }
            },
        }
    }

    /// Records the delivery of record `id` by removing it. Tells whether
    /// there was such a record; removing a record that is not there changes
    /// nothing.
    pub fn mark_sent(&mut self, id: i64) -> (removed: bool)
        ensures
            removed == old(self)@.contains_id(id),
            final(self)@ == old(self)@.mark_sent(id),
            final(self)@.wf(),
    {
        proof {
            use_type_invariant(&*self);
        }
        let ghost before = self@;
        proof {
            lemma_filter_wf(before.rows, before.last_id, other_than(id));
        }
        match position(&self.rows, id) {
            None => {
                proof {
                    lemma_filter_all(before.rows, other_than(id));
                }
                false
            },
            Some(k) => {
                proof {
                    lemma_position(before, k as int);
                    assert forall|i: int| 0 <= i < before.rows.len() && i != k implies other_than(
                        id,
                    )(#[trigger] before.rows[i]) by {
                        lemma_position(before, i);
                    }
                    lemma_filter_one_out(before.rows, other_than(id), k as int);
                }
                let mut rows: Vec<BufferedMessage> = Vec::new();
                std::mem::swap(&mut rows, &mut self.rows);
                rows.remove(k);
                proof {
                    assert(rows.deep_view() =~= before.rows.remove(k as int));
                }
                self.rows = rows;
                true
            },
        }
    }

    /// Records at `now` that a delivery attempt for record `id` failed: the
    /// record becomes failed and its retry count grows by one.
    ///
    /// `Ok(false)` says that there is no such record, which changes nothing.
    pub fn mark_failed_at(&mut self, id: i64, now: i64) -> (r: Result<bool, StoreError>)
        ensures
            r == Ok::<bool, StoreError>(true) <==> old(self)@.can_fail(id),
            r == Ok::<bool, StoreError>(false) <==> !old(self)@.contains_id(id),
            r == Err::<bool, StoreError>(StoreError::CounterOverflow) <==> old(self)@.contains_id(
                id,
            ) && !old(self)@.can_fail(id),
            final(self)@ == old(self)@.mark_failed(id, now),
            r != Ok::<bool, StoreError>(true) ==> final(self)@ == old(self)@,
            final(self)@.wf(),
    {
        proof {
            use_type_invariant(&*self);
        }
        let ghost before = self@;
        match position(&self.rows, id) {
            None => {
                assert(before.mark_failed(id, now).rows =~= before.rows);
                Ok(false)
            },
            Some(k) => {
                proof {
                    lemma_position(before, k as int);
                }
                let retries: i64 = self.rows[k].retry_count;
                if retries == i64::MAX {
                    assert(before.mark_failed(id, now).rows =~= before.rows);
                    Err(StoreError::CounterOverflow)
                } else {
                    let mut rows: Vec<BufferedMessage> = Vec::new();
                    std::mem::swap(&mut rows, &mut self.rows);
                    rows[k].status = MessageStatus::Failed;
                    rows[k].retry_count = retries + 1;
                    rows[k].last_attempt = Some(now);
                    proof {
                        assert(rows.deep_view() =~= before.mark_failed(id, now).rows);
                    }
                    self.rows = rows;
                    Ok(true)
                }
            },
        }
    }

    /// Recovery after a restart: every record that was left in a delivery
    /// attempt is queued again. Returns how many records that were.
    pub fn reset_processing_to_pending(&mut self) -> (count: i64)
        ensures
            count == old(self)@.count(MessageStatus::Processing),
            final(self)@ == old(self)@.reset_processing(),
            final(self)@.count(MessageStatus::Processing) == 0,
            count == 0 ==> final(self)@ == old(self)@,
            final(self)@.wf(),
    {
        proof {
            use_type_invariant(&*self);
        }
        let ghost before = self@;
        proof {
            lemma_len_bounded(before);
            law_recovery_is_idempotent(before);
        }
        let mut rows: Vec<BufferedMessage> = Vec::new();
        std::mem::swap(&mut rows, &mut self.rows);
        let mut count: i64 = 0;
        let mut i: usize = 0;
        while i < rows.len()
            invariant
                i <= rows.len() == before.rows.len() <= i64::MAX,
                count == with_status(before.rows.take(i as int), MessageStatus::Processing).len()
                    <= i,
                forall|j: int|
                    0 <= j < i ==> (#[trigger] rows[j])@ == before.reset_processing().rows[j],
                forall|j: int| i <= j < rows.len() ==> (#[trigger] rows[j])@ == before.rows[j],
            decreases rows.len() - i,
        {
            proof {
                lemma_filter_step(before.rows, in_status(MessageStatus::Processing), i as int);
            }
            if rows[i].status == MessageStatus::Processing {
                rows[i].status = MessageStatus::Pending;
                count = count + 1;
            }
            i = i + 1;
        }
        proof {
            assert(before.rows.take(i as int) =~= before.rows);
            assert(rows.deep_view() =~= before.reset_processing().rows);
        }
        self.rows = rows;
        count
    }

    /// The janitor at `now`: discards every failed record that was ingested
    /// more than `max_age_hours` hours ago, whatever its retry count.
    /// Returns how many records were discarded.
    pub fn cleanup_old_failed_at(&mut self, max_age_hours: i64, now: i64) -> (count: i64)
        ensures
            count == old(self)@.stale_rows(max_age_hours, now).len(),
            final(self)@ == old(self)@.purge_stale_failed(max_age_hours, now),
            final(self)@.wf(),
    {
        proof {
            use_type_invariant(&*self);
        }
        let ghost before = self@;
        proof {
            lemma_len_bounded(before);
            lemma_filter_wf(before.rows, before.last_id, is_kept(max_age_hours, now));
        }
        let cutoff: i128 = (now as i128) - (max_age_hours as i128) * (SECONDS_PER_HOUR as i128);
        let mut rows: Vec<BufferedMessage> = Vec::new();
        std::mem::swap(&mut rows, &mut self.rows);
        let mut kept: Vec<BufferedMessage> = Vec::new();
        let mut count: i64 = 0;
        for m in it: rows
            invariant
                it.seq().len() == before.rows.len() <= i64::MAX,
                forall|j: int| 0 <= j < it.seq().len() ==> (#[trigger] it.seq()[j])@ == before.rows[j],
                cutoff == now - max_age_hours * SECONDS_PER_HOUR,
                count == before.rows.take(it.index() as int).filter(
                    is_stale(max_age_hours, now),
                ).len() <= it.index(),
                kept.deep_view() == before.rows.take(it.index() as int).filter(
                    is_kept(max_age_hours, now),
                ),
        {
            proof {
                lemma_filter_step(before.rows, is_stale(max_age_hours, now), it.index() as int);
                lemma_filter_step(before.rows, is_kept(max_age_hours, now), it.index() as int);
            }
            let ghost so_far = kept.deep_view();
            if m.status == MessageStatus::Failed && (m.created_at as i128) < cutoff {
                count = count + 1;
            } else {
                kept.push(m);
                assert(kept.deep_view() =~= so_far.push(m@));
            }
        }
        proof {
            assert(before.rows.take(before.rows.len() as int) =~= before.rows);
        }
        self.rows = kept;
        count
    }

    /// Counts the records by status, finds the oldest pending one and sums
    /// the retry counts. Fails only if that sum does not fit an `i64`.
    pub fn get_stats(&self) -> (r: Result<BufferStats, StoreError>)
        ensures
            r is Ok <==> self@.total_retries() <= i64::MAX,
            r is Err ==> r.unwrap_err() == StoreError::CounterOverflow,
            r matches Ok(stats) ==> {
                &&& stats.pending_count == self@.count(MessageStatus::Pending)
                &&& stats.processing_count == self@.count(MessageStatus::Processing)
                &&& stats.failed_count == self@.count(MessageStatus::Failed)
                &&& stats.oldest_pending_timestamp == self@.oldest_pending()
                &&& stats.total_retries == self@.total_retries()
            },
    {
        proof {
            use_type_invariant(self);
            lemma_len_bounded(self@);
        }
        let ghost view = self@.rows;
        let mut pending: i64 = 0;
        let mut processing: i64 = 0;
        let mut failed: i64 = 0;
        let mut oldest: Option<i64> = None;
        let mut total: u128 = 0;
        let mut i: usize = 0;
        while i < self.rows.len()
            invariant
                self@.wf(),
                view == self@.rows,
                i <= self.rows.len() == view.len() <= i64::MAX,
                pending == with_status(view.take(i as int), MessageStatus::Pending).len() <= i,
                processing == with_status(view.take(i as int), MessageStatus::Processing).len()
                    <= i,
                failed == with_status(view.take(i as int), MessageStatus::Failed).len() <= i,
                total == retries_sum(view.take(i as int)) <= i * i64::MAX,
                oldest is None ==> pending == 0 && forall|k: int|
                    0 <= k < i ==> (#[trigger] view[k]).status != MessageStatus::Pending,
                oldest matches Some(t) ==> oldest_among(view, i as int, t),
            decreases self.rows.len() - i,
        {
            proof {
                lemma_filter_step(view, in_status(MessageStatus::Pending), i as int);
                lemma_filter_step(view, in_status(MessageStatus::Processing), i as int);
                lemma_filter_step(view, in_status(MessageStatus::Failed), i as int);
                lemma_retries_sum_step(view, i as int);
                assert(view[i as int] == self.rows[i as int]@);
                assert(0 <= view[i as int].retry_count);
            }
            let m = &self.rows[i];
            let ghost earlier = oldest;
            match m.status {
                MessageStatus::Pending => {
                    pending = pending + 1;
                    let older = match oldest {
                        None => true,
                        Some(t) => m.created_at < t,
                    };
                    if older {
                        oldest = Some(m.created_at);
                    }
                },
                MessageStatus::Processing => {
                    processing = processing + 1;
                },
                MessageStatus::Failed => {
                    failed = failed + 1;
                },
            }
            total = total + (m.retry_count as u128);
            proof {
                if let Some(t) = oldest {
                    if earlier == Some(t) {
                        lemma_oldest_among_kept(view, i as int, t);
                    } else {
                        lemma_oldest_among_found(view, i as int, t);
                    }
                }
            }
            i = i + 1;
        }
        proof {
            assert(view.take(i as int) =~= view);
            match oldest {
                None => {
                    lemma_oldest_first_len(with_status(view, MessageStatus::Pending));
                },
                Some(t) => {
                    lemma_oldest_pending(self@, t);
                },
            }
        }
        if total > (i64::MAX as u128) {
            Err(StoreError::CounterOverflow)
        } else {
            Ok(
                BufferStats {
                    pending_count: pending,
                    processing_count: processing,
                    failed_count: failed,
                    oldest_pending_timestamp: oldest,
                    total_retries: total as i64,
                },
            )
        }
    }

    /// Claims pending records for delivery: the oldest first, records of the
    /// same second in the order of their arrival, at most `limit` of them (a
    /// negative `limit` does not limit). The buffer does not change: the
    /// caller marks each record as it takes it up.
    pub fn get_pending_logs(&self, limit: i32) -> (out: Vec<(i64, String)>)
        ensures
            out.deep_view() == claim_pairs(self@.pending_claim(limit)),
            out.len() == claim_len(limit, self@.count(MessageStatus::Pending)),
            forall|i: int|
                0 <= i < out.len() ==> {
                    &&& self@.contains_id((#[trigger] out[i]).0)
                    &&& self@.get(out[i].0).status == MessageStatus::Pending
                    &&& self@.get(out[i].0).payload == out[i].1@
                },
            forall|i: int, j: int|
                0 <= i < j < out.len() ==> self@.get((#[trigger] out[i]).0).created_at
                    <= self@.get((#[trigger] out[j]).0).created_at,
    {
        proof {
            use_type_invariant(self);
        }
        let ghost view = self@.rows;
        let mut picked: Vec<usize> = Vec::new();
        let mut i: usize = 0;
        assert(select(view, picked@) =~= with_status(view.take(0), MessageStatus::Pending)) by {
            reveal(Seq::filter);
        }
        while i < self.rows.len()
            invariant
                view == self@.rows,
                i <= self.rows.len() == view.len(),
                forall|t: int| 0 <= t < picked.len() ==> (#[trigger] picked[t]) < i,
                select(view, picked@) == with_status(view.take(i as int), MessageStatus::Pending),
            decreases self.rows.len() - i,
        {
            proof {
                lemma_filter_step(view, in_status(MessageStatus::Pending), i as int);
            }
            let ghost so_far = select(view, picked@);
            if self.rows[i].status == MessageStatus::Pending {
                picked.push(i);
                assert(select(view, picked@) =~= so_far.push(view[i as int]));
            }
            i = i + 1;
        }
        assert(view.take(i as int) =~= view);
        let out = hand_out(&self.rows, &picked, limit);
        proof {
            let claim = self@.pending_claim(limit);
            law_pending_claim_is_fifo(self@, limit);
            assert(out.len() == out.deep_view().len() == claim_pairs(claim).len() == claim.len());
            assert forall|i: int| 0 <= i < out.len() implies (#[trigger] out[i]).0 == claim[i].id
                && out[i].1@ == claim[i].payload && self@.get(out[i].0) == claim[i] by {
                assert(out.deep_view()[i] == claim_pairs(claim)[i]);
                assert(self@.holds(claim[i]));
            }
        }
        out
    }

    /// Claims failed records for a retry at `now`: those with fewer than
    /// `max_retries` failed attempts whose last attempt lies at least
    /// `retry_delay_secs` seconds back (or that were never attempted),
    /// ordered like pending claims and cut off at `limit`.
    pub fn get_retry_candidates_at(
        &self,
        max_retries: i32,
        retry_delay_secs: i64,
        limit: i32,
        now: i64,
    ) -> (out: Vec<(i64, String)>)
        ensures
            out.deep_view() == claim_pairs(
                self@.retry_claim(max_retries, retry_delay_secs, limit, now),
            ),
            limit >= 0 ==> out.len() <= limit,
            forall|i: int|
                0 <= i < out.len() ==> {
                    &&& self@.contains_id((#[trigger] out[i]).0)
                    &&& self@.get(out[i].0).status == MessageStatus::Failed
                    &&& self@.get(out[i].0).retry_count < max_retries
                    &&& self@.get(out[i].0).backoff_elapsed(retry_delay_secs, now)
                    &&& self@.get(out[i].0).payload == out[i].1@
                },
            forall|i: int, j: int|
                0 <= i < j < out.len() ==> self@.get((#[trigger] out[i]).0).created_at
                    <= self@.get((#[trigger] out[j]).0).created_at,
    {
        proof {
            use_type_invariant(self);
        }
        let ghost view = self@.rows;
        let ghost eligible = is_retry_eligible(max_retries, retry_delay_secs, now);
        let mut picked: Vec<usize> = Vec::new();
        let mut i: usize = 0;
        assert(select(view, picked@) =~= view.take(0).filter(eligible)) by {
            reveal(Seq::filter);
        }
        while i < self.rows.len()
            invariant
                view == self@.rows,
                eligible == is_retry_eligible(max_retries, retry_delay_secs, now),
                i <= self.rows.len() == view.len(),
                forall|t: int| 0 <= t < picked.len() ==> (#[trigger] picked[t]) < i,
                select(view, picked@) == view.take(i as int).filter(eligible),
            decreases self.rows.len() - i,
        {
            proof {
                lemma_filter_step(view, eligible, i as int);
            }
            let ghost so_far = select(view, picked@);
            let m = &self.rows[i];
            let waited = match m.last_attempt {
                None => true,
                Some(t) => (now as i128) - (t as i128) >= (retry_delay_secs as i128),
            };
            if m.status == MessageStatus::Failed && m.retry_count < (max_retries as i64) && waited {
                picked.push(i);
                assert(select(view, picked@) =~= so_far.push(view[i as int]));
            }
            i = i + 1;
        }
        assert(view.take(i as int) =~= view);
        let out = hand_out(&self.rows, &picked, limit);
        proof {
            let claim = self@.retry_claim(max_retries, retry_delay_secs, limit, now);
            law_retry_claim_is_eligible(self@, max_retries, retry_delay_secs, limit, now);
            assert(out.len() == out.deep_view().len() == claim_pairs(claim).len() == claim.len());
            assert forall|i: int| 0 <= i < out.len() implies (#[trigger] out[i]).0 == claim[i].id
                && out[i].1@ == claim[i].payload && self@.get(out[i].0) == claim[i] by {
                assert(out.deep_view()[i] == claim_pairs(claim)[i]);
                assert(self@.holds(claim[i]));
            }
            assert forall|i: int, j: int| 0 <= i < j < out.len() implies self@.get(
                (#[trigger] out[i]).0,
            ).created_at <= self@.get((#[trigger] out[j]).0).created_at by {
                assert(claim[i].before(claim[j]));
            }
        }
        out
    }

    /// Ingests `raw_syslog` now. See [`BufferDb::store_log_at`].
    pub fn store_log(&mut self, raw_syslog: &str) -> (r: Result<(), StoreError>)
        ensures
            r is Ok ==> exists|now: i64|
                0 <= now && final(self)@ == #[trigger] old(self)@.enqueue(raw_syslog@, now),
            r is Ok ==> old(self)@.has_room(),
            r matches Err(e) ==> final(self)@ == old(self)@ && (e == StoreError::Clock || (e
                == StoreError::Full && !old(self)@.has_room())),
            final(self)@.wf(),
    {
        proof {
            use_type_invariant(&*self);
        }
        match unix_seconds() {
            None => Err(StoreError::Clock),
            Some(now) => self.store_log_at(raw_syslog, now),
        }
    }

    /// Claims record `id` for a delivery attempt now. See
    /// [`BufferDb::mark_processing_at`].
    pub fn mark_processing(&mut self, id: i64) -> (r: Result<(), StoreError>)
        ensures
            r is Ok ==> exists|now: i64|
                0 <= now && final(self)@ == #[trigger] old(self)@.mark_processing(id, now),
            r is Ok ==> old(self)@.claimable(id),
            r is Err ==> final(self)@ == old(self)@,
            r == Err::<(), StoreError>(StoreError::NotFound) ==> !old(self)@.contains_id(id),
            r == Err::<(), StoreError>(StoreError::AlreadyProcessing) ==> old(self)@.contains_id(id)
                && !old(self)@.claimable(id),
            r matches Err(e) ==> e == StoreError::Clock || e == StoreError::NotFound || e
                == StoreError::AlreadyProcessing,
            final(self)@.wf(),
    {
        proof {
            use_type_invariant(&*self);
        }
        match unix_seconds() {
            None => Err(StoreError::Clock),
            Some(now) => self.mark_processing_at(id, now),
        }
    }

    /// Records now that a delivery attempt for record `id` failed. See
    /// [`BufferDb::mark_failed_at`].
    pub fn mark_failed(&mut self, id: i64) -> (r: Result<bool, StoreError>)
        ensures
            r == Ok::<bool, StoreError>(true) ==> old(self)@.can_fail(id) && exists|now: i64|
                0 <= now && final(self)@ == #[trigger] old(self)@.mark_failed(id, now),
            r == Ok::<bool, StoreError>(false) ==> !old(self)@.contains_id(id),
            r == Err::<bool, StoreError>(StoreError::CounterOverflow) ==> old(self)@.contains_id(id)
                && !old(self)@.can_fail(id),
            r != Ok::<bool, StoreError>(true) ==> final(self)@ == old(self)@,
            r matches Err(e) ==> e == StoreError::Clock || e == StoreError::CounterOverflow,
            final(self)@.wf(),
    {
        proof {
            use_type_invariant(&*self);
        }
        match unix_seconds() {
            None => Err(StoreError::Clock),
            Some(now) => self.mark_failed_at(id, now),
        }
    }

    /// Claims up to [`RETRY_CLAIM_LIMIT`] failed records for a retry now.
    /// See [`BufferDb::get_retry_candidates_at`].
    pub fn get_retry_candidates(&self, max_retries: i32, retry_delay_secs: i64) -> (r: Result<
        Vec<(i64, String)>,
        StoreError,
    >)
        ensures
            r matches Ok(out) ==> exists|now: i64|
                0 <= now && out.deep_view() == claim_pairs(
                    #[trigger] self@.retry_claim(
                        max_retries,
                        retry_delay_secs,
                        RETRY_CLAIM_LIMIT,
                        now,
                    ),
                ),
            r matches Err(e) ==> e == StoreError::Clock,
    {
        match unix_seconds() {
            None => Err(StoreError::Clock),
            Some(now) => Ok(
                self.get_retry_candidates_at(max_retries, retry_delay_secs, RETRY_CLAIM_LIMIT, now),
            ),
        }
    }

    /// Runs the janitor now. See [`BufferDb::cleanup_old_failed_at`].
    pub fn cleanup_old_failed(&mut self, max_age_hours: i64) -> (r: Result<i64, StoreError>)
        ensures
            r matches Ok(count) ==> exists|now: i64|
                0 <= now && final(self)@ == #[trigger] old(self)@.purge_stale_failed(
                    max_age_hours,
                    now,
                ) && count == old(self)@.stale_rows(max_age_hours, now).len(),
            r matches Err(e) ==> e == StoreError::Clock && final(self)@ == old(self)@,
            final(self)@.wf(),
    {
        proof {
            use_type_invariant(&*self);
        }
        match unix_seconds() {
            None => Err(StoreError::Clock),
            Some(now) => Ok(self.cleanup_old_failed_at(max_age_hours, now)),
        }
    }
}

} // verus!
