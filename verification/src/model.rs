//! The buffer as a mathematical value.
//!
//! A [`StoreView`] is the sequence of records in the order in which they were
//! ingested, together with the highest identifier handed out so far. Every
//! operation of the buffer is a function from one such value to the next;
//! the executable buffer is proved against these functions.

use crate::message::{MessageStatus, MessageView};
use vstd::prelude::*;

verus! {

/// What a buffer holds.
pub struct StoreView {
    /// The records, oldest identifier first.
    pub rows: Seq<MessageView>,
    /// The highest identifier ever assigned; 0 while none was.
    pub last_id: i64,
}

/// Identifiers grow strictly along `rows`.
pub open spec fn ids_increase(rows: Seq<MessageView>) -> bool {
    forall|i: int, j: int| 0 <= i < j < rows.len() ==> rows[i].id < rows[j].id
}

/// Every record of `rows` carries an identifier in `1 ..= last_id` and a
/// retry count that is not negative.
pub open spec fn rows_in_range(rows: Seq<MessageView>, last_id: i64) -> bool {
    forall|i: int|
        0 <= i < rows.len() ==> 1 <= (#[trigger] rows[i]).id <= last_id && rows[i].retry_count >= 0
}

/// Some record of `rows` has the identifier `id`.
pub open spec fn has_id(rows: Seq<MessageView>, id: i64) -> bool {
    exists|k: int| 0 <= k < rows.len() && (#[trigger] rows[k]).id == id
}

/// The test "is in `status`".
pub open spec fn in_status(status: MessageStatus) -> spec_fn(MessageView) -> bool {
    |m: MessageView| m.status == status
}

/// The test "is not the record `id`".
pub open spec fn other_than(id: i64) -> spec_fn(MessageView) -> bool {
    |m: MessageView| m.id != id
}

/// The test "the janitor discards it at `now`".
pub open spec fn is_stale(max_age_hours: i64, now: i64) -> spec_fn(MessageView) -> bool {
    |m: MessageView| m.stale(max_age_hours, now)
}

/// The test "the janitor keeps it at `now`".
pub open spec fn is_kept(max_age_hours: i64, now: i64) -> spec_fn(MessageView) -> bool {
    |m: MessageView| !m.stale(max_age_hours, now)
}

/// The test "the retry task may pick it up at `now`".
pub open spec fn is_retry_eligible(max_retries: i32, retry_delay_secs: i64, now: i64) -> spec_fn(
    MessageView,
) -> bool {
    |m: MessageView| m.retry_eligible(max_retries, retry_delay_secs, now)
}

/// The records of `rows` that are in `status`.
pub open spec fn with_status(rows: Seq<MessageView>, status: MessageStatus) -> Seq<MessageView> {
    rows.filter(in_status(status))
}

/// The sum of the retry counts of `rows`.
pub open spec fn retries_sum(rows: Seq<MessageView>) -> int
    decreases rows.len(),
{
    if rows.len() == 0 {
        0
    } else {
        retries_sum(rows.drop_last()) + rows.last().retry_count
    }
}

/// `queue` with `m` placed behind every record that is not younger than `m`.
pub open spec fn insert_by_age(queue: Seq<MessageView>, m: MessageView) -> Seq<MessageView>
    decreases queue.len(),
{
    if queue.len() == 0 || queue.last().created_at <= m.created_at {
        queue.push(m)
    } else {
        insert_by_age(queue.drop_last(), m).push(queue.last())
    }
}

/// `rows` ordered by ingestion time; records of the same second keep the
/// order they have in `rows`.
pub open spec fn oldest_first(rows: Seq<MessageView>) -> Seq<MessageView>
    decreases rows.len(),
{
    if rows.len() == 0 {
        rows
    } else {
        insert_by_age(oldest_first(rows.drop_last()), rows.last())
    }
}

/// How many records a claim with the given `limit` hands out when
/// `available` records qualify. A negative limit does not limit.
pub open spec fn claim_len(limit: i32, available: nat) -> nat {
    if limit < 0 || available <= limit {
        available
    } else {
        limit as nat
    }
}

/// The part of `queue` that a claim with the given `limit` hands out.
pub open spec fn claim_prefix(queue: Seq<MessageView>, limit: i32) -> Seq<MessageView> {
    queue.take(claim_len(limit, queue.len()) as int)
}

/// What a claim hands out for each record: its identifier and its payload.
pub open spec fn claim_pairs(queue: Seq<MessageView>) -> Seq<(i64, Seq<char>)> {
    queue.map_values(|m: MessageView| (m.id, m.payload))
}

impl StoreView {
    /// The empty buffer.
    pub open spec fn empty() -> StoreView {
        StoreView { rows: Seq::empty(), last_id: 0 }
    }

    /// The invariant of every buffer: identifiers are unique, grow in the
    /// order of ingestion, and never exceed the last one assigned.
    pub open spec fn wf(self) -> bool {
        &&& 0 <= self.last_id
        &&& rows_in_range(self.rows, self.last_id)
        &&& ids_increase(self.rows)
    }

    /// Whether a record with identifier `id` is in the buffer.
    pub open spec fn contains_id(self, id: i64) -> bool {
        has_id(self.rows, id)
    }

    /// The position of the record with identifier `id`.
    pub open spec fn index_of(self, id: i64) -> int
        recommends
            self.contains_id(id),
    {
        choose|k: int| 0 <= k < self.rows.len() && (#[trigger] self.rows[k]).id == id
    }

    /// The record with identifier `id`.
    pub open spec fn get(self, id: i64) -> MessageView
        recommends
            self.contains_id(id),
    {
        self.rows[self.index_of(id)]
    }

    /// Whether the buffer can still assign an identifier.
    pub open spec fn has_room(self) -> bool {
        self.last_id < i64::MAX
    }

    /// The buffer after ingesting `payload` at `now`. A buffer that has used
    /// up its identifiers stays as it is.
    pub open spec fn enqueue(self, payload: Seq<char>, now: i64) -> StoreView {
        if self.has_room() {
            let id = (self.last_id + 1) as i64;
            StoreView { rows: self.rows.push(MessageView::fresh(id, payload, now)), last_id: id }
        } else {
            self
        }
    }

    /// Whether the record `id` can be claimed for a delivery attempt: it is
    /// there and no attempt is under way.
    pub open spec fn claimable(self, id: i64) -> bool {
        self.contains_id(id) && self.get(id).status != MessageStatus::Processing
    }

    /// The buffer after record `id` was claimed at `now`. Without a
    /// claimable record `id` nothing changes.
    pub open spec fn mark_processing(self, id: i64, now: i64) -> StoreView {
        StoreView {
            rows: self.rows.map_values(
                |m: MessageView|
                    if m.id == id && m.status != MessageStatus::Processing {
                        m.claimed(now)
                    } else {
                        m
                    },
            ),
            ..self
        }
    }

    /// The buffer after record `id` was delivered: the record is gone.
    pub open spec fn mark_sent(self, id: i64) -> StoreView {
        StoreView { rows: self.rows.filter(other_than(id)), ..self }
    }

    /// Whether a failed attempt can be recorded for `id`: the record is
    /// there and its retry count can still grow.
    pub open spec fn can_fail(self, id: i64) -> bool {
        self.contains_id(id) && self.get(id).retry_count < i64::MAX
    }

    /// The buffer after a delivery attempt for record `id` failed at `now`.
    pub open spec fn mark_failed(self, id: i64, now: i64) -> StoreView {
        StoreView {
            rows: self.rows.map_values(
                |m: MessageView|
                    if m.id == id && m.retry_count < i64::MAX {
                        m.failed(now)
                    } else {
                        m
                    },
            ),
            ..self
        }
    }

    /// The buffer after the janitor ran at `now`: the stale records are gone.
    pub open spec fn purge_stale_failed(self, max_age_hours: i64, now: i64) -> StoreView {
        StoreView { rows: self.rows.filter(is_kept(max_age_hours, now)), ..self }
    }

    /// The records that the janitor discards at `now`.
    pub open spec fn stale_rows(self, max_age_hours: i64, now: i64) -> Seq<MessageView> {
        self.rows.filter(is_stale(max_age_hours, now))
    }

    /// The buffer after recovery: every interrupted attempt is queued again.
    pub open spec fn reset_processing(self) -> StoreView {
        StoreView {
            rows: self.rows.map_values(
                |m: MessageView|
                    if m.status == MessageStatus::Processing {
                        m.requeued()
                    } else {
                        m
                    },
            ),
            ..self
        }
    }

    /// The number of records in `status`.
    pub open spec fn count(self, status: MessageStatus) -> nat {
        with_status(self.rows, status).len()
    }

    /// The pending records in the order in which they are handed out.
    pub open spec fn pending_queue(self) -> Seq<MessageView> {
        oldest_first(with_status(self.rows, MessageStatus::Pending))
    }

    /// What a claim of pending records with `limit` hands out.
    pub open spec fn pending_claim(self, limit: i32) -> Seq<MessageView> {
        claim_prefix(self.pending_queue(), limit)
    }

    /// The records that are eligible for a retry at `now`, in the order in
    /// which they are handed out.
    pub open spec fn retry_queue(self, max_retries: i32, retry_delay_secs: i64, now: i64) -> Seq<
        MessageView,
    > {
        oldest_first(self.rows.filter(is_retry_eligible(max_retries, retry_delay_secs, now)))
    }

    /// What a claim of retry candidates with `limit` hands out at `now`.
    pub open spec fn retry_claim(
        self,
        max_retries: i32,
        retry_delay_secs: i64,
        limit: i32,
        now: i64,
    ) -> Seq<MessageView> {
        claim_prefix(self.retry_queue(max_retries, retry_delay_secs, now), limit)
    }

    /// The ingestion time of the oldest pending record, if there is one.
    pub open spec fn oldest_pending(self) -> Option<i64> {
        let queue = self.pending_queue();
        if queue.len() == 0 {
            None
        } else {
            Some(queue[0].created_at)
        }
    }

    /// The sum of all retry counts.
    pub open spec fn total_retries(self) -> int {
        retries_sum(self.rows)
    }
}

} // verus!
