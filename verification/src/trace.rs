//! Histories of a buffer: sequences of operations, applied one after the
//! other. The laws of the buffer are stated over every such history.

use crate::message::{MessageStatus, MessageView};
use crate::model::StoreView;
use vstd::prelude::*;

verus! {

/// One operation on a buffer.
pub enum StoreOp {
    /// A message is ingested.
    Enqueue { payload: Seq<char>, now: i64 },
    /// A task claims a record for a delivery attempt.
    MarkProcessing { id: i64, now: i64 },
    /// A record was delivered.
    MarkSent { id: i64 },
    /// A delivery attempt for a record failed.
    MarkFailed { id: i64, now: i64 },
    /// The janitor runs.
    Purge { max_age_hours: i64, now: i64 },
    /// The process restarts, after a crash or a shutdown, and recovers.
    Recover,
}

impl StoreOp {
    /// Whether this operation, applied to `s`, takes the record `id` out of
    /// the buffer for one of the two reasons that the buffer knows: the
    /// record was delivered, or the janitor found it failed and too old.
    pub open spec fn releases(self, s: StoreView, id: i64) -> bool {
        match self {
            StoreOp::MarkSent { id: sent } => sent == id,
            StoreOp::Purge { max_age_hours, now } => s.contains_id(id) && s.get(id).stale(
                max_age_hours,
                now,
            ),
            _ => false,
        }
    }

    /// What this operation makes of the record `m`, if it leaves it in the
    /// buffer.
    pub open spec fn touch(self, m: MessageView) -> MessageView {
        match self {
            StoreOp::MarkProcessing { id, now } => if m.id == id && m.status
                != MessageStatus::Processing {
                m.claimed(now)
            } else {
                m
            },
            StoreOp::MarkFailed { id, now } => if m.id == id && m.retry_count < i64::MAX {
                m.failed(now)
            } else {
                m
            },
            StoreOp::Recover => if m.status == MessageStatus::Processing {
                m.requeued()
            } else {
                m
            },
            _ => m,
        }
    }

    /// Whether this operation records a failed delivery attempt for `id`.
    pub open spec fn fails(self, id: i64) -> bool {
        match self {
            StoreOp::MarkFailed { id: failed, now } => failed == id,
            _ => false,
        }
    }
}

/// The number of operations in `ops` that record a failed delivery attempt
/// for `id`.
pub open spec fn failures_of(ops: Seq<StoreOp>, id: i64) -> nat
    decreases ops.len(),
{
    if ops.len() == 0 {
        0
    } else {
        failures_of(ops.drop_last(), id) + if ops.last().fails(id) {
            1nat
        } else {
            0nat
        }
    }
}

impl StoreView {
    /// The buffer after `op`.
    pub open spec fn apply(self, op: StoreOp) -> StoreView {
        match op {
            StoreOp::Enqueue { payload, now } => self.enqueue(payload, now),
            StoreOp::MarkProcessing { id, now } => self.mark_processing(id, now),
            StoreOp::MarkSent { id } => self.mark_sent(id),
            StoreOp::MarkFailed { id, now } => self.mark_failed(id, now),
            StoreOp::Purge { max_age_hours, now } => self.purge_stale_failed(max_age_hours, now),
            StoreOp::Recover => self.reset_processing(),
        }
    }

    /// The buffer after the operations `ops`, in their order.
    pub open spec fn apply_all(self, ops: Seq<StoreOp>) -> StoreView
        decreases ops.len(),
    {
        if ops.len() == 0 {
            self
        } else {
            self.apply_all(ops.drop_last()).apply(ops.last())
        }
    }

    /// Whether `m` is a record of this buffer.
    pub open spec fn holds(self, m: MessageView) -> bool {
        self.contains_id(m.id) && self.get(m.id) == m
    }
}

} // verus!
