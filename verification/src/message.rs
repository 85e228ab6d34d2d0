//! The unit of work: one buffered message and its delivery state.

use vstd::prelude::*;

verus! {

/// Seconds in one hour; retention windows are configured in hours.
pub const SECONDS_PER_HOUR: i64 = 3600;

/// Where a message stands in its delivery life cycle.
#[derive(Clone, Copy, Debug, PartialEq, Eq, Structural)]
pub enum MessageStatus {
    /// Queued; no delivery attempt is under way.
    Pending,
    /// Claimed by a task; a delivery attempt is (assumed to be) in progress.
    Processing,
    /// The last delivery attempt failed; eligible for retry after the backoff.
    Failed,
}

impl MessageStatus {
    /// The name under which a status is written down where records are
    /// saved.
    pub open spec fn name(self) -> Seq<char> {
        match self {
            MessageStatus::Pending => "pending"@,
            MessageStatus::Processing => "processing"@,
            MessageStatus::Failed => "failed"@,
        }
    }

    /// The three names differ, so a name stands for one status.
    pub proof fn lemma_names_differ(a: MessageStatus, b: MessageStatus)
        ensures
            a.name() == b.name() <==> a == b,
    {
        reveal_strlit("pending");
        reveal_strlit("processing");
        reveal_strlit("failed");
        if a != b {
            assert(a.name().len() != b.name().len());
        }
    }

    /// The name of this status.
    pub fn as_str(&self) -> (name: &'static str)
        ensures
            name@ == self.name(),
    {
        match self {
            MessageStatus::Pending => "pending",
            MessageStatus::Processing => "processing",
            MessageStatus::Failed => "failed",
        }
    }

    /// The status that `text` names, if it names one.
    pub fn parse(text: &str) -> (r: Option<MessageStatus>)
        ensures
            forall|status: MessageStatus| r == Some(status) <==> text@ == status.name(),
    {
        let owned = text.to_owned();
        let r = if owned == "pending".to_owned() {
            Some(MessageStatus::Pending)
        } else if owned == "processing".to_owned() {
            Some(MessageStatus::Processing)
        } else if owned == "failed".to_owned() {
            Some(MessageStatus::Failed)
        } else {
            None
        };
        proof {
            assert forall|status: MessageStatus| r == Some(status) <==> text@
                == status.name() by {
                if let Some(found) = r {
                    Self::lemma_names_differ(found, status);
                }
            }
        }
        r
    }
}

/// The mathematical value of a [`BufferedMessage`].
pub struct MessageView {
    pub id: i64,
    pub payload: Seq<char>,
    pub created_at: i64,
    pub retry_count: i64,
    pub status: MessageStatus,
    pub last_attempt: Option<i64>,
}

impl MessageView {
    /// A message as it is when it enters the buffer.
    pub open spec fn fresh(id: i64, payload: Seq<char>, now: i64) -> MessageView {
        MessageView {
            id,
            payload,
            created_at: now,
            retry_count: 0,
            status: MessageStatus::Pending,
            last_attempt: None,
        }
    }

    /// The message after a task has claimed it for a delivery attempt at `now`.
    pub open spec fn claimed(self, now: i64) -> MessageView {
        MessageView { status: MessageStatus::Processing, last_attempt: Some(now), ..self }
    }

    /// The message after a delivery attempt that failed at `now`.
    pub open spec fn failed(self, now: i64) -> MessageView {
        MessageView {
            status: MessageStatus::Failed,
            retry_count: (self.retry_count + 1) as i64,
            last_attempt: Some(now),
            ..self
        }
    }

    /// The message put back in the queue after an interrupted attempt.
    pub open spec fn requeued(self) -> MessageView {
        MessageView { status: MessageStatus::Pending, ..self }
    }

    /// Whether at least `retry_delay_secs` seconds lie between the last
    /// attempt and `now`. A message that was never attempted has nothing to
    /// wait for.
    pub open spec fn backoff_elapsed(self, retry_delay_secs: i64, now: i64) -> bool {
        match self.last_attempt {
            None => true,
            Some(t) => now - t >= retry_delay_secs,
        }
    }

    /// Whether the retry task may pick this message up at `now`.
    pub open spec fn retry_eligible(self, max_retries: i32, retry_delay_secs: i64, now: i64) -> bool {
        &&& self.status == MessageStatus::Failed
        &&& self.retry_count < max_retries
        &&& self.backoff_elapsed(retry_delay_secs, now)
    }

    /// Whether the janitor discards this message at `now`: it is failed and
    /// was ingested more than `max_age_hours` hours ago.
    pub open spec fn stale(self, max_age_hours: i64, now: i64) -> bool {
        &&& self.status == MessageStatus::Failed
        &&& self.created_at < now - max_age_hours * SECONDS_PER_HOUR
    }

    /// `self` is handed out before `other`: it is older, or as old and
    /// arrived first.
    pub open spec fn before(self, other: MessageView) -> bool {
        self.created_at < other.created_at || (self.created_at == other.created_at && self.id
            < other.id)
    }
}

/// One record of the buffer.
#[derive(Clone, Debug)]
pub struct BufferedMessage {
    /// Assigned by the buffer, unique, never reused.
    pub id: i64,
    /// The raw message; never changed after ingestion.
    pub raw_syslog: String,
    /// Epoch seconds at ingestion.
    pub created_at: i64,
    /// Number of failed delivery attempts so far.
    pub retry_count: i64,
    pub status: MessageStatus,
    /// Epoch seconds of the most recent delivery attempt, if there was one.
    pub last_attempt: Option<i64>,
}

impl View for BufferedMessage {
    type V = MessageView;

    open spec fn view(&self) -> MessageView {
        MessageView {
            id: self.id,
            payload: self.raw_syslog@,
            created_at: self.created_at,
            retry_count: self.retry_count,
            status: self.status,
            last_attempt: self.last_attempt,
        }
    }
}

impl DeepView for BufferedMessage {
    type V = MessageView;

    open spec fn deep_view(&self) -> MessageView {
        self@
    }
}

impl BufferedMessage {
    /// A copy of this record.
    pub fn duplicate(&self) -> (r: BufferedMessage)
        ensures
            r == *self,
    {
        BufferedMessage {
            id: self.id,
            raw_syslog: self.raw_syslog.clone(),
            created_at: self.created_at,
            retry_count: self.retry_count,
            status: self.status,
            last_attempt: self.last_attempt,
        }
    }
}

} // verus!
