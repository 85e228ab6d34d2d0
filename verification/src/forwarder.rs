//! The forwarding pipeline around the buffer: ingestion, recovery at
//! startup, and the decisions of the periodic delivery, retry, janitor and
//! statistics tasks.
//!
//! Delivering a message is the caller's business. A tick of the delivery or
//! retry task is a [`DeliveryRun`]: the caller asks for the next message,
//! tries to deliver it, and reports how that went, until no message is left.

use crate::buffer_db::{BufferDb, BufferStats, StoreError, RETRY_CLAIM_LIMIT};
use crate::decode::{decode_lossy, lossy_text};
use crate::message::MessageStatus;
use crate::model::{claim_pairs, StoreView};
use vstd::prelude::*;
use vstd::utf8::{encode_utf8, valid_utf8};

verus! {

/// Seconds between two reports of the statistics task.
pub const STATS_INTERVAL_SECS: u64 = 60;

/// Seconds between two runs of the janitor.
pub const CLEANUP_INTERVAL_SECS: u64 = 3600;

/// Delivery attempts that the retry task makes for one message within one
/// tick before it gives the message up for this tick.
pub const RETRY_ATTEMPTS: u32 = 3;

/// What the periodic tasks go by.
#[derive(Clone, Copy, Debug)]
pub struct ForwarderConfig {
    /// Most messages that one delivery tick takes up.
    pub batch_size: i32,
    /// Milliseconds between two delivery ticks.
    pub batch_timeout_ms: u64,
    /// A message that failed this often is no longer retried.
    pub max_retries: i32,
    /// Seconds that a failed message rests before it is retried; also the
    /// seconds between two retry ticks.
    pub retry_delay_secs: i64,
    /// Hours after which the janitor discards a failed message.
    pub cleanup_failed_after_hours: i64,
    /// Milliseconds that the retry task pauses after the first failed
    /// attempt for a message within one tick; the pause grows by as much
    /// with every further attempt.
    pub retry_backoff_ms: u64,
}

impl ForwarderConfig {
    /// Milliseconds between two delivery ticks: as configured, but at least
    /// one, since a timer cannot fire every zero milliseconds.
    pub fn batch_interval_ms(&self) -> (ms: u64)
        ensures
            ms == if self.batch_timeout_ms == 0 {
                1
            } else {
                self.batch_timeout_ms
            },
    {
        if self.batch_timeout_ms == 0 {
            1
        } else {
            self.batch_timeout_ms
        }
    }

    /// Seconds between two retry ticks: the retry delay, but at least one.
    /// The retry task lets the first of its ticks pass, so that a start is
    /// not followed by a burst of retries.
    pub fn retry_interval_secs(&self) -> (secs: u64)
        ensures
            secs == if self.retry_delay_secs < 1 {
                1
            } else {
                self.retry_delay_secs
            },
    {
        if self.retry_delay_secs < 1 {
            1
        } else {
            self.retry_delay_secs as u64
        }
    }
}

/// What the statistics task reports.
#[derive(Clone, Copy, Debug)]
pub struct StatsReport {
    /// The statistics of the buffer.
    pub stats: BufferStats,
    /// Seconds since the oldest pending message was ingested, if any
    /// message is pending.
    pub oldest_pending_age_secs: Option<i64>,
}

/// `value` if it fits an `i64`, else the nearest `i64`.
pub open spec fn clamp_to_i64(value: int) -> i64 {
    if value > i64::MAX {
        i64::MAX
    } else if value < i64::MIN {
        i64::MIN
    } else {
        value as i64
    }
}

/// Why a message could not be ingested.
#[derive(Clone, Copy, Debug)]
pub struct IngestError {
    /// What the buffer reported.
    pub cause: StoreError,
}

/// What to do after a delivery attempt failed.
#[derive(Clone, Copy, Debug, PartialEq, Eq, Structural)]
pub enum FailureStep {
    /// Attempt the same message again after a pause of `pause_ms`
    /// milliseconds. The buffer was not changed.
    TryAgain { pause_ms: u64 },
    /// The message is given up for this tick. `recorded` tells whether its
    /// record was marked as failed; it was not if the record is gone.
    GaveUp { recorded: bool },
    /// The message is given up for this tick and its record stays as it
    /// is, because its retry count cannot grow any more.
    CounterOverflow,
    /// No delivery was open, so there was nothing to record.
    Idle,
}

/// The pause after the given number of failed attempts: one step for each.
pub open spec fn linear_pause(failed_attempts: u32, step_ms: u64) -> u64 {
    if failed_attempts * step_ms > u64::MAX {
        u64::MAX
    } else {
        (failed_attempts * step_ms) as u64
    }
}

/// The mathematical value of a [`DeliveryRun`].
pub struct RunView {
    /// Identifier and payload of the messages claimed for this tick, in the
    /// order in which they are taken up.
    pub claimed: Seq<(i64, Seq<char>)>,
    /// How many of them were taken up or skipped.
    pub cursor: nat,
    /// The message handed out for delivery whose outcome is still open.
    pub current: Option<i64>,
    /// Delivery attempts that one message gets within this tick.
    pub attempts_allowed: u32,
    /// Attempts for the current message that failed so far.
    pub failed_attempts: u32,
}

impl RunView {
    /// The position of the first claimed message from `from` on whose
    /// record can be claimed in `store`; the number of claimed messages if
    /// there is none.
    pub open spec fn first_claimable(self, store: StoreView, from: nat) -> nat
        decreases self.claimed.len() - from,
    {
        if from >= self.claimed.len() {
            self.claimed.len()
        } else if store.claimable(self.claimed[from as int].0) {
            from
        } else {
            self.first_claimable(store, from + 1)
        }
    }

    /// What `first_claimable` finds: a position from `from` on, before which
    /// no claimed message from `from` on can be claimed, and at which, unless
    /// it is the end, one can.
    pub proof fn lemma_first_claimable(self, store: StoreView, from: nat)
        requires
            from <= self.claimed.len(),
        ensures
            from <= self.first_claimable(store, from) <= self.claimed.len(),
            self.first_claimable(store, from) < self.claimed.len() ==> store.claimable(
                self.claimed[self.first_claimable(store, from) as int].0,
            ),
            forall|k: int|
                from <= k < self.first_claimable(store, from) ==> !store.claimable(
                    (#[trigger] self.claimed[k]).0,
                ),
        decreases self.claimed.len() - from,
    {
        if from < self.claimed.len() && !store.claimable(self.claimed[from as int].0) {
            self.lemma_first_claimable(store, from + 1);
        }
    }

    /// Whether every claimed message was taken up or skipped.
    pub open spec fn exhausted(self) -> bool {
        self.cursor >= self.claimed.len()
    }
}

/// One tick of the delivery task or of the retry task.
pub struct DeliveryRun {
    claimed: Vec<(i64, String)>,
    cursor: usize,
    current: Option<i64>,
    attempts_allowed: u32,
    failed_attempts: u32,
}

impl View for DeliveryRun {
    type V = RunView;

    closed spec fn view(&self) -> RunView {
        RunView {
            claimed: self.claimed.deep_view(),
            cursor: self.cursor as nat,
            current: self.current,
            attempts_allowed: self.attempts_allowed,
            failed_attempts: self.failed_attempts,
        }
    }
}

impl DeliveryRun {
    #[verifier::type_invariant]
    spec fn inv(self) -> bool {
        self.cursor <= self.claimed.len()
    }

    /// How many messages were claimed for this tick.
    pub fn claimed_count(&self) -> (n: usize)
        ensures
            n == self@.claimed.len(),
    {
        self.claimed.len()
    }

    /// Whether the tick has nothing left to take up.
    pub fn is_exhausted(&self) -> (b: bool)
        ensures
            b == self@.exhausted(),
    {
        self.cursor >= self.claimed.len()
    }

    /// The message whose delivery outcome is still open, if there is one.
    pub fn current(&self) -> (id: Option<i64>)
        ensures
            id == self@.current,
    {
        self.current
    }
}

/// The buffer together with the configuration of the tasks that work on it.
pub struct LogForwarder {
    config: ForwarderConfig,
    buffer_db: BufferDb,
    recovered: i64,
}

impl LogForwarder {
    /// What the buffer of this forwarder holds.
    pub closed spec fn store(&self) -> StoreView {
        self.buffer_db@
    }

    /// The configuration of this forwarder.
    pub closed spec fn settings(&self) -> ForwarderConfig {
        self.config
    }

    /// The number of interrupted deliveries that startup recovery found.
    pub closed spec fn recovered_at_startup(&self) -> int {
        self.recovered as int
    }

    /// Takes over `buffer_db` and runs the recovery that has to precede all
    /// tasks: records that a crash left in a delivery attempt are queued
    /// again.
    pub fn new(config: ForwarderConfig, buffer_db: BufferDb) -> (forwarder: LogForwarder)
        ensures
            forwarder.store() == buffer_db@.reset_processing(),
            forwarder.store().wf(),
            forwarder.store().count(MessageStatus::Processing) == 0,
            forwarder.recovered_at_startup() == buffer_db@.count(MessageStatus::Processing),
            forwarder.settings() == config,
    {
        let mut buffer_db = buffer_db;
        let recovered = buffer_db.reset_processing_to_pending();
        LogForwarder { config, buffer_db, recovered }
    }

    /// The configuration of this forwarder.
    pub fn config(&self) -> (config: ForwarderConfig)
        ensures
            config == self.settings(),
    {
        self.config
    }

    /// The number of interrupted deliveries that startup recovery found.
    pub fn recovered_count(&self) -> (count: i64)
        ensures
            count == self.recovered_at_startup(),
    {
        self.recovered
    }

    /// The buffer, for reading.
    pub fn buffer(&self) -> (db: &BufferDb)
        ensures
            db@ == self.store(),
    {
        &self.buffer_db
    }

    /// Queues `raw_syslog` at `now`.
    pub fn forward_log_at(&mut self, raw_syslog: String, now: i64) -> (r: Result<(), StoreError>)
        ensures
            r is Ok <==> old(self).store().has_room(),
            r matches Err(e) ==> e == StoreError::Full,
            final(self).store() == old(self).store().enqueue(raw_syslog@, now),
            final(self).store().wf(),
            final(self).settings() == old(self).settings(),
            final(self).recovered_at_startup() == old(self).recovered_at_startup(),
    {
        self.buffer_db.store_log_at(raw_syslog.as_str(), now)
    }

    /// Queues `raw_syslog` now.
    pub fn forward_log(&mut self, raw_syslog: String) -> (r: Result<(), StoreError>)
        ensures
            r is Ok ==> old(self).store().has_room() && exists|now: i64|
                0 <= now && final(self).store() == #[trigger] old(self).store().enqueue(
                    raw_syslog@,
                    now,
                ),
            r matches Err(e) ==> final(self).store() == old(self).store() && (e
                == StoreError::Clock || (e == StoreError::Full && !old(self).store().has_room())),
            final(self).store().wf(),
            final(self).settings() == old(self).settings(),
            final(self).recovered_at_startup() == old(self).recovered_at_startup(),
    {
        let r = self.buffer_db.store_log(raw_syslog.as_str());
        proof {
            if r is Ok {
                let now = choose|now: i64|
                    0 <= now && self.buffer_db@ == #[trigger] old(self).buffer_db@.enqueue(
                        raw_syslog@,
                        now,
                    );
                assert(self.store() == old(self).store().enqueue(raw_syslog@, now));
            }
        }
        r
    }

    /// Ingests one datagram at `now`: decodes it permissively, so that no
    /// byte sequence is refused, and queues the text.
    pub fn ingest_at(&mut self, raw_message: &[u8], now: i64) -> (r: Result<(), IngestError>)
        ensures
            r is Ok <==> old(self).store().has_room(),
            r matches Err(e) ==> e.cause == StoreError::Full,
            final(self).store() == old(self).store().enqueue(lossy_text(raw_message@), now),
            valid_utf8(raw_message@) ==> encode_utf8(lossy_text(raw_message@)) == raw_message@,
            final(self).store().wf(),
            final(self).settings() == old(self).settings(),
            final(self).recovered_at_startup() == old(self).recovered_at_startup(),
    {
        let text = decode_lossy(raw_message);
        match self.forward_log_at(text, now) {
            Ok(()) => Ok(()),
            Err(cause) => Err(IngestError { cause }),
        }
    }

    /// Ingests one datagram now.
    pub fn ingest(&mut self, raw_message: &[u8]) -> (r: Result<(), IngestError>)
        ensures
            r is Ok ==> old(self).store().has_room() && exists|now: i64|
                0 <= now && final(self).store() == #[trigger] old(self).store().enqueue(
                    lossy_text(raw_message@),
                    now,
                ),
            r matches Err(e) ==> final(self).store() == old(self).store() && (e.cause
                == StoreError::Clock || (e.cause == StoreError::Full
                && !old(self).store().has_room())),
            final(self).store().wf(),
            final(self).settings() == old(self).settings(),
            final(self).recovered_at_startup() == old(self).recovered_at_startup(),
    {
        let text = decode_lossy(raw_message);
        match self.forward_log(text) {
            Ok(()) => Ok(()),
            Err(cause) => Err(IngestError { cause }),
        }
    }

    /// The statistics of the buffer.
    pub fn get_stats(&self) -> (r: Result<BufferStats, StoreError>)
        ensures
            r is Ok <==> self.store().total_retries() <= i64::MAX,
            r is Err ==> r.unwrap_err() == StoreError::CounterOverflow,
            r matches Ok(stats) ==> {
                &&& stats.pending_count == self.store().count(MessageStatus::Pending)
                &&& stats.processing_count == self.store().count(MessageStatus::Processing)
                &&& stats.failed_count == self.store().count(MessageStatus::Failed)
                &&& stats.oldest_pending_timestamp == self.store().oldest_pending()
                &&& stats.total_retries == self.store().total_retries()
            },
    {
        self.buffer_db.get_stats()
    }

    /// What the statistics task reports at `now`: nothing while the buffer
    /// is empty, else the statistics and the age of the oldest pending
    /// message. Reads only.
    pub fn stats_report_at(&self, now: i64) -> (r: Result<Option<StatsReport>, StoreError>)
        ensures
            r is Ok <==> self.store().total_retries() <= i64::MAX,
            r is Err ==> r.unwrap_err() == StoreError::CounterOverflow,
            r matches Ok(None) ==> self.store().rows.len() == 0,
            r matches Ok(Some(report)) ==> {
                &&& self.store().rows.len() > 0
                &&& report.stats.pending_count == self.store().count(MessageStatus::Pending)
                &&& report.stats.processing_count == self.store().count(MessageStatus::Processing)
                &&& report.stats.failed_count == self.store().count(MessageStatus::Failed)
                &&& report.stats.oldest_pending_timestamp == self.store().oldest_pending()
                &&& report.stats.total_retries == self.store().total_retries()
                &&& report.oldest_pending_age_secs == match self.store().oldest_pending() {
                    Some(t) => Some(clamp_to_i64(now - t)),
                    None => None,
                }
            },
    {
        let stats = self.buffer_db.get_stats()?;
        if self.buffer_db.is_empty() {
            return Ok(None);
        }
        let age = match stats.oldest_pending_timestamp {
            None => None,
            Some(t) => {
                let elapsed: i128 = (now as i128) - (t as i128);
                if elapsed > (i64::MAX as i128) {
                    Some(i64::MAX)
                } else if elapsed < (i64::MIN as i128) {
                    Some(i64::MIN)
                } else {
                    Some(elapsed as i64)
                }
            },
        };
        Ok(Some(StatsReport { stats, oldest_pending_age_secs: age }))
    }

    /// One run of the janitor at `now`: discards the failed messages that
    /// are older than the retention window. Returns how many it discarded.
    pub fn cleanup_at(&mut self, now: i64) -> (count: i64)
        ensures
            count == old(self).store().stale_rows(
                old(self).settings().cleanup_failed_after_hours,
                now,
            ).len(),
            final(self).store() == old(self).store().purge_stale_failed(
                old(self).settings().cleanup_failed_after_hours,
                now,
            ),
            final(self).store().wf(),
            final(self).settings() == old(self).settings(),
            final(self).recovered_at_startup() == old(self).recovered_at_startup(),
    {
        self.buffer_db.cleanup_old_failed_at(self.config.cleanup_failed_after_hours, now)
    }

    /// Starts a tick of the delivery task: claims up to `batch_size`
    /// pending messages, oldest first. The buffer does not change yet.
    pub fn begin_batch(&self) -> (run: DeliveryRun)
        ensures
            run@ == (RunView {
                claimed: claim_pairs(self.store().pending_claim(self.settings().batch_size)),
                cursor: 0,
                current: None,
                attempts_allowed: 1,
                failed_attempts: 0,
            }),
    {
        DeliveryRun {
            claimed: self.buffer_db.get_pending_logs(self.config.batch_size),
            cursor: 0,
            current: None,
            attempts_allowed: 1,
            failed_attempts: 0,
        }
    }

    /// Starts a tick of the retry task at `now`: claims the failed messages
    /// that are due for a retry, oldest first, at most
    /// [`RETRY_CLAIM_LIMIT`]. The buffer does not change yet. Each message
    /// of such a tick gets [`RETRY_ATTEMPTS`] delivery attempts.
    pub fn begin_retry_at(&self, now: i64) -> (run: DeliveryRun)
        ensures
            run@ == (RunView {
                claimed: claim_pairs(
                    self.store().retry_claim(
                        self.settings().max_retries,
                        self.settings().retry_delay_secs,
                        RETRY_CLAIM_LIMIT,
                        now,
                    ),
                ),
                cursor: 0,
                current: None,
                attempts_allowed: RETRY_ATTEMPTS,
                failed_attempts: 0,
            }),
    {
        DeliveryRun {
            claimed: self.buffer_db.get_retry_candidates_at(
                self.config.max_retries,
                self.config.retry_delay_secs,
                RETRY_CLAIM_LIMIT,
                now,
            ),
            cursor: 0,
            current: None,
            attempts_allowed: RETRY_ATTEMPTS,
            failed_attempts: 0,
        }
    }

    /// Takes up the next message of `run` at `now`.
    ///
    /// Claimed messages whose record cannot be marked as in delivery (it is
    /// gone, or another task has it) are skipped and leave the buffer as it
    /// is. The first one that can be marked is marked and handed out for
    /// delivery. `None` says that the tick is over.
    pub fn next_delivery_at(&mut self, run: &mut DeliveryRun, now: i64) -> (next: Option<
        (i64, String),
    >)
        ensures
            ({
                let before = old(run)@;
                let found = before.first_claimable(old(self).store(), before.cursor);
                if found < before.claimed.len() {
                    let id = before.claimed[found as int].0;
                    &&& next is Some
                    &&& next.unwrap().deep_view() == before.claimed[found as int]
                    &&& final(self).store() == old(self).store().mark_processing(id, now)
                    &&& final(run)@ == (RunView {
                        cursor: found + 1,
                        current: Some(id),
                        failed_attempts: 0,
                        ..before
                    })
                } else {
                    &&& next is None
                    &&& final(self).store() == old(self).store()
                    &&& final(run)@ == (RunView {
                        cursor: before.claimed.len(),
                        current: None,
                        failed_attempts: 0,
                        ..before
                    })
                }
            }),
            next is Some ==> final(run)@.cursor > old(run)@.cursor,
            next is None ==> final(run)@.exhausted(),
            final(self).store().wf(),
            final(self).settings() == old(self).settings(),
            final(self).recovered_at_startup() == old(self).recovered_at_startup(),
    {
        proof {
            use_type_invariant(&*run);
        }
        let ghost before = run@;
        let ghost store = self.store();
        proof {
            before.lemma_first_claimable(store, before.cursor);
        }
        while run.cursor < run.claimed.len()
            invariant
                run.cursor <= run.claimed.len(),
                before == old(run)@,
                store == old(self).store(),
                run@.claimed == before.claimed,
                run@.attempts_allowed == before.attempts_allowed,
                self.store() == store,
                self.settings() == old(self).settings(),
                self.recovered_at_startup() == old(self).recovered_at_startup(),
                before.cursor <= run.cursor,
                before.first_claimable(store, before.cursor) == before.first_claimable(
                    store,
                    run.cursor as nat,
                ),
            decreases run.claimed.len() - run.cursor,
        {
            let at: usize = run.cursor;
            let id: i64 = run.claimed[at].0;
            assert(before.claimed[at as int] == run.claimed[at as int].deep_view());
            match self.buffer_db.mark_processing_at(id, now) {
                Ok(()) => {
                    let payload = run.claimed[at].1.clone();
                    run.cursor = at + 1;
                    run.current = Some(id);
                    run.failed_attempts = 0;
                    let next = Some((id, payload));
                    proof {
                        assert(before.first_claimable(store, at as nat) == at);
                        assert(next.unwrap().deep_view() == before.claimed[at as int]);
                        assert(run@.claimed == before.claimed);
                    }
                    return next;
                },
                Err(_) => {
                    run.cursor = at + 1;
                    proof {
                        assert(before.first_claimable(store, at as nat) == before.first_claimable(
                            store,
                            (at + 1) as nat,
                        ));
                    }
                },
            }
        }
        run.current = None;
        run.failed_attempts = 0;
        proof {
            use_type_invariant(&self.buffer_db);
        }
        None
    }

    /// Records that the message handed out last was delivered: its record
    /// is removed. Tells whether there was a record to remove; without an
    /// open delivery nothing happens.
    pub fn delivery_succeeded(&mut self, run: &mut DeliveryRun) -> (removed: bool)
        ensures
            match old(run)@.current {
                Some(id) => {
                    &&& removed == old(self).store().contains_id(id)
                    &&& final(self).store() == old(self).store().mark_sent(id)
                },
                None => !removed && final(self).store() == old(self).store(),
            },
            final(run)@ == (RunView { current: None, failed_attempts: 0, ..old(run)@ }),
            final(self).store().wf(),
            final(self).settings() == old(self).settings(),
            final(self).recovered_at_startup() == old(self).recovered_at_startup(),
    {
        proof {
            use_type_invariant(&*run);
            use_type_invariant(&self.buffer_db);
        }
        let removed = match run.current {
            Some(id) => self.buffer_db.mark_sent(id),
            None => false,
        };
        run.current = None;
        run.failed_attempts = 0;
        removed
    }

    /// Records at `now` that the attempt to deliver the message handed out
    /// last failed, and says what to do next.
    ///
    /// While the message has attempts left in this tick, the buffer stays
    /// as it is and the message is to be attempted again after a pause that
    /// grows linearly. After its last attempt the record is marked as
    /// failed, which counts one retry however many attempts the tick made.
    pub fn delivery_failed_at(&mut self, run: &mut DeliveryRun, now: i64) -> (step: FailureStep)
        ensures
            ({
                let before = old(run)@;
                match before.current {
                    None => {
                        &&& step == FailureStep::Idle
                        &&& final(self).store() == old(self).store()
                        &&& final(run)@ == before
                    },
                    Some(id) => if before.failed_attempts + 1 < before.attempts_allowed {
                        &&& step == FailureStep::TryAgain {
                            pause_ms: linear_pause(
                                (before.failed_attempts + 1) as u32,
                                old(self).settings().retry_backoff_ms,
                            ),
                        }
                        &&& final(self).store() == old(self).store()
                        &&& final(run)@ == (RunView {
                            failed_attempts: (before.failed_attempts + 1) as u32,
                            ..before
                        })
                    } else {
                        &&& step == if old(self).store().can_fail(id) {
                            FailureStep::GaveUp { recorded: true }
                        } else if old(self).store().contains_id(id) {
                            FailureStep::CounterOverflow
                        } else {
                            FailureStep::GaveUp { recorded: false }
                        }
                        &&& final(self).store() == old(self).store().mark_failed(id, now)
                        &&& final(run)@ == (RunView { current: None, failed_attempts: 0, ..before })
                    },
                }
            }),
            final(self).store().wf(),
            final(self).settings() == old(self).settings(),
            final(self).recovered_at_startup() == old(self).recovered_at_startup(),
    {
        proof {
            use_type_invariant(&*run);
            use_type_invariant(&self.buffer_db);
        }
        match run.current {
            None => FailureStep::Idle,
            Some(id) => {
                if run.failed_attempts < u32::MAX && run.failed_attempts + 1 < run.attempts_allowed {
                    let failed: u32 = run.failed_attempts + 1;
                    run.failed_attempts = failed;
                    let pause_ms = match (failed as u64).checked_mul(self.config.retry_backoff_ms) {
                        Some(pause) => pause,
                        None => u64::MAX,
                    };
                    FailureStep::TryAgain { pause_ms }
                } else {
                    run.current = None;
                    run.failed_attempts = 0;
                    match self.buffer_db.mark_failed_at(id, now) {
                        Ok(recorded) => FailureStep::GaveUp { recorded },
                        Err(_) => FailureStep::CounterOverflow,
                    }
                }
            },
        }
    }
}

} // verus!
