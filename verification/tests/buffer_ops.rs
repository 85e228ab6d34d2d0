use container_log_collector::buffer_db::{BufferDb, StoreError, RETRY_CLAIM_LIMIT};
use container_log_collector::message::{BufferedMessage, MessageStatus};

fn record(id: i64, created_at: i64, status: MessageStatus, retry_count: i64, last_attempt: Option<i64>) -> BufferedMessage {
    BufferedMessage {
        id,
        raw_syslog: format!("message {}", id),
        created_at,
        retry_count,
        status,
        last_attempt,
    }
}

#[test]
fn new_buffer_is_empty() {
    let db = BufferDb::new();
    assert!(db.is_empty());
    assert_eq!(db.len(), 0);
    assert_eq!(db.last_id(), 0);
    assert!(db.get_pending_logs(10).is_empty());
}

#[test]
fn store_log_at_assigns_growing_ids() {
    let mut db = BufferDb::new();
    assert_eq!(db.store_log_at("a", 100), Ok(()));
    assert_eq!(db.store_log_at("b", 101), Ok(()));
    assert_eq!(db.len(), 2);
    assert_eq!(db.last_id(), 2);
    let first = db.get(1).unwrap();
    assert_eq!(first.raw_syslog, "a");
    assert_eq!(first.created_at, 100);
    assert_eq!(first.retry_count, 0);
    assert_eq!(first.status, MessageStatus::Pending);
    assert_eq!(first.last_attempt, None);
    assert_eq!(db.get(2).unwrap().raw_syslog, "b");
    assert!(db.get(3).is_none());
}

#[test]
fn ids_are_not_reused_after_delivery() {
    let mut db = BufferDb::new();
    db.store_log_at("a", 1).unwrap();
    assert!(db.mark_sent(1));
    db.store_log_at("b", 2).unwrap();
    assert!(db.get(1).is_none());
    assert_eq!(db.get(2).unwrap().raw_syslog, "b");
}

#[test]
fn store_log_at_fails_when_ids_are_used_up() {
    let mut db = BufferDb::restore(Vec::new(), i64::MAX).unwrap();
    assert_eq!(db.store_log_at("a", 1), Err(StoreError::Full));
    assert!(db.is_empty());
}

#[test]
fn store_log_reads_the_clock() {
    let mut db = BufferDb::new();
    assert_eq!(db.store_log("now"), Ok(()));
    let m = db.get(1).unwrap();
    assert!(m.created_at > 1_600_000_000);
    assert_eq!(m.status, MessageStatus::Pending);
}

#[test]
fn mark_processing_at_claims_pending_and_failed() {
    let mut db = BufferDb::new();
    db.store_log_at("a", 10).unwrap();
    assert_eq!(db.mark_processing_at(1, 20), Ok(()));
    let m = db.get(1).unwrap();
    assert_eq!(m.status, MessageStatus::Processing);
    assert_eq!(m.last_attempt, Some(20));
    assert_eq!(m.retry_count, 0);
    assert_eq!(db.mark_failed_at(1, 21), Ok(true));
    assert_eq!(db.mark_processing_at(1, 30), Ok(()));
    let m = db.get(1).unwrap();
    assert_eq!(m.status, MessageStatus::Processing);
    assert_eq!(m.last_attempt, Some(30));
    assert_eq!(m.retry_count, 1);
}

#[test]
fn mark_processing_at_reports_missing_record() {
    let mut db = BufferDb::new();
    db.store_log_at("a", 10).unwrap();
    assert_eq!(db.mark_processing_at(7, 20), Err(StoreError::NotFound));
    assert_eq!(db.get(1).unwrap().status, MessageStatus::Pending);
}

#[test]
fn mark_processing_at_refuses_second_claim() {
    let mut db = BufferDb::new();
    db.store_log_at("a", 10).unwrap();
    assert_eq!(db.mark_processing_at(1, 20), Ok(()));
    assert_eq!(db.mark_processing_at(1, 25), Err(StoreError::AlreadyProcessing));
    assert_eq!(db.get(1).unwrap().last_attempt, Some(20));
}

#[test]
fn mark_processing_reads_the_clock() {
    let mut db = BufferDb::new();
    db.store_log_at("a", 10).unwrap();
    assert_eq!(db.mark_processing(1), Ok(()));
    assert!(db.get(1).unwrap().last_attempt.unwrap() > 1_600_000_000);
    assert_eq!(db.mark_processing(2), Err(StoreError::NotFound));
}

#[test]
fn mark_sent_removes_the_record() {
    let mut db = BufferDb::new();
    db.store_log_at("a", 10).unwrap();
    db.store_log_at("b", 11).unwrap();
    db.store_log_at("c", 12).unwrap();
    assert!(db.mark_sent(2));
    assert_eq!(db.len(), 2);
    assert!(db.get(2).is_none());
    assert_eq!(db.get(1).unwrap().raw_syslog, "a");
    assert_eq!(db.get(3).unwrap().raw_syslog, "c");
}

#[test]
fn mark_sent_of_missing_record_is_no_change() {
    let mut db = BufferDb::new();
    db.store_log_at("a", 10).unwrap();
    assert!(!db.mark_sent(5));
    assert_eq!(db.len(), 1);
}

#[test]
fn mark_failed_at_counts_one_retry() {
    let mut db = BufferDb::new();
    db.store_log_at("a", 10).unwrap();
    db.mark_processing_at(1, 20).unwrap();
    assert_eq!(db.mark_failed_at(1, 25), Ok(true));
    let m = db.get(1).unwrap();
    assert_eq!(m.status, MessageStatus::Failed);
    assert_eq!(m.retry_count, 1);
    assert_eq!(m.last_attempt, Some(25));
    assert_eq!(m.created_at, 10);
    assert_eq!(m.raw_syslog, "a");
}

#[test]
fn mark_failed_at_of_missing_record_is_no_change() {
    let mut db = BufferDb::new();
    db.store_log_at("a", 10).unwrap();
    assert_eq!(db.mark_failed_at(9, 25), Ok(false));
    assert_eq!(db.get(1).unwrap().status, MessageStatus::Pending);
}

#[test]
fn mark_failed_at_reports_counter_overflow() {
    let rows = vec![record(1, 10, MessageStatus::Processing, i64::MAX, Some(20))];
    let mut db = BufferDb::restore(rows, 1).unwrap();
    assert_eq!(db.mark_failed_at(1, 30), Err(StoreError::CounterOverflow));
    let m = db.get(1).unwrap();
    assert_eq!(m.status, MessageStatus::Processing);
    assert_eq!(m.retry_count, i64::MAX);
    assert_eq!(m.last_attempt, Some(20));
}

#[test]
fn mark_failed_reads_the_clock() {
    let mut db = BufferDb::new();
    db.store_log_at("a", 10).unwrap();
    assert_eq!(db.mark_failed(1), Ok(true));
    assert!(db.get(1).unwrap().last_attempt.unwrap() > 1_600_000_000);
    assert_eq!(db.mark_failed(4), Ok(false));
}

#[test]
fn retry_count_equals_number_of_failures() {
    let mut db = BufferDb::new();
    db.store_log_at("a", 10).unwrap();
    let mut previous = 0;
    for n in 1..=5i64 {
        db.mark_processing_at(1, 100 * n).unwrap();
        db.mark_failed_at(1, 100 * n + 1).unwrap();
        let count = db.get(1).unwrap().retry_count;
        assert_eq!(count, n);
        assert!(count >= previous);
        previous = count;
    }
    db.reset_processing_to_pending();
    assert_eq!(db.get(1).unwrap().retry_count, 5);
}

#[test]
fn pending_claim_is_oldest_first() {
    let mut db = BufferDb::new();
    db.store_log_at("third", 30).unwrap();
    db.store_log_at("first", 10).unwrap();
    db.store_log_at("second", 20).unwrap();
    let claim = db.get_pending_logs(10);
    assert_eq!(
        claim,
        vec![(2, "first".to_string()), (3, "second".to_string()), (1, "third".to_string())]
    );
    assert_eq!(db.len(), 3);
    assert_eq!(db.get(1).unwrap().status, MessageStatus::Pending);
}

#[test]
fn pending_claim_breaks_ties_by_id() {
    let mut db = BufferDb::new();
    db.store_log_at("a", 5).unwrap();
    db.store_log_at("b", 5).unwrap();
    db.store_log_at("c", 4).unwrap();
    db.store_log_at("d", 5).unwrap();
    let ids: Vec<i64> = db.get_pending_logs(10).into_iter().map(|p| p.0).collect();
    assert_eq!(ids, vec![3, 1, 2, 4]);
}

#[test]
fn pending_claim_respects_the_limit() {
    let mut db = BufferDb::new();
    for t in 0..5 {
        db.store_log_at("m", 50 - t).unwrap();
    }
    let ids: Vec<i64> = db.get_pending_logs(2).into_iter().map(|p| p.0).collect();
    assert_eq!(ids, vec![5, 4]);
    assert!(db.get_pending_logs(0).is_empty());
    assert_eq!(db.get_pending_logs(5).len(), 5);
    assert_eq!(db.get_pending_logs(6).len(), 5);
}

#[test]
fn negative_limit_does_not_limit() {
    let mut db = BufferDb::new();
    for t in 0..4 {
        db.store_log_at("m", t).unwrap();
    }
    assert_eq!(db.get_pending_logs(-1).len(), 4);
}

#[test]
fn pending_claim_skips_other_statuses() {
    let mut db = BufferDb::new();
    db.store_log_at("a", 1).unwrap();
    db.store_log_at("b", 2).unwrap();
    db.store_log_at("c", 3).unwrap();
    db.mark_processing_at(1, 5).unwrap();
    db.mark_failed_at(2, 5).unwrap();
    assert_eq!(db.get_pending_logs(10), vec![(3, "c".to_string())]);
}

#[test]
fn exhausted_retries_are_never_claimed() {
    let rows = vec![
        record(1, 10, MessageStatus::Failed, 3, Some(20)),
        record(2, 11, MessageStatus::Failed, 4, None),
        record(3, 12, MessageStatus::Failed, 2, Some(20)),
    ];
    let db = BufferDb::restore(rows, 3).unwrap();
    let ids: Vec<i64> = db.get_retry_candidates_at(3, 60, 50, 1_000_000).into_iter().map(|p| p.0).collect();
    assert_eq!(ids, vec![3]);
    assert!(db.get_retry_candidates_at(0, 60, 50, 1_000_000).is_empty());
    assert!(db.get_retry_candidates_at(-1, 60, 50, 1_000_000).is_empty());
}

#[test]
fn backoff_is_honored_at_the_boundary() {
    let rows = vec![record(1, 10, MessageStatus::Failed, 1, Some(1000))];
    let db = BufferDb::restore(rows, 1).unwrap();
    assert!(db.get_retry_candidates_at(3, 60, 50, 1059).is_empty());
    assert_eq!(db.get_retry_candidates_at(3, 60, 50, 1060), vec![(1, "message 1".to_string())]);
    assert_eq!(db.get_retry_candidates_at(3, 60, 50, 1061).len(), 1);
    assert!(db.get_retry_candidates_at(3, 60, 50, 999).is_empty());
}

#[test]
fn never_attempted_failed_record_needs_no_backoff() {
    let rows = vec![record(1, 10, MessageStatus::Failed, 1, None)];
    let db = BufferDb::restore(rows, 1).unwrap();
    assert_eq!(db.get_retry_candidates_at(3, 60, 50, 0).len(), 1);
}

#[test]
fn retry_claim_takes_only_failed_records() {
    let rows = vec![
        record(1, 10, MessageStatus::Pending, 0, None),
        record(2, 11, MessageStatus::Processing, 1, Some(5)),
        record(3, 12, MessageStatus::Failed, 1, Some(5)),
    ];
    let db = BufferDb::restore(rows, 3).unwrap();
    let ids: Vec<i64> = db.get_retry_candidates_at(5, 1, 50, 100).into_iter().map(|p| p.0).collect();
    assert_eq!(ids, vec![3]);
}

#[test]
fn retry_claim_is_oldest_first_and_limited() {
    let mut rows = Vec::new();
    for id in 1..=60i64 {
        rows.push(record(id, 1000 - id, MessageStatus::Failed, 0, Some(0)));
    }
    let db = BufferDb::restore(rows, 60).unwrap();
    let claim = db.get_retry_candidates_at(3, 10, RETRY_CLAIM_LIMIT, 100);
    assert_eq!(claim.len(), 50);
    assert_eq!(claim[0].0, 60);
    assert_eq!(claim[49].0, 11);
    let ids: Vec<i64> = db.get_retry_candidates_at(3, 10, 3, 100).into_iter().map(|p| p.0).collect();
    assert_eq!(ids, vec![60, 59, 58]);
}

#[test]
fn get_retry_candidates_reads_the_clock() {
    let rows = vec![
        record(1, 10, MessageStatus::Failed, 1, Some(1000)),
        record(2, 11, MessageStatus::Failed, 1, Some(i64::MAX)),
    ];
    let db = BufferDb::restore(rows, 2).unwrap();
    let ids: Vec<i64> = db.get_retry_candidates(3, 60).unwrap().into_iter().map(|p| p.0).collect();
    assert_eq!(ids, vec![1]);
}

#[test]
fn stats_count_by_status() {
    let rows = vec![
        record(1, 50, MessageStatus::Pending, 0, None),
        record(2, 40, MessageStatus::Failed, 2, Some(45)),
        record(3, 30, MessageStatus::Pending, 0, None),
        record(4, 20, MessageStatus::Processing, 1, Some(46)),
        record(5, 10, MessageStatus::Failed, 4, Some(47)),
        record(6, 60, MessageStatus::Pending, 0, None),
    ];
    let db = BufferDb::restore(rows, 9).unwrap();
    let stats = db.get_stats().unwrap();
    assert_eq!(stats.pending_count, 3);
    assert_eq!(stats.processing_count, 1);
    assert_eq!(stats.failed_count, 2);
    assert_eq!(stats.oldest_pending_timestamp, Some(30));
    assert_eq!(stats.total_retries, 7);
}

#[test]
fn stats_of_empty_buffer() {
    let stats = BufferDb::new().get_stats().unwrap();
    assert_eq!(stats.pending_count, 0);
    assert_eq!(stats.processing_count, 0);
    assert_eq!(stats.failed_count, 0);
    assert_eq!(stats.oldest_pending_timestamp, None);
    assert_eq!(stats.total_retries, 0);
}

#[test]
fn stats_without_pending_have_no_oldest() {
    let rows = vec![record(1, 50, MessageStatus::Failed, 1, Some(60))];
    let stats = BufferDb::restore(rows, 1).unwrap().get_stats().unwrap();
    assert_eq!(stats.oldest_pending_timestamp, None);
    assert_eq!(stats.failed_count, 1);
}

#[test]
fn stats_report_counter_overflow() {
    let rows = vec![
        record(1, 50, MessageStatus::Failed, i64::MAX, Some(60)),
        record(2, 51, MessageStatus::Failed, 1, Some(60)),
    ];
    let db = BufferDb::restore(rows, 2).unwrap();
    assert!(matches!(db.get_stats(), Err(StoreError::CounterOverflow)));
}

#[test]
fn stats_total_at_the_limit_fits() {
    let rows = vec![
        record(1, 50, MessageStatus::Failed, i64::MAX - 1, Some(60)),
        record(2, 51, MessageStatus::Failed, 1, Some(60)),
    ];
    let db = BufferDb::restore(rows, 2).unwrap();
    assert_eq!(db.get_stats().unwrap().total_retries, i64::MAX);
}

#[test]
fn cleanup_discards_only_old_failed_records() {
    let now = 1_000_000;
    let cutoff = now - 24 * 3600;
    let rows = vec![
        record(1, cutoff - 1, MessageStatus::Failed, 0, Some(5)),
        record(2, cutoff, MessageStatus::Failed, 9, Some(5)),
        record(3, cutoff - 100, MessageStatus::Pending, 0, None),
        record(4, cutoff - 100, MessageStatus::Processing, 0, Some(5)),
        record(5, cutoff - 50, MessageStatus::Failed, 99, None),
    ];
    let mut db = BufferDb::restore(rows, 5).unwrap();
    assert_eq!(db.cleanup_old_failed_at(24, now), 2);
    let ids: Vec<i64> = db.rows().into_iter().map(|m| m.id).collect();
    assert_eq!(ids, vec![2, 3, 4]);
    assert_eq!(db.cleanup_old_failed_at(24, now), 0);
}

#[test]
fn cleanup_with_extreme_arguments_does_not_overflow() {
    let rows = vec![record(1, 0, MessageStatus::Failed, 0, None)];
    let mut db = BufferDb::restore(rows, 1).unwrap();
    assert_eq!(db.cleanup_old_failed_at(i64::MAX, i64::MAX), 0);
    assert_eq!(db.cleanup_old_failed_at(i64::MIN, i64::MIN), 1);
}

#[test]
fn cleanup_old_failed_reads_the_clock() {
    let rows = vec![
        record(1, 0, MessageStatus::Failed, 0, None),
        record(2, i64::MAX, MessageStatus::Failed, 0, None),
    ];
    let mut db = BufferDb::restore(rows, 2).unwrap();
    assert_eq!(db.cleanup_old_failed(1), Ok(1));
    assert!(db.get(1).is_none());
    assert!(db.get(2).is_some());
}

#[test]
fn reset_requeues_interrupted_attempts() {
    let rows = vec![
        record(1, 10, MessageStatus::Processing, 2, Some(15)),
        record(2, 11, MessageStatus::Failed, 1, Some(16)),
        record(3, 12, MessageStatus::Processing, 0, Some(17)),
        record(4, 13, MessageStatus::Pending, 0, None),
    ];
    let mut db = BufferDb::restore(rows, 4).unwrap();
    assert_eq!(db.reset_processing_to_pending(), 2);
    let m = db.get(1).unwrap();
    assert_eq!(m.status, MessageStatus::Pending);
    assert_eq!(m.retry_count, 2);
    assert_eq!(m.last_attempt, Some(15));
    assert_eq!(db.get(2).unwrap().status, MessageStatus::Failed);
    assert_eq!(db.get(3).unwrap().status, MessageStatus::Pending);
    assert_eq!(db.get(4).unwrap().status, MessageStatus::Pending);
}

#[test]
fn reset_is_idempotent() {
    let rows = vec![
        record(1, 10, MessageStatus::Processing, 2, Some(15)),
        record(2, 11, MessageStatus::Failed, 1, Some(16)),
    ];
    let mut db = BufferDb::restore(rows, 2).unwrap();
    assert_eq!(db.reset_processing_to_pending(), 1);
    let after_first: Vec<(i64, MessageStatus, i64)> =
        db.rows().into_iter().map(|m| (m.id, m.status, m.retry_count)).collect();
    assert_eq!(db.reset_processing_to_pending(), 0);
    let after_second: Vec<(i64, MessageStatus, i64)> =
        db.rows().into_iter().map(|m| (m.id, m.status, m.retry_count)).collect();
    assert_eq!(after_first, after_second);
}

#[test]
fn reset_without_interrupted_attempts_is_no_change() {
    let mut db = BufferDb::new();
    db.store_log_at("a", 1).unwrap();
    db.mark_failed_at(1, 2).unwrap();
    assert_eq!(db.reset_processing_to_pending(), 0);
    let m = db.get(1).unwrap();
    assert_eq!(m.status, MessageStatus::Failed);
    assert_eq!(m.retry_count, 1);
}

#[test]
fn restore_accepts_what_a_buffer_holds() {
    let mut db = BufferDb::new();
    db.store_log_at("a", 1).unwrap();
    db.store_log_at("b", 2).unwrap();
    db.mark_sent(1);
    let copy = BufferDb::restore(db.rows(), db.last_id()).unwrap();
    assert_eq!(copy.len(), 1);
    assert_eq!(copy.last_id(), 2);
    assert_eq!(copy.get(2).unwrap().raw_syslog, "b");
}

#[test]
fn restore_refuses_broken_records() {
    let ok = |id| record(id, 1, MessageStatus::Pending, 0, None);
    assert!(matches!(BufferDb::restore(vec![ok(2), ok(1)], 5), Err(StoreError::Inconsistent)));
    assert!(matches!(BufferDb::restore(vec![ok(1), ok(1)], 5), Err(StoreError::Inconsistent)));
    assert!(matches!(BufferDb::restore(vec![ok(0)], 5), Err(StoreError::Inconsistent)));
    assert!(matches!(BufferDb::restore(vec![ok(6)], 5), Err(StoreError::Inconsistent)));
    assert!(matches!(BufferDb::restore(Vec::new(), -1), Err(StoreError::Inconsistent)));
    let negative = record(1, 1, MessageStatus::Failed, -1, None);
    assert!(matches!(BufferDb::restore(vec![negative], 5), Err(StoreError::Inconsistent)));
    assert!(BufferDb::restore(vec![ok(1), ok(5)], 5).is_ok());
}

#[test]
fn no_record_is_lost_without_delivery_or_purge() {
    let mut db = BufferDb::new();
    for t in 0..6 {
        db.store_log_at("m", t).unwrap();
    }
    db.mark_processing_at(1, 100).unwrap();
    db.mark_failed_at(1, 101).unwrap();
    db.mark_processing_at(2, 102).unwrap();
    db.reset_processing_to_pending();
    db.mark_processing_at(3, 103).unwrap();
    assert!(db.mark_sent(3));
    db.mark_processing_at(4, 104).unwrap();
    db.mark_failed_at(4, 105).unwrap();
    assert_eq!(db.cleanup_old_failed_at(0, 3), 1);
    let ids: Vec<i64> = db.rows().into_iter().map(|m| m.id).collect();
    assert_eq!(ids, vec![2, 4, 5, 6]);
}

#[test]
fn duplicate_copies_every_field() {
    let m = record(7, 8, MessageStatus::Failed, 9, Some(10));
    let copy = m.duplicate();
    assert_eq!(copy.id, 7);
    assert_eq!(copy.raw_syslog, "message 7");
    assert_eq!(copy.created_at, 8);
    assert_eq!(copy.retry_count, 9);
    assert_eq!(copy.status, MessageStatus::Failed);
    assert_eq!(copy.last_attempt, Some(10));
}

#[test]
fn due_record_behind_the_limit_waits_for_older_ones() {
    let rows = vec![
        record(1, 30, MessageStatus::Failed, 0, Some(100)),
        record(2, 10, MessageStatus::Failed, 0, Some(100)),
        record(3, 20, MessageStatus::Failed, 0, Some(100)),
    ];
    let db = BufferDb::restore(rows, 3).unwrap();
    let ids: Vec<i64> = db.get_retry_candidates_at(3, 60, 2, 160).into_iter().map(|p| p.0).collect();
    assert_eq!(ids, vec![2, 3]);
    let ids: Vec<i64> = db.get_retry_candidates_at(3, 60, -1, 160).into_iter().map(|p| p.0).collect();
    assert_eq!(ids, vec![2, 3, 1]);
}

#[test]
fn claims_hand_out_copies_of_the_payload() {
    let mut db = BufferDb::new();
    db.store_log_at("<13>Feb  5 17:32:18 host app[1]: first line", 10).unwrap();
    let claim = db.get_pending_logs(1);
    assert_eq!(claim, vec![(1, "<13>Feb  5 17:32:18 host app[1]: first line".to_string())]);
    assert_eq!(db.get(1).unwrap().raw_syslog, "<13>Feb  5 17:32:18 host app[1]: first line");
}
