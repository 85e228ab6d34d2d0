//! Facts about the model that the executable buffer and the laws rest on.

use crate::message::{MessageStatus, MessageView};
use crate::model::{
    has_id, ids_increase, in_status, insert_by_age, oldest_first, retries_sum, rows_in_range,
    with_status, StoreView,
};
use vstd::prelude::*;

verus! {

/// Filtering the first `i + 1` records is filtering the first `i` and then
/// deciding on record `i`.
pub proof fn lemma_filter_step(rows: Seq<MessageView>, pred: spec_fn(MessageView) -> bool, i: int)
    requires
        0 <= i < rows.len(),
    ensures
        rows.take(i + 1).filter(pred) == if pred(rows[i]) {
            rows.take(i).filter(pred).push(rows[i])
        } else {
            rows.take(i).filter(pred)
        },
{
    reveal(Seq::filter);
    assert(rows.take(i + 1).drop_last() =~= rows.take(i));
}

/// A filter that every record passes changes nothing.
pub proof fn lemma_filter_all(rows: Seq<MessageView>, pred: spec_fn(MessageView) -> bool)
    requires
        forall|i: int| 0 <= i < rows.len() ==> pred(#[trigger] rows[i]),
    ensures
        rows.filter(pred) == rows,
    decreases rows.len(),
{
    reveal(Seq::filter);
    if rows.len() > 0 {
        lemma_filter_all(rows.drop_last(), pred);
        assert(rows.drop_last().push(rows.last()) =~= rows);
    }
}

/// A filter that no record passes leaves nothing.
pub proof fn lemma_filter_none(rows: Seq<MessageView>, pred: spec_fn(MessageView) -> bool)
    requires
        forall|i: int| 0 <= i < rows.len() ==> !pred(#[trigger] rows[i]),
    ensures
        rows.filter(pred).len() == 0,
    decreases rows.len(),
{
    reveal(Seq::filter);
    if rows.len() > 0 {
        lemma_filter_none(rows.drop_last(), pred);
    }
}

/// A filter that only record `k` fails removes record `k`.
pub proof fn lemma_filter_one_out(
    rows: Seq<MessageView>,
    pred: spec_fn(MessageView) -> bool,
    k: int,
)
    requires
        0 <= k < rows.len(),
        !pred(rows[k]),
        forall|i: int| 0 <= i < rows.len() && i != k ==> pred(#[trigger] rows[i]),
    ensures
        rows.filter(pred) == rows.remove(k),
    decreases rows.len(),
{
    reveal(Seq::filter);
    let front = rows.drop_last();
    if k == rows.len() - 1 {
        lemma_filter_all(front, pred);
        assert(rows.remove(k) =~= front);
    } else {
        lemma_filter_one_out(front, pred, k);
        assert(front.remove(k).push(rows.last()) =~= rows.remove(k));
    }
}

/// Every record that a filter keeps stands in the unfiltered rows, at a
/// position that is no smaller than its position in the result.
pub proof fn lemma_filter_origin(
    rows: Seq<MessageView>,
    pred: spec_fn(MessageView) -> bool,
    j: int,
) -> (k: int)
    requires
        0 <= j < rows.filter(pred).len(),
    ensures
        j <= k < rows.len(),
        rows[k] == rows.filter(pred)[j],
        pred(rows[k]),
        rows.take(k).filter(pred).len() == j,
    decreases rows.len(),
{
    reveal(Seq::filter);
    let front = rows.drop_last();
    let last = rows.len() - 1;
    if pred(rows.last()) && j == front.filter(pred).len() {
        assert(rows.take(last) =~= front);
        last
    } else {
        let k = lemma_filter_origin(front, pred, j);
        assert(front.take(k) =~= rows.take(k));
        k
    }
}

/// Every record that passes the filter stands in the result.
pub proof fn lemma_filter_keeps(
    rows: Seq<MessageView>,
    pred: spec_fn(MessageView) -> bool,
    k: int,
) -> (j: int)
    requires
        0 <= k < rows.len(),
        pred(rows[k]),
    ensures
        0 <= j < rows.filter(pred).len(),
        rows.filter(pred)[j] == rows[k],
        j == rows.take(k).filter(pred).len(),
    decreases rows.len(),
{
    reveal(Seq::filter);
    let front = rows.drop_last();
    let last = rows.len() - 1;
    if k == last {
        assert(rows.take(k) =~= front);
        front.filter(pred).len() as int
    } else {
        let j = lemma_filter_keeps(front, pred, k);
        assert(front.take(k) =~= rows.take(k));
        j
    }
}

/// The number of records that pass a filter grows with the prefix.
pub proof fn lemma_filter_prefix_len(
    rows: Seq<MessageView>,
    pred: spec_fn(MessageView) -> bool,
    i: int,
    j: int,
)
    requires
        0 <= i <= j <= rows.len(),
    ensures
        rows.take(i).filter(pred).len() <= rows.take(j).filter(pred).len(),
        i < j && pred(rows[i]) ==> rows.take(i).filter(pred).len() < rows.take(j).filter(
            pred,
        ).len(),
    decreases j - i,
{
    if i < j {
        lemma_filter_step(rows, pred, i);
        lemma_filter_prefix_len(rows, pred, i + 1, j);
    }
}

/// A filter keeps the order of the records.
pub proof fn lemma_filter_keeps_order(rows: Seq<MessageView>, pred: spec_fn(MessageView) -> bool)
    requires
        ids_increase(rows),
    ensures
        ids_increase(rows.filter(pred)),
{
    let kept = rows.filter(pred);
    assert forall|i: int, j: int| 0 <= i < j < kept.len() implies kept[i].id < kept[j].id by {
        let a = lemma_filter_origin(rows, pred, i);
        let b = lemma_filter_origin(rows, pred, j);
        if a >= b {
            lemma_filter_prefix_len(rows, pred, b, a);
        }
    }
}

/// A filter keeps the invariant of the buffer.
pub proof fn lemma_filter_wf(
    rows: Seq<MessageView>,
    last_id: i64,
    pred: spec_fn(MessageView) -> bool,
)
    requires
        rows_in_range(rows, last_id),
        ids_increase(rows),
    ensures
        rows_in_range(rows.filter(pred), last_id),
        ids_increase(rows.filter(pred)),
{
    let kept = rows.filter(pred);
    lemma_filter_keeps_order(rows, pred);
    assert forall|j: int| 0 <= j < kept.len() implies 1 <= (#[trigger] kept[j]).id <= last_id
        && kept[j].retry_count >= 0 by {
        let k = lemma_filter_origin(rows, pred, j);
    }
}

/// A record is in the filtered rows exactly if it is in the rows and passes.
pub proof fn lemma_filter_has_id(
    rows: Seq<MessageView>,
    pred: spec_fn(MessageView) -> bool,
    id: i64,
)
    requires
        ids_increase(rows),
    ensures
        has_id(rows.filter(pred), id) <==> exists|k: int|
            0 <= k < rows.len() && (#[trigger] rows[k]).id == id && pred(rows[k]),
{
    let kept = rows.filter(pred);
    if has_id(kept, id) {
        let j = choose|j: int| 0 <= j < kept.len() && (#[trigger] kept[j]).id == id;
        let k = lemma_filter_origin(rows, pred, j);
        assert(rows[k].id == id && pred(rows[k]));
    }
    if exists|k: int| 0 <= k < rows.len() && (#[trigger] rows[k]).id == id && pred(rows[k]) {
        let k = choose|k: int| 0 <= k < rows.len() && (#[trigger] rows[k]).id == id && pred(rows[k]);
        let j = lemma_filter_keeps(rows, pred, k);
        assert(kept[j].id == id);
    }
}

/// In a well-formed buffer an identifier names one position.
pub proof fn lemma_position(s: StoreView, k: int)
    requires
        s.wf(),
        0 <= k < s.rows.len(),
    ensures
        s.contains_id(s.rows[k].id),
        s.index_of(s.rows[k].id) == k,
        s.get(s.rows[k].id) == s.rows[k],
{
    let id = s.rows[k].id;
    assert(has_id(s.rows, id));
    let c = s.index_of(id);
    assert(0 <= c < s.rows.len() && s.rows[c].id == id);
    if c < k {
        assert(s.rows[c].id < s.rows[k].id);
    }
    if k < c {
        assert(s.rows[k].id < s.rows[c].id);
    }
}

/// The record at position `k` of a well-formed buffer has an identifier of
/// at least `k + 1`.
pub proof fn lemma_id_at_least_position(s: StoreView, k: int)
    requires
        s.wf(),
        0 <= k < s.rows.len(),
    ensures
        s.rows[k].id >= k + 1,
    decreases k,
{
    if k > 0 {
        lemma_id_at_least_position(s, k - 1);
        assert(s.rows[k - 1].id < s.rows[k].id);
    }
}

/// A buffer never holds more records than identifiers were assigned.
pub proof fn lemma_len_bounded(s: StoreView)
    requires
        s.wf(),
    ensures
        s.rows.len() <= s.last_id,
{
    if s.rows.len() > 0 {
        lemma_id_at_least_position(s, s.rows.len() - 1);
    }
}

/// The sum of the retry counts of a prefix, one record further.
pub proof fn lemma_retries_sum_step(rows: Seq<MessageView>, i: int)
    requires
        0 <= i < rows.len(),
    ensures
        retries_sum(rows.take(i + 1)) == retries_sum(rows.take(i)) + rows[i].retry_count,
{
    assert(rows.take(i + 1).drop_last() =~= rows.take(i));
}

/// Where `insert_by_age` places `m` in `queue`.
pub open spec fn insert_pos(queue: Seq<MessageView>, m: MessageView) -> int
    decreases queue.len(),
{
    if queue.len() == 0 || queue.last().created_at <= m.created_at {
        queue.len() as int
    } else {
        insert_pos(queue.drop_last(), m)
    }
}

/// `insert_by_age` inserts at `insert_pos`: behind the last record that is
/// not younger than `m`.
pub proof fn lemma_insert_pos(queue: Seq<MessageView>, m: MessageView)
    ensures
        0 <= insert_pos(queue, m) <= queue.len(),
        insert_by_age(queue, m) == queue.insert(insert_pos(queue, m), m),
        forall|k: int|
            insert_pos(queue, m) <= k < queue.len() ==> (#[trigger] queue[k]).created_at
                > m.created_at,
        insert_pos(queue, m) > 0 ==> queue[insert_pos(queue, m) - 1].created_at <= m.created_at,
    decreases queue.len(),
{
    if queue.len() == 0 || queue.last().created_at <= m.created_at {
        assert(queue.push(m) =~= queue.insert(queue.len() as int, m));
    } else {
        let front = queue.drop_last();
        lemma_insert_pos(front, m);
        let p = insert_pos(front, m);
        assert(front.insert(p, m).push(queue.last()) =~= queue.insert(p, m));
        assert forall|k: int| p <= k < queue.len() implies (#[trigger] queue[k]).created_at
            > m.created_at by {
            if k < front.len() {
                assert(front[k].created_at > m.created_at);
            }
        }
    }
}

/// The place of insertion is the only position that has no older-or-equal
/// record behind it and no younger record right before it.
pub proof fn lemma_insert_pos_is(queue: Seq<MessageView>, m: MessageView, p: int)
    requires
        0 <= p <= queue.len(),
        forall|k: int| p <= k < queue.len() ==> (#[trigger] queue[k]).created_at > m.created_at,
        p > 0 ==> queue[p - 1].created_at <= m.created_at,
    ensures
        insert_pos(queue, m) == p,
    decreases queue.len(),
{
    if queue.len() == 0 {
    } else if queue.last().created_at <= m.created_at {
        if p < queue.len() {
            assert(queue[queue.len() - 1].created_at > m.created_at);
        }
    } else {
        lemma_insert_pos_is(queue.drop_last(), m, p);
    }
}

/// Ordering by age keeps the number of records.
pub proof fn lemma_oldest_first_len(rows: Seq<MessageView>)
    ensures
        oldest_first(rows).len() == rows.len(),
{
    lemma_oldest_first_permutes(rows);
}

/// Ordering by age rearranges the records and neither adds nor drops one.
pub proof fn lemma_oldest_first_permutes(rows: Seq<MessageView>)
    ensures
        oldest_first(rows).len() == rows.len(),
        oldest_first(rows).to_multiset() == rows.to_multiset(),
        forall|m: MessageView| oldest_first(rows).contains(m) <==> rows.contains(m),
    decreases rows.len(),
{
    broadcast use {
        vstd::seq_lib::to_multiset_build,
        vstd::seq_lib::to_multiset_insert,
        vstd::seq_lib::to_multiset_contains,
    };

    if rows.len() > 0 {
        let front = rows.drop_last();
        let sorted = oldest_first(front);
        lemma_oldest_first_permutes(front);
        lemma_insert_pos(sorted, rows.last());
        assert(front.push(rows.last()) =~= rows);
    }
    assert forall|m: MessageView| oldest_first(rows).contains(m) <==> rows.contains(m) by {
        assert(oldest_first(rows).to_multiset().count(m) == rows.to_multiset().count(m));
    }
}

/// Ordering rows whose identifiers grow yields a queue in which every
/// record stands before all that follow it: older first, and among records
/// of the same second the one that arrived first.
pub proof fn lemma_oldest_first_sorted(rows: Seq<MessageView>)
    requires
        ids_increase(rows),
    ensures
        forall|i: int, j: int|
            0 <= i < j < oldest_first(rows).len() ==> (#[trigger] oldest_first(rows)[i]).before(
                #[trigger] oldest_first(rows)[j],
            ),
    decreases rows.len(),
{
    if rows.len() > 0 {
        let front = rows.drop_last();
        let m = rows.last();
        let sorted = oldest_first(front);
        let p = insert_pos(sorted, m);
        let queue = oldest_first(rows);
        lemma_oldest_first_sorted(front);
        lemma_oldest_first_permutes(front);
        lemma_insert_pos(sorted, m);
        assert forall|k: int| 0 <= k < sorted.len() implies (#[trigger] sorted[k]).id < m.id by {
            assert(front.contains(sorted[k]));
            let c = choose|c: int| 0 <= c < front.len() && front[c] == sorted[k];
            assert(rows[c].id < rows[rows.len() - 1].id);
        }
        assert forall|i: int, j: int| 0 <= i < j < queue.len() implies (#[trigger] queue[i]).before(
            #[trigger] queue[j],
        ) by {
            if j < p {
                assert(sorted[i].before(sorted[j]));
            } else if j == p {
                if i < p - 1 {
                    assert(sorted[i].before(sorted[p - 1]));
                }
                assert(sorted[i].id < m.id);
            } else if i < p {
                assert(sorted[i].before(sorted[j - 1]));
            } else if i == p {
                assert(sorted[j - 1].created_at > m.created_at);
            } else {
                assert(sorted[i - 1].before(sorted[j - 1]));
            }
        }
    }
}

/// The head of the pending queue is a pending record that no pending record
/// is older than.
pub proof fn lemma_oldest_pending(s: StoreView, t: i64)
    requires
        s.wf(),
        exists|k: int|
            0 <= k < s.rows.len() && (#[trigger] s.rows[k]).status == MessageStatus::Pending
                && s.rows[k].created_at == t,
        forall|k: int|
            0 <= k < s.rows.len() && (#[trigger] s.rows[k]).status == MessageStatus::Pending ==> t
                <= s.rows[k].created_at,
    ensures
        s.oldest_pending() == Some(t),
{
    let pred = in_status(MessageStatus::Pending);
    let pending = with_status(s.rows, MessageStatus::Pending);
    let queue = s.pending_queue();
    let k = choose|k: int|
        0 <= k < s.rows.len() && (#[trigger] s.rows[k]).status == MessageStatus::Pending
            && s.rows[k].created_at == t;
    let j = lemma_filter_keeps(s.rows, pred, k);
    lemma_filter_keeps_order(s.rows, pred);
    lemma_oldest_first_permutes(pending);
    lemma_oldest_first_sorted(pending);
    assert(pending.contains(pending[j]));
    assert(queue.contains(pending[j]));
    let c = choose|c: int| 0 <= c < queue.len() && queue[c] == pending[j];
    if c > 0 {
        assert(queue[0].before(queue[c]));
    }
    assert(queue.contains(queue[0]));
    assert(pending.contains(queue[0]));
    let b = choose|b: int| 0 <= b < pending.len() && pending[b] == queue[0];
    let a = lemma_filter_origin(s.rows, pred, b);
    assert(s.rows[a].status == MessageStatus::Pending);
}

} // verus!
