//! Laws of the queue core, stated over the same model the operations'
//! contracts use and proved once for all inputs.

use vstd::prelude::*;

use crate::entry::QueueEntry;
use crate::queue::count_id;
use crate::queue::has_id;
use crate::queue::index_of_id;
use crate::queue::spec_enqueue;
use crate::queue::spec_remove;
use crate::queue::unique_ids;

verus! {

/// One mutating request against the store: an enqueue of an entry, a
/// requester's own withdrawal, or an operator removal, the latter two by
/// requester identity.
pub enum QueueOp {
    Enqueue(QueueEntry),
    Withdraw(u64),
    AdminRemove(u64),
}

/// The state `op` leaves behind when applied to state `s`; exactly what
/// the `ensures` of `enqueue`, `withdraw` and `admin_remove` state.
pub open spec fn apply_op(s: Seq<QueueEntry>, op: QueueOp) -> Seq<QueueEntry> {
    match op {
        QueueOp::Enqueue(e) => spec_enqueue(s, e),
        QueueOp::Withdraw(id) => spec_remove(s, id),
        QueueOp::AdminRemove(id) => spec_remove(s, id),
    }
}

/// Whether `op` succeeds on state `s`: an enqueue of an absent requester,
/// or a removal of a present one.
pub open spec fn op_succeeds(s: Seq<QueueEntry>, op: QueueOp) -> bool {
    match op {
        QueueOp::Enqueue(e) => !has_id(s, e.requester.value),
        QueueOp::Withdraw(id) => has_id(s, id),
        QueueOp::AdminRemove(id) => has_id(s, id),
    }
}

/// The state after running `ops` in order, starting from `s`.
pub open spec fn run_ops(s: Seq<QueueEntry>, ops: Seq<QueueOp>) -> Seq<QueueEntry>
    decreases ops.len(),
{
    if ops.len() == 0 {
        s
    } else {
        run_ops(apply_op(s, ops.first()), ops.drop_first())
    }
}

/// How many enqueues of `ops`, run in order from `s`, succeed.
pub open spec fn successful_enqueues(s: Seq<QueueEntry>, ops: Seq<QueueOp>) -> nat
    decreases ops.len(),
{
    if ops.len() == 0 {
        0
    } else {
        (if ops.first() matches QueueOp::Enqueue(_) && op_succeeds(s, ops.first()) {
            1nat
        } else {
            0nat
        }) + successful_enqueues(apply_op(s, ops.first()), ops.drop_first())
    }
}

/// How many withdrawals and operator removals of `ops`, run in order from
/// `s`, succeed.
pub open spec fn successful_removals(s: Seq<QueueEntry>, ops: Seq<QueueOp>) -> nat
    decreases ops.len(),
{
    if ops.len() == 0 {
        0
    } else {
        (if !(ops.first() matches QueueOp::Enqueue(_)) && op_succeeds(s, ops.first()) {
            1nat
        } else {
            0nat
        }) + successful_removals(apply_op(s, ops.first()), ops.drop_first())
    }
}

/// Every run of the store keeps exact books: after any sequence of
/// operations, the listing holds as many entries as it started with, plus
/// the successful enqueues, minus the successful withdrawals and operator
/// removals. From an empty store, the count is exactly successful
/// enqueues minus successful removals.
pub proof fn lemma_count_tracks_successes(s: Seq<QueueEntry>, ops: Seq<QueueOp>)
    ensures
        run_ops(s, ops).len() + successful_removals(s, ops) == s.len() + successful_enqueues(
            s,
            ops,
        ),
    decreases ops.len(),
{
    if ops.len() > 0 {
        let op = ops.first();
        let s1 = apply_op(s, op);
        match op {
            QueueOp::Enqueue(e) => {
                if has_id(s, e.requester.value) {
                    assert(s1 == s);
                } else {
                    assert(s1.len() == s.len() + 1);
                }
            },
            QueueOp::Withdraw(id) => {
                if has_id(s, id) {
                    let k = index_of_id(s, id);
                    assert(0 <= k < s.len() && s[k].requester.value == id);
                    assert(s1.len() == s.len() - 1);
                }
            },
            QueueOp::AdminRemove(id) => {
                if has_id(s, id) {
                    let k = index_of_id(s, id);
                    assert(0 <= k < s.len() && s[k].requester.value == id);
                    assert(s1.len() == s.len() - 1);
                }
            },
        }
        lemma_count_tracks_successes(s1, ops.drop_first());
    }
}

/// No entry of `s` belongs to `id` exactly when `s` counts zero entries
/// for `id`.
proof fn lemma_count_id_zero(s: Seq<QueueEntry>, id: u64)
    ensures
        count_id(s, id) == 0 <==> !has_id(s, id),
    decreases s.len(),
{
    if s.len() > 0 {
        lemma_count_id_zero(s.drop_last(), id);
        if has_id(s, id) && s.last().requester.value != id {
            let k = choose|i: int| 0 <= i < s.len() && (#[trigger] s[i]).requester.value == id;
            assert(s.drop_last()[k] == s[k]);
            assert(has_id(s.drop_last(), id));
        }
        if has_id(s.drop_last(), id) {
            let k = index_of_id(s.drop_last(), id);
            assert(0 <= k < s.drop_last().len() && s.drop_last()[k].requester.value == id);
            assert(s[k] == s.drop_last()[k]);
            assert(has_id(s, id));
        }
    }
}

/// In a well-formed store, a requester present in the queue holds exactly
/// one entry.
proof fn lemma_count_id_unique(s: Seq<QueueEntry>, id: u64)
    requires
        unique_ids(s),
        has_id(s, id),
    ensures
        count_id(s, id) == 1,
    decreases s.len(),
{
    let t = s.drop_last();
    assert(forall|i: int| 0 <= i < t.len() ==> t[i] == s[i]);
    if s.last().requester.value == id {
        if has_id(t, id) {
            let k = choose|i: int| 0 <= i < t.len() && (#[trigger] t[i]).requester.value == id;
            assert(s[k].requester.value == s[s.len() - 1].requester.value);
            assert(false);
        }
        lemma_count_id_zero(t, id);
    } else {
        let k = choose|i: int| 0 <= i < s.len() && (#[trigger] s[i]).requester.value == id;
        assert(k < t.len());
        assert(t[k].requester.value == id);
        lemma_count_id_unique(t, id);
    }
}

/// An enqueue that follows an enqueue for the same requester, with no
/// removal between, fails and changes nothing — whatever the second
/// enqueue's entry carries — and the requester is left with exactly one
/// entry.
pub proof fn lemma_duplicate_enqueue_rejected(s: Seq<QueueEntry>, e1: QueueEntry, e2: QueueEntry)
    requires
        unique_ids(s),
        e2.requester.value == e1.requester.value,
    ensures
        ({
            let s1 = spec_enqueue(s, e1);
            &&& !op_succeeds(s1, QueueOp::Enqueue(e2))
            &&& spec_enqueue(s1, e2) == s1
            &&& count_id(s1, e1.requester.value) == 1
        }),
{
    let id = e1.requester.value;
    if has_id(s, id) {
        lemma_count_id_unique(s, id);
    } else {
        let s1 = s.push(e1);
        assert(s1[s.len() as int].requester.value == id);
        assert(has_id(s1, id));
        assert(s1.drop_last() =~= s);
        lemma_count_id_zero(s, id);
        assert(count_id(s1, id) == count_id(s, id) + 1);
    }
}

/// Three enqueues of distinct requesters into an empty queue put them at
/// positions 1, 2 and 3, in order of arrival.
pub proof fn lemma_fifo_positions(a: QueueEntry, b: QueueEntry, c: QueueEntry)
    requires
        a.requester.value != b.requester.value,
        a.requester.value != c.requester.value,
        b.requester.value != c.requester.value,
    ensures
        ({
            let s3 = spec_enqueue(
                spec_enqueue(spec_enqueue(Seq::<QueueEntry>::empty(), a), b),
                c,
            );
            &&& s3 =~= seq![a, b, c]
            &&& index_of_id(s3, a.requester.value) + 1 == 1
            &&& index_of_id(s3, b.requester.value) + 1 == 2
            &&& index_of_id(s3, c.requester.value) + 1 == 3
        }),
{
    let s0 = Seq::<QueueEntry>::empty();
    let s1 = spec_enqueue(s0, a);
    assert(!has_id(s0, a.requester.value));
    assert(s1 =~= seq![a]);
    assert(forall|i: int| 0 <= i < s1.len() ==> (#[trigger] s1[i]).requester.value
        == a.requester.value);
    let s2 = spec_enqueue(s1, b);
    assert(s2 =~= seq![a, b]);
    assert(forall|i: int| 0 <= i < s2.len() ==> (#[trigger] s2[i]).requester.value
        == a.requester.value || s2[i].requester.value == b.requester.value);
    let s3 = spec_enqueue(s2, c);
    assert(s3 =~= seq![a, b, c]);
    lemma_index_of_three(s3, a, b, c);
}

/// In the three-entry queue `[a, b, c]` of distinct requesters, each
/// requester's index is its place of arrival.
proof fn lemma_index_of_three(s3: Seq<QueueEntry>, a: QueueEntry, b: QueueEntry, c: QueueEntry)
    requires
        s3 =~= seq![a, b, c],
        a.requester.value != b.requester.value,
        a.requester.value != c.requester.value,
        b.requester.value != c.requester.value,
    ensures
        index_of_id(s3, a.requester.value) == 0,
        index_of_id(s3, b.requester.value) == 1,
        index_of_id(s3, c.requester.value) == 2,
{
    assert(s3[0].requester.value == a.requester.value);
    assert(s3[1].requester.value == b.requester.value);
    assert(s3[2].requester.value == c.requester.value);
    let ka = index_of_id(s3, a.requester.value);
    assert(0 <= ka < 3 && s3[ka].requester.value == a.requester.value);
    let kb = index_of_id(s3, b.requester.value);
    assert(0 <= kb < 3 && s3[kb].requester.value == b.requester.value);
    let kc = index_of_id(s3, c.requester.value);
    assert(0 <= kc < 3 && s3[kc].requester.value == c.requester.value);
}

/// Withdrawing the middle of three distinct requesters moves the third up
/// to position 2, keeps the first at position 1, and leaves the middle
/// requester absent, so a position query for it fails.
pub proof fn lemma_withdraw_shifts_positions(a: QueueEntry, b: QueueEntry, c: QueueEntry)
    requires
        a.requester.value != b.requester.value,
        a.requester.value != c.requester.value,
        b.requester.value != c.requester.value,
    ensures
        ({
            let s3 = spec_enqueue(
                spec_enqueue(spec_enqueue(Seq::<QueueEntry>::empty(), a), b),
                c,
            );
            let s4 = spec_remove(s3, b.requester.value);
            &&& s4 =~= seq![a, c]
            &&& index_of_id(s4, a.requester.value) + 1 == 1
            &&& index_of_id(s4, c.requester.value) + 1 == 2
            &&& !has_id(s4, b.requester.value)
        }),
{
    lemma_fifo_positions(a, b, c);
    let s3 = spec_enqueue(spec_enqueue(spec_enqueue(Seq::<QueueEntry>::empty(), a), b), c);
    let s4 = spec_remove(s3, b.requester.value);
    assert(s3[1].requester.value == b.requester.value);
    assert(has_id(s3, b.requester.value));
    assert(index_of_id(s3, b.requester.value) == 1);
    assert(s4 =~= seq![a, c]);
    let ka = index_of_id(s4, a.requester.value);
    assert(s4[0].requester.value == a.requester.value);
    assert(0 <= ka < 2 && s4[ka].requester.value == a.requester.value);
    let kc = index_of_id(s4, c.requester.value);
    assert(s4[1].requester.value == c.requester.value);
    assert(0 <= kc < 2 && s4[kc].requester.value == c.requester.value);
    assert forall|i: int| 0 <= i < s4.len() implies (#[trigger] s4[i]).requester.value
        != b.requester.value by {}
}

/// When enqueue times never go backwards from one insertion to the next,
/// every entry ranked ahead of a requester carries an enqueue time no
/// later than the requester's own: ranking by insertion refines ranking
/// by time, with ties broken by order of arrival.
pub proof fn lemma_rank_respects_time(s: Seq<QueueEntry>, id: u64)
    requires
        forall|i: int, j: int|
            0 <= i <= j < s.len() ==> (#[trigger] s[i]).created_at <= (#[trigger] s[j]).created_at,
        has_id(s, id),
    ensures
        forall|j: int|
            0 <= j < index_of_id(s, id) ==> (#[trigger] s[j]).created_at <= s[index_of_id(
                s,
                id,
            )].created_at,
{
    let k = index_of_id(s, id);
    assert(0 <= k < s.len() && s[k].requester.value == id);
}

/// A removal by requester identity removes exactly that requester's entry
/// and no other, and an absent identity leaves the store unchanged.
pub proof fn lemma_remove_exact(s: Seq<QueueEntry>, id: u64)
    requires
        unique_ids(s),
    ensures
        !has_id(s, id) ==> spec_remove(s, id) == s,
        has_id(s, id) ==> !has_id(spec_remove(s, id), id),
        has_id(s, id) ==> spec_remove(s, id).len() + 1 == s.len(),
        forall|other: u64|
            other != id ==> has_id(spec_remove(s, id), other) == has_id(s, other),
        unique_ids(spec_remove(s, id)),
{
    if has_id(s, id) {
        let k = index_of_id(s, id);
        assert(0 <= k < s.len() && s[k].requester.value == id);
        let s4 = s.remove(k);
        s.remove_ensures(k);
        assert forall|p: int, q: int| 0 <= p < q < s4.len() implies (#[trigger] s4[p]).requester.value
            != (#[trigger] s4[q]).requester.value by {
            let p0 = if p < k {
                p
            } else {
                p + 1
            };
            let q0 = if q < k {
                q
            } else {
                q + 1
            };
            assert(s4[p] == s[p0]);
            assert(s4[q] == s[q0]);
        }
        assert forall|i: int| 0 <= i < s4.len() implies (#[trigger] s4[i]).requester.value
            != id by {
            let i0 = if i < k {
                i
            } else {
                i + 1
            };
            assert(s4[i] == s[i0]);
        }
        assert forall|other: u64|
            other != id implies has_id(spec_remove(s, id), other) == has_id(s, other) by {
            if has_id(s, other) {
                let j = index_of_id(s, other);
                assert(0 <= j < s.len() && s[j].requester.value == other);
                let j4 = if j < k {
                    j
                } else {
                    j - 1
                };
                assert(s4[j4] == s[j]);
                assert(has_id(s4, other));
            }
            if has_id(s4, other) {
                let j = choose|i: int|
                    0 <= i < s4.len() && (#[trigger] s4[i]).requester.value == other;
                let j0 = if j < k {
                    j
                } else {
                    j + 1
                };
                assert(s4[j] == s[j0]);
                assert(has_id(s, other));
            }
        }
    }
}

} // verus!
