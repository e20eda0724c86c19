//! The queue core: a first-in-first-out entry store keyed by requester
//! identity, with at most one entry per requester.
//!
//! The store owns the authoritative ordered state. A caller that wants
//! durability mirrors each successful mutation to its own storage and
//! reloads on startup; a caller that serves concurrent commands takes
//! `&mut` access through one mutual-exclusion guard, so at most one
//! operation touches the store at a time.

use vstd::prelude::*;

use crate::entry::QueueEntry;
use crate::entry::RequesterId;
use crate::entry::dec_value;
use crate::entry::is_requester_id_text;
use crate::errors::QueueError;

verus! {

/// Whether some entry of `s` belongs to requester `id`.
pub open spec fn has_id(s: Seq<QueueEntry>, id: u64) -> bool {
    exists|i: int| 0 <= i < s.len() && (#[trigger] s[i]).requester.value == id
}

/// The index of requester `id`'s entry in `s`; meaningful when `has_id`
/// holds and the identities of `s` are unique.
pub open spec fn index_of_id(s: Seq<QueueEntry>, id: u64) -> int {
    choose|i: int| 0 <= i < s.len() && (#[trigger] s[i]).requester.value == id
}

/// Whether no two entries of `s` belong to the same requester.
pub open spec fn unique_ids(s: Seq<QueueEntry>) -> bool {
    forall|i: int, j: int|
        0 <= i < j < s.len() ==> (#[trigger] s[i]).requester.value != (#[trigger] s[j]).requester.value
}

/// The state after an enqueue of `e`: unchanged when `e`'s requester is
/// already present, else `e` appended at the back.
pub open spec fn spec_enqueue(s: Seq<QueueEntry>, e: QueueEntry) -> Seq<QueueEntry> {
    if has_id(s, e.requester.value) {
        s
    } else {
        s.push(e)
    }
}

/// The state after a removal of requester `id`: unchanged when absent,
/// else with that requester's entry taken out and the order of the rest
/// kept.
pub open spec fn spec_remove(s: Seq<QueueEntry>, id: u64) -> Seq<QueueEntry> {
    if has_id(s, id) {
        s.remove(index_of_id(s, id))
    } else {
        s
    }
}

/// How many entries of `s` belong to requester `id`.
pub open spec fn count_id(s: Seq<QueueEntry>, id: u64) -> nat
    decreases s.len(),
{
    if s.len() == 0 {
        0
    } else {
        count_id(s.drop_last(), id) + (if s.last().requester.value == id {
            1nat
        } else {
            0nat
        })
    }
}

/// The first-in-first-out waiting list: one entry per requester, ordered
/// by insertion.
pub struct Queue {
    entries: Vec<QueueEntry>,
}

impl View for Queue {
    type V = Seq<QueueEntry>;

    closed spec fn view(&self) -> Seq<QueueEntry> {
        self.entries@
    }
}

impl Queue {
    /// Well-formedness: at most one entry per requester.
    pub open spec fn wf(&self) -> bool {
        unique_ids(self@)
    }

    /// An empty queue.
    pub fn new() -> (q: Queue)
        ensures
            q@ == Seq::<QueueEntry>::empty(),
            q.wf(),
    {
        Queue { entries: Vec::new() }
    }

    /// The index of requester `id`'s entry, or `None` when absent.
    fn find_index(&self, id: u64) -> (r: Option<usize>)
        ensures
            match r {
                Some(i) => 0 <= i < self@.len() && self@[i as int].requester.value == id,
                None => !has_id(self@, id),
            },
    {
        let mut i: usize = 0;
        while i < self.entries.len()
            invariant
                0 <= i <= self@.len(),
                forall|j: int| 0 <= j < i ==> (#[trigger] self@[j]).requester.value != id,
            decreases self@.len() - i,
        {
            if self.entries[i].requester.value == id {
                return Some(i);
            }
            i += 1;
        }
        None
    }

    /// Whether requester `requester` currently holds an entry.
    pub fn is_queued(&self, requester: RequesterId) -> (r: bool)
        ensures
            r == has_id(self@, requester.value),
    {
        self.find_index(requester.value).is_some()
    }

    /// How many entries the queue holds.
    pub fn len(&self) -> (n: usize)
        ensures
            n == self@.len(),
    {
        self.entries.len()
    }

    /// Enqueue `requester` with the given display name, note, and enqueue
    /// time. Fails with `AlreadyQueued` and changes nothing when the
    /// requester already holds an entry; otherwise appends the new entry
    /// at the back and returns its 1-based position, which is the new
    /// total count.
    pub fn enqueue(
        &mut self,
        requester: RequesterId,
        display_name: String,
        note: String,
        now_millis: u64,
    ) -> (r: Result<usize, QueueError>)
        requires
            old(self).wf(),
        ensures
            final(self).wf(),
            final(self)@ == spec_enqueue(
                old(self)@,
                (QueueEntry { requester, display_name, note, created_at: now_millis }),
            ),
            has_id(old(self)@, requester.value) ==> r == Err::<usize, QueueError>(
                QueueError::AlreadyQueued,
            ) && final(self)@ == old(self)@,
            !has_id(old(self)@, requester.value) ==> (r matches Ok(p) && p == old(
                self,
            )@.len() + 1),
    {
        if self.find_index(requester.value).is_some() {
            return Err(QueueError::AlreadyQueued);
        }
        let ghost s0 = self@;
        let entry = QueueEntry { requester, display_name, note, created_at: now_millis };
        self.entries.push(entry);
        proof {
            assert forall|i: int, j: int| 0 <= i < j < self@.len() implies (#[trigger] self@[i]).requester.value
                != (#[trigger] self@[j]).requester.value by {
                if j < s0.len() as int {
                } else {
                    assert(self@[j].requester.value == requester.value);
                    assert(self@[i] == s0[i]);
                }
            }
        }
        Ok(self.entries.len())
    }

    /// Remove requester `requester`'s own entry. Fails with `NotQueued`
    /// and changes nothing when absent; otherwise removes exactly that
    /// entry, keeping the order of the rest.
    pub fn withdraw(&mut self, requester: RequesterId) -> (r: Result<(), QueueError>)
        requires
            old(self).wf(),
        ensures
            final(self).wf(),
            final(self)@ == spec_remove(old(self)@, requester.value),
            has_id(old(self)@, requester.value) ==> r == Ok::<(), QueueError>(()),
            !has_id(old(self)@, requester.value) ==> r == Err::<(), QueueError>(
                QueueError::NotQueued,
            ) && final(self)@ == old(self)@,
    {
        match self.remove_by_id(requester) {
            Ok(()) => Ok(()),
            Err(_) => Err(QueueError::NotQueued),
        }
    }

    /// Remove requester `requester`'s entry on an operator's behalf.
    /// Fails with `NotFound` and changes nothing when absent; otherwise
    /// removes exactly that entry, keeping the order of the rest.
    pub fn admin_remove(&mut self, requester: RequesterId) -> (r: Result<(), QueueError>)
        requires
            old(self).wf(),
        ensures
            final(self).wf(),
            final(self)@ == spec_remove(old(self)@, requester.value),
            has_id(old(self)@, requester.value) ==> r == Ok::<(), QueueError>(()),
            !has_id(old(self)@, requester.value) ==> r == Err::<(), QueueError>(
                QueueError::NotFound,
            ) && final(self)@ == old(self)@,
    {
        self.remove_by_id(requester)
    }

    /// Remove requester `requester`'s entry on an operator's behalf,
    /// taking the identity in its raw text form. Fails with
    /// `InvalidArgument` and changes nothing when the text is not a
    /// well-formed identity; otherwise behaves as `admin_remove`.
    pub fn admin_remove_text(&mut self, id_text: &str) -> (r: Result<(), QueueError>)
        requires
            old(self).wf(),
        ensures
            final(self).wf(),
            !is_requester_id_text(id_text@) ==> r == Err::<(), QueueError>(
                QueueError::InvalidArgument,
            ) && final(self)@ == old(self)@,
            is_requester_id_text(id_text@) ==> ({
                let id = dec_value(id_text@) as u64;
                &&& final(self)@ == spec_remove(old(self)@, id)
                &&& (has_id(old(self)@, id) ==> r == Ok::<(), QueueError>(()))
                &&& (!has_id(old(self)@, id) ==> r == Err::<(), QueueError>(QueueError::NotFound)
                    && final(self)@ == old(self)@)
            }),
    {
        match RequesterId::parse(id_text) {
            Ok(requester) => self.admin_remove(requester),
            Err(_) => Err(QueueError::InvalidArgument),
        }
    }

    /// The shared body of `withdraw` and `admin_remove`: `Err(NotFound)`
    /// stands for "absent" and is mapped by the callers.
    fn remove_by_id(&mut self, requester: RequesterId) -> (r: Result<(), QueueError>)
        requires
            old(self).wf(),
        ensures
            final(self).wf(),
            final(self)@ == spec_remove(old(self)@, requester.value),
            has_id(old(self)@, requester.value) ==> r == Ok::<(), QueueError>(()),
            !has_id(old(self)@, requester.value) ==> r == Err::<(), QueueError>(
                QueueError::NotFound,
            ) && final(self)@ == old(self)@,
    {
        let ghost s0 = self@;
        match self.find_index(requester.value) {
            Some(i) => {
                proof {
                    assert(has_id(s0, requester.value));
                    let k = index_of_id(s0, requester.value);
                    assert(0 <= k < s0.len() && s0[k].requester.value == requester.value);
                    assert(k == i as int);
                    s0.remove_ensures(i as int);
                    assert forall|p: int, q: int|
                        0 <= p < q < s0.remove(i as int).len() implies (#[trigger] s0.remove(
                        i as int,
                    )[p]).requester.value != (#[trigger] s0.remove(i as int)[q]).requester.value by {
                        let p0 = if p < i as int {
                            p
                        } else {
                            p + 1
                        };
                        let q0 = if q < i as int {
                            q
                        } else {
                            q + 1
                        };
                        assert(s0.remove(i as int)[p] == s0[p0]);
                        assert(s0.remove(i as int)[q] == s0[q0]);
                    }
                }
                self.entries.remove(i);
                Ok(())
            },
            None => Err(QueueError::NotFound),
        }
    }

    /// The requester's 1-based rank in insertion order. Fails with
    /// `NotQueued` when the requester holds no entry.
    pub fn position_of(&self, requester: RequesterId) -> (r: Result<usize, QueueError>)
        requires
            self.wf(),
        ensures
            !has_id(self@, requester.value) ==> r == Err::<usize, QueueError>(
                QueueError::NotQueued,
            ),
            has_id(self@, requester.value) ==> (r matches Ok(p) && p == index_of_id(
                self@,
                requester.value,
            ) + 1),
    {
        match self.find_index(requester.value) {
            Some(i) => {
                let n = self.entries.len();
                proof {
                    let k = index_of_id(self@, requester.value);
                    assert(0 <= k < self@.len() && self@[k].requester.value == requester.value);
                    assert(k == i as int);
                }
                assert(i < n);
                Ok(i + 1)
            },
            None => Err(QueueError::NotQueued),
        }
    }

    /// The full ordered listing, oldest first; empty — not an error —
    /// on an empty queue.
    pub fn list_all(&self) -> (r: &Vec<QueueEntry>)
        ensures
            r@ == self@,
    {
        &self.entries
    }
}

} // verus!
