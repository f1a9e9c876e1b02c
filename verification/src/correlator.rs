//! Response correlation: matching responses to requests by ID.
//!
//! A correlator tracks the set of request IDs that still have a waiter.
//! Registering an ID creates a single-use slot; resolving an ID removes
//! the slot and hands the outcome to the waiter exactly once; cancelling
//! removes the slot without delivering, so that a response arriving after
//! a timeout is dropped silently.

use vstd::prelude::*;

verus! {

pub struct Correlator {
    pending: Vec<u64>,
}

impl Correlator {
    /// No ID has more than one slot.
    pub closed spec fn wf(self) -> bool {
        forall|i: int, j: int|
            #![trigger self.pending@[i], self.pending@[j]]
            0 <= i < j < self.pending@.len() ==> self.pending@[i] != self.pending@[j]
    }

    /// Does `id` currently have a waiting slot?
    pub closed spec fn is_pending(self, id: u64) -> bool {
        self.pending@.contains(id)
    }

    /// How `register` changes the correlator.
    pub open spec fn spec_register(pre: Correlator, post: Correlator, id: u64) -> bool {
        &&& post.is_pending(id)
        &&& forall|other: u64| other != id ==> post.is_pending(other) == pre.is_pending(other)
    }

    /// How `resolve` and `cancel` change the correlator; `delivered` says
    /// whether a waiter received the outcome.
    pub open spec fn spec_retire(
        pre: Correlator,
        post: Correlator,
        id: u64,
        delivered: bool,
    ) -> bool {
        &&& delivered == pre.is_pending(id)
        &&& !post.is_pending(id)
        &&& forall|other: u64| other != id ==> post.is_pending(other) == pre.is_pending(other)
    }

    pub fn new() -> (r: Correlator)
        ensures
            r.wf(),
            forall|id: u64| !r.is_pending(id),
    {
        let r = Correlator { pending: Vec::new() };
        assert(forall|id: u64| !r.pending@.contains(id));
        r
    }

    /// Create a slot for `id`.  The caller must pick a fresh ID; the
    /// client does so with a monotone counter.
    pub fn register(&mut self, id: u64)
        requires
            old(self).wf(),
            !old(self).is_pending(id),
        ensures
            final(self).wf(),
            Self::spec_register(*old(self), *final(self), id),
    {
        self.pending.push(id);
        proof {
            assert(self.pending@ == old(self).pending@.push(id));
            assert forall|other: u64| other != id implies self.is_pending(other) == old(
                self,
            ).is_pending(other) by {
                if old(self).pending@.contains(other) {
                    let k = choose|k: int|
                        0 <= k < old(self).pending@.len() && old(self).pending@[k] == other;
                    assert(self.pending@[k] == other);
                }
                if self.pending@.contains(other) {
                    let k = choose|k: int|
                        0 <= k < self.pending@.len() && self.pending@[k] == other;
                    assert(k < old(self).pending@.len());
                    assert(old(self).pending@[k] == other);
                }
            }
            assert(self.pending@[self.pending@.len() - 1] == id);
        }
    }

    /// Deliver `outcome` for `id`.  Returns `Some(outcome)` when a waiter
    /// was still registered (delivery happens exactly once); returns
    /// `None`, with no other effect, when the ID is unknown, already
    /// resolved, or cancelled.
    pub fn resolve<T>(&mut self, id: u64, outcome: T) -> (r: Option<T>)
        requires
            old(self).wf(),
        ensures
            final(self).wf(),
            Self::spec_retire(*old(self), *final(self), id, r is Some),
            old(self).is_pending(id) ==> r == Some(outcome),
            !old(self).is_pending(id) ==> *final(self) == *old(self),
    {
        match self.take_slot(id) {
            true => Some(outcome),
            false => None,
        }
    }

    /// Drop the slot for `id` without delivering, so that a late outcome
    /// for it will be ignored.  Unknown IDs are ignored silently.
    pub fn cancel(&mut self, id: u64)
        requires
            old(self).wf(),
        ensures
            final(self).wf(),
            Self::spec_retire(*old(self), *final(self), id, old(self).is_pending(id)),
            !old(self).is_pending(id) ==> *final(self) == *old(self),
    {
        let _removed = self.take_slot(id);
    }

    /// Remove the slot for `id` if present; report whether it was there.
    fn take_slot(&mut self, id: u64) -> (r: bool)
        requires
            old(self).wf(),
        ensures
            final(self).wf(),
            r == old(self).is_pending(id),
            Self::spec_retire(*old(self), *final(self), id, r),
            !r ==> *final(self) == *old(self),
    {
        proof {
            assert(old(self).wf());
        }
        let ghost pre = old(self).pending@;
        proof {
            assert forall|a: int, b: int| 0 <= a < b < pre.len() implies pre[a] != pre[b] by {
                assert(old(self).pending@[a] != old(self).pending@[b]);
            }
        }
        let n = self.pending.len();
        let mut i: usize = 0;
        while i < n
            invariant
                n == self.pending@.len(),
                0 <= i <= n,
                *self == *old(self),
                pre == old(self).pending@,
                forall|a: int, b: int| 0 <= a < b < pre.len() ==> pre[a] != pre[b],
                forall|k: int| 0 <= k < i ==> self.pending@[k] != id,
            decreases n - i,
        {
            if self.pending[i] == id {
                self.pending.remove(i);
                proof {
                    let post = self.pending@;
                    assert(post == pre.remove(i as int));
                    assert(post =~= pre.subrange(0, i as int) + pre.subrange(
                        i + 1,
                        pre.len() as int,
                    ));
                    assert(forall|k: int| 0 <= k < i ==> post[k] == pre[k]);
                    assert(forall|k: int| i <= k < post.len() ==> post[k] == pre[k + 1]);
                    assert(forall|k: int| 0 <= k < i ==> pre[k] != id);
                    assert(pre[i as int] == id);
                    assert(pre.contains(id));
                    assert forall|other: u64| post.contains(other) implies other != id
                        && pre.contains(other) by {
                        let k = choose|k: int| 0 <= k < post.len() && post[k] == other;
                        if k < i {
                            assert(pre[k] == other);
                            assert(pre[k] != id);
                        } else {
                            assert(pre[k + 1] == other);
                            assert(pre[i as int] != pre[k + 1]);
                        }
                    }
                    assert forall|other: u64|
                        other != id && pre.contains(other) implies post.contains(other) by {
                        let k = choose|k: int| 0 <= k < pre.len() && pre[k] == other;
                        if k < i {
                            assert(post[k] == other);
                        } else {
                            assert(k != i);
                            assert(post[k - 1] == other);
                        }
                    }
                    assert forall|a: int, b: int|
                        0 <= a < b < post.len() implies post[a] != post[b] by {
                        let pa = if a < i {
                            a
                        } else {
                            a + 1
                        };
                        let pb = if b < i {
                            b
                        } else {
                            b + 1
                        };
                        assert(pre[pa] == post[a]);
                        assert(pre[pb] == post[b]);
                        assert(pre[pa] != pre[pb]);
                    }
                }
                return true;
            }
            i = i + 1;
        }
        proof {
            assert(!old(self).pending@.contains(id)) by {
                if old(self).pending@.contains(id) {
                    let k = choose|k: int|
                        0 <= k < old(self).pending@.len() && old(self).pending@[k] == id;
                    assert(self.pending@[k] != id);
                }
            }
        }
        false
    }
}

/// Registering an ID and then resolving it twice delivers the outcome
/// exactly once: the first resolve reaches the waiter, the second finds
/// no slot and is a no-op.
pub proof fn lemma_resolve_delivers_exactly_once(
    c0: Correlator,
    c1: Correlator,
    c2: Correlator,
    c3: Correlator,
    k: u64,
    first_delivered: bool,
    second_delivered: bool,
)
    requires
        Correlator::spec_register(c0, c1, k),
        Correlator::spec_retire(c1, c2, k, first_delivered),
        Correlator::spec_retire(c2, c3, k, second_delivered),
    ensures
        first_delivered,
        !second_delivered,
{
}

/// Resolving an ID that was never registered, or whose slot is already
/// gone, delivers nothing and leaves every slot as it was.
pub proof fn lemma_unknown_resolve_is_silent(
    c0: Correlator,
    c1: Correlator,
    k: u64,
    delivered: bool,
)
    requires
        !c0.is_pending(k),
        Correlator::spec_retire(c0, c1, k, delivered),
    ensures
        !delivered,
        forall|id: u64| c1.is_pending(id) == c0.is_pending(id),
{
    assert forall|id: u64| c1.is_pending(id) == c0.is_pending(id) by {
        if id != k {
        } else {
        }
    }
}

/// Cancelling one request's slot (as a timeout does) never touches the
/// slot of any other in-flight request: the other request still resolves.
pub proof fn lemma_timeout_leaves_others_pending(
    c0: Correlator,
    c1: Correlator,
    c2: Correlator,
    a: u64,
    b: u64,
    b_delivered: bool,
)
    requires
        a != b,
        c0.is_pending(b),
        Correlator::spec_retire(c0, c1, a, c0.is_pending(a)),
        Correlator::spec_retire(c1, c2, b, b_delivered),
    ensures
        b_delivered,
{
}

} // verus!
