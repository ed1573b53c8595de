//! A bounded circular buffer (ring queue): a fixed-capacity container that
//! hands elements back in first-in-first-out order.  The elements live in a
//! single contiguous backing store that is reused cyclically, so pushing and
//! popping never shift elements around.  The backing store grows lazily, one
//! slot at a time, up to the capacity, and can be shrunk back to exactly the
//! live elements with `shrink_to_fit`.
//!
//! The container has a single exclusive owner and provides no internal
//! synchronization; callers that share one across threads must supply their
//! own mutual exclusion.

use vstd::prelude::*;

pub mod laws;

verus! {

/// A fixed-capacity first-in-first-out queue over a cyclically reused
/// backing store.
///
/// Logically the buffer is the sequence of its live elements, oldest first
/// (the view `self@`).  Physically, slot `i` of the logical sequence sits at
/// index `(start + i) mod capacity` of `inner`; slots outside that window may
/// hold stale leftovers, which are tombstoned as `None` and never read.
pub struct RingVec<T> {
    /// Backing slots; allocated length grows lazily up to `cap`.
    inner: Vec<Option<T>>,
    /// Fixed maximum number of elements, set at construction.
    cap: usize,
    /// Index of the oldest element (the one `pop` removes next).
    start: usize,
    /// Number of live elements.
    count: usize,
}

impl<T> View for RingVec<T> {
    type V = Seq<T>;

    /// The live elements, oldest first.
    closed spec fn view(&self) -> Seq<T> {
        Seq::new(self.count as nat, |i: int| self.inner@[self.slot_of(i)]->0)
    }
}

impl<T> RingVec<T> {
    /// Physical index of the `i`-th logical element: `(start + i) mod cap`,
    /// written without `%` since `0 <= i <= cap` keeps `start + i` below
    /// `2 * cap`.
    spec fn slot_of(&self, i: int) -> int {
        if self.start + i < self.cap {
            self.start + i
        } else {
            self.start + i - self.cap
        }
    }

    /// The fixed maximum number of elements, unchanged since construction.
    pub closed spec fn spec_capacity(&self) -> usize {
        self.cap
    }

    /// How many backing slots are currently allocated.  Grows lazily from 0
    /// towards the capacity as pushes touch new slots; `empty` resets it to
    /// 0 and `shrink_to_fit` lowers it to the number of live elements.
    pub closed spec fn storage_len(&self) -> nat {
        self.inner@.len()
    }

    /// Structural invariant: the capacity is positive, `start` is a valid
    /// ring position, at most `cap` slots are allocated, the allocation
    /// covers `start` and every live slot, and every live slot holds a
    /// value.
    pub closed spec fn wf(&self) -> bool {
        &&& 0 < self.cap
        &&& self.start < self.cap
        &&& self.count <= self.cap
        &&& self.inner@.len() <= self.cap
        &&& self.start <= self.inner@.len()
        &&& forall|i: int| 0 <= i < self.count ==> #[trigger] self.slot_of(i) < self.inner@.len()
        &&& forall|i: int|
            0 <= i < self.count ==> (#[trigger] self.inner@[self.slot_of(i)]) is Some
    }

    /// The length is clamped by construction: a well-formed buffer never
    /// holds more than `capacity` elements, and its allocation never
    /// exceeds `capacity` slots.
    pub proof fn lemma_len_bounded(&self)
        requires
            self.wf(),
        ensures
            self@.len() <= self.spec_capacity(),
            self.storage_len() <= self.spec_capacity(),
    {
    }

    /// Creates an empty `RingVec` that can hold up to `capacity` elements.
    /// A zero capacity is invalid: such a ring could hold nothing.
    pub fn new(capacity: usize) -> (r: RingVec<T>)
        requires
            capacity > 0,
        ensures
            r.wf(),
            r@ == Seq::<T>::empty(),
            r.spec_capacity() == capacity,
            r.storage_len() == 0,
    {
        let r = RingVec { inner: Vec::new(), cap: capacity, start: 0, count: 0 };
        proof {
            assert(r@ =~= Seq::<T>::empty());
        }
        r
    }

    /// Creates an empty `RingVec` with backing storage reserved for
    /// `capacity` elements up front.  Preallocation is a performance hint
    /// only: the result is indistinguishable from `new(capacity)` through
    /// every operation.
    pub fn new_preallocated(capacity: usize) -> (r: RingVec<T>)
        requires
            capacity > 0,
        ensures
            r.wf(),
            r@ == Seq::<T>::empty(),
            r.spec_capacity() == capacity,
            r.storage_len() == 0,
    {
        let inner: Vec<Option<T>> = Vec::with_capacity(capacity);
        let r = RingVec { inner, cap: capacity, start: 0, count: 0 };
        proof {
            assert(r@ =~= Seq::<T>::empty());
        }
        r
    }

    /// True if there is no spare capacity.
    pub fn is_full(&self) -> (r: bool)
        requires
            self.wf(),
        ensures
            r <==> self@.len() == self.spec_capacity(),
    {
        self.count == self.cap
    }

    /// Returns the number of items in the `RingVec`.
    pub fn len(&self) -> (r: usize)
        requires
            self.wf(),
        ensures
            r == self@.len(),
    {
        self.count
    }

    /// Returns the maximum possible number of items.
    pub fn capacity(&self) -> (r: usize)
        requires
            self.wf(),
        ensures
            r == self.spec_capacity(),
    {
        self.cap
    }

    /// Returns a reference to the oldest element without removing it, or
    /// `None` if the buffer is empty.  Takes `&self`, so it cannot mutate
    /// the buffer.
    pub fn peek(&self) -> (r: Option<&T>)
        requires
            self.wf(),
        ensures
            r is Some <==> self@.len() > 0,
            r is Some ==> *r->0 == self@[0],
    {
        if self.count > 0 {
            proof {
                assert(self.slot_of(0) == self.start);
                assert(self.inner@[self.slot_of(0)] is Some);
            }
            self.inner[self.start].as_ref()
        } else {
            None
        }
    }

    /// Removes and returns the oldest element, or returns `None` and leaves
    /// the buffer unchanged if it is empty.  The vacated slot is tombstoned,
    /// the ring start advances one position, and the remaining elements keep
    /// their order.
    pub fn pop(&mut self) -> (r: Option<T>)
        requires
            old(self).wf(),
        ensures
            final(self).wf(),
            final(self).spec_capacity() == old(self).spec_capacity(),
            final(self).storage_len() == old(self).storage_len(),
            old(self)@.len() == 0 ==> r is None && *final(self) == *old(self),
            old(self)@.len() > 0 ==> r == Some(old(self)@[0]) && final(self)@ == old(self)@.skip(
                1,
            ),
    {
        if self.count > 0 {
            let s = self.start;
            proof {
                assert(old(self).slot_of(0) == s);
                assert(old(self).inner@[old(self).slot_of(0)] is Some);
            }
            self.start = if s + 1 == self.cap {
                0
            } else {
                s + 1
            };
            self.count = self.count - 1;
            let r = self.inner[s].take();
            proof {
                let ghost pre = *old(self);
                // Every remaining element keeps its slot; logical position i
                // now names what was position i + 1, and none of those slots
                // is the vacated one.
                assert forall|i: int| 0 <= i < self.count implies self.slot_of(i)
                    < self.inner@.len() && (self.inner@[self.slot_of(i)]) is Some by {
                    assert(self.slot_of(i) == pre.slot_of(i + 1));
                    assert(pre.slot_of(i + 1) < pre.inner@.len());
                    assert(pre.inner@[pre.slot_of(i + 1)] is Some);
                    assert(pre.slot_of(i + 1) != s);
                }
                assert forall|i: int| 0 <= i < self.count implies self@[i] == pre@.skip(1)[i] by {
                    assert(pre.slot_of(i + 1) != s);
                    assert(self.inner@[self.slot_of(i)] == pre.inner@[pre.slot_of(i + 1)]);
                }
                assert(self@ =~= pre@.skip(1));
                assert(pre.inner@[s as int] == Some(pre@[0]));
            }
            r
        } else {
            None
        }
    }

    /// Appends an item if there is space; on a full buffer, hands the item
    /// back unchanged as the failure value and mutates nothing.  The item
    /// goes to the slot `count` positions past `start` around the ring,
    /// appending to the backing storage only when that slot is not yet
    /// allocated (lazy growth).
    pub fn push(&mut self, item: T) -> (r: Result<(), T>)
        requires
            old(self).wf(),
        ensures
            final(self).wf(),
            final(self).spec_capacity() == old(self).spec_capacity(),
            final(self).storage_len() <= old(self).storage_len() + 1,
            final(self).storage_len() <= final(self).spec_capacity(),
            old(self)@.len() < old(self).spec_capacity() ==> r == Ok::<(), T>(())
                && final(self)@ == old(self)@.push(item),
            old(self)@.len() == old(self).spec_capacity() ==> r == Err::<(), T>(item)
                && *final(self) == *old(self),
    {
        if self.count < self.cap {
            let target: usize = if self.start < self.cap - self.count {
                self.start + self.count
            } else {
                self.start - (self.cap - self.count)
            };
            proof {
                assert(target == self.slot_of(self.count as int));
                if self.count > 0 {
                    assert(self.slot_of(self.count - 1) < self.inner@.len());
                }
                assert(target <= self.inner@.len());
            }
            if target >= self.inner.len() {
                self.inner.push(Some(item));
            } else {
                self.inner[target] = Some(item);
            }
            self.count = self.count + 1;
            proof {
                let ghost pre = *old(self);
                // The elements already present keep their slots (none of
                // them is the target slot), and the new element sits at the
                // target, so the view gains exactly `item` at the end.
                assert forall|i: int| 0 <= i < self.count implies self.slot_of(i)
                    < self.inner@.len() && (self.inner@[self.slot_of(i)]) is Some by {
                    if i < self.count - 1 {
                        assert(pre.slot_of(i) < pre.inner@.len());
                        assert(pre.inner@[pre.slot_of(i)] is Some);
                        assert(self.slot_of(i) != target);
                    }
                }
                assert forall|i: int| 0 <= i < self.count implies self@[i] == pre@.push(
                    item,
                )[i] by {
                    if i < self.count - 1 {
                        assert(self.slot_of(i) != target);
                        assert(self.inner@[self.slot_of(i)] == pre.inner@[pre.slot_of(i)]);
                    }
                }
                assert(self@ =~= pre@.push(item));
            }
            Ok(())
        } else {
            Err(item)
        }
    }

    /// Empties the `RingVec`, discarding the backing storage at once and
    /// resetting the ring to its freshly constructed shape.
    pub fn empty(&mut self)
        requires
            old(self).wf(),
        ensures
            final(self).wf(),
            final(self)@ == Seq::<T>::empty(),
            final(self).spec_capacity() == old(self).spec_capacity(),
            final(self).storage_len() == 0,
    {
        self.inner.clear();
        self.start = 0;
        self.count = 0;
        proof {
            assert(self@ =~= Seq::<T>::empty());
        }
    }

    /// Rewrites the backing storage into a minimal-length form: exactly the
    /// live elements, in order, starting at ring position 0.  Slack
    /// allocation and stale dead slots are released.  When the buffer is
    /// full there is no slack to reclaim and this is a no-op.  The live
    /// window may wrap past the end of the allocated region; both pieces
    /// are moved, in order, and no dead slot is ever read.
    pub fn shrink_to_fit(&mut self)
        requires
            old(self).wf(),
        ensures
            final(self).wf(),
            final(self)@ == old(self)@,
            final(self).spec_capacity() == old(self).spec_capacity(),
            final(self).storage_len() == final(self)@.len(),
    {
        if self.count == self.cap {
            proof {
                // A full ring occupies every slot, so the allocation is
                // already exactly `count` slots long and nothing can shrink.
                let len: int = self.inner@.len() as int;
                if len < self.cap {
                    let i: int = if len >= self.start {
                        len - self.start
                    } else {
                        len + self.cap - self.start
                    };
                    assert(self.slot_of(i) == len);
                    assert(self.slot_of(i) < self.inner@.len());
                }
            }
            return;
        }
        let ghost orig = *self;
        let mut new_inner: Vec<Option<T>> = Vec::with_capacity(self.count);
        let wrapped: bool = self.start > self.cap - self.count;
        let tail_end: usize = if wrapped {
            self.cap
        } else {
            self.start + self.count
        };
        let mut i: usize = self.start;
        while i < tail_end
            invariant
                orig.wf(),
                orig.count < orig.cap,
                self.cap == orig.cap,
                self.start == orig.start,
                self.count == orig.count,
                self.inner@.len() == orig.inner@.len(),
                wrapped == (orig.start + orig.count > orig.cap),
                tail_end == if wrapped {
                    orig.cap as int
                } else {
                    orig.start + orig.count
                },
                orig.start <= i <= tail_end,
                tail_end <= orig.cap,
                new_inner@.len() == i - orig.start,
                forall|k: int|
                    0 <= k < new_inner@.len() ==> #[trigger] new_inner@[k] == orig.inner@[orig.slot_of(
                        k,
                    )],
                forall|k: int|
                    0 <= k < self.inner@.len() && !(orig.start <= k < i)
                        ==> #[trigger] self.inner@[k] == orig.inner@[k],
            decreases tail_end - i,
        {
            proof {
                assert(orig.slot_of(i - orig.start) == i);
                assert(orig.slot_of(i - orig.start) < orig.inner@.len());
            }
            let moved = self.inner[i].take();
            new_inner.push(moved);
            i = i + 1;
        }
        if wrapped {
            let head_end: usize = self.count - (self.cap - self.start);
            let mut j: usize = 0;
            while j < head_end
                invariant
                    orig.wf(),
                    orig.count < orig.cap,
                    self.cap == orig.cap,
                    self.start == orig.start,
                    self.count == orig.count,
                    self.inner@.len() == orig.inner@.len(),
                    orig.start + orig.count > orig.cap,
                    head_end == orig.start + orig.count - orig.cap,
                    0 <= j <= head_end,
                    head_end < orig.start,
                    new_inner@.len() == (orig.cap - orig.start) + j,
                    forall|k: int|
                        0 <= k < new_inner@.len() ==> #[trigger] new_inner@[k] == orig.inner@[orig.slot_of(
                            k,
                        )],
                    forall|k: int|
                        0 <= k < self.inner@.len() && j <= k < orig.start
                            ==> #[trigger] self.inner@[k] == orig.inner@[k],
                decreases head_end - j,
            {
                proof {
                    assert(orig.slot_of((orig.cap - orig.start) + j) == j);
                    assert(orig.slot_of((orig.cap - orig.start) + j) < orig.inner@.len());
                }
                let moved = self.inner[j].take();
                new_inner.push(moved);
                j = j + 1;
            }
        }
        self.inner = new_inner;
        self.start = 0;
        proof {
            assert(self.inner@.len() == orig.count);
            assert forall|k: int| 0 <= k < self.count implies self.slot_of(k) == k
                && self.inner@[k] == orig.inner@[orig.slot_of(k)] by {}
            assert forall|k: int| 0 <= k < self.count implies self@[k] == orig@[k] by {
                assert(orig.inner@[orig.slot_of(k)] is Some);
            }
            assert(self@ =~= orig@);
        }
    }
}

} // verus!
