//! The queue discipline stated abstractly.
//!
//! The contracts of `push` and `pop` describe each operation as a step on
//! the buffer's view (a `Seq` of the live elements) bounded by its capacity.
//! This module writes those steps down as spec functions and proves the laws
//! that follow from them: pops return pushed values in order, and the length
//! is the number of successful pushes minus the number of successful pops.

use vstd::prelude::*;

verus! {

/// One operation on a ring buffer.
pub enum RingOp<T> {
    /// `push(value)`.
    Push(T),
    /// `pop()`.
    Pop,
}

/// The view after one operation, exactly as the contracts of `push` and
/// `pop` state it: a push appends when the buffer is not full and otherwise
/// leaves it unchanged; a pop removes the oldest element when there is one
/// and otherwise leaves it unchanged.
pub open spec fn apply_op<T>(v: Seq<T>, cap: nat, op: RingOp<T>) -> Seq<T> {
    match op {
        RingOp::Push(x) => if v.len() < cap {
            v.push(x)
        } else {
            v
        },
        RingOp::Pop => if v.len() > 0 {
            v.skip(1)
        } else {
            v
        },
    }
}

/// The view after a sequence of operations, applied left to right.
pub open spec fn apply_ops<T>(v: Seq<T>, cap: nat, ops: Seq<RingOp<T>>) -> Seq<T>
    decreases ops.len(),
{
    if ops.len() == 0 {
        v
    } else {
        apply_ops(apply_op(v, cap, ops[0]), cap, ops.skip(1))
    }
}

/// How many of the pushes in `ops` succeed, starting from view `v`.
pub open spec fn successful_pushes<T>(v: Seq<T>, cap: nat, ops: Seq<RingOp<T>>) -> nat
    decreases ops.len(),
{
    if ops.len() == 0 {
        0
    } else {
        let here: nat = match ops[0] {
            RingOp::Push(_) => if v.len() < cap {
                1
            } else {
                0
            },
            RingOp::Pop => 0,
        };
        here + successful_pushes(apply_op(v, cap, ops[0]), cap, ops.skip(1))
    }
}

/// How many of the pops in `ops` succeed, starting from view `v`.
pub open spec fn successful_pops<T>(v: Seq<T>, cap: nat, ops: Seq<RingOp<T>>) -> nat
    decreases ops.len(),
{
    if ops.len() == 0 {
        0
    } else {
        let here: nat = match ops[0] {
            RingOp::Push(_) => 0,
            RingOp::Pop => if v.len() > 0 {
                1
            } else {
                0
            },
        };
        here + successful_pops(apply_op(v, cap, ops[0]), cap, ops.skip(1))
    }
}

/// A sequence of pushes, one per element of `s`, in order.
pub open spec fn pushes<T>(s: Seq<T>) -> Seq<RingOp<T>> {
    Seq::new(s.len(), |i: int| RingOp::Push(s[i]))
}

/// `n` pops.
pub open spec fn pops<T>(n: nat) -> Seq<RingOp<T>> {
    Seq::new(n, |i: int| RingOp::Pop)
}

/// What `pop` returns on a buffer whose view is `v`, per its contract.
pub open spec fn pop_result<T>(v: Seq<T>) -> Option<T> {
    if v.len() > 0 {
        Some(v[0])
    } else {
        None
    }
}

/// Pushing the elements of `s` onto a buffer holding `v` appends them in
/// order, provided they all fit.
proof fn lemma_pushes_append<T>(v: Seq<T>, cap: nat, s: Seq<T>)
    requires
        v.len() + s.len() <= cap,
    ensures
        apply_ops(v, cap, pushes(s)) == v + s,
    decreases s.len(),
{
    if s.len() == 0 {
        assert(pushes(s).len() == 0);
        assert(v + s =~= v);
    } else {
        assert(pushes(s)[0] == RingOp::Push(s[0]));
        assert(apply_op(v, cap, pushes(s)[0]) == v.push(s[0]));
        assert(pushes(s).skip(1) =~= pushes(s.skip(1)));
        lemma_pushes_append(v.push(s[0]), cap, s.skip(1));
        assert(v.push(s[0]) + s.skip(1) =~= v + s);
    }
}

/// Popping `n` times from a buffer holding `v` removes its first `n`
/// elements, provided it holds that many.
proof fn lemma_pops_skip<T>(v: Seq<T>, cap: nat, n: nat)
    requires
        n <= v.len(),
    ensures
        apply_ops(v, cap, pops(n)) == v.skip(n as int),
    decreases n,
{
    if n == 0 {
        assert(pops::<T>(n).len() == 0);
        assert(v.skip(0) =~= v);
    } else {
        assert(pops::<T>(n)[0] == RingOp::<T>::Pop);
        assert(apply_op(v, cap, pops::<T>(n)[0]) == v.skip(1));
        assert(pops::<T>(n).skip(1) =~= pops::<T>((n - 1) as nat));
        lemma_pops_skip(v.skip(1), cap, (n - 1) as nat);
        assert(v.skip(1).skip(n - 1) =~= v.skip(n as int));
    }
}

/// FIFO law.  Starting from an empty buffer, a sequence of at most
/// `capacity` pushes all succeeds and builds exactly the pushed sequence;
/// the `i`-th of the following pops returns the `i`-th pushed value; and
/// after as many pops as pushes the buffer is empty again.
pub proof fn lemma_fifo<T>(cap: nat, s: Seq<T>)
    requires
        s.len() <= cap,
    ensures
        apply_ops(Seq::<T>::empty(), cap, pushes(s)) == s,
        forall|i: int|
            0 <= i < s.len() ==> pop_result(apply_ops(s, cap, pops(i as nat))) == Some(s[i]),
        apply_ops(s, cap, pops(s.len())) == Seq::<T>::empty(),
{
    lemma_pushes_append(Seq::<T>::empty(), cap, s);
    assert(Seq::<T>::empty() + s =~= s);
    assert forall|i: int| 0 <= i < s.len() implies pop_result(
        apply_ops(s, cap, pops(i as nat)),
    ) == Some(s[i]) by {
        lemma_pops_skip(s, cap, i as nat);
        assert(s.skip(i)[0] == s[i]);
    }
    lemma_pops_skip(s, cap, s.len());
    assert(s.skip(s.len() as int) =~= Seq::<T>::empty());
}

/// The length is the number of successful pushes minus the number of
/// successful pops (stated additively so that both sides are natural
/// numbers), and it never exceeds the capacity.
pub proof fn lemma_len_counts<T>(v: Seq<T>, cap: nat, ops: Seq<RingOp<T>>)
    requires
        v.len() <= cap,
    ensures
        apply_ops(v, cap, ops).len() + successful_pops(v, cap, ops) == v.len()
            + successful_pushes(v, cap, ops),
        apply_ops(v, cap, ops).len() <= cap,
    decreases ops.len(),
{
    if ops.len() == 0 {
    } else {
        lemma_len_counts(apply_op(v, cap, ops[0]), cap, ops.skip(1));
    }
}

/// After a full buffer rejects a push (returning the item unchanged and
/// leaving the buffer untouched, per `push`'s contract), a single pop makes
/// room: the length drops below the capacity, on which `push`'s contract
/// promises that pushing the rejected value succeeds.
pub proof fn lemma_pop_makes_room<T>(v: Seq<T>, cap: nat)
    requires
        v.len() == cap,
        cap > 0,
    ensures
        apply_op(v, cap, RingOp::<T>::Pop).len() < cap,
{
}

} // verus!
