use ringvec::RingVec;

#[test]
fn works() {
    let mut q: RingVec<usize> = RingVec::new(1);
    assert_eq!(q.peek(), None);
    assert_eq!(q.pop(), None);
    assert_eq!(q.push(1), Ok(()));
    assert_eq!(q.peek(), Some(&1));
    assert_eq!(q.pop(), Some(1));
    assert_eq!(q.peek(), None);
    assert_eq!(q.pop(), None);
    assert_eq!(q.push(2), Ok(()));
    assert_eq!(q.peek(), Some(&2));
    assert_eq!(q.push(3), Err(3));
    assert_eq!(q.pop(), Some(2));
    assert_eq!(q.push(4), Ok(()));
    assert_eq!(q.peek(), Some(&4));
    assert_eq!(q.pop(), Some(4));
    assert_eq!(q.peek(), None);
    assert_eq!(q.pop(), None);
    assert_eq!(q.peek(), None);
}

#[test]
fn fifo_in_order() {
    let mut q: RingVec<u32> = RingVec::new(5);
    for v in 0..5u32 {
        assert_eq!(q.push(v * 10), Ok(()));
    }
    for v in 0..5u32 {
        assert_eq!(q.pop(), Some(v * 10));
    }
    assert_eq!(q.pop(), None);
}

#[test]
fn full_push_returns_item_and_retry_succeeds() {
    let mut q: RingVec<&str> = RingVec::new(2);
    assert_eq!(q.push("a"), Ok(()));
    assert_eq!(q.push("b"), Ok(()));
    assert!(q.is_full());
    assert_eq!(q.push("c"), Err("c"));
    assert_eq!(q.len(), 2);
    assert_eq!(q.peek(), Some(&"a"));
    assert_eq!(q.pop(), Some("a"));
    assert_eq!(q.push("c"), Ok(()));
    assert_eq!(q.pop(), Some("b"));
    assert_eq!(q.pop(), Some("c"));
}

#[test]
fn len_counts_successful_pushes_minus_pops() {
    let mut q: RingVec<u8> = RingVec::new(3);
    assert_eq!(q.len(), 0);
    assert_eq!(q.push(1), Ok(()));
    assert_eq!(q.push(2), Ok(()));
    assert_eq!(q.len(), 2);
    assert_eq!(q.pop(), Some(1));
    assert_eq!(q.len(), 1);
    assert_eq!(q.push(3), Ok(()));
    assert_eq!(q.push(4), Ok(()));
    assert_eq!(q.len(), 3);
    assert_eq!(q.push(5), Err(5));
    assert_eq!(q.len(), 3);
    assert_eq!(q.pop(), Some(2));
    assert_eq!(q.pop(), Some(3));
    assert_eq!(q.pop(), Some(4));
    assert_eq!(q.pop(), None);
    assert_eq!(q.len(), 0);
}

#[test]
fn is_full_iff_len_equals_capacity() {
    let mut q: RingVec<u8> = RingVec::new(2);
    assert!(!q.is_full());
    assert_eq!(q.push(1), Ok(()));
    assert!(!q.is_full());
    assert_eq!(q.push(2), Ok(()));
    assert!(q.is_full());
    assert_eq!(q.len(), q.capacity());
    assert_eq!(q.pop(), Some(1));
    assert!(!q.is_full());
    assert!(q.len() < q.capacity());
}

#[test]
fn peek_does_not_mutate() {
    let mut q: RingVec<u16> = RingVec::new(3);
    assert_eq!(q.push(7), Ok(()));
    assert_eq!(q.push(8), Ok(()));
    let first = q.peek().copied();
    let second = q.peek().copied();
    assert_eq!(first, Some(7));
    assert_eq!(first, second);
    assert_eq!(q.len(), 2);
    assert_eq!(q.pop(), Some(7));
    assert_eq!(q.pop(), Some(8));
}

#[test]
fn capacity_is_fixed() {
    let mut q: RingVec<u8> = RingVec::new(4);
    assert_eq!(q.capacity(), 4);
    assert_eq!(q.push(1), Ok(()));
    assert_eq!(q.pop(), Some(1));
    q.shrink_to_fit();
    assert_eq!(q.capacity(), 4);
    q.empty();
    assert_eq!(q.capacity(), 4);
}

#[test]
fn wraparound_indexing() {
    let mut q: RingVec<char> = RingVec::new(3);
    assert_eq!(q.push('a'), Ok(()));
    assert_eq!(q.push('b'), Ok(()));
    assert_eq!(q.push('c'), Ok(()));
    assert_eq!(q.push('d'), Err('d'));
    assert_eq!(q.pop(), Some('a'));
    assert_eq!(q.push('d'), Ok(()));
    assert_eq!(q.pop(), Some('b'));
    assert_eq!(q.pop(), Some('c'));
    assert_eq!(q.pop(), Some('d'));
    assert_eq!(q.pop(), None);
}

#[test]
fn compact_mid_wrap() {
    let mut q: RingVec<char> = RingVec::new(3);
    assert_eq!(q.push('a'), Ok(()));
    assert_eq!(q.push('b'), Ok(()));
    assert_eq!(q.pop(), Some('a'));
    q.shrink_to_fit();
    assert_eq!(q.len(), 1);
    assert_eq!(q.peek(), Some(&'b'));
    assert_eq!(q.push('c'), Ok(()));
    assert_eq!(q.push('d'), Ok(()));
    assert_eq!(q.pop(), Some('b'));
    assert_eq!(q.pop(), Some('c'));
    assert_eq!(q.pop(), Some('d'));
}

#[test]
fn compact_with_wrapped_window() {
    let mut q: RingVec<u32> = RingVec::new(4);
    for v in [1u32, 2, 3, 4] {
        assert_eq!(q.push(v), Ok(()));
    }
    assert_eq!(q.pop(), Some(1));
    assert_eq!(q.pop(), Some(2));
    assert_eq!(q.push(5), Ok(()));
    assert_eq!(q.push(6), Ok(()));
    assert_eq!(q.pop(), Some(3));
    // live window now wraps: elements 4, 5, 6 with 5 and 6 past the end
    q.shrink_to_fit();
    assert_eq!(q.len(), 3);
    assert_eq!(q.pop(), Some(4));
    assert_eq!(q.pop(), Some(5));
    assert_eq!(q.pop(), Some(6));
    assert_eq!(q.pop(), None);
}

#[test]
fn compact_when_full_is_noop() {
    let mut q: RingVec<u8> = RingVec::new(2);
    assert_eq!(q.push(1), Ok(()));
    assert_eq!(q.push(2), Ok(()));
    q.shrink_to_fit();
    assert!(q.is_full());
    assert_eq!(q.pop(), Some(1));
    assert_eq!(q.pop(), Some(2));
}

#[test]
fn compact_empty_buffer() {
    let mut q: RingVec<u8> = RingVec::new(3);
    q.shrink_to_fit();
    assert_eq!(q.len(), 0);
    assert_eq!(q.peek(), None);
    assert_eq!(q.push(9), Ok(()));
    assert_eq!(q.pop(), Some(9));
}

#[test]
fn empty_resets_and_storage_regrows() {
    let mut q: RingVec<u8> = RingVec::new(3);
    assert_eq!(q.push(1), Ok(()));
    assert_eq!(q.push(2), Ok(()));
    q.empty();
    assert_eq!(q.len(), 0);
    assert_eq!(q.peek(), None);
    assert_eq!(q.pop(), None);
    for v in [4u8, 5, 6] {
        assert_eq!(q.push(v), Ok(()));
    }
    assert_eq!(q.push(7), Err(7));
    for v in [4u8, 5, 6] {
        assert_eq!(q.pop(), Some(v));
    }
}

#[test]
fn preallocated_is_indistinguishable() {
    let mut a: RingVec<u32> = RingVec::new(3);
    let mut b: RingVec<u32> = RingVec::new_preallocated(3);
    assert_eq!(a.capacity(), b.capacity());
    for v in [10u32, 20, 30] {
        assert_eq!(a.push(v), b.push(v));
    }
    assert_eq!(a.push(40), b.push(40));
    assert_eq!(a.peek(), b.peek());
    assert_eq!(a.pop(), b.pop());
    assert_eq!(a.len(), b.len());
    assert_eq!(a.pop(), b.pop());
    assert_eq!(a.pop(), b.pop());
    assert_eq!(a.pop(), b.pop());
}

#[test]
fn capacity_one_cycles() {
    let mut q: RingVec<u64> = RingVec::new(1);
    for round in 0..5u64 {
        assert_eq!(q.push(round), Ok(()));
        assert!(q.is_full());
        assert_eq!(q.push(100 + round), Err(100 + round));
        assert_eq!(q.pop(), Some(round));
        assert_eq!(q.pop(), None);
    }
}

#[test]
fn compact_then_operations_behave_identically() {
    // Drive two buffers through the same operations; one of them is
    // compacted at every step.  Every observation must agree.
    for compact_at in 0..12usize {
        let mut plain: RingVec<u32> = RingVec::new(3);
        let mut compacted: RingVec<u32> = RingVec::new(3);
        let mut next: u32 = 0;
        for step in 0..12usize {
            if step == compact_at {
                compacted.shrink_to_fit();
            }
            assert_eq!(plain.len(), compacted.len());
            assert_eq!(plain.peek(), compacted.peek());
            assert_eq!(plain.is_full(), compacted.is_full());
            if step % 3 == 2 {
                assert_eq!(plain.pop(), compacted.pop());
            } else {
                next += 1;
                assert_eq!(plain.push(next), compacted.push(next));
            }
        }
        while plain.len() > 0 {
            assert_eq!(plain.pop(), compacted.pop());
        }
        assert_eq!(compacted.pop(), None);
    }
}

#[test]
fn matches_a_simple_model_across_states() {
    // Exercise every (start, count) combination the ring can reach by
    // comparing against a naive queue model.
    for cap in 1..6usize {
        let mut q: RingVec<u32> = RingVec::new(cap);
        let mut model: Vec<u32> = Vec::new();
        let mut next: u32 = 0;
        for step in 0..200usize {
            match step % 8 {
                0 | 1 | 2 | 4 => {
                    next += 1;
                    let pushed = q.push(next);
                    if model.len() < cap {
                        assert_eq!(pushed, Ok(()));
                        model.push(next);
                    } else {
                        assert_eq!(pushed, Err(next));
                    }
                }
                3 | 5 | 6 => {
                    let popped = q.pop();
                    if model.is_empty() {
                        assert_eq!(popped, None);
                    } else {
                        assert_eq!(popped, Some(model.remove(0)));
                    }
                }
                _ => {
                    q.shrink_to_fit();
                }
            }
            assert_eq!(q.len(), model.len());
            assert_eq!(q.capacity(), cap);
            assert_eq!(q.is_full(), model.len() == cap);
            assert_eq!(q.peek(), model.first());
        }
    }
}
