use std::collections::VecDeque;
use std::rc::Rc;

use cynosure::site_c::queue::{IntoIter, Iter, Queue};

fn collect<'a, T, const N: usize>(iter: Iter<'a, T, N>) -> Vec<&'a T> {
    let mut iter = iter;
    let mut items = Vec::new();
    while let Some(item) = iter.next() {
        items.push(item);
    }
    items
}

fn collect_copied<T: Copy, const N: usize>(iter: Iter<'_, T, N>) -> Vec<T> {
    collect(iter).into_iter().copied().collect()
}

fn drain<T>(iter: IntoIter<T>) -> Vec<T> {
    let mut iter = iter;
    let mut items = Vec::new();
    while let Some(item) = iter.next() {
        items.push(item);
    }
    items
}

#[test]
fn test_new_queue_is_empty() {
    let mut queue: Queue<i32, 4> = Queue::new();
    assert_eq!(queue.pop_front(), None);
    assert_eq!(queue.into_vec(), Vec::<i32>::new());
}

#[test]
fn test_single_element() {
    let mut queue: Queue<i32, 4> = Queue::new();
    queue.push_back(42);
    assert_eq!(queue.pop_front(), Some(42));
    assert_eq!(queue.pop_front(), None);
}

#[test]
fn test_fifo_order() {
    let mut queue: Queue<i32, 4> = Queue::new();
    queue.push_back(1);
    queue.push_back(2);
    queue.push_back(3);

    assert_eq!(queue.pop_front(), Some(1));
    assert_eq!(queue.pop_front(), Some(2));
    assert_eq!(queue.pop_front(), Some(3));
    assert_eq!(queue.pop_front(), None);
}

#[test]
fn test_fill_to_capacity() {
    let mut queue: Queue<i32, 3> = Queue::new();
    queue.push_back(1);
    queue.push_back(2);
    queue.push_back(3);

    // Should still be inline
    assert!(!queue.is_spilled(), "Queue should still be inline");
    assert_eq!(queue.len(), 3);

    assert_eq!(queue.pop_front(), Some(1));
    assert_eq!(queue.pop_front(), Some(2));
    assert_eq!(queue.pop_front(), Some(3));
}

#[test]
fn test_spill_to_heap() {
    let mut queue: Queue<i32, 2> = Queue::new();
    queue.push_back(1);
    queue.push_back(2);

    // Should be inline
    assert!(!queue.is_spilled());

    // This should spill to heap
    queue.push_back(3);

    // Should now be heap
    assert!(queue.is_spilled());

    assert_eq!(queue.pop_front(), Some(1));
    assert_eq!(queue.pop_front(), Some(2));
    assert_eq!(queue.pop_front(), Some(3));
    assert_eq!(queue.pop_front(), None);
}

#[test]
fn test_operations_after_spill() {
    let mut queue: Queue<i32, 2> = Queue::new();

    // Fill and spill
    queue.push_back(1);
    queue.push_back(2);
    queue.push_back(3); // Spills here

    // Continue operations
    queue.push_back(4);
    queue.push_back(5);

    assert_eq!(queue.pop_front(), Some(1));
    assert_eq!(queue.pop_front(), Some(2));

    queue.push_back(6);

    assert_eq!(queue.pop_front(), Some(3));
    assert_eq!(queue.pop_front(), Some(4));
    assert_eq!(queue.pop_front(), Some(5));
    assert_eq!(queue.pop_front(), Some(6));
    assert_eq!(queue.pop_front(), None);
}

#[test]
fn test_circular_buffer_wraparound() {
    let mut queue: Queue<i32, 3> = Queue::new();

    // Fill the buffer
    queue.push_back(1);
    queue.push_back(2);
    queue.push_back(3);

    // Pop some elements
    assert_eq!(queue.pop_front(), Some(1));
    assert_eq!(queue.pop_front(), Some(2));

    // Add more (should wrap around)
    queue.push_back(4);
    queue.push_back(5);

    // Check order is preserved
    assert_eq!(queue.pop_front(), Some(3));
    assert_eq!(queue.pop_front(), Some(4));
    assert_eq!(queue.pop_front(), Some(5));
    assert_eq!(queue.pop_front(), None);
}

#[test]
fn test_take_all_inline() {
    let mut queue: Queue<i32, 4> = Queue::new();
    queue.push_back(1);
    queue.push_back(2);
    queue.push_back(3);

    let all = queue.into_vec();
    assert_eq!(all, vec![1, 2, 3]);
    assert_eq!(queue.pop_front(), None);
    assert_eq!(queue.into_vec(), Vec::<i32>::new());
}

#[test]
fn test_take_all_heap() {
    let mut queue: Queue<i32, 2> = Queue::new();
    queue.push_back(1);
    queue.push_back(2);
    queue.push_back(3); // Spills to heap
    queue.push_back(4);

    let all = queue.into_vec();
    assert_eq!(all, vec![1, 2, 3, 4]);
    assert_eq!(queue.pop_front(), None);
}

#[test]
fn test_take_all_with_wraparound() {
    let mut queue: Queue<i32, 4> = Queue::new();

    // Fill buffer
    queue.push_back(1);
    queue.push_back(2);
    queue.push_back(3);
    queue.push_back(4);

    // Pop some to create wraparound
    assert_eq!(queue.pop_front(), Some(1));
    assert_eq!(queue.pop_front(), Some(2));

    // Add more
    queue.push_back(5);
    queue.push_back(6);

    let all = queue.into_vec();
    assert_eq!(all, vec![3, 4, 5, 6]);
    assert_eq!(queue.pop_front(), None);
}

#[test]
fn test_empty_operations() {
    let mut queue: Queue<i32, 4> = Queue::new();

    assert_eq!(queue.pop_front(), None);
    assert_eq!(queue.into_vec(), Vec::<i32>::new());

    // After operations, should still work
    queue.push_back(1);
    assert_eq!(queue.pop_front(), Some(1));
}

#[test]
fn test_mixed_operations_sequence() {
    let mut queue: Queue<i32, 3> = Queue::new();

    queue.push_back(1);
    assert_eq!(queue.pop_front(), Some(1));

    queue.push_back(2);
    queue.push_back(3);
    assert_eq!(queue.pop_front(), Some(2));

    queue.push_back(4);
    queue.push_back(5);

    assert_eq!(queue.pop_front(), Some(3));
    assert_eq!(queue.pop_front(), Some(4));

    queue.push_back(6);
    assert_eq!(queue.pop_front(), Some(5));
    assert_eq!(queue.pop_front(), Some(6));
    assert_eq!(queue.pop_front(), None);
}

#[test]
fn test_capacity_one() {
    let mut queue: Queue<i32, 1> = Queue::new();

    queue.push_back(1);
    assert_eq!(queue.pop_front(), Some(1));

    queue.push_back(2);
    queue.push_back(3); // Should spill to heap

    assert!(queue.is_spilled());
    assert_eq!(queue.pop_front(), Some(2));
    assert_eq!(queue.pop_front(), Some(3));
}

#[test]
fn test_large_sequence() {
    let mut queue: Queue<i32, 4> = Queue::new();

    // Add many elements to test heap behavior
    for i in 0..100 {
        queue.push_back(i);
    }

    // Remove half
    for i in 0..50 {
        assert_eq!(queue.pop_front(), Some(i));
    }

    // Add more
    for i in 100..150 {
        queue.push_back(i);
    }

    // Take all remaining
    let remaining = queue.into_vec();
    let expected: Vec<i32> = (50..100).chain(100..150).collect();
    assert_eq!(remaining, expected);
}

#[test]
fn test_string_elements() {
    let mut queue: Queue<String, 2> = Queue::new();

    queue.push_back("hello".to_string());
    queue.push_back("world".to_string());

    assert_eq!(queue.pop_front(), Some("hello".to_string()));

    queue.push_back("!".to_string()); // Should spill to heap

    assert_eq!(queue.pop_front(), Some("world".to_string()));
    assert_eq!(queue.pop_front(), Some("!".to_string()));
}

#[test]
fn test_clone_elements() {
    #[derive(Clone, PartialEq, Debug)]
    struct TestStruct(i32);

    let mut queue: Queue<TestStruct, 2> = Queue::new();

    queue.push_back(TestStruct(1));
    queue.push_back(TestStruct(2));
    queue.push_back(TestStruct(3)); // Spill to heap

    assert_eq!(queue.pop_front(), Some(TestStruct(1)));
    assert_eq!(queue.pop_front(), Some(TestStruct(2)));
    assert_eq!(queue.pop_front(), Some(TestStruct(3)));
}

#[test]
fn test_zero_capacity_compiles() {
    // This should compile but immediately spill to heap
    let mut queue: Queue<i32, 0> = Queue::new();
    queue.push_back(1);
    assert!(queue.is_spilled());
    assert_eq!(queue.pop_front(), Some(1));
}

#[test]
fn test_alternating_push_pop() {
    let mut queue: Queue<i32, 3> = Queue::new();

    for i in 0..10 {
        queue.push_back(i);
        assert_eq!(queue.pop_front(), Some(i));
    }

    assert_eq!(queue.pop_front(), None);
}

#[test]
fn test_take_all_after_wraparound_edge_case() {
    let mut queue: Queue<i32, 3> = Queue::new();

    // Create a specific wraparound scenario
    queue.push_back(1);
    queue.push_back(2);
    queue.push_back(3);

    // Pop all but one
    assert_eq!(queue.pop_front(), Some(1));
    assert_eq!(queue.pop_front(), Some(2));

    // Add to wrap around
    queue.push_back(4);
    queue.push_back(5);

    // Now we have: [4, 5, 3] with head pointing to index 2 (element 3)
    let all = queue.into_vec();
    assert_eq!(all, vec![3, 4, 5]);
}

#[test]
fn test_reuse_after_take_all() {
    let mut queue: Queue<i32, 3> = Queue::new();

    queue.push_back(1);
    queue.push_back(2);
    let _ = queue.into_vec();

    // Should be reset and reusable
    queue.push_back(3);
    queue.push_back(4);
    assert_eq!(queue.pop_front(), Some(3));
    assert_eq!(queue.pop_front(), Some(4));
}

#[test]
fn test_iter_inline() {
    let mut queue: Queue<i32, 4> = Queue::new();
    queue.push_back(1);
    queue.push_back(2);
    queue.push_back(3);

    let items: Vec<&i32> = collect(queue.iter());
    assert_eq!(items, vec![&1, &2, &3]);

    // Original queue should be unchanged
    assert_eq!(queue.pop_front(), Some(1));
}

#[test]
fn test_iter_heap() {
    let mut queue: Queue<i32, 2> = Queue::new();
    queue.push_back(1);
    queue.push_back(2);
    queue.push_back(3); // Spills to heap

    let items: Vec<&i32> = collect(queue.iter());
    assert_eq!(items, vec![&1, &2, &3]);

    // Original queue should be unchanged
    assert_eq!(queue.pop_front(), Some(1));
}

#[test]
fn test_iter_with_wraparound() {
    let mut queue: Queue<i32, 4> = Queue::new();

    // Fill buffer
    queue.push_back(1);
    queue.push_back(2);
    queue.push_back(3);
    queue.push_back(4);

    // Pop some to create wraparound
    assert_eq!(queue.pop_front(), Some(1));
    assert_eq!(queue.pop_front(), Some(2));

    // Add more
    queue.push_back(5);
    queue.push_back(6);

    let items: Vec<&i32> = collect(queue.iter());
    assert_eq!(items, vec![&3, &4, &5, &6]);
}

#[test]
fn test_iter_empty() {
    let queue: Queue<i32, 4> = Queue::new();
    let items: Vec<&i32> = collect(queue.iter());
    assert_eq!(items, Vec::<&i32>::new());
}

#[test]
fn test_into_iter_inline() {
    let mut queue: Queue<i32, 4> = Queue::new();
    queue.push_back(1);
    queue.push_back(2);
    queue.push_back(3);

    let items: Vec<i32> = drain(queue.into_iter());
    assert_eq!(items, vec![1, 2, 3]);
}

#[test]
fn test_into_iter_heap() {
    let mut queue: Queue<i32, 2> = Queue::new();
    queue.push_back(1);
    queue.push_back(2);
    queue.push_back(3); // Spills to heap

    let items: Vec<i32> = drain(queue.into_iter());
    assert_eq!(items, vec![1, 2, 3]);
}

#[test]
fn test_iter_size_hint() {
    let mut queue: Queue<i32, 3> = Queue::new();
    queue.push_back(1);
    queue.push_back(2);

    let mut iter = queue.iter();
    assert_eq!(iter.size_hint(), (2, Some(2)));
    assert_eq!(iter.len(), 2);

    iter.next();
    assert_eq!(iter.size_hint(), (1, Some(1)));
    assert_eq!(iter.len(), 1);

    iter.next();
    assert_eq!(iter.size_hint(), (0, Some(0)));
    assert_eq!(iter.len(), 0);
}

#[test]
fn test_into_iter_size_hint() {
    let mut queue: Queue<i32, 3> = Queue::new();
    queue.push_back(1);
    queue.push_back(2);

    let mut iter = queue.into_iter();
    assert_eq!(iter.size_hint(), (2, Some(2)));
    assert_eq!(iter.len(), 2);

    iter.next();
    assert_eq!(iter.size_hint(), (1, Some(1)));
    assert_eq!(iter.len(), 1);
}

#[test]
fn test_iter_for_loop() {
    let mut queue: Queue<i32, 3> = Queue::new();
    queue.push_back(1);
    queue.push_back(2);
    queue.push_back(3);

    let mut sum = 0;
    for value in collect_copied(queue.iter()) {
        sum += value;
    }
    assert_eq!(sum, 6);

    // Queue should be unchanged
    assert_eq!(collect(queue.iter()).len(), 3);
}

#[test]
fn test_into_iter_for_loop() {
    let mut queue: Queue<i32, 3> = Queue::new();
    queue.push_back(1);
    queue.push_back(2);
    queue.push_back(3);

    let mut sum = 0;
    let mut iter = queue.into_iter();
    while let Some(value) = iter.next() {
        sum += value;
    }
    assert_eq!(sum, 6);
}

#[test]
fn test_debug() {
    let mut queue: Queue<i32, 3> = Queue::new();
    queue.push_back(1);
    queue.push_back(2);
    queue.push_back(3);

    let debug_str = format!("{:?}", queue.to_refs());
    assert_eq!(debug_str, "[1, 2, 3]");
}

#[test]
fn test_clone() {
    let mut queue: Queue<i32, 3> = Queue::new();
    queue.push_back(1);
    queue.push_back(2);

    let cloned = queue.clone();
    assert_eq!(queue, cloned);

    // Verify they're independent
    queue.push_back(3);
    assert_ne!(queue, cloned);
}

#[test]
fn test_partial_eq() {
    let mut queue1: Queue<i32, 3> = Queue::new();
    let mut queue2: Queue<i32, 3> = Queue::new();

    queue1.push_back(1);
    queue1.push_back(2);
    queue2.push_back(1);
    queue2.push_back(2);

    assert_eq!(queue1, queue2);

    queue2.push_back(3);
    assert_ne!(queue1, queue2);
}

#[test]
fn queue_test_default() {
    let queue: Queue<i32, 3> = Queue::default();
    assert!(queue.is_empty());
    assert_eq!(queue.len(), 0);
}

#[test]
fn test_from_vec() {
    let vec = vec![1, 2, 3, 4];
    let queue: Queue<i32, 2> = Queue::from(vec);

    let items: Vec<i32> = drain(queue.into_iter());
    assert_eq!(items, vec![1, 2, 3, 4]);
}

#[test]
fn test_from_vec_deque() {
    let mut vec_deque = VecDeque::new();
    vec_deque.push_back(1);
    vec_deque.push_back(2);
    vec_deque.push_back(3);

    let queue: Queue<i32, 2> = Queue::from(vec_deque);
    let items: Vec<i32> = drain(queue.into_iter());
    assert_eq!(items, vec![1, 2, 3]);
}

#[test]
fn test_extend() {
    let mut queue: Queue<i32, 2> = Queue::new();
    queue.push_back(1);

    queue.extend(vec![2, 3, 4].into_iter());
    let items: Vec<i32> = drain(queue.into_iter());
    assert_eq!(items, vec![1, 2, 3, 4]);
}

#[test]
fn test_from_iterator() {
    let queue: Queue<i32, 2> = Queue::from_iter(1..=4);
    let items: Vec<i32> = drain(queue.into_iter());
    assert_eq!(items, vec![1, 2, 3, 4]);
}

#[test]
fn test_len_and_is_empty() {
    let mut queue: Queue<i32, 3> = Queue::new();
    assert_eq!(queue.len(), 0);
    assert!(queue.is_empty());

    queue.push_back(1);
    assert_eq!(queue.len(), 1);
    assert!(!queue.is_empty());

    queue.push_back(2);
    queue.push_back(3);
    assert_eq!(queue.len(), 3);

    queue.pop_front();
    assert_eq!(queue.len(), 2);
    assert!(!queue.is_empty());
}

#[test]
fn test_len_and_is_empty_after_spill() {
    let mut queue: Queue<i32, 2> = Queue::new();
    queue.push_back(1);
    queue.push_back(2);
    queue.push_back(3); // Spills to heap

    assert_eq!(queue.len(), 3);
    assert!(!queue.is_empty());

    queue.pop_front();
    assert_eq!(queue.len(), 2);
}

#[test]
fn test_eq_with_different_storage() {
    let mut inline_queue: Queue<i32, 4> = Queue::new();
    inline_queue.push_back(1);
    inline_queue.push_back(2);

    let mut heap_queue: Queue<i32, 1> = Queue::new();
    heap_queue.push_back(1);
    heap_queue.push_back(2); // Spills to heap, contains [1, 2]

    // Compare their contents since they have different N values
    let inline_contents: Vec<_> = collect(inline_queue.iter());
    let heap_contents: Vec<_> = collect(heap_queue.iter());
    assert_eq!(inline_contents, heap_contents);
}

#[test]
fn test_push_front_basic() {
    let mut queue: Queue<i32, 4> = Queue::new();
    queue.push_front(1);
    queue.push_front(2);
    queue.push_front(3);

    assert_eq!(queue.pop_front(), Some(3));
    assert_eq!(queue.pop_front(), Some(2));
    assert_eq!(queue.pop_front(), Some(1));
    assert_eq!(queue.pop_front(), None);
}

#[test]
fn test_pop_back_basic() {
    let mut queue: Queue<i32, 4> = Queue::new();
    queue.push_back(1);
    queue.push_back(2);
    queue.push_back(3);

    assert_eq!(queue.pop_back(), Some(3));
    assert_eq!(queue.pop_back(), Some(2));
    assert_eq!(queue.pop_back(), Some(1));
    assert_eq!(queue.pop_back(), None);
}

#[test]
fn test_mixed_push_front_back() {
    let mut queue: Queue<i32, 4> = Queue::new();
    queue.push_back(1);
    queue.push_front(2);
    queue.push_back(3);
    queue.push_front(4);

    // Queue should be: [4, 2, 1, 3]
    assert_eq!(queue.pop_front(), Some(4));
    assert_eq!(queue.pop_back(), Some(3));
    assert_eq!(queue.pop_front(), Some(2));
    assert_eq!(queue.pop_back(), Some(1));
    assert_eq!(queue.pop_front(), None);
}

#[test]
fn test_push_front_spill_to_heap() {
    let mut queue: Queue<i32, 3> = Queue::new();
    queue.push_front(1);
    queue.push_front(2);
    queue.push_front(3);

    // This should trigger spill to heap
    queue.push_front(4);

    // Verify order is preserved
    assert_eq!(queue.pop_front(), Some(4));
    assert_eq!(queue.pop_front(), Some(3));
    assert_eq!(queue.pop_front(), Some(2));
    assert_eq!(queue.pop_front(), Some(1));
}

#[test]
fn test_wraparound_with_push_front_pop_back() {
    let mut queue: Queue<i32, 4> = Queue::new();

    // Fill partially and create wraparound
    queue.push_back(1);
    queue.push_back(2);
    assert_eq!(queue.pop_front(), Some(1));

    queue.push_front(3);
    queue.push_back(4);
    queue.push_front(5);

    // Queue should be: [5, 3, 2, 4]
    assert_eq!(queue.pop_back(), Some(4));
    assert_eq!(queue.pop_front(), Some(5));
    assert_eq!(queue.pop_back(), Some(2));
    assert_eq!(queue.pop_front(), Some(3));
}

#[test]
fn test_alternating_all_operations() {
    let mut queue: Queue<i32, 5> = Queue::new();

    queue.push_back(1);
    queue.push_front(2);
    assert_eq!(queue.pop_back(), Some(1));

    queue.push_back(3);
    queue.push_front(4);
    queue.push_back(5);
    assert_eq!(queue.pop_front(), Some(4));

    queue.push_front(6);
    assert_eq!(queue.pop_back(), Some(5));

    // Queue should now have: [6, 2, 3]
    assert_eq!(queue.len(), 3);

    let vec: Vec<i32> = collect_copied(queue.iter());
    assert_eq!(vec, vec![6, 2, 3]);
}

#[test]
fn test_push_front_pop_back_after_spill() {
    let mut queue: Queue<i32, 2> = Queue::new();

    // Fill to capacity
    queue.push_back(1);
    queue.push_back(2);

    // Spill to heap
    queue.push_back(3);

    // Test operations work correctly on heap storage
    queue.push_front(4);
    queue.push_back(5);

    assert_eq!(queue.pop_back(), Some(5));
    assert_eq!(queue.pop_front(), Some(4));
    assert_eq!(queue.len(), 3);
}

#[test]
fn test_with_capacity() {
    // Small capacity - should create inline
    let queue: Queue<i32, 4> = Queue::with_capacity(3);
    assert!(!queue.is_spilled());

    // Large capacity - should create heap
    let queue: Queue<i32, 4> = Queue::with_capacity(10);
    assert!(queue.is_spilled());
}

#[test]
fn test_reserve() {
    let mut queue: Queue<i32, 4> = Queue::new();
    queue.push_back(1);
    queue.push_back(2);

    // Reserve within inline capacity - should stay inline
    queue.reserve(1);
    assert!(!queue.is_spilled());

    // Reserve beyond inline capacity - should spill to heap
    queue.reserve(5);
    assert!(queue.is_spilled());

    // Check that elements are preserved
    assert_eq!(queue.pop_front(), Some(1));
    assert_eq!(queue.pop_front(), Some(2));
}

#[test]
fn test_reserve_with_wraparound() {
    let mut queue: Queue<i32, 4> = Queue::new();

    // Create wraparound scenario
    queue.push_back(1);
    queue.push_back(2);
    queue.push_back(3);
    queue.pop_front();
    queue.push_back(4);
    queue.push_back(5);

    // Now reserve to force spill
    queue.reserve(3);
    assert!(queue.is_spilled());

    // Verify order is preserved
    assert_eq!(queue.pop_front(), Some(2));
    assert_eq!(queue.pop_front(), Some(3));
    assert_eq!(queue.pop_front(), Some(4));
    assert_eq!(queue.pop_front(), Some(5));
}

#[test]
fn test_make_contiguous_inline() {
    let mut queue: Queue<i32, 6> = Queue::new();

    // Test empty queue
    let slice = queue.make_contiguous();
    assert_eq!(slice, &[]);

    // Test contiguous elements
    queue.push_back(1);
    queue.push_back(2);
    queue.push_back(3);
    let slice = queue.make_contiguous();
    assert_eq!(slice, &[1, 2, 3]);

    // Test with wraparound
    let mut queue: Queue<i32, 4> = Queue::new();
    queue.push_back(1);
    queue.push_back(2);
    queue.push_back(3);
    queue.pop_front();
    queue.push_back(4);
    queue.push_back(5);

    let slice = queue.make_contiguous();
    assert_eq!(slice, &[2, 3, 4, 5]);
}

#[test]
fn test_make_contiguous_heap() {
    let mut queue: Queue<i32, 2> = Queue::new();
    queue.push_back(1);
    queue.push_back(2);
    queue.push_back(3); // Spills to heap

    let slice = queue.make_contiguous();
    assert_eq!(slice, &[1, 2, 3]);
}

#[test]
fn test_clear() {
    let mut queue: Queue<i32, 4> = Queue::new();
    queue.push_back(1);
    queue.push_back(2);
    queue.push_back(3);

    queue.clear();
    assert_eq!(queue.len(), 0);
    assert!(queue.is_empty());
    assert_eq!(queue.pop_front(), None);

    // Can use after clear
    queue.push_back(4);
    assert_eq!(queue.pop_front(), Some(4));
}

#[test]
fn test_clear_heap() {
    let mut queue: Queue<i32, 2> = Queue::new();
    queue.push_back(1);
    queue.push_back(2);
    queue.push_back(3); // Spills to heap

    queue.clear();
    assert_eq!(queue.len(), 0);
    assert!(queue.is_empty());
}

#[test]
fn test_clear_with_wraparound() {
    let mut queue: Queue<String, 4> = Queue::new();
    queue.push_back("a".to_string());
    queue.push_back("b".to_string());
    queue.pop_front();
    queue.push_back("c".to_string());
    queue.push_back("d".to_string());

    queue.clear();
    assert_eq!(queue.len(), 0);
    assert!(queue.is_empty());
}

#[test]
fn test_swap() {
    let mut queue: Queue<i32, 5> = Queue::new();
    queue.push_back(10);
    queue.push_back(20);
    queue.push_back(30);
    queue.push_back(40);

    // Swap first and last elements
    queue.swap(0, 3);
    let vec: Vec<_> = collect_copied(queue.iter());
    assert_eq!(vec, vec![40, 20, 30, 10]);

    // Swap middle elements
    queue.swap(1, 2);
    let vec: Vec<_> = collect_copied(queue.iter());
    assert_eq!(vec, vec![40, 30, 20, 10]);
}

#[test]
fn test_swap_with_wraparound() {
    let mut queue: Queue<i32, 4> = Queue::new();
    queue.push_back(1);
    queue.push_back(2);
    queue.push_back(3);
    queue.pop_front();
    queue.push_back(4);
    queue.push_back(5);

    // Queue is now [2, 3, 4, 5] with wraparound
    queue.swap(0, 3);
    let vec: Vec<_> = collect_copied(queue.iter());
    assert_eq!(vec, vec![5, 3, 4, 2]);
}

#[test]
fn test_swap_heap() {
    let mut queue: Queue<i32, 2> = Queue::new();
    queue.push_back(1);
    queue.push_back(2);
    queue.push_back(3);
    queue.push_back(4);

    queue.swap(0, 3);
    assert_eq!(queue.pop_front(), Some(4));
}

#[test]
fn test_swap_same_index() {
    let mut queue: Queue<i32, 4> = Queue::new();
    queue.push_back(1);
    queue.push_back(2);

    queue.swap(1, 1);
    let vec: Vec<_> = collect_copied(queue.iter());
    assert_eq!(vec, vec![1, 2]);
}

#[test]
fn test_iter_mut() {
    let mut queue: Queue<i32, 4> = Queue::new();
    queue.push_back(1);
    queue.push_back(2);
    queue.push_back(3);

    // Modify all elements
    let mut iter = queue.iter_mut();
    while let Some(val) = iter.next() {
        *val *= 2;
    }

    let vec: Vec<_> = collect_copied(queue.iter());
    assert_eq!(vec, vec![2, 4, 6]);
}

#[test]
fn test_iter_mut_with_wraparound() {
    let mut queue: Queue<i32, 4> = Queue::new();
    queue.push_back(1);
    queue.push_back(2);
    queue.push_back(3);
    queue.pop_front();
    queue.push_back(4);
    queue.push_back(5);

    // Add 10 to each element
    let mut iter = queue.iter_mut();
    while let Some(val) = iter.next() {
        *val += 10;
    }

    let vec: Vec<_> = collect_copied(queue.iter());
    assert_eq!(vec, vec![12, 13, 14, 15]);
}

#[test]
fn test_iter_mut_heap() {
    let mut queue: Queue<i32, 2> = Queue::new();
    queue.push_back(1);
    queue.push_back(2);
    queue.push_back(3);

    let mut iter = queue.iter_mut();
    while let Some(val) = iter.next() {
        *val *= 3;
    }

    assert_eq!(queue.pop_front(), Some(3));
    assert_eq!(queue.pop_front(), Some(6));
    assert_eq!(queue.pop_front(), Some(9));
}

#[test]
fn test_iter_mut_size_hint() {
    let mut queue: Queue<i32, 4> = Queue::new();
    queue.push_back(1);
    queue.push_back(2);
    queue.push_back(3);

    let mut iter = queue.iter_mut();
    assert_eq!(iter.size_hint(), (3, Some(3)));
    assert_eq!(iter.len(), 3);

    iter.next();
    assert_eq!(iter.size_hint(), (2, Some(2)));
    assert_eq!(iter.len(), 2);
}

#[test]
fn queue_retain_keeps_order_and_storage() {
    let mut inline: Queue<i32, 4> = Queue::from_iter(1..=4);
    inline.pop_front();
    inline.push_back(5);
    inline.retain(|x: &i32| *x % 2 == 1);
    assert!(!inline.is_spilled());
    assert_eq!(collect_copied(inline.iter()), vec![3, 5]);

    let mut heap: Queue<i32, 2> = Queue::from_iter(1..=6);
    heap.retain(|x: &i32| *x > 2);
    assert!(heap.is_spilled());
    assert_eq!(collect_copied(heap.iter()), vec![3, 4, 5, 6]);

    heap.retain(|_: &i32| false);
    assert!(heap.is_empty());
    assert!(heap.is_spilled());
}

#[test]
fn queue_writes_through_contiguous_slice() {
    let mut queue: Queue<i32, 3> = Queue::from_iter(1..=3);
    queue.pop_front();
    queue.push_back(4);
    let slice = queue.make_contiguous();
    slice[0] = 20;
    slice[2] = 40;
    assert_eq!(collect_copied(queue.iter()), vec![20, 3, 40]);
}

#[test]
fn queue_full_contiguous_then_refilled() {
    // A full queue stays usable after its items were made contiguous.
    let mut queue: Queue<i32, 3> = Queue::from_iter(1..=3);
    assert_eq!(queue.make_contiguous(), &[1, 2, 3]);
    assert_eq!(queue.pop_front(), Some(1));
    queue.push_back(4);
    assert_eq!(queue.into_vec(), vec![2, 3, 4]);
}

#[test]
fn queue_swap_moves_both_items() {
    let mut queue: Queue<&str, 1> = Queue::new();
    queue.push_back("a");
    queue.push_back("b");
    queue.push_back("c");
    queue.swap(0, 2);
    assert_eq!(queue.into_vec(), vec!["c", "b", "a"]);
}

#[test]
fn queue_both_ends_are_stacks() {
    let mut queue: Queue<i32, 2> = Queue::new();
    for i in 0..5 {
        queue.push_back(i);
        queue.push_front(-i);
    }
    assert_eq!(queue.pop_back(), Some(4));
    assert_eq!(queue.pop_front(), Some(-4));
    queue.push_back(7);
    assert_eq!(queue.pop_back(), Some(7));
    queue.push_front(8);
    assert_eq!(queue.pop_front(), Some(8));
    assert_eq!(queue.len(), 8);
}

#[test]
fn queue_dropped_items_are_dropped_once() {
    let item = Rc::new(());
    let mut queue: Queue<Rc<()>, 2> = Queue::new();
    queue.push_back(item.clone());
    queue.push_back(item.clone());
    assert_eq!(Rc::strong_count(&item), 3);
    queue.pop_front();
    assert_eq!(Rc::strong_count(&item), 2);
    queue.clear();
    assert_eq!(Rc::strong_count(&item), 1);
    queue.push_back(item.clone());
    drop(queue);
    assert_eq!(Rc::strong_count(&item), 1);
}
