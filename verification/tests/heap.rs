use swift_rt::heap::{BoxPair, Heap, OpaqueValue, HEADER_SIZE};
use swift_rt::model::Phase;

#[test]
fn fresh_object_has_one_strong_reference() {
    let mut heap = Heap::new();
    let a = heap.alloc_object(0x1000, 32, 7);
    assert_eq!(a, 1);
    assert!(heap.contains(a));
    assert!(heap.is_live(a));
    assert_eq!(heap.retain_count(a), 1);
    assert_eq!(heap.unowned_retain_count(a), 1);
    assert_eq!(heap.weak_retain_count(a), 1);
    assert_eq!(heap.teardown_count(a), 0);
    let object = heap.object(a);
    assert_eq!(object.as_ptr(), a);
    assert_eq!(object.header.metadata, 0x1000);
    assert_eq!(object.size, 32);
    assert_eq!(object.align_mask, 7);
    assert!(!heap.contains(0));
    assert!(!heap.contains(2));
}

#[test]
fn addresses_are_never_used_twice() {
    let mut heap = Heap::new();
    let a = heap.alloc_object(1, 16, 7);
    heap.release(a);
    assert!(!heap.is_allocated(a));
    let b = heap.alloc_object(1, 16, 7);
    assert_ne!(a, b);
    assert_eq!(b, 2);
}

#[test]
fn strong_count_follows_retains_and_releases() {
    let mut heap = Heap::new();
    let a = heap.alloc_object(1, 16, 7);
    assert_eq!(heap.retain(a), a);
    assert_eq!(heap.retain(a), a);
    assert_eq!(heap.retain(a), a);
    heap.release(a);
    heap.release(a);
    // one, three retains, two releases
    assert_eq!(heap.retain_count(a), 2);
    assert_eq!(heap.teardown_count(a), 0);
    heap.release(a);
    assert_eq!(heap.retain_count(a), 1);
    assert_eq!(heap.teardown_count(a), 0);
    heap.release(a);
    assert_eq!(heap.teardown_count(a), 1);
    assert_eq!(heap.phase(a), Phase::Freed);
    assert!(!heap.is_allocated(a));
    assert!(!heap.is_live(a));
}

#[test]
fn retain_n_and_release_n_move_the_count_by_n() {
    let mut heap = Heap::new();
    let a = heap.alloc_object(1, 16, 7);
    assert_eq!(heap.retain_n(a, 5), a);
    assert_eq!(heap.retain_count(a), 6);
    heap.release_n(a, 2);
    assert_eq!(heap.retain_count(a), 4);
    heap.release_n(a, 0);
    assert_eq!(heap.retain_count(a), 4);
    assert_eq!(heap.nonatomic_retain_n(a, 3), a);
    assert_eq!(heap.retain_count(a), 7);
    heap.nonatomic_release_n(a, 6);
    assert_eq!(heap.retain_count(a), 1);
    assert!(heap.is_live(a));
    assert_eq!(heap.nonatomic_retain(a), a);
    heap.nonatomic_release(a);
    heap.release_n(a, 1);
    assert_eq!(heap.teardown_count(a), 1);
    assert!(!heap.is_allocated(a));
}

#[test]
fn release_n_of_all_references_tears_down_once() {
    let mut heap = Heap::new();
    let a = heap.alloc_object(1, 16, 7);
    heap.retain_n(a, 9);
    heap.release_n(a, 10);
    assert_eq!(heap.teardown_count(a), 1);
    assert_eq!(heap.phase(a), Phase::Freed);
}

#[test]
fn the_absent_object_is_left_alone() {
    let mut heap = Heap::new();
    let a = heap.alloc_object(1, 16, 7);
    assert_eq!(heap.retain(0), 0);
    assert_eq!(heap.retain_n(0, 4), 0);
    heap.release(0);
    heap.release_n(0, 4);
    assert_eq!(heap.unowned_retain(0), 0);
    assert_eq!(heap.unowned_retain_n(0, 3), 0);
    heap.unowned_release(0);
    heap.unowned_release_n(0, 3);
    assert_eq!(heap.retain_count(a), 1);
    assert_eq!(heap.unowned_retain_count(a), 1);
    assert_eq!(heap.weak_retain_count(a), 1);
}

#[test]
fn unowned_reference_keeps_the_header_not_the_payload() {
    let mut heap = Heap::new();
    let pair = heap.alloc_box(1, 3, 7);
    let a = pair.object;
    heap.initialize_box(a, OpaqueValue::from_bytes(vec![1, 2, 3]));
    assert_eq!(heap.unowned_retain(a), a);
    assert_eq!(heap.unowned_retain_count(a), 2);
    heap.release(a);
    assert!(heap.is_allocated(a));
    assert!(!heap.is_live(a));
    assert_eq!(heap.phase(a), Phase::Deinited);
    assert_eq!(heap.teardown_count(a), 1);
    assert_eq!(*heap.project_box(a), None);
    assert_eq!(heap.retain_count(a), 0);
    assert_eq!(heap.unowned_retain_count(a), 2);
    heap.unowned_release(a);
    assert_eq!(heap.phase(a), Phase::Freed);
    assert!(!heap.is_allocated(a));
}

#[test]
fn unowned_counts_move_by_n() {
    let mut heap = Heap::new();
    let a = heap.alloc_object(1, 16, 7);
    heap.unowned_retain_n(a, 4);
    assert_eq!(heap.unowned_retain_count(a), 5);
    heap.nonatomic_unowned_retain(a);
    heap.nonatomic_unowned_retain_n(a, 2);
    assert_eq!(heap.unowned_retain_count(a), 8);
    heap.unowned_release_n(a, 3);
    heap.nonatomic_unowned_release(a);
    heap.nonatomic_unowned_release_n(a, 2);
    assert_eq!(heap.unowned_retain_count(a), 2);
    assert_eq!(heap.retain_count(a), 1);
    assert!(heap.is_live(a));
    heap.unowned_release(a);
    assert_eq!(heap.unowned_retain_count(a), 1);
    assert!(heap.is_live(a));
}

#[test]
fn weak_load_retains_a_live_object() {
    let mut heap = Heap::new();
    let a = heap.alloc_object(1, 16, 7);
    let slot = heap.weak_init(a);
    assert_eq!(slot, 1);
    assert!(heap.has_slot(slot));
    assert_eq!(heap.slot_target(slot), a);
    assert_eq!(heap.weak_retain_count(a), 2);
    assert_eq!(heap.weak_load_strong(slot), a);
    assert_eq!(heap.retain_count(a), 2);
    heap.release(a);
    assert_eq!(heap.retain_count(a), 1);
    assert!(heap.is_live(a));
}

#[test]
fn weak_load_after_the_last_release_is_absent() {
    let mut heap = Heap::new();
    let a = heap.alloc_object(1, 16, 7);
    let slot = heap.weak_init(a);
    heap.release(a);
    assert_eq!(heap.phase(a), Phase::Deinited);
    assert_eq!(heap.weak_load_strong(slot), 0);
    assert_eq!(heap.retain_count(a), 0);
    heap.weak_destroy(slot);
    assert!(!heap.has_slot(slot));
    assert_eq!(heap.phase(a), Phase::Freed);
}

#[test]
fn weak_slot_bound_to_nothing_loads_nothing() {
    let mut heap = Heap::new();
    let slot = heap.weak_init(0);
    assert_eq!(heap.slot_target(slot), 0);
    assert_eq!(heap.weak_load_strong(slot), 0);
    assert_eq!(heap.weak_take_strong(slot), 0);
    assert!(!heap.has_slot(slot));
}

#[test]
fn weak_take_is_load_then_destroy() {
    let mut taken = Heap::new();
    let a = taken.alloc_object(1, 16, 7);
    let slot = taken.weak_init(a);
    let mut loaded = Heap::new();
    let b = loaded.alloc_object(1, 16, 7);
    let other = loaded.weak_init(b);
    assert_eq!((a, slot), (b, other));

    assert_eq!(taken.weak_take_strong(slot), a);
    assert_eq!(loaded.weak_load_strong(other), b);
    loaded.weak_destroy(other);

    assert_eq!(taken.retain_count(a), 2);
    assert_eq!(loaded.retain_count(b), 2);
    assert_eq!(taken.weak_retain_count(a), 1);
    assert_eq!(loaded.weak_retain_count(b), 1);
    assert!(!taken.has_slot(slot));
    assert!(!loaded.has_slot(other));
}

#[test]
fn weak_take_after_the_last_release_frees_the_header() {
    let mut heap = Heap::new();
    let a = heap.alloc_object(1, 16, 7);
    let slot = heap.weak_init(a);
    heap.release(a);
    assert!(heap.is_allocated(a));
    assert_eq!(heap.weak_take_strong(slot), 0);
    assert!(!heap.is_allocated(a));
}

#[test]
fn weak_assign_moves_the_binding() {
    let mut heap = Heap::new();
    let a = heap.alloc_object(1, 16, 7);
    let b = heap.alloc_object(1, 16, 7);
    let slot = heap.weak_init(a);
    assert_eq!(heap.weak_assign(slot, b), slot);
    assert_eq!(heap.weak_retain_count(a), 1);
    assert_eq!(heap.weak_retain_count(b), 2);
    assert_eq!(heap.slot_target(slot), b);
    assert_eq!(heap.weak_assign(slot, b), slot);
    assert_eq!(heap.weak_retain_count(b), 2);
    assert_eq!(heap.weak_assign(slot, 0), slot);
    assert_eq!(heap.weak_retain_count(b), 1);
    assert_eq!(heap.weak_load_strong(slot), 0);
}

#[test]
fn weak_assign_away_from_a_dead_object_frees_it() {
    let mut heap = Heap::new();
    let a = heap.alloc_object(1, 16, 7);
    let b = heap.alloc_object(1, 16, 7);
    let slot = heap.weak_init(a);
    heap.release(a);
    assert_eq!(heap.phase(a), Phase::Deinited);
    heap.weak_assign(slot, b);
    assert_eq!(heap.phase(a), Phase::Freed);
}

#[test]
fn release_runs_on_through_the_payload() {
    let mut heap = Heap::new();
    let inner = heap.alloc_box(1, 2, 7).object;
    heap.initialize_box(inner, OpaqueValue::from_bytes(vec![7, 8]));
    let middle = heap.alloc_box(2, 8, 7).object;
    heap.initialize_box(middle, OpaqueValue::from_reference(inner));
    let outer = heap.alloc_box(2, 8, 7).object;
    heap.initialize_box(outer, OpaqueValue::from_reference(middle));
    assert_eq!(heap.held_count(inner), 1);
    assert_eq!(heap.held_count(middle), 1);
    assert_eq!(heap.held_count(outer), 0);
    assert!(!heap.is_releasable(inner));
    assert!(heap.is_releasable(outer));

    heap.release(outer);
    assert_eq!(heap.phase(outer), Phase::Freed);
    assert_eq!(heap.phase(middle), Phase::Freed);
    assert_eq!(heap.phase(inner), Phase::Freed);
    assert_eq!(heap.teardown_count(outer), 1);
    assert_eq!(heap.teardown_count(middle), 1);
    assert_eq!(heap.teardown_count(inner), 1);
}

#[test]
fn release_stops_at_an_object_that_is_still_referred_to() {
    let mut heap = Heap::new();
    let shared = heap.alloc_object(1, 16, 7);
    heap.retain(shared);
    let holder = heap.alloc_box(2, 8, 7).object;
    heap.initialize_box(holder, OpaqueValue::from_reference(shared));
    assert_eq!(heap.retain_count(shared), 2);
    assert_eq!(heap.held_count(shared), 1);
    heap.release(holder);
    assert_eq!(heap.phase(holder), Phase::Freed);
    assert!(heap.is_live(shared));
    assert_eq!(heap.retain_count(shared), 1);
    assert_eq!(heap.held_count(shared), 0);
    assert_eq!(heap.teardown_count(shared), 0);
}

#[test]
fn box_of_a_null_reference_tears_down_alone() {
    let mut heap = Heap::new();
    let other = heap.alloc_object(1, 16, 7);
    let holder = heap.alloc_box(2, 8, 7).object;
    heap.initialize_box(holder, OpaqueValue::from_reference(0));
    heap.release(holder);
    assert_eq!(heap.phase(holder), Phase::Freed);
    assert_eq!(heap.retain_count(other), 1);
}

#[test]
fn box_allocation_adds_the_header() {
    let mut heap = Heap::new();
    let pair = heap.alloc_box(9, 24, 15);
    assert_eq!(pair, BoxPair { object: 1, buffer: 1 });
    assert_eq!(heap.object(pair.object).size, HEADER_SIZE + 24);
    assert_eq!(heap.object(pair.object).size, 40);
    assert_eq!(heap.object(pair.object).align_mask, 15);
    assert_eq!(heap.object(pair.object).header.metadata, 9);
    assert_eq!(*heap.project_box(pair.buffer), None);
    heap.dealloc_box(pair.object);
    assert_eq!(heap.phase(pair.object), Phase::Freed);
    assert_eq!(heap.teardown_count(pair.object), 0);
}

#[test]
fn payload_moves_in_and_out() {
    let mut heap = Heap::new();
    let a = heap.alloc_box(1, 2, 7).object;
    heap.initialize_box(a, OpaqueValue::from_bytes(vec![4, 5]));
    assert_eq!(*heap.project_box(a), Some(OpaqueValue::from_bytes(vec![4, 5])));
    assert_eq!(heap.take_box(a), Some(OpaqueValue::from_bytes(vec![4, 5])));
    assert_eq!(*heap.project_box(a), None);
    assert_eq!(heap.take_box(a), None);
}

#[test]
fn taking_a_reference_out_leaves_it_with_the_caller() {
    let mut heap = Heap::new();
    let target = heap.alloc_object(1, 16, 7);
    let holder = heap.alloc_box(2, 8, 7).object;
    heap.initialize_box(holder, OpaqueValue::from_reference(target));
    assert!(!heap.is_releasable(target));
    let value = heap.take_box(holder).unwrap();
    assert_eq!(value, OpaqueValue::from_reference(target));
    assert!(heap.is_releasable(target));
    heap.destroy_value(value);
    assert_eq!(heap.phase(target), Phase::Freed);
    assert!(heap.is_live(holder));
}

#[test]
fn copy_of_a_reference_retains() {
    let mut heap = Heap::new();
    let target = heap.alloc_object(1, 16, 7);
    let value = OpaqueValue::from_reference(target);
    let copy = heap.copy_value(&value);
    assert_eq!(copy, value);
    assert_eq!(heap.retain_count(target), 2);
    heap.destroy_value(copy);
    assert_eq!(heap.retain_count(target), 1);
    let bytes = OpaqueValue::from_bytes(vec![1, 2, 3]);
    let same = heap.copy_value(&bytes);
    assert_eq!(same, OpaqueValue::from_bytes(vec![1, 2, 3]));
    heap.destroy_value(same);
    assert_eq!(heap.retain_count(target), 1);
}

#[test]
fn unique_box_is_returned_as_it_is() {
    let mut heap = Heap::new();
    let b = heap.alloc_box(3, 2, 7).object;
    heap.initialize_box(b, OpaqueValue::from_bytes(vec![1, 2]));
    let mut buffer = b;
    let pair = heap.make_box_unique(&mut buffer, 3, 2, 7);
    assert_eq!(pair, BoxPair { object: b, buffer: b });
    assert_eq!(buffer, b);
    assert_eq!(heap.retain_count(b), 1);
    assert!(!heap.contains(b + 1));
}

#[test]
fn shared_box_is_copied() {
    let mut heap = Heap::new();
    let b = heap.alloc_box(3, 2, 7).object;
    heap.initialize_box(b, OpaqueValue::from_bytes(vec![1, 2]));
    heap.retain(b);
    let mut buffer = b;
    let pair = heap.make_box_unique(&mut buffer, 3, 2, 7);
    assert_ne!(pair.object, b);
    assert_eq!(pair.object, 2);
    assert_eq!(pair.buffer, pair.object);
    assert_eq!(buffer, pair.object);
    assert_eq!(heap.retain_count(pair.object), 1);
    assert_eq!(heap.retain_count(b), 1);
    assert_eq!(*heap.project_box(pair.buffer), Some(OpaqueValue::from_bytes(vec![1, 2])));
    assert_eq!(*heap.project_box(b), Some(OpaqueValue::from_bytes(vec![1, 2])));
    assert_eq!(heap.object(pair.object).header.metadata, 3);
    assert_eq!(heap.object(pair.object).size, HEADER_SIZE + 2);
}

#[test]
fn shared_box_of_a_reference_retains_the_referent() {
    let mut heap = Heap::new();
    let target = heap.alloc_object(1, 16, 7);
    let b = heap.alloc_box(3, 8, 7).object;
    heap.initialize_box(b, OpaqueValue::from_reference(target));
    heap.retain_n(b, 2);
    let mut buffer = b;
    let pair = heap.make_box_unique(&mut buffer, 3, 8, 7);
    assert_eq!(*heap.project_box(pair.object), Some(OpaqueValue::from_reference(target)));
    assert_eq!(heap.retain_count(target), 2);
    assert_eq!(heap.held_count(target), 2);
    assert_eq!(heap.retain_count(b), 2);
    heap.release(pair.object);
    assert_eq!(heap.retain_count(target), 1);
}

#[test]
fn teardown_by_hand() {
    let mut heap = Heap::new();
    let a = heap.alloc_box(1, 1, 7).object;
    heap.initialize_box(a, OpaqueValue::from_bytes(vec![9]));
    heap.set_deallocating(a);
    assert_eq!(heap.phase(a), Phase::Deiniting);
    assert_eq!(heap.retain_count(a), 0);
    assert!(heap.object(a).header.ref_counts.deallocating);
    assert_eq!(heap.take_box(a), Some(OpaqueValue::from_bytes(vec![9])));
    heap.dealloc_object(a, HEADER_SIZE + 1, 7);
    assert_eq!(heap.phase(a), Phase::Freed);
    assert_eq!(heap.teardown_count(a), 0);
}

#[test]
fn teardown_by_hand_under_a_weak_slot() {
    let mut heap = Heap::new();
    let a = heap.alloc_object(1, 16, 7);
    let slot = heap.weak_init(a);
    heap.set_deallocating(a);
    assert_eq!(heap.weak_load_strong(slot), 0);
    heap.dealloc_object(a, 16, 7);
    assert_eq!(heap.phase(a), Phase::Deinited);
    heap.weak_destroy(slot);
    assert_eq!(heap.phase(a), Phase::Freed);
}

#[test]
fn uninitialized_object_is_handed_back_without_teardown() {
    let mut heap = Heap::new();
    let a = heap.alloc_object(1, 48, 15);
    heap.dealloc_uninitialized_object(a, 48, 15);
    assert_eq!(heap.phase(a), Phase::Freed);
    assert_eq!(heap.teardown_count(a), 0);
    assert_eq!(heap.retain_count(a), 0);
}

#[test]
fn interleaved_retains_and_releases_restore_the_count() {
    let threads = 4;
    let rounds = 3;
    let mut heap = Heap::new();
    let a = heap.alloc_object(1, 16, 7);
    // Whether each thread holds a reference, and how many turns are left to it.
    let mut holds = vec![false; threads];
    let mut left = vec![2 * rounds; threads];
    let mut seed = 12345usize;
    let mut turns = 0;
    while left.iter().any(|&n| n > 0) {
        seed = seed.wrapping_mul(6364136223846793005).wrapping_add(1442695040888963407);
        let mut t = (seed >> 33) % threads;
        while left[t] == 0 {
            t = (t + 1) % threads;
        }
        if holds[t] {
            heap.release(a);
        } else {
            heap.retain(a);
        }
        holds[t] = !holds[t];
        left[t] -= 1;
        turns += 1;
        let count = heap.retain_count(a);
        let in_flight = holds.iter().filter(|&&h| h).count();
        assert_eq!(count, 1 + in_flight);
        assert!(1 <= count && count <= 1 + threads * rounds);
        assert!(heap.is_live(a));
    }
    assert_eq!(turns, 2 * threads * rounds);
    assert_eq!(heap.retain_count(a), 1);
    assert_eq!(heap.teardown_count(a), 0);
}

#[test]
fn teardown_releases_every_reference_of_the_payload() {
    let mut heap = Heap::new();
    let left = heap.alloc_object(1, 16, 7);
    let right = heap.alloc_object(1, 16, 7);
    let kept = heap.alloc_object(1, 16, 7);
    heap.retain(left);
    heap.retain(kept);
    let root = heap.alloc_box(2, 32, 7).object;
    // The root refers to `left` twice, to `right` and to `kept` once, and once to nothing.
    heap.initialize_box(root, OpaqueValue::new(vec![9], vec![left, right, 0, left, kept]));
    assert_eq!(heap.held_count(left), 2);
    assert_eq!(heap.held_count(right), 1);
    assert_eq!(heap.held_count(kept), 1);
    assert!(!heap.is_releasable(left));
    assert!(!heap.is_releasable(right));
    assert!(heap.is_releasable(kept));
    heap.retain(left);
    assert!(heap.is_releasable(left));
    heap.release(left);

    heap.release(root);
    assert_eq!(heap.phase(root), Phase::Freed);
    assert_eq!(heap.phase(left), Phase::Freed);
    assert_eq!(heap.phase(right), Phase::Freed);
    assert_eq!(heap.teardown_count(left), 1);
    assert_eq!(heap.teardown_count(right), 1);
    assert!(heap.is_live(kept));
    assert_eq!(heap.retain_count(kept), 1);
    assert_eq!(heap.held_count(kept), 0);
    assert_eq!(heap.teardown_count(kept), 0);
}

#[test]
fn teardown_runs_through_a_tree() {
    let mut heap = Heap::new();
    let mut leaves = Vec::new();
    for _ in 0..4 {
        let leaf = heap.alloc_box(1, 1, 7).object;
        heap.initialize_box(leaf, OpaqueValue::from_bytes(vec![0]));
        leaves.push(leaf);
    }
    let first = heap.alloc_box(2, 16, 7).object;
    heap.initialize_box(first, OpaqueValue::new(vec![], vec![leaves[0], leaves[1]]));
    let second = heap.alloc_box(2, 16, 7).object;
    heap.initialize_box(second, OpaqueValue::new(vec![], vec![leaves[2], leaves[3]]));
    let root = heap.alloc_box(2, 16, 7).object;
    heap.initialize_box(root, OpaqueValue::new(vec![], vec![first, second]));
    heap.release(root);
    for object in 1..=7 {
        assert_eq!(heap.phase(object), Phase::Freed);
        assert_eq!(heap.teardown_count(object), 1);
    }
}

#[test]
fn release_all_releases_each_reference_once() {
    let mut heap = Heap::new();
    let a = heap.alloc_object(1, 16, 7);
    let b = heap.alloc_object(1, 16, 7);
    heap.retain_n(a, 2);
    heap.release_all(vec![a, b, 0, a]);
    assert_eq!(heap.retain_count(a), 1);
    assert_eq!(heap.phase(b), Phase::Freed);
    heap.release_all(vec![]);
    assert_eq!(heap.retain_count(a), 1);
}

#[test]
fn shared_box_of_several_references_retains_each() {
    let mut heap = Heap::new();
    let a = heap.alloc_object(1, 16, 7);
    let b = heap.alloc_object(1, 16, 7);
    heap.retain(a);
    let shared = heap.alloc_box(3, 24, 7).object;
    heap.initialize_box(shared, OpaqueValue::new(vec![5, 6], vec![a, b, a]));
    heap.retain(shared);
    let mut buffer = shared;
    let pair = heap.make_box_unique(&mut buffer, 3, 24, 7);
    assert_eq!(
        *heap.project_box(pair.buffer),
        Some(OpaqueValue::new(vec![5, 6], vec![a, b, a]))
    );
    assert_eq!(heap.retain_count(a), 4);
    assert_eq!(heap.retain_count(b), 2);
    assert_eq!(heap.held_count(a), 4);
    assert_eq!(heap.held_count(b), 2);
    heap.release(pair.object);
    assert_eq!(heap.retain_count(a), 2);
    assert_eq!(heap.retain_count(b), 1);
}
