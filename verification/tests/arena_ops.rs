use generational_arena::StandardArena;
use generational_arena::StandardExclusiveArena;
use generational_arena::StandardSlab;

// The concrete lifecycle: four inserts fill offsets 0-3 at the first
// generation; removing the second and fourth frees offsets 1 and 3 and
// advances the counter twice; iteration yields exactly the two survivors;
// re-inserting reuses offsets 3 then 1 (the free list is a LIFO stack),
// stamped with the current counter; and the removed handle stays stale.
#[test]
fn lifecycle_scenario_with_lifo_reuse() {
    let mut arena = StandardArena::with_capacity(4);
    let ha = arena.insert(10);
    let hb = arena.insert(20);
    let hc = arena.insert(30);
    let hd = arena.insert(40);
    assert_eq!(arena.capacity(), 4);
    assert_eq!((ha.to_idx(), hb.to_idx(), hc.to_idx(), hd.to_idx()), (0, 1, 2, 3));
    assert_eq!(hb.gen(), ha.gen());
    assert_eq!(hd.gen(), ha.gen());

    assert_eq!(arena.remove(hb), Some(20));
    assert_eq!(arena.remove(hd), Some(40));
    assert_eq!(arena.len(), 2);

    let mut yielded: Vec<(usize, i32)> = Vec::new();
    let mut it = arena.iter();
    while let Some((h, v)) = it.next(&arena) {
        yielded.push((h.to_idx(), *v));
    }
    assert_eq!(yielded, vec![(0, 10), (2, 30)]);

    let he = arena.insert(50);
    let hf = arena.insert(60);
    assert_eq!(he.to_idx(), 3);
    assert_eq!(hf.to_idx(), 1);
    assert!(he.gen() != ha.gen());
    assert_eq!(he.gen(), hf.gen());

    assert!(arena.get(hb).is_none());
    assert!(arena.get(hd).is_none());
    assert_eq!(arena.get(hf), Some(&60));
    assert_eq!(arena.len(), 4);
}

#[test]
fn try_insert_never_grows() {
    let mut arena = StandardArena::with_capacity(10);
    for i in 0..10i32 {
        assert!(arena.try_insert(i).is_ok());
        assert_eq!(arena.capacity(), 10);
    }
    match arena.try_insert(99) {
        Ok(_) => panic!("insertion into a full arena must hand the value back"),
        Err(v) => assert_eq!(v, 99),
    }
    assert_eq!(arena.capacity(), 10);
    arena.insert(100);
    assert!(arena.capacity() > 10);
}

#[test]
fn insert_get_remove_round_trip() {
    let mut arena = StandardArena::new();
    let idx = arena.insert(42);
    assert_eq!(arena.get(idx), Some(&42));
    assert!(arena.contains(idx));
    assert_eq!(arena.remove(idx), Some(42));
    assert_eq!(arena.remove(idx), None);
    assert!(!arena.contains(idx));
    assert!(arena.get(idx).is_none());
}

#[test]
fn stale_handle_after_reuse_is_detected() {
    let mut arena = StandardArena::new();
    let bill = arena.insert("Bill Gates");
    arena.remove(bill);
    let murray = arena.insert("Bill Murray");
    // Same offset, later generation: the old handle must not see the new
    // occupant.
    assert_eq!(murray.to_idx(), bill.to_idx());
    assert!(!arena.contains(bill));
    assert!(arena.contains(murray));
}

#[test]
fn len_capacity_is_empty() {
    let mut arena = StandardArena::new();
    assert!(arena.is_empty());
    assert_eq!(arena.len(), 0);
    assert_eq!(arena.capacity(), 4);
    let idx = arena.insert(7);
    assert!(!arena.is_empty());
    assert_eq!(arena.len(), 1);
    arena.reserve(5);
    assert_eq!(arena.capacity(), 9);
    assert_eq!(arena.len(), 1);
    assert_eq!(arena.remove(idx), Some(7));
    assert!(arena.is_empty());
}

#[test]
fn clear_keeps_capacity_and_invalidates() {
    let mut arena = StandardArena::with_capacity(1);
    let a = arena.insert(42);
    let b = arena.insert(43);
    arena.clear();
    assert_eq!(arena.capacity(), 2);
    assert_eq!(arena.len(), 0);
    assert!(arena.get(a).is_none());
    assert!(arena.get(b).is_none());
}

#[test]
fn drain_yields_all_pairs_and_empties() {
    let mut arena = StandardArena::new();
    let idx_1 = arena.insert("hello");
    let idx_2 = arena.insert("world");

    assert!(arena.get(idx_1).is_some());
    assert!(arena.get(idx_2).is_some());
    let mut d = arena.drain();
    let mut count: usize = 0;
    while let Some((idx, value)) = d.next() {
        assert!((idx == idx_1 && value == "hello") || (idx == idx_2 && value == "world"));
        count += 1;
    }
    assert_eq!(count, 2);
    assert!(arena.get(idx_1).is_none());
    assert!(arena.get(idx_2).is_none());
    assert_eq!(arena.len(), 0);
    // the full capacity is back on the free list
    let cap = arena.capacity();
    for _ in 0..cap {
        assert!(arena.try_insert("again").is_ok());
    }
}

#[test]
fn drain_abandoned_early_still_empties() {
    let mut arena = StandardArena::new();
    arena.insert(1);
    arena.insert(2);
    arena.insert(3);
    let mut d = arena.drain();
    let _ = d.next();
    // Two pairs are never consumed; the arena is empty regardless.
    assert_eq!(arena.len(), 0);
    assert!(arena.is_empty());
}

#[test]
fn retain_removes_failing_entries() {
    let mut arena = StandardArena::new();
    for i in 0..8i32 {
        arena.insert(i);
    }
    arena.retain(|_, v| *v % 2 == 0);
    let mut kept: Vec<i32> = Vec::new();
    let mut it = arena.iter();
    while let Some((_, v)) = it.next(&arena) {
        kept.push(*v);
    }
    assert_eq!(kept, vec![0, 2, 4, 6]);
    assert_eq!(arena.len(), 4);
}

#[test]
fn iter_next_back_walks_in_reverse() {
    let mut arena = StandardArena::new();
    let a = arena.insert(1);
    let b = arena.insert(2);
    let c = arena.insert(3);
    arena.remove(b);
    let mut it = arena.iter();
    let mut back: Vec<i32> = Vec::new();
    while let Some((_, v)) = it.next_back(&arena) {
        back.push(*v);
    }
    assert_eq!(back, vec![3, 1]);
    let _ = (a, c);
}

#[test]
fn into_iter_yields_values_both_ends() {
    let mut arena = StandardArena::new();
    arena.insert(1);
    arena.insert(2);
    arena.insert(3);
    let mut it = arena.into_iter();
    assert_eq!(it.len(), 3);
    assert_eq!(it.next(), Some(1));
    assert_eq!(it.next_back(), Some(3));
    assert_eq!(it.next(), Some(2));
    assert_eq!(it.next(), None);
    assert_eq!(it.next_back(), None);
}

#[test]
fn get2_mut_disjoint_offsets() {
    let mut arena = StandardExclusiveArena::new();
    let idx1 = arena.insert(0);
    let idx2 = arena.insert(1);

    {
        let (item1, item2) = arena.get2_mut(idx1, idx2);
        *item1.unwrap() = 3;
        *item2.unwrap() = 4;
    }

    assert_eq!(arena.get(idx1), Some(&3));
    assert_eq!(arena.get(idx2), Some(&4));

    // Order of the handles does not matter.
    {
        let (item2, item1) = arena.get2_mut(idx2, idx1);
        *item2.unwrap() = 5;
        *item1.unwrap() = 6;
    }
    assert_eq!(arena.get(idx1), Some(&6));
    assert_eq!(arena.get(idx2), Some(&5));
}

#[test]
fn get2_mut_same_offset_prefers_newer_generation() {
    let mut arena = StandardExclusiveArena::new();
    let old = arena.insert(1);
    arena.remove(old);
    let new = arena.insert(2);
    assert_eq!(old.to_idx(), new.to_idx());

    // The stale side comes back empty; the newer generation wins.
    let (stale, fresh) = arena.get2_mut(old, new);
    assert!(stale.is_none());
    assert_eq!(*fresh.unwrap(), 2);

    let (fresh, stale) = arena.get2_mut(new, old);
    assert_eq!(*fresh.unwrap(), 2);
    assert!(stale.is_none());
}

#[test]
fn get2_mut_out_of_range_side_is_none() {
    let mut small = StandardExclusiveArena::with_capacity(1);
    let mut big = StandardExclusiveArena::with_capacity(9);
    let a = small.insert(1);
    for i in 0..9i32 {
        big.insert(i);
    }
    let far = big.insert(9);
    // `far` points past `small`'s capacity.
    let (ra, rb) = small.get2_mut(a, far);
    assert_eq!(*ra.unwrap(), 1);
    assert!(rb.is_none());
}

#[test]
fn slab_without_removal_only_grows() {
    let mut slab = StandardSlab::new();
    let a = slab.insert("alpha");
    let b = slab.insert("beta");
    assert_eq!(slab.get(a), Some(&"alpha"));
    assert_eq!(slab.get(b), Some(&"beta"));
    assert_eq!(slab.len(), 2);
}

#[test]
fn ignored_generation_gives_up_recycle_detection() {
    let mut arena: generational_arena::PersistentArena<
        i32,
        usize,
        generational_arena::IgnoreGeneration,
    > = generational_arena::PersistentArena::new();
    let old = arena.insert(1);
    assert_eq!(arena.remove(old), Some(1));
    let new = arena.insert(2);
    assert_eq!(new.to_idx(), old.to_idx());
    // Under the unit policy every generation compares equal, so the
    // recycled slot is *not* protected: the stale handle sees the new
    // occupant. That is the documented trade of this policy.
    assert_eq!(arena.get(old), Some(&2));
}

#[test]
fn parallel_split_respects_live_counts() {
    let mut arena = StandardArena::new();
    let mut handles: Vec<generational_arena::StandardIndex<i32>> = Vec::new();
    for i in 0..10i32 {
        handles.push(arena.insert(i));
    }
    // punch holes at even offsets
    for k in [0usize, 2, 4, 6, 8] {
        arena.remove(handles[k]);
    }
    let live = arena.len();
    assert_eq!(live, 5);
    // splitting at every k yields parts whose lengths are k and live - k
    for k in 0..live + 1 {
        let p = arena.par_iter();
        let (l, r) = p.split_at(&arena, k);
        assert_eq!(l.len(), k);
        assert_eq!(r.len(), live - k);
    }
}
