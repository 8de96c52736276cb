use generational_arena::StandardArena as Arena;
use generational_arena::StandardExclusiveArena;

fn values_of(arena: &Arena<i32>) -> Vec<i32> {
    let mut out: Vec<i32> = Vec::new();
    let mut it = arena.iter();
    while let Some((_, v)) = it.next(arena) {
        out.push(*v);
    }
    out
}

fn zip_into_first<F: Fn(i32, i32) -> i32>(a: &mut Arena<i32>, b: &Arena<i32>, f: F) {
    // Split both producers at the same live index, then consume the
    // matching halves together, as zipped parallel leaves would.
    let pa = a.par_iter_mut();
    let pb = b.par_iter();
    let half: usize = pa.len() / 2;
    let (la, ra) = pa.split_at(a, half);
    let (lb, rb) = pb.split_at(b, half);
    let mut ita = la.into_seq_mut(a);
    let mut itb = lb.into_seq(b);
    loop {
        match (ita.next(a), itb.next(b)) {
            (Some((_, x)), Some((_, y))) => *x = f(*x, *y),
            _ => break,
        }
    }
    let mut ita = ra.into_seq_mut(a);
    let mut itb = rb.into_seq(b);
    loop {
        match (ita.next(a), itb.next(b)) {
            (Some((_, x)), Some((_, y))) => *x = f(*x, *y),
            _ => break,
        }
    }
}

#[test]
fn par_zip_test() {
    let mut arena_a = Arena::new();
    let mut arena_b = Arena::new();

    for i in 0..100i32 {
        arena_a.insert(i);
        arena_b.insert(i * 2);
    }

    let seq: Vec<i32> = (0..100i32).map(|v| v * 3).collect();

    let pa = arena_a.par_iter();
    let pb = arena_b.par_iter();
    let half: usize = pa.len() / 2;
    let (la, ra) = pa.split_at(&arena_a, half);
    let (lb, rb) = pb.split_at(&arena_b, half);
    let mut par: Vec<i32> = Vec::new();
    let mut ita = la.into_seq(&arena_a);
    let mut itb = lb.into_seq(&arena_b);
    loop {
        match (ita.next(&arena_a), itb.next(&arena_b)) {
            (Some((_, a)), Some((_, b))) => par.push(*a + *b),
            _ => break,
        }
    }
    let mut ita = ra.into_seq(&arena_a);
    let mut itb = rb.into_seq(&arena_b);
    loop {
        match (ita.next(&arena_a), itb.next(&arena_b)) {
            (Some((_, a)), Some((_, b))) => par.push(*a + *b),
            _ => break,
        }
    }

    assert_eq!(seq, par);
}

#[test]
fn par_mut_zip_test() {
    let mut arena_a = Arena::new();
    let mut arena_b = Arena::new();

    for i in 0..100i32 {
        arena_a.insert(0);
        arena_b.insert(i);
    }

    let seq: Vec<i32> = (0..100i32).collect();

    zip_into_first(&mut arena_a, &arena_b, |_, b| b);

    let par: Vec<i32> = values_of(&arena_a);

    assert_eq!(seq, par);
}

#[test]
fn test_multiple_arena_operations() {
    // A `Vec` value cannot promise that its clones equal it, so the
    // persistent store refuses it; the exclusive-array arena carries it.
    let mut arena_a: StandardExclusiveArena<Vec<i32>> = StandardExclusiveArena::new();
    let mut arena_b = Arena::new();

    for i in 0..100i32 {
        arena_a.insert(Vec::new());
        arena_b.insert(i);
    }

    // Fill each slot of the first arena with a run of numbers as long as
    // the zipped value from the second.
    let pa = arena_a.par_iter_mut();
    let pb = arena_b.par_iter();
    let half: usize = pa.len() / 2;
    let (la, ra) = pa.split_at(&arena_a, half);
    let (lb, rb) = pb.split_at(&arena_b, half);
    let mut ita = la.into_seq_mut(&arena_a);
    let mut itb = lb.into_seq(&arena_b);
    loop {
        match (ita.next(&mut arena_a), itb.next(&arena_b)) {
            (Some((_, a)), Some((_, b))) => {
                let mut v: Vec<i32> = Vec::new();
                for j in 0..*b {
                    v.push(j);
                }
                *a = v;
            },
            _ => break,
        }
    }
    let mut ita = ra.into_seq_mut(&arena_a);
    let mut itb = rb.into_seq(&arena_b);
    loop {
        match (ita.next(&mut arena_a), itb.next(&arena_b)) {
            (Some((_, a)), Some((_, b))) => {
                let mut v: Vec<i32> = Vec::new();
                for j in 0..*b {
                    v.push(j);
                }
                *a = v;
            },
            _ => break,
        }
    }

    let mut vec: Vec<i32> = Vec::new();
    let mut it = arena_a.iter();
    while let Some((_, inner)) = it.next(&arena_a) {
        for v in inner {
            vec.push(*v * 2);
        }
    }

    assert_eq!(vec.len(), 4950); // Sum of first 100 natural numbers multiplied by 2
}

/// Zipping two arenas where one has holes should still produce exactly
/// N pairs (no more, no fewer).
#[test]
fn par_iter_zip_with_holes_len_matches() {
    let mut arena_1 = Arena::new();
    let mut arena_2 = Arena::new();

    // A: insert 6, remove 2 in the middle -> 4 occupied
    let a0 = arena_1.insert(10);
    let _a1 = arena_1.insert(11);
    let a2 = arena_1.insert(12);
    let _a3 = arena_1.insert(13);
    let _a4 = arena_1.insert(14);
    let _a5 = arena_1.insert(15);
    arena_1.remove(a2);
    arena_1.remove(a0);

    // B: 4 inserts, no removes
    for i in 0..4i32 {
        arena_2.insert(i);
    }

    // zip should give exactly 4 pairs
    let mut pairs: Vec<(i32, i32)> = Vec::new();
    let p1 = arena_1.par_iter();
    let p2 = arena_2.par_iter();
    let half: usize = p1.len() / 2;
    let (l1, r1) = p1.split_at(&arena_1, half);
    let (l2, r2) = p2.split_at(&arena_2, half);
    let mut it1 = l1.into_seq(&arena_1);
    let mut it2 = l2.into_seq(&arena_2);
    loop {
        match (it1.next(&arena_1), it2.next(&arena_2)) {
            (Some((_, x)), Some((_, y))) => pairs.push((*x, *y)),
            _ => break,
        }
    }
    let mut it1 = r1.into_seq(&arena_1);
    let mut it2 = r2.into_seq(&arena_2);
    loop {
        match (it1.next(&arena_1), it2.next(&arena_2)) {
            (Some((_, x)), Some((_, y))) => pairs.push((*x, *y)),
            _ => break,
        }
    }

    assert_eq!(pairs.len(), 4, "expected 4 zipped entries, got {}", pairs.len());
}

/// Mutation through the producer should touch exactly the occupied slots,
/// no more.
#[test]
fn par_iter_mut_with_holes_updates_correct_count() {
    let mut arena = Arena::new();
    let k0 = arena.insert(100);
    let _k1 = arena.insert(200);
    let k2 = arena.insert(300);
    // now 3 slots, 2 occupied after removals:
    arena.remove(k0);
    arena.remove(k2);

    // double every occupied slot
    let p = arena.par_iter_mut();
    let half: usize = p.len() / 2;
    let (l, r) = p.split_at(&arena, half);
    let mut it = l.into_seq_mut(&arena);
    while let Some((_, v)) = it.next(&mut arena) {
        *v *= 2;
    }
    let mut it = r.into_seq_mut(&arena);
    while let Some((_, v)) = it.next(&mut arena) {
        *v *= 2;
    }

    // collect sequentially and confirm length == 1 (only the middle slot was occupied)
    let seq: Vec<i32> = values_of(&arena);
    assert_eq!(seq.len(), 1, "expected 1 updated value, got {}", seq.len());
}

#[test]
fn par_mut_zip_test_with_removals() {
    let mut arena_a = Arena::new();
    let mut arena_b = Arena::new();

    for i in 0..100i32 {
        let a1 = arena_a.insert(0);
        let a2 = arena_a.insert(1);
        let _a3 = arena_a.insert(2);
        let b1 = arena_b.insert(i);
        let b2 = arena_b.insert(i * 2);
        let _b3 = arena_b.insert(i * 3);
        arena_a.remove(a1);
        arena_a.remove(a2);
        arena_b.remove(b1);
        arena_b.remove(b2);
    }

    let seq: Vec<i32> = (0..100i32).map(|v| v * 3).collect();

    zip_into_first(&mut arena_a, &arena_b, |_, b| b);

    let par: Vec<i32> = values_of(&arena_a);

    assert_eq!(seq, par);
}

#[test]
fn par_into_iter_test_with_removals() {
    let mut arena_a = Arena::new();
    let mut arena_b = Arena::new();
    let mut arena_c = Arena::new();

    let n: usize = 30000;
    for i in 0..n {
        let a1 = arena_a.insert(0);
        let a2 = arena_a.insert(1);
        let _a3 = arena_a.insert(2);
        arena_a.remove(a1);
        arena_a.remove(a2);

        let b1 = arena_b.insert(i);
        let b2 = arena_b.insert(i * 2);
        let _b3 = arena_b.insert(i * 3);
        arena_b.remove(b1);
        arena_b.remove(b2);

        let c1 = arena_c.insert(i + 1);
        let c2 = arena_c.insert(i + 2);
        let _c3 = arena_c.insert(i + 3);
        arena_c.remove(c1);
        arena_c.remove(c2);
    }

    // a <- b + c over a three-way zip of the producers
    let pa = arena_a.par_iter_mut();
    let pb = arena_b.par_iter();
    let pc = arena_c.par_iter();
    let half: usize = pa.len() / 2;
    let (la, ra) = pa.split_at(&arena_a, half);
    let (lb, rb) = pb.split_at(&arena_b, half);
    let (lc, rc) = pc.split_at(&arena_c, half);
    let mut ita = la.into_seq_mut(&arena_a);
    let mut itb = lb.into_seq(&arena_b);
    let mut itc = lc.into_seq(&arena_c);
    loop {
        match (ita.next(&mut arena_a), itb.next(&arena_b), itc.next(&arena_c)) {
            (Some((_, a)), Some((_, b)), Some((_, c))) => *a = *b + *c,
            _ => break,
        }
    }
    let mut ita = ra.into_seq_mut(&arena_a);
    let mut itb = rb.into_seq(&arena_b);
    let mut itc = rc.into_seq(&arena_c);
    loop {
        match (ita.next(&mut arena_a), itb.next(&arena_b), itc.next(&arena_c)) {
            (Some((_, a)), Some((_, b)), Some((_, c))) => *a = *b + *c,
            _ => break,
        }
    }

    let mut par: Vec<usize> = Vec::new();
    let mut it = arena_a.iter();
    while let Some((_, a)) = it.next(&arena_a) {
        par.push(*a);
    }

    let seq: Vec<usize> = (0..n).map(|x| (x * 3) + (x + 3)).collect();

    assert_eq!(seq, par);
}

#[test]
fn par_into_iter_test_with_unbalanced_removals() {
    let mut arena_a = Arena::new();
    let mut arena_b = Arena::new();
    let mut arena_c = Arena::new();

    let n: usize = 30000;  // large enough to force splitting
    for i in 0..n {
        let a1 = arena_a.insert(0);
        if i > n / 3 {
            arena_a.remove(a1);
        }
        let b1 = arena_b.insert(2 * i);
        if i > n / 3 {
            arena_b.remove(b1);
        }
        let c1 = arena_c.insert(i + 1);
        if i > n / 3 {
            arena_c.remove(c1);
        }
    }

    let pa = arena_a.par_iter_mut();
    let pb = arena_b.par_iter();
    let pc = arena_c.par_iter();
    let half: usize = pa.len() / 2;
    let (la, ra) = pa.split_at(&arena_a, half);
    let (lb, rb) = pb.split_at(&arena_b, half);
    let (lc, rc) = pc.split_at(&arena_c, half);
    let mut ita = la.into_seq_mut(&arena_a);
    let mut itb = lb.into_seq(&arena_b);
    let mut itc = lc.into_seq(&arena_c);
    loop {
        match (ita.next(&mut arena_a), itb.next(&arena_b), itc.next(&arena_c)) {
            (Some((_, a)), Some((_, b)), Some((_, c))) => *a = *b + *c,
            _ => break,
        }
    }
    let mut ita = ra.into_seq_mut(&arena_a);
    let mut itb = rb.into_seq(&arena_b);
    let mut itc = rc.into_seq(&arena_c);
    loop {
        match (ita.next(&mut arena_a), itb.next(&arena_b), itc.next(&arena_c)) {
            (Some((_, a)), Some((_, b)), Some((_, c))) => *a = *b + *c,
            _ => break,
        }
    }

    let mut par: Vec<usize> = Vec::new();
    let mut it = arena_a.iter();
    while let Some((_, a)) = it.next(&arena_a) {
        par.push(*a);
    }

    let seq: Vec<usize> = (0..n)
        .filter_map(
            |x| {
                if x > n / 3 {
                    None  // skip the section where removals happened
                } else {
                    Some((2 * x) + (x + 1))  // compute the expected value
                }
            },
        )
        .collect();

    assert_eq!(seq, par);
}
