use generational_arena::StandardArena as Arena;

fn collect_seq(arena: &Arena<i32>) -> Vec<i32> {
    let mut out: Vec<i32> = Vec::new();
    let mut it = arena.iter();
    while let Some((_, v)) = it.next(arena) {
        out.push(*v);
    }
    out
}

fn collect_par(arena: &Arena<i32>) -> Vec<i32> {
    let p = arena.par_iter();
    let half: usize = p.len() / 2;
    let (left, right) = p.split_at(arena, half);
    let mut out: Vec<i32> = Vec::new();
    let mut it = left.into_seq(arena);
    while let Some((_, v)) = it.next(arena) {
        out.push(*v);
    }
    let mut it = right.into_seq(arena);
    while let Some((_, v)) = it.next(arena) {
        out.push(*v);
    }
    out
}

fn update_par_mut<F: Fn(i32) -> i32>(arena: &mut Arena<i32>, f: F) {
    let p = arena.par_iter_mut();
    let half: usize = p.len() / 2;
    let (left, right) = p.split_at(arena, half);
    let mut it = left.into_seq_mut(arena);
    while let Some((_, v)) = it.next(arena) {
        *v = f(*v);
    }
    let mut it = right.into_seq_mut(arena);
    while let Some((_, v)) = it.next(arena) {
        *v = f(*v);
    }
}

#[test]
fn par_iter_matches_sequential() {
    let mut arena = Arena::new();
    for i in 0..100i32 {
        arena.insert(i);
    }

    let seq: Vec<i32> = collect_seq(&arena);
    let par: Vec<i32> = collect_par(&arena);

    assert_eq!(seq, par);
}

#[test]
fn into_par_iter_matches_sequential() {
    let mut arena = Arena::new();
    for i in 0..100i32 {
        arena.insert(i);
    }
    let seq: Vec<i32> = collect_seq(&arena);
    let whole = arena.into_par_iter();
    let half: usize = whole.len() / 2;
    let (mut left, mut right) = whole.split_at(half);
    let mut par: Vec<i32> = Vec::new();
    while let Some(v) = left.next() {
        par.push(v);
    }
    while let Some(v) = right.next() {
        par.push(v);
    }

    assert_eq!(seq, par);
}

#[test]
fn par_iter_mut_updates() {
    let mut arena = Arena::new();
    for i in 0..100i32 {
        arena.insert(i);
    }
    update_par_mut(&mut arena, |v| v * 2);
    let values: Vec<i32> = collect_seq(&arena);
    assert_eq!(values, (0..100i32).map(|x| x * 2).collect::<Vec<i32>>());
}

#[test]
fn into_par_iter_mut_updates() {
    let mut arena = Arena::new();
    for i in 0..100i32 {
        arena.insert(i);
    }
    let mut it = arena.iter_mut();
    while let Some((_, v)) = it.next(&mut arena) {
        *v = *v * 2;
    }
    let values: Vec<i32> = collect_seq(&arena);
    assert_eq!(values, (0..100i32).map(|x| x * 2).collect::<Vec<i32>>());
}

#[test]
fn parallel_tests_par_iter_zips() {
    let mut a1 = Arena::new();
    let mut a2 = Arena::new();
    for i in 0..100i32 {
        a1.insert(i);
        a2.insert(i * 2);
    }

    let mut seq: Vec<i32> = Vec::new();
    let mut it1 = a1.iter();
    let mut it2 = a2.iter();
    loop {
        match (it1.next(&a1), it2.next(&a2)) {
            (Some((_, x)), Some((_, y))) => seq.push(*x + *y),
            _ => break ,
        }
    }

    let p1 = a1.par_iter();
    let p2 = a2.par_iter();
    let half: usize = p1.len() / 2;
    let (l1, r1) = p1.split_at(&a1, half);
    let (l2, r2) = p2.split_at(&a2, half);
    let mut par: Vec<i32> = Vec::new();
    let mut it1 = l1.into_seq(&a1);
    let mut it2 = l2.into_seq(&a2);
    loop {
        match (it1.next(&a1), it2.next(&a2)) {
            (Some((_, x)), Some((_, y))) => par.push(*x + *y),
            _ => break ,
        }
    }
    let mut it1 = r1.into_seq(&a1);
    let mut it2 = r2.into_seq(&a2);
    loop {
        match (it1.next(&a1), it2.next(&a2)) {
            (Some((_, x)), Some((_, y))) => par.push(*x + *y),
            _ => break ,
        }
    }

    assert_eq!(seq, par);
}
