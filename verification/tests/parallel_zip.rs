use generational_arena::StandardArena as Arena;

#[test]
fn parallel_zip_par_iter_zips() {
    let mut a1 = Arena::new();
    let mut a2 = Arena::new();
    for i in 0..100i32 {
        a1.insert(i);
        a2.insert(i * 2);
    }

    let mut seq: Vec<i32> = Vec::new();
    let mut it1 = a1.iter();
    let mut it2 = a2.iter();
    loop {
        match (it1.next(&a1), it2.next(&a2)) {
            (Some((_, x)), Some((_, y))) => seq.push(*x + *y),
            _ => break,
        }
    }

    let p1 = a1.par_iter();
    let p2 = a2.par_iter();
    let half: usize = p1.len() / 2;
    let (l1, r1) = p1.split_at(&a1, half);
    let (l2, r2) = p2.split_at(&a2, half);
    let mut par: Vec<i32> = Vec::new();
    let mut it1 = l1.into_seq(&a1);
    let mut it2 = l2.into_seq(&a2);
    loop {
        match (it1.next(&a1), it2.next(&a2)) {
            (Some((_, x)), Some((_, y))) => par.push(*x + *y),
            _ => break,
        }
    }
    let mut it1 = r1.into_seq(&a1);
    let mut it2 = r2.into_seq(&a2);
    loop {
        match (it1.next(&a1), it2.next(&a2)) {
            (Some((_, x)), Some((_, y))) => par.push(*x + *y),
            _ => break,
        }
    }

    assert_eq!(seq, par);
}

#[test]
fn par_iter_mut_zips() {
    let mut a1_seq = Arena::new();
    let mut a2_seq = Arena::new();
    let mut a1_par = Arena::new();
    let mut a2_par = Arena::new();
    for i in 0..100i32 {
        a1_seq.insert(i);
        a2_seq.insert(i * 2);
        a1_par.insert(i);
        a2_par.insert(i * 2);
    }

    // sequential mutation
    let mut it1 = a1_seq.iter_mut();
    let mut it2 = a2_seq.iter_mut();
    loop {
        match (it1.next(&mut a1_seq), it2.next(&mut a2_seq)) {
            (Some((_, x)), Some((_, y))) => {
                *x += *y;
                *y += *x;
            },
            _ => break,
        }
    }

    // the same mutation through split parallel producers
    let p1 = a1_par.par_iter_mut();
    let p2 = a2_par.par_iter_mut();
    let half: usize = p1.len() / 2;
    let (l1, r1) = p1.split_at(&a1_par, half);
    let (l2, r2) = p2.split_at(&a2_par, half);
    let mut it1 = l1.into_seq_mut(&a1_par);
    let mut it2 = l2.into_seq_mut(&a2_par);
    loop {
        match (it1.next(&mut a1_par), it2.next(&mut a2_par)) {
            (Some((_, x)), Some((_, y))) => {
                *x += *y;
                *y += *x;
            },
            _ => break,
        }
    }
    let mut it1 = r1.into_seq_mut(&a1_par);
    let mut it2 = r2.into_seq_mut(&a2_par);
    loop {
        match (it1.next(&mut a1_par), it2.next(&mut a2_par)) {
            (Some((_, x)), Some((_, y))) => {
                *x += *y;
                *y += *x;
            },
            _ => break,
        }
    }

    let mut seq1: Vec<i32> = Vec::new();
    let mut it = a1_seq.iter();
    while let Some((_, v)) = it.next(&a1_seq) {
        seq1.push(*v);
    }
    let mut seq2: Vec<i32> = Vec::new();
    let mut it = a2_seq.iter();
    while let Some((_, v)) = it.next(&a2_seq) {
        seq2.push(*v);
    }
    let mut par1: Vec<i32> = Vec::new();
    let mut it = a1_par.iter();
    while let Some((_, v)) = it.next(&a1_par) {
        par1.push(*v);
    }
    let mut par2: Vec<i32> = Vec::new();
    let mut it = a2_par.iter();
    while let Some((_, v)) = it.next(&a2_par) {
        par2.push(*v);
    }
    assert_eq!(seq1, par1);
    assert_eq!(seq2, par2);
}
