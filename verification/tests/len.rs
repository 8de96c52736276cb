use generational_arena::CloneEq;
use generational_arena::StandardArena as Arena;

fn collect_par<T: CloneEq>(arena: &Arena<T>) -> Vec<T> {
    // Consume the parallel producer through a split, as a fork-join
    // scheduler's leaves would, and gather both halves in order.
    let p = arena.par_iter();
    let half: usize = p.len() / 2;
    let (left, right) = p.split_at(arena, half);
    let mut out: Vec<T> = Vec::new();
    let mut it = left.into_seq(arena);
    while let Some((_, v)) = it.next(arena) {
        out.push(v.clone());
    }
    let mut it = right.into_seq(arena);
    while let Some((_, v)) = it.next(arena) {
        out.push(v.clone());
    }
    out
}

#[test]
fn par_iter_len_invariant() {
    let mut arena = Arena::new();
    let a = arena.insert(1);
    let _b = arena.insert(2);
    arena.remove(a);
    // 1 occupied, 1 free

    let v: Vec<i32> = collect_par(&arena);
    assert_eq!(v.len(), 1);
}

/// Holes in the middle should be just as bad.
#[test]
fn par_iter_panics_when_middle_removed() {
    let mut arena = Arena::new();
    let k0 = arena.insert(0);
    let _k1 = arena.insert(1);
    let k2 = arena.insert(2);
    let _k3 = arena.insert(3);
    // Remove two entries in the middle
    arena.remove(k0);
    arena.remove(k2);

    // Now occupied count = 2, raw slots = 4
    let v: Vec<i32> = collect_par(&arena);
    assert_eq!(v, vec![1, 3]); // sanity check
}

/// Removing the *first two* of three slots leaves exactly one occupied:
/// the parallel producer must collect exactly one element.
#[test]
fn par_iter_front_removed_len_is_one() {
    let mut arena = Arena::new();
    let k0 = arena.insert("a");
    let k1 = arena.insert("b");
    let _k2 = arena.insert("c");
    arena.remove(k0);
    arena.remove(k1);

    // should collect exactly 1 element
    let v: Vec<&str> = collect_par(&arena);
    assert_eq!(v.len(), 1, "expected 1 occupied, got {}", v.len());
}

/// Removing a hole in the middle of four slots should leave two occupied:
/// the parallel producer must collect exactly two elements.
#[test]
fn par_iter_middle_removed_len_is_two() {
    let mut arena = Arena::new();
    let k0 = arena.insert(0);
    let _k1 = arena.insert(1);
    let k2 = arena.insert(2);
    let _k3 = arena.insert(3);

    // remove one at front and one in the middle
    arena.remove(k0);
    arena.remove(k2);

    // occupied count is 2 out of a raw length of 4
    let v: Vec<i32> = collect_par(&arena);
    assert_eq!(v.len(), 2, "expected 2 occupied, got {}", v.len());
}
