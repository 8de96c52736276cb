//! Storage backends for the slot sequence.
//!
//! The arena core is written once against [`Storage`], the "indexed sequence
//! of slots" contract: read, overwrite and append slots, all specified
//! against the abstract sequence `slots()`. [`VecStorage`] implements it
//! with an exclusively owned growable array; the persistent backend lives in
//! its own module.

use vstd::prelude::*;

verus! {

/// An indexed sequence of slots, the contract the arena core is written
/// against.
pub trait Storage<E>: Sized {
    /// The sequence of slots this store holds.
    spec fn slots(self) -> Seq<E>;

    /// A store with no slots.
    fn empty() -> (s: Self)
        ensures
            s.slots() == Seq::<E>::empty(),
    ;

    /// The number of slots.
    fn count(&self) -> (n: usize)
        ensures
            n as int == self.slots().len(),
    ;

    /// Read the slot at offset `o`.
    fn slot_ref(&self, o: usize) -> (e: &E)
        requires
            o < self.slots().len(),
        ensures
            *e == self.slots()[o as int],
    ;

    /// Borrow the slot at offset `o` for writing.
    fn slot_mut(&mut self, o: usize) -> (e: &mut E)
        requires
            o < old(self).slots().len(),
        ensures
            *e == old(self).slots()[o as int],
            final(self).slots() == old(self).slots().update(o as int, *final(e)),
    ;

    /// Overwrite the slot at offset `o`, returning the previous slot.
    fn replace(&mut self, o: usize, e: E) -> (prev: E)
        requires
            o < old(self).slots().len(),
        ensures
            prev == old(self).slots()[o as int],
            final(self).slots() == old(self).slots().update(o as int, e),
    ;

    /// Add a slot at the tail.
    fn append(&mut self, e: E)
        requires
            old(self).slots().len() < usize::MAX,
        ensures
            final(self).slots() == old(self).slots().push(e),
    ;
}

/// The exclusively owned growable-array backend: cheap mutation, deep
/// clone, and support for splitting two mutable borrows apart.
#[derive(Clone)]
pub struct VecStorage<E> {
    items: Vec<E>,
}

impl<E> Storage<E> for VecStorage<E> {
    closed spec fn slots(self) -> Seq<E> {
        self.items@
    }

    fn empty() -> (s: Self) {
        VecStorage { items: Vec::new() }
    }

    fn count(&self) -> (n: usize) {
        self.items.len()
    }

    fn slot_ref(&self, o: usize) -> (e: &E) {
        &self.items[o]
    }

    fn slot_mut(&mut self, o: usize) -> (e: &mut E) {
        &mut self.items[o]
    }

    fn replace(&mut self, o: usize, e: E) -> (prev: E) {
        let mut tmp = e;
        core::mem::swap(&mut tmp, &mut self.items[o]);
        tmp
    }

    fn append(&mut self, e: E) {
        self.items.push(e);
    }
}

impl<E> VecStorage<E> {
    /// Borrow two distinct slots for writing at once, which a single
    /// bounds-checked borrow of the sequence cannot give.
    pub fn two_muts(&mut self, lo: usize, hi: usize) -> (r: (&mut E, &mut E))
        requires
            lo < hi < old(self).slots().len(),
        ensures
            *r.0 == old(self).slots()[lo as int],
            *r.1 == old(self).slots()[hi as int],
            final(self).slots() == old(self).slots().update(lo as int, *final(r.0)).update(
                hi as int,
                *final(r.1),
            ),
    {
        let ghost snap = self.items@;
        let slice = self.items.as_mut_slice();
        let (xs, ys) = slice.split_at_mut(hi);
        let (_, zs) = xs.split_at_mut(lo);
        let a = zs.first_mut().unwrap();
        let b = ys.first_mut().unwrap();
        proof {
            assert(snap.subrange(0, hi as int)[lo as int] == snap[lo as int]);
            assert(snap.subrange(hi as int, snap.len() as int)[0] == snap[hi as int]);
        }
        (a, b)
    }
}

} // verus!
