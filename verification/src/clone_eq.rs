//! Value-preserving cloning.
//!
//! The persistent backend's vector duplicates elements through `Clone`
//! whenever shared structure is first written to, and already when a small
//! inline vector is copied. Its contracts therefore speak the truth only
//! for element types whose `clone` returns a value equal to its source. A
//! type claims that by implementing [`CloneEq`], whose law is a proof
//! obligation, and the persistent store is offered only for such element
//! types.

use vstd::prelude::*;

use vstd::pervasive::cloned;

verus! {

/// A `Clone` whose every possible result is equal to its source.
///
/// `cloned(a, b)` holds exactly of the pairs `b == a.clone()` can relate
/// (and of `b == a` itself); the law closes them all to equality, so
/// nothing that duplicates values of the type through `Clone` — however
/// often, on whatever machine — can be observed doing it.
pub trait CloneEq: Clone + Sized {
    /// The law: anything `clone` can return is the value itself.
    proof fn lemma_clone_eq(a: Self, b: Self)
        requires
            cloned::<Self>(a, b),
        ensures
            a == b,
    ;
}

impl CloneEq for bool {
    proof fn lemma_clone_eq(a: Self, b: Self) {
    }
}

impl CloneEq for char {
    proof fn lemma_clone_eq(a: Self, b: Self) {
    }
}

impl CloneEq for u8 {
    proof fn lemma_clone_eq(a: Self, b: Self) {
    }
}

impl CloneEq for u16 {
    proof fn lemma_clone_eq(a: Self, b: Self) {
    }
}

impl CloneEq for u32 {
    proof fn lemma_clone_eq(a: Self, b: Self) {
    }
}

impl CloneEq for u64 {
    proof fn lemma_clone_eq(a: Self, b: Self) {
    }
}

impl CloneEq for usize {
    proof fn lemma_clone_eq(a: Self, b: Self) {
    }
}

impl CloneEq for i8 {
    proof fn lemma_clone_eq(a: Self, b: Self) {
    }
}

impl CloneEq for i16 {
    proof fn lemma_clone_eq(a: Self, b: Self) {
    }
}

impl CloneEq for i32 {
    proof fn lemma_clone_eq(a: Self, b: Self) {
    }
}

impl CloneEq for i64 {
    proof fn lemma_clone_eq(a: Self, b: Self) {
    }
}

impl CloneEq for isize {
    proof fn lemma_clone_eq(a: Self, b: Self) {
    }
}

impl<'a, T: ?Sized> CloneEq for &'a T {
    proof fn lemma_clone_eq(a: Self, b: Self) {
    }
}

} // verus!
