//! The persistent storage backend: a structure-shared vector with O(1)
//! snapshots.
//!
//! The slot sequence lives in an [`im::Vector`], whose tree of chunks is
//! shared between copies and cloned copy-on-write as either side mutates.
//! Verus cannot look inside that structure, so the store carries a ghost
//! sequence as its model, and a small set of trusted wrappers — one per
//! `im::Vector` operation the arena uses — states how each call moves the
//! model. Everything above these wrappers is verified against the same
//! [`Storage`] contract the exclusive array backend implements.
//!
//! The vector clones elements internally: a shared chunk is cloned element
//! by element when first written to, and a small inline vector already at
//! `clone` time. The wrappers' contracts are therefore only offered for
//! element types carrying the [`CloneEq`] law — anything their `clone` can
//! return is equal to its source — which turns that reliance from a
//! comment into a proof obligation.

use vstd::prelude::*;

use crate::clone_eq::CloneEq;
use crate::storage::Storage;

verus! {

#[verifier::external_type_specification]
#[verifier::external_body]
#[verifier::reject_recursive_types(A)]
pub struct ExImVector<A>(im::Vector<A>);

/// Lets a derived `Clone` of a store be compiled; nothing is claimed of the
/// copy here, so verified code goes through `duplicate` instead, whose
/// contract `im::Vector`'s O(1) structural sharing backs.
pub assume_specification<A>[ <im::Vector<A> as core::clone::Clone>::clone ](
    v: &im::Vector<A>,
) -> im::Vector<A>
    where
        A: core::clone::Clone,
;

/// A slot store backed by a persistent vector. `duplicate` is O(1) and the
/// copy is fully independent: mutation of either side is copy-on-write and
/// never observed by the other.
#[derive(Clone)]
#[verifier::reject_recursive_types(E)]
pub struct PersistentStorage<E> {
    items: im::Vector<E>,
    shadow: Ghost<Seq<E>>,
}

impl<E: CloneEq> PersistentStorage<E> {
    /// The sequence of elements the vector holds.
    pub closed spec fn model(self) -> Seq<E> {
        self.shadow@
    }

    /// Relies on `im::Vector::new`: the fresh vector is empty.
    #[verifier::external_body]
    fn raw_empty() -> (s: Self)
        ensures
            s.model() == Seq::<E>::empty(),
    {
        PersistentStorage { items: im::Vector::new(), shadow: Ghost(Seq::empty()) }
    }

    /// Relies on `im::Vector::len`: the number of elements held.
    #[verifier::external_body]
    fn raw_count(&self) -> (n: usize)
        ensures
            n as int == self.model().len(),
    {
        self.items.len()
    }

    /// Relies on `im::Vector::get`: the element at an in-range index.
    #[verifier::external_body]
    fn raw_slot_ref(&self, o: usize) -> (e: &E)
        requires
            o < self.model().len(),
        ensures
            *e == self.model()[o as int],
    {
        self.items.get(o).unwrap()
    }

    /// Relies on `im::Vector::get_mut`: an exclusive borrow of the element
    /// at an in-range index; only that element changes. Reaching it may
    /// clone a shared chunk element by element, which `E`'s [`CloneEq`] law
    /// makes unobservable.
    #[verifier::external_body]
    fn raw_slot_mut(&mut self, o: usize) -> (e: &mut E)
        requires
            o < old(self).model().len(),
        ensures
            *e == old(self).model()[o as int],
            final(self).model() == old(self).model().update(o as int, *final(e)),
    {
        self.items.get_mut(o).unwrap()
    }

    /// Relies on `im::Vector::set`: overwrite one element, returning the
    /// previous one. May clone a shared chunk on the way, covered by `E`'s
    /// [`CloneEq`] law.
    #[verifier::external_body]
    fn raw_replace(&mut self, o: usize, e: E) -> (prev: E)
        requires
            o < old(self).model().len(),
        ensures
            prev == old(self).model()[o as int],
            final(self).model() == old(self).model().update(o as int, e),
    {
        self.items.set(o, e)
    }

    /// Relies on `im::Vector::push_back`: append one element at the tail.
    /// May clone a shared chunk on the way, covered by `E`'s [`CloneEq`]
    /// law.
    #[verifier::external_body]
    fn raw_append(&mut self, e: E)
        ensures
            final(self).model() == old(self).model().push(e),
    {
        self.items.push_back(e);
    }

    /// Relies on `im::Vector`'s `Clone`: an O(1) structure-shared copy that
    /// holds the same elements and is independent of the original from
    /// then on. A small inline vector is copied element by element instead,
    /// which `E`'s [`CloneEq`] law makes indistinguishable.
    #[verifier::external_body]
    pub(crate) fn duplicate(&self) -> (r: Self)
        ensures
            Storage::slots(r) == Storage::slots(*self),
    {
        PersistentStorage { items: self.items.clone(), shadow: self.shadow }
    }
}

impl<E: CloneEq> Storage<E> for PersistentStorage<E> {
    closed spec fn slots(self) -> Seq<E> {
        self.shadow@
    }

    fn empty() -> (s: Self) {
        Self::raw_empty()
    }

    fn count(&self) -> (n: usize) {
        self.raw_count()
    }

    fn slot_ref(&self, o: usize) -> (e: &E) {
        self.raw_slot_ref(o)
    }

    fn slot_mut(&mut self, o: usize) -> (e: &mut E) {
        self.raw_slot_mut(o)
    }

    fn replace(&mut self, o: usize, e: E) -> (prev: E) {
        self.raw_replace(o, e)
    }

    fn append(&mut self, e: E) {
        self.raw_append(e);
    }
}

} // verus!
