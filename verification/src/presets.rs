//! Aliases fixing the index and generation policies to common choices.

use vstd::prelude::*;

use crate::arena::Arena;
use crate::generation::DisableRemoval;
use crate::generation::NonzeroGeneration;
use crate::generation::NonzeroWrapGeneration;
use crate::index::Index;
use crate::persistent::PersistentStorage;
use crate::slots::Entry;
use crate::storage::VecStorage;

verus! {

/// An arena whose slots live in an exclusively owned growable array.
pub type ExclusiveArena<T, I, G> = Arena<T, I, G, VecStorage<Entry<T, I, G>>>;

/// An arena whose slots live in a persistent vector with O(1) snapshots.
pub type PersistentArena<T, I, G> = Arena<T, I, G, PersistentStorage<Entry<T, I, G>>>;

/// The default persistent arena: machine-word offsets, non-zero
/// machine-word generations.
pub type StandardArena<T> = PersistentArena<T, usize, NonzeroGeneration<usize>>;

/// The handle type of [`StandardArena`].
pub type StandardIndex<T> = Index<T, usize, NonzeroGeneration<usize>>;

/// The default exclusive-array arena, with the same policies as
/// [`StandardArena`]; this backend also supports `get2_mut`.
pub type StandardExclusiveArena<T> = ExclusiveArena<T, usize, NonzeroGeneration<usize>>;

/// A compact persistent arena: 32-bit offsets and generations.
pub type SmallArena<T> = PersistentArena<T, u32, NonzeroGeneration<u32>>;

/// The handle type of [`SmallArena`].
pub type SmallIndex<T> = Index<T, u32, NonzeroGeneration<u32>>;

/// A tiny persistent arena whose 16-bit generations wrap instead of
/// trapping, for unbounded lifetime at a vanishing risk of stale-handle
/// re-collision after a full generation cycle.
pub type TinyWrapArena<T> = PersistentArena<T, u16, NonzeroWrapGeneration<u16>>;

/// The handle type of [`TinyWrapArena`].
pub type TinyWrapIndex<T> = Index<T, u16, NonzeroWrapGeneration<u16>>;

/// A grow-only slab: removal is disabled by its unit generation policy.
pub type StandardSlab<T> = PersistentArena<T, usize, DisableRemoval>;

/// The handle type of [`StandardSlab`].
pub type StandardSlabIndex<T> = Index<T, usize, DisableRemoval>;

} // verus!
