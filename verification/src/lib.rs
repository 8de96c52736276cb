//! A generation-tagged slot arena: stable typed handles, O(1) removal, and
//! detection of handle use after a slot has been recycled.
//!
//! Values inserted into an [`Arena`] are addressed by an [`Index`] handle, a
//! pair of an array offset and a generation tag. Removing a value frees its
//! slot for reuse, but advances the arena's generation counter, so handles to
//! earlier occupants of a reused slot no longer match. Offset encodings and
//! generation policies are pluggable; the slot sequence itself can live in an
//! exclusively owned growable array or in a persistent vector with O(1)
//! structure-shared snapshots.
//!
//! Parallel passes are fork-join: a splittable producer divides the slot
//! sequence by live entries, and each leaf is consumed through a sequential
//! cursor. The borrowing and owning producers can be handed to an outside
//! work-stealing scheduler as they are; the mutating producer splits the
//! same way, but each step of its cursor takes the arena exclusively, so a
//! mutable pass is consumed sequentially — handing disjoint mutable leaves
//! to worker threads at once would need a structure-shared mutable view
//! inside the storage, which this surface does not offer.

mod clone_eq;
pub use clone_eq::CloneEq;
mod generation;

pub use generation::DisableRemoval;
pub use generation::FixedGenerationalIndex;
pub use generation::GenerationalIndex;
pub use generation::IgnoreGeneration;
pub use generation::IgnoredGeneration;
pub use generation::NonzeroGeneration;
pub use generation::NonzeroWrapGeneration;
pub use generation::incremented_many;
mod index;
pub use index::ArenaIndex;
pub use index::Index;
pub use index::NonZeroIndex;
pub use index::index_order;
mod slots;
pub use slots::Entry;
pub use slots::live_seq;
pub use slots::live_count;
pub use slots::lemma_live_seq_split;
pub use slots::lemma_live_seq_agree;
pub use slots::lemma_live_seq_one;
pub use slots::lemma_live_seq_all_free;
pub use slots::lemma_live_seq_elements;
pub use slots::lemma_live_seq_update_outside;
mod storage;
pub use storage::Storage;
pub use storage::VecStorage;
mod arena;
pub use arena::Arena;
pub use arena::DEFAULT_CAPACITY;
mod iter;
pub use iter::Iter;
pub use iter::IterMut;
pub use iter::IntoIter;
pub use iter::Drain;
mod persistent;
pub use persistent::PersistentStorage;
mod parallel;
pub use parallel::ParIter;
pub use parallel::ParIterMut;
mod presets;
pub use presets::ExclusiveArena;
pub use presets::PersistentArena;
pub use presets::StandardArena;
pub use presets::StandardIndex;
pub use presets::StandardExclusiveArena;
pub use presets::SmallArena;
pub use presets::SmallIndex;
pub use presets::TinyWrapArena;
pub use presets::TinyWrapIndex;
pub use presets::StandardSlab;
pub use presets::StandardSlabIndex;
mod laws;
pub use laws::handle_dead;
pub use laws::lemma_remove_makes_dead;
pub use laws::lemma_dead_preserved_without_insert;
pub use laws::lemma_dead_preserved_by_insert;
pub use laws::lemma_dead_handle_misses;
pub use laws::lemma_freed_slot_invalidates;
pub use laws::lemma_live_count_invariant;
pub use laws::lemma_split_equivalence;
pub use laws::lemma_round_trip;
