//! Offset encodings and the arena handle type.
//!
//! An [`ArenaIndex`] encodes an array offset; the plain integer encodings
//! accept any offset their width can hold, while [`NonZeroIndex`] follows
//! the `offset + 1` encoding convention of non-zero niches, whose ceiling
//! is one below the width's maximum. An [`Index`] pairs an encoded offset
//! with a generation tag and is the handle callers use to address arena
//! slots.

use vstd::prelude::*;

use core::marker::PhantomData;

use crate::clone_eq::CloneEq;
use crate::generation::FixedGenerationalIndex;
use crate::generation::IgnoredGeneration;

verus! {

/// A type which can be used as an offset into an arena's slot sequence.
///
/// `idx_spec` is the offset a value encodes; `can_encode` says which offsets
/// the encoding accepts. Encoding and decoding round-trip exactly on the
/// accepted offsets.
pub trait ArenaIndex: Sized + Copy {
    /// The offset this value encodes.
    spec fn idx_spec(self) -> int;

    /// Whether offset `i` is representable by this encoding.
    spec fn can_encode(i: int) -> bool;

    /// Create an arena index from a `usize` offset.
    fn from_idx(idx: usize) -> (r: Self)
        requires
            Self::can_encode(idx as int),
        ensures
            r.idx_spec() == idx as int,
    ;

    /// Transform an arena index back into a `usize` offset.
    fn to_idx(self) -> (r: usize)
        ensures
            r as int == self.idx_spec(),
    ;

    /// Decide whether two encoded offsets are the same value.
    fn idx_eq(&self, other: &Self) -> (r: bool)
        ensures
            r == (*self == *other),
    ;
}

impl ArenaIndex for usize {
    open spec fn idx_spec(self) -> int {
        self as int
    }

    open spec fn can_encode(i: int) -> bool {
        0 <= i <= usize::MAX
    }

    fn from_idx(idx: usize) -> (r: Self) {
        idx
    }

    fn to_idx(self) -> (r: usize) {
        self
    }

    fn idx_eq(&self, other: &Self) -> (r: bool) {
        *self == *other
    }
}

impl ArenaIndex for u8 {
    open spec fn idx_spec(self) -> int {
        self as int
    }

    open spec fn can_encode(i: int) -> bool {
        0 <= i <= u8::MAX
    }

    fn from_idx(idx: usize) -> (r: Self) {
        idx as u8
    }

    fn to_idx(self) -> (r: usize) {
        self as usize
    }

    fn idx_eq(&self, other: &Self) -> (r: bool) {
        *self == *other
    }
}

impl ArenaIndex for u16 {
    open spec fn idx_spec(self) -> int {
        self as int
    }

    open spec fn can_encode(i: int) -> bool {
        0 <= i <= u16::MAX
    }

    fn from_idx(idx: usize) -> (r: Self) {
        idx as u16
    }

    fn to_idx(self) -> (r: usize) {
        self as usize
    }

    fn idx_eq(&self, other: &Self) -> (r: bool) {
        *self == *other
    }
}

impl ArenaIndex for u32 {
    open spec fn idx_spec(self) -> int {
        self as int
    }

    open spec fn can_encode(i: int) -> bool {
        0 <= i <= u32::MAX
    }

    fn from_idx(idx: usize) -> (r: Self) {
        idx as u32
    }

    fn to_idx(self) -> (r: usize) {
        self as usize
    }

    fn idx_eq(&self, other: &Self) -> (r: bool) {
        *self == *other
    }
}

/// An arena index with the capacity ceiling of a non-zero encoding. Such
/// an encoding stores `offset + 1` so that zero stays free as a niche for
/// `Option` packing, which makes the width's maximum offset
/// unrepresentable. The niche itself cannot be expressed to the verifier,
/// so the field holds the offset directly, but the encoding contract is
/// kept: offsets up to one below the width's maximum round-trip, anything
/// above is refused.
#[derive(Debug, Copy, PartialEq, Eq, Hash)]
pub struct NonZeroIndex<T> {
    idx: T,
}

impl<T: Copy> Clone for NonZeroIndex<T> {
    fn clone(&self) -> (r: Self)
        ensures
            r == *self,
    {
        NonZeroIndex { idx: self.idx }
    }
}

/// Arena offsets are machine words, so this encoding accepts offsets up to
/// `usize::MAX` whatever the target; encoding never produces a value above
/// the machine word, and decoding reduces to it.
impl ArenaIndex for u64 {
    open spec fn idx_spec(self) -> int {
        (self as usize) as int
    }

    open spec fn can_encode(i: int) -> bool {
        0 <= i <= usize::MAX
    }

    fn from_idx(idx: usize) -> (r: Self) {
        idx as u64
    }

    fn to_idx(self) -> (r: usize) {
        self as usize
    }

    fn idx_eq(&self, other: &Self) -> (r: bool) {
        *self == *other
    }
}

impl ArenaIndex for NonZeroIndex<usize> {
    closed spec fn idx_spec(self) -> int {
        self.idx as int
    }

    closed spec fn can_encode(i: int) -> bool {
        0 <= i && i + 1 <= usize::MAX
    }

    fn from_idx(idx: usize) -> (r: Self) {
        NonZeroIndex { idx }
    }

    fn to_idx(self) -> (r: usize) {
        self.idx
    }

    fn idx_eq(&self, other: &Self) -> (r: bool) {
        self.idx == other.idx
    }
}

impl ArenaIndex for NonZeroIndex<u32> {
    closed spec fn idx_spec(self) -> int {
        self.idx as int
    }

    closed spec fn can_encode(i: int) -> bool {
        0 <= i && i + 1 <= u32::MAX
    }

    fn from_idx(idx: usize) -> (r: Self) {
        NonZeroIndex { idx: idx as u32 }
    }

    fn to_idx(self) -> (r: usize) {
        self.idx as usize
    }

    fn idx_eq(&self, other: &Self) -> (r: bool) {
        self.idx == other.idx
    }
}

impl CloneEq for NonZeroIndex<usize> {
    proof fn lemma_clone_eq(a: Self, b: Self) {
    }
}

impl CloneEq for NonZeroIndex<u32> {
    proof fn lemma_clone_eq(a: Self, b: Self) {
    }
}

impl NonZeroIndex<usize> {
    /// Which offsets this encoding accepts, for callers outside this
    /// module: everything up to one below the machine word's maximum.
    pub proof fn lemma_encoding_facts(i: int)
        ensures
            Self::can_encode(i) == (0 <= i && i + 1 <= usize::MAX),
    {
    }
}

impl NonZeroIndex<u32> {
    /// Which offsets this encoding accepts, for callers outside this
    /// module: everything up to one below the width's maximum.
    pub proof fn lemma_encoding_facts(i: int)
        ensures
            Self::can_encode(i) == (0 <= i && i + 1 <= u32::MAX),
    {
    }
}

/// An index (and generation) into an arena: the handle returned by
/// insertion. A handle addresses the value it was created for; once that
/// value is removed, the handle is stale and no longer matches the slot,
/// even after the slot has been reused.
#[derive(Debug, Hash)]
pub struct Index<T, I, G> {
    index: I,
    generation: G,
    _marker: PhantomData<T>,
}

impl<T, I: Copy, G: Copy> Clone for Index<T, I, G> {
    fn clone(&self) -> (r: Self) {
        Index { index: self.index, generation: self.generation, _marker: PhantomData }
    }
}

impl<T, I: Copy, G: Copy> Copy for Index<T, I, G> {

}

impl<T, I: ArenaIndex, G: FixedGenerationalIndex> Index<T, I, G> {
    /// The offset this handle addresses.
    pub closed spec fn idx_int(self) -> int {
        self.index.idx_spec()
    }

    /// The encoded offset inside this handle.
    pub closed spec fn raw_index(self) -> I {
        self.index
    }

    /// The generation tag inside this handle.
    pub closed spec fn gen_spec(self) -> G {
        self.generation
    }

    /// Get this handle's offset as a `usize`.
    pub fn to_idx(&self) -> (r: usize)
        ensures
            r as int == self.idx_int(),
    {
        self.index.to_idx()
    }

    /// Get this handle's encoded array offset.
    pub fn arr_idx(&self) -> (r: I)
        ensures
            r == self.raw_index(),
            r.idx_spec() == self.idx_int(),
    {
        self.index
    }

    /// Get this handle's generation.
    pub fn gen(&self) -> (g: G)
        ensures
            g == self.gen_spec(),
    {
        self.generation
    }

    /// Get the encoded offset and generation as a pair.
    pub fn to_raw(&self) -> (r: (I, G))
        ensures
            r.0 == self.raw_index(),
            r.1 == self.gen_spec(),
    {
        (self.index, self.generation)
    }

    /// Create a handle from an encoded offset and a generation.
    pub fn from_raw(index: I, generation: G) -> (r: Self)
        ensures
            r.raw_index() == index,
            r.gen_spec() == generation,
            r.idx_int() == index.idx_spec(),
    {
        Index { index, generation, _marker: PhantomData }
    }

    /// Create a handle from an encoded offset and a generation.
    pub fn new(index: I, generation: G) -> (r: Self)
        ensures
            r.raw_index() == index,
            r.gen_spec() == generation,
            r.idx_int() == index.idx_spec(),
    {
        Index { index, generation, _marker: PhantomData }
    }

    /// Convert a `usize` offset to a handle at the first generation.
    pub fn from_idx_first_gen(n: usize) -> (r: Self)
        requires
            I::can_encode(n as int),
        ensures
            r.idx_int() == n as int,
            r.gen_spec() == G::first_spec(),
    {
        Index { index: I::from_idx(n), generation: G::first_generation(), _marker: PhantomData }
    }
}

impl<T, I: ArenaIndex, G: IgnoredGeneration> Index<T, I, G> {
    /// Convert a `usize` offset to a handle, with generations ignored.
    pub fn from_idx(n: usize) -> (r: Self)
        requires
            I::can_encode(n as int),
        ensures
            r.idx_int() == n as int,
            r.gen_spec() == G::first_spec(),
    {
        Self::from_idx_first_gen(n)
    }
}

impl<T, I: ArenaIndex, G: FixedGenerationalIndex> PartialEq for Index<T, I, G> {
    fn eq(&self, other: &Self) -> (r: bool) {
        self.index.idx_eq(&other.index) && self.generation.generation_eq(&other.generation)
    }
}

impl<T, I: ArenaIndex, G: FixedGenerationalIndex> vstd::std_specs::cmp::PartialEqSpecImpl for Index<T, I, G> {
    open spec fn obeys_eq_spec() -> bool {
        true
    }

    open spec fn eq_spec(&self, other: &Self) -> bool {
        self.raw_index() == other.raw_index() && self.gen_spec() == other.gen_spec()
    }
}

impl<T, I: ArenaIndex, G: FixedGenerationalIndex> Eq for Index<T, I, G> {

}

/// The order a handle comparison follows: first by offset, then — for equal
/// offsets — by the generation policy's strict order.
pub open spec fn index_order<T, I: ArenaIndex, G: FixedGenerationalIndex>(
    a: Index<T, I, G>,
    b: Index<T, I, G>,
) -> core::cmp::Ordering {
    if a.idx_int() < b.idx_int() {
        core::cmp::Ordering::Less
    } else if a.idx_int() > b.idx_int() {
        core::cmp::Ordering::Greater
    } else if a.gen_spec().lt_spec(b.gen_spec()) {
        core::cmp::Ordering::Less
    } else if a.gen_spec() == b.gen_spec() {
        core::cmp::Ordering::Equal
    } else {
        core::cmp::Ordering::Greater
    }
}

impl<T, I: ArenaIndex, G: FixedGenerationalIndex> PartialOrd for Index<T, I, G> {
    fn partial_cmp(&self, other: &Self) -> (r: Option<core::cmp::Ordering>) {
        let a = self.index.to_idx();
        let b = other.index.to_idx();
        if a < b {
            Some(core::cmp::Ordering::Less)
        } else if a > b {
            Some(core::cmp::Ordering::Greater)
        } else if self.generation.generation_lt(&other.generation) {
            Some(core::cmp::Ordering::Less)
        } else if self.generation.generation_eq(&other.generation) {
            Some(core::cmp::Ordering::Equal)
        } else {
            Some(core::cmp::Ordering::Greater)
        }
    }
}

impl<T, I: ArenaIndex, G: FixedGenerationalIndex> vstd::std_specs::cmp::PartialOrdSpecImpl for Index<T, I, G> {
    open spec fn obeys_partial_cmp_spec() -> bool {
        true
    }

    open spec fn partial_cmp_spec(&self, other: &Self) -> Option<core::cmp::Ordering> {
        Some(index_order(*self, *other))
    }
}

} // verus!
