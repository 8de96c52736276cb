//! Generation counter policies.
//!
//! A generation distinguishes successive occupants of the same arena slot.
//! Each policy fixes how the counter starts, how it is ordered, and what
//! happens when it is incremented past its width: trap (plain and non-zero
//! counters), wrap back to the first generation (wrapping counters), or
//! nothing at all (ignored counters, which give up stale-handle detection).

use vstd::prelude::*;

use crate::clone_eq::CloneEq;

verus! {

/// A type usable as a generation tag that need not support incrementing.
///
/// `gen_int` is the abstract numeric measure of a generation; `lt_spec` is
/// the strict order used for handle ordering and for the `get2_mut`
/// tie-break. A policy for which incrementing strictly raises `gen_int`
/// reports `obeys_order() == true`; the arena's stale-handle (ABA) lemmas
/// apply exactly to those policies.
pub trait FixedGenerationalIndex: Sized + Copy {
    /// Abstract numeric measure of this generation.
    spec fn gen_int(self) -> int;

    /// Strict order on generations.
    spec fn lt_spec(self, other: Self) -> bool;

    /// Whether `lt_spec` follows `gen_int` and increments strictly raise it.
    spec fn obeys_order() -> bool;

    /// The value stamped on the first occupant of a fresh arena.
    spec fn first_spec() -> Self;

    /// An object representing the first possible generation.
    fn first_generation() -> (r: Self)
        ensures
            r == Self::first_spec(),
    ;

    /// Compare this generation with another under the policy's strict order.
    fn generation_lt(&self, other: &Self) -> (r: bool)
        ensures
            r == self.lt_spec(*other),
    ;

    /// Decide whether two generations are the same value.
    fn generation_eq(&self, other: &Self) -> (r: bool)
        ensures
            r == (*self == *other),
    ;
}

/// A generation tag that can also be incremented, once per removal.
pub trait GenerationalIndex: FixedGenerationalIndex {
    /// Whether one more increment is possible without trapping.
    spec fn can_increment(self) -> bool;

    /// The successor generation.
    spec fn incremented(self) -> Self;

    /// Whether `n` successive increments are possible without trapping.
    spec fn can_increment_many(self, n: nat) -> bool;

    /// One increment out of an allowance of `n >= 1` leaves `n - 1`.
    proof fn lemma_increment_many(g: Self, n: nat)
        requires
            g.can_increment_many(n),
            n >= 1,
        ensures
            g.can_increment(),
            g.incremented().can_increment_many((n - 1) as nat),
    ;

    /// An allowance covers any smaller allowance.
    proof fn lemma_increment_many_mono(g: Self, m: nat, n: nat)
        requires
            g.can_increment_many(n),
            m <= n,
        ensures
            g.can_increment_many(m),
    ;

    /// For ordered policies, incrementing strictly raises the measure.
    proof fn lemma_increment_strict(g: Self)
        requires
            g.can_increment(),
        ensures
            Self::obeys_order() ==> g.gen_int() < g.incremented().gen_int(),
    ;

    /// Advance the generation of this object by one.
    fn increment_generation(&mut self)
        requires
            old(self).can_increment(),
        ensures
            *final(self) == old(self).incremented(),
    ;
}

/// The result of incrementing a generation `n` times in a row.
pub open spec fn incremented_many<G: GenerationalIndex>(g: G, n: nat) -> G
    decreases n,
{
    if n == 0 {
        g
    } else {
        incremented_many(g.incremented(), (n - 1) as nat)
    }
}

/// Incrementing after `n` increments is the same as `n + 1` increments.
pub proof fn lemma_incremented_many_snoc<G: GenerationalIndex>(g: G, n: nat)
    ensures
        incremented_many(g, n + 1) == incremented_many(g, n).incremented(),
    decreases n,
{
    if n == 0 {
        assert(incremented_many(g, 1) == incremented_many(g.incremented(), 0));
        assert(incremented_many(g.incremented(), 0) == g.incremented());
    } else {
        lemma_incremented_many_snoc(g.incremented(), (n - 1) as nat);
        assert(incremented_many(g, n + 1) == incremented_many(g.incremented(), n));
        assert(incremented_many(g, n) == incremented_many(g.incremented(), (n - 1) as nat));
    }
}

impl FixedGenerationalIndex for u8 {
    open spec fn gen_int(self) -> int {
        self as int
    }

    open spec fn lt_spec(self, other: Self) -> bool {
        self < other
    }

    open spec fn obeys_order() -> bool {
        true
    }

    open spec fn first_spec() -> Self {
        0u8
    }

    fn first_generation() -> (r: Self) {
        0
    }

    fn generation_lt(&self, other: &Self) -> (r: bool) {
        *self < *other
    }

    fn generation_eq(&self, other: &Self) -> (r: bool) {
        *self == *other
    }
}

impl GenerationalIndex for u8 {
    open spec fn can_increment(self) -> bool {
        self < u8::MAX
    }

    open spec fn incremented(self) -> Self {
        (self + 1) as u8
    }

    open spec fn can_increment_many(self, n: nat) -> bool {
        self + n <= u8::MAX
    }

    proof fn lemma_increment_many(g: Self, n: nat) {
    }

    proof fn lemma_increment_many_mono(g: Self, m: nat, n: nat) {
    }

    proof fn lemma_increment_strict(g: Self) {
    }

    fn increment_generation(&mut self) {
        *self = *self + 1;
    }
}

impl FixedGenerationalIndex for u16 {
    open spec fn gen_int(self) -> int {
        self as int
    }

    open spec fn lt_spec(self, other: Self) -> bool {
        self < other
    }

    open spec fn obeys_order() -> bool {
        true
    }

    open spec fn first_spec() -> Self {
        0u16
    }

    fn first_generation() -> (r: Self) {
        0
    }

    fn generation_lt(&self, other: &Self) -> (r: bool) {
        *self < *other
    }

    fn generation_eq(&self, other: &Self) -> (r: bool) {
        *self == *other
    }
}

impl GenerationalIndex for u16 {
    open spec fn can_increment(self) -> bool {
        self < u16::MAX
    }

    open spec fn incremented(self) -> Self {
        (self + 1) as u16
    }

    open spec fn can_increment_many(self, n: nat) -> bool {
        self + n <= u16::MAX
    }

    proof fn lemma_increment_many(g: Self, n: nat) {
    }

    proof fn lemma_increment_many_mono(g: Self, m: nat, n: nat) {
    }

    proof fn lemma_increment_strict(g: Self) {
    }

    fn increment_generation(&mut self) {
        *self = *self + 1;
    }
}

impl FixedGenerationalIndex for u32 {
    open spec fn gen_int(self) -> int {
        self as int
    }

    open spec fn lt_spec(self, other: Self) -> bool {
        self < other
    }

    open spec fn obeys_order() -> bool {
        true
    }

    open spec fn first_spec() -> Self {
        0u32
    }

    fn first_generation() -> (r: Self) {
        0
    }

    fn generation_lt(&self, other: &Self) -> (r: bool) {
        *self < *other
    }

    fn generation_eq(&self, other: &Self) -> (r: bool) {
        *self == *other
    }
}

impl GenerationalIndex for u32 {
    open spec fn can_increment(self) -> bool {
        self < u32::MAX
    }

    open spec fn incremented(self) -> Self {
        (self + 1) as u32
    }

    open spec fn can_increment_many(self, n: nat) -> bool {
        self + n <= u32::MAX
    }

    proof fn lemma_increment_many(g: Self, n: nat) {
    }

    proof fn lemma_increment_many_mono(g: Self, m: nat, n: nat) {
    }

    proof fn lemma_increment_strict(g: Self) {
    }

    fn increment_generation(&mut self) {
        *self = *self + 1;
    }
}

impl FixedGenerationalIndex for u64 {
    open spec fn gen_int(self) -> int {
        self as int
    }

    open spec fn lt_spec(self, other: Self) -> bool {
        self < other
    }

    open spec fn obeys_order() -> bool {
        true
    }

    open spec fn first_spec() -> Self {
        0u64
    }

    fn first_generation() -> (r: Self) {
        0
    }

    fn generation_lt(&self, other: &Self) -> (r: bool) {
        *self < *other
    }

    fn generation_eq(&self, other: &Self) -> (r: bool) {
        *self == *other
    }
}

impl GenerationalIndex for u64 {
    open spec fn can_increment(self) -> bool {
        self < u64::MAX
    }

    open spec fn incremented(self) -> Self {
        (self + 1) as u64
    }

    open spec fn can_increment_many(self, n: nat) -> bool {
        self + n <= u64::MAX
    }

    proof fn lemma_increment_many(g: Self, n: nat) {
    }

    proof fn lemma_increment_many_mono(g: Self, m: nat, n: nat) {
    }

    proof fn lemma_increment_strict(g: Self) {
    }

    fn increment_generation(&mut self) {
        *self = *self + 1;
    }
}

impl FixedGenerationalIndex for usize {
    open spec fn gen_int(self) -> int {
        self as int
    }

    open spec fn lt_spec(self, other: Self) -> bool {
        self < other
    }

    open spec fn obeys_order() -> bool {
        true
    }

    open spec fn first_spec() -> Self {
        0usize
    }

    fn first_generation() -> (r: Self) {
        0
    }

    fn generation_lt(&self, other: &Self) -> (r: bool) {
        *self < *other
    }

    fn generation_eq(&self, other: &Self) -> (r: bool) {
        *self == *other
    }
}

impl GenerationalIndex for usize {
    open spec fn can_increment(self) -> bool {
        self < usize::MAX
    }

    open spec fn incremented(self) -> Self {
        (self + 1) as usize
    }

    open spec fn can_increment_many(self, n: nat) -> bool {
        self + n <= usize::MAX
    }

    proof fn lemma_increment_many(g: Self, n: nat) {
    }

    proof fn lemma_increment_many_mono(g: Self, m: nat, n: nat) {
    }

    proof fn lemma_increment_strict(g: Self) {
    }

    fn increment_generation(&mut self) {
        *self = *self + 1;
    }
}

/// A generation counter whose value is never zero, so that zero stays
/// available as a niche when the counter is packed inside an `Option`. The
/// first generation is 1, and incrementing past the width traps.
#[derive(Debug, Copy, PartialEq, Eq)]
pub struct NonzeroGeneration<T> {
    gen: T,
}

impl<T: Copy> Clone for NonzeroGeneration<T> {
    fn clone(&self) -> (r: Self)
        ensures
            r == *self,
    {
        NonzeroGeneration { gen: self.gen }
    }
}

impl FixedGenerationalIndex for NonzeroGeneration<u16> {
    closed spec fn gen_int(self) -> int {
        self.gen as int
    }

    closed spec fn lt_spec(self, other: Self) -> bool {
        self.gen < other.gen
    }

    closed spec fn obeys_order() -> bool {
        true
    }

    closed spec fn first_spec() -> Self {
        NonzeroGeneration { gen: 1u16 }
    }

    fn first_generation() -> (r: Self) {
        NonzeroGeneration { gen: 1 }
    }

    fn generation_lt(&self, other: &Self) -> (r: bool) {
        self.gen < other.gen
    }

    fn generation_eq(&self, other: &Self) -> (r: bool) {
        self.gen == other.gen
    }
}

impl GenerationalIndex for NonzeroGeneration<u16> {
    closed spec fn can_increment(self) -> bool {
        self.gen < u16::MAX
    }

    closed spec fn incremented(self) -> Self {
        NonzeroGeneration { gen: (self.gen + 1) as u16 }
    }

    closed spec fn can_increment_many(self, n: nat) -> bool {
        self.gen + n <= u16::MAX
    }

    proof fn lemma_increment_many(g: Self, n: nat) {
    }

    proof fn lemma_increment_many_mono(g: Self, m: nat, n: nat) {
    }

    proof fn lemma_increment_strict(g: Self) {
    }

    fn increment_generation(&mut self) {
        self.gen = self.gen + 1;
    }
}

impl FixedGenerationalIndex for NonzeroGeneration<u32> {
    closed spec fn gen_int(self) -> int {
        self.gen as int
    }

    closed spec fn lt_spec(self, other: Self) -> bool {
        self.gen < other.gen
    }

    closed spec fn obeys_order() -> bool {
        true
    }

    closed spec fn first_spec() -> Self {
        NonzeroGeneration { gen: 1u32 }
    }

    fn first_generation() -> (r: Self) {
        NonzeroGeneration { gen: 1 }
    }

    fn generation_lt(&self, other: &Self) -> (r: bool) {
        self.gen < other.gen
    }

    fn generation_eq(&self, other: &Self) -> (r: bool) {
        self.gen == other.gen
    }
}

impl GenerationalIndex for NonzeroGeneration<u32> {
    closed spec fn can_increment(self) -> bool {
        self.gen < u32::MAX
    }

    closed spec fn incremented(self) -> Self {
        NonzeroGeneration { gen: (self.gen + 1) as u32 }
    }

    closed spec fn can_increment_many(self, n: nat) -> bool {
        self.gen + n <= u32::MAX
    }

    proof fn lemma_increment_many(g: Self, n: nat) {
    }

    proof fn lemma_increment_many_mono(g: Self, m: nat, n: nat) {
    }

    proof fn lemma_increment_strict(g: Self) {
    }

    fn increment_generation(&mut self) {
        self.gen = self.gen + 1;
    }
}

impl FixedGenerationalIndex for NonzeroGeneration<usize> {
    closed spec fn gen_int(self) -> int {
        self.gen as int
    }

    closed spec fn lt_spec(self, other: Self) -> bool {
        self.gen < other.gen
    }

    closed spec fn obeys_order() -> bool {
        true
    }

    closed spec fn first_spec() -> Self {
        NonzeroGeneration { gen: 1usize }
    }

    fn first_generation() -> (r: Self) {
        NonzeroGeneration { gen: 1 }
    }

    fn generation_lt(&self, other: &Self) -> (r: bool) {
        self.gen < other.gen
    }

    fn generation_eq(&self, other: &Self) -> (r: bool) {
        self.gen == other.gen
    }
}

impl GenerationalIndex for NonzeroGeneration<usize> {
    closed spec fn can_increment(self) -> bool {
        self.gen < usize::MAX
    }

    closed spec fn incremented(self) -> Self {
        NonzeroGeneration { gen: (self.gen + 1) as usize }
    }

    closed spec fn can_increment_many(self, n: nat) -> bool {
        self.gen + n <= usize::MAX
    }

    proof fn lemma_increment_many(g: Self, n: nat) {
    }

    proof fn lemma_increment_many_mono(g: Self, m: nat, n: nat) {
    }

    proof fn lemma_increment_strict(g: Self) {
    }

    fn increment_generation(&mut self) {
        self.gen = self.gen + 1;
    }
}

/// A never-zero generation counter that wraps back to the first generation
/// instead of trapping when its width is exhausted. This trades a rare
/// stale-handle re-collision after a full cycle of removals of one slot for
/// unbounded arena lifetime, so it does not claim `obeys_order`.
#[derive(Debug, Copy, PartialEq, Eq)]
pub struct NonzeroWrapGeneration<T> {
    gen: T,
}

impl<T: Copy> Clone for NonzeroWrapGeneration<T> {
    fn clone(&self) -> (r: Self)
        ensures
            r == *self,
    {
        NonzeroWrapGeneration { gen: self.gen }
    }
}

impl FixedGenerationalIndex for NonzeroWrapGeneration<u8> {
    closed spec fn gen_int(self) -> int {
        self.gen as int
    }

    closed spec fn lt_spec(self, other: Self) -> bool {
        self.gen < other.gen
    }

    closed spec fn obeys_order() -> bool {
        false
    }

    closed spec fn first_spec() -> Self {
        NonzeroWrapGeneration { gen: 1u8 }
    }

    fn first_generation() -> (r: Self) {
        NonzeroWrapGeneration { gen: 1 }
    }

    fn generation_lt(&self, other: &Self) -> (r: bool) {
        self.gen < other.gen
    }

    fn generation_eq(&self, other: &Self) -> (r: bool) {
        self.gen == other.gen
    }
}

impl GenerationalIndex for NonzeroWrapGeneration<u8> {
    closed spec fn can_increment(self) -> bool {
        true
    }

    closed spec fn incremented(self) -> Self {
        if self.gen == u8::MAX {
            NonzeroWrapGeneration { gen: 1u8 }
        } else {
            NonzeroWrapGeneration { gen: (self.gen + 1) as u8 }
        }
    }

    closed spec fn can_increment_many(self, n: nat) -> bool {
        true
    }

    proof fn lemma_increment_many(g: Self, n: nat) {
    }

    proof fn lemma_increment_many_mono(g: Self, m: nat, n: nat) {
    }

    proof fn lemma_increment_strict(g: Self) {
    }

    fn increment_generation(&mut self) {
        if self.gen == u8::MAX {
            self.gen = 1;
        } else {
            self.gen = self.gen + 1;
        }
    }
}

impl FixedGenerationalIndex for NonzeroWrapGeneration<u16> {
    closed spec fn gen_int(self) -> int {
        self.gen as int
    }

    closed spec fn lt_spec(self, other: Self) -> bool {
        self.gen < other.gen
    }

    closed spec fn obeys_order() -> bool {
        false
    }

    closed spec fn first_spec() -> Self {
        NonzeroWrapGeneration { gen: 1u16 }
    }

    fn first_generation() -> (r: Self) {
        NonzeroWrapGeneration { gen: 1 }
    }

    fn generation_lt(&self, other: &Self) -> (r: bool) {
        self.gen < other.gen
    }

    fn generation_eq(&self, other: &Self) -> (r: bool) {
        self.gen == other.gen
    }
}

impl GenerationalIndex for NonzeroWrapGeneration<u16> {
    closed spec fn can_increment(self) -> bool {
        true
    }

    closed spec fn incremented(self) -> Self {
        if self.gen == u16::MAX {
            NonzeroWrapGeneration { gen: 1u16 }
        } else {
            NonzeroWrapGeneration { gen: (self.gen + 1) as u16 }
        }
    }

    closed spec fn can_increment_many(self, n: nat) -> bool {
        true
    }

    proof fn lemma_increment_many(g: Self, n: nat) {
    }

    proof fn lemma_increment_many_mono(g: Self, m: nat, n: nat) {
    }

    proof fn lemma_increment_strict(g: Self) {
    }

    fn increment_generation(&mut self) {
        if self.gen == u16::MAX {
            self.gen = 1;
        } else {
            self.gen = self.gen + 1;
        }
    }
}

/// A unit policy under which the arena ignores generations entirely:
/// every generation compares equal, so recycled slots are not detected.
#[derive(Debug, Copy, PartialEq, Eq, Hash)]
pub struct IgnoreGeneration;

impl Clone for IgnoreGeneration {
    fn clone(&self) -> (r: Self)
        ensures
            r == *self,
    {
        IgnoreGeneration
    }
}

impl FixedGenerationalIndex for IgnoreGeneration {
    open spec fn gen_int(self) -> int {
        0
    }

    open spec fn lt_spec(self, other: Self) -> bool {
        false
    }

    open spec fn obeys_order() -> bool {
        false
    }

    open spec fn first_spec() -> Self {
        IgnoreGeneration
    }

    fn first_generation() -> (r: Self) {
        IgnoreGeneration
    }

    fn generation_lt(&self, other: &Self) -> (r: bool) {
        false
    }

    fn generation_eq(&self, other: &Self) -> (r: bool) {
        true
    }
}

impl GenerationalIndex for IgnoreGeneration {
    open spec fn can_increment(self) -> bool {
        true
    }

    open spec fn incremented(self) -> Self {
        self
    }

    open spec fn can_increment_many(self, n: nat) -> bool {
        true
    }

    proof fn lemma_increment_many(g: Self, n: nat) {
    }

    proof fn lemma_increment_many_mono(g: Self, m: nat, n: nat) {
    }

    proof fn lemma_increment_strict(g: Self) {
    }

    fn increment_generation(&mut self) {
    }
}

/// A marker trait for policies whose generations carry no information.
pub trait IgnoredGeneration: FixedGenerationalIndex {

}

impl IgnoredGeneration for IgnoreGeneration {

}

/// A unit policy with no increment operation at all: an arena instantiated
/// with it is a slab that only grows and never removes.
#[derive(Debug, Copy, PartialEq, Eq, Hash)]
pub struct DisableRemoval;

impl Clone for DisableRemoval {
    fn clone(&self) -> (r: Self)
        ensures
            r == *self,
    {
        DisableRemoval
    }
}

impl FixedGenerationalIndex for DisableRemoval {
    open spec fn gen_int(self) -> int {
        0
    }

    open spec fn lt_spec(self, other: Self) -> bool {
        false
    }

    open spec fn obeys_order() -> bool {
        false
    }

    open spec fn first_spec() -> Self {
        DisableRemoval
    }

    fn first_generation() -> (r: Self) {
        DisableRemoval
    }

    fn generation_lt(&self, other: &Self) -> (r: bool) {
        false
    }

    fn generation_eq(&self, other: &Self) -> (r: bool) {
        true
    }
}

impl IgnoredGeneration for DisableRemoval {

}

impl CloneEq for NonzeroGeneration<u16> {
    proof fn lemma_clone_eq(a: Self, b: Self) {
    }
}

impl CloneEq for NonzeroGeneration<u32> {
    proof fn lemma_clone_eq(a: Self, b: Self) {
    }
}

impl CloneEq for NonzeroGeneration<usize> {
    proof fn lemma_clone_eq(a: Self, b: Self) {
    }
}

impl CloneEq for NonzeroWrapGeneration<u8> {
    proof fn lemma_clone_eq(a: Self, b: Self) {
    }
}

impl CloneEq for NonzeroWrapGeneration<u16> {
    proof fn lemma_clone_eq(a: Self, b: Self) {
    }
}

impl CloneEq for IgnoreGeneration {
    proof fn lemma_clone_eq(a: Self, b: Self) {
    }
}

impl CloneEq for DisableRemoval {
    proof fn lemma_clone_eq(a: Self, b: Self) {
    }
}


impl NonzeroGeneration<u16> {
    /// The counter's numeric facts, for callers outside this module: the
    /// first generation measures 1, an increment raises the measure by
    /// exactly one, increments are possible while the measure is below the
    /// width's maximum, the order is the numeric one, and the measure
    /// determines the value. With these a verified caller can discharge
    /// the counter preconditions of removal, draining and retaining.
    pub proof fn lemma_counter_facts(g: Self, h: Self, n: nat)
        ensures
            Self::first_spec().gen_int() == 1,
            g.can_increment() == (g.gen_int() < u16::MAX),
            g.can_increment_many(n) == (g.gen_int() + n <= u16::MAX),
            g.can_increment() ==> g.incremented().gen_int() == g.gen_int() + 1,
            g.lt_spec(h) == (g.gen_int() < h.gen_int()),
            (g == h) == (g.gen_int() == h.gen_int()),
    {
    }
}

impl NonzeroGeneration<u32> {
    /// The counter's numeric facts, for callers outside this module: the
    /// first generation measures 1, an increment raises the measure by
    /// exactly one, increments are possible while the measure is below the
    /// width's maximum, the order is the numeric one, and the measure
    /// determines the value. With these a verified caller can discharge
    /// the counter preconditions of removal, draining and retaining.
    pub proof fn lemma_counter_facts(g: Self, h: Self, n: nat)
        ensures
            Self::first_spec().gen_int() == 1,
            g.can_increment() == (g.gen_int() < u32::MAX),
            g.can_increment_many(n) == (g.gen_int() + n <= u32::MAX),
            g.can_increment() ==> g.incremented().gen_int() == g.gen_int() + 1,
            g.lt_spec(h) == (g.gen_int() < h.gen_int()),
            (g == h) == (g.gen_int() == h.gen_int()),
    {
    }
}

impl NonzeroGeneration<usize> {
    /// The counter's numeric facts, for callers outside this module: the
    /// first generation measures 1, an increment raises the measure by
    /// exactly one, increments are possible while the measure is below the
    /// width's maximum, the order is the numeric one, and the measure
    /// determines the value. With these a verified caller can discharge
    /// the counter preconditions of removal, draining and retaining.
    pub proof fn lemma_counter_facts(g: Self, h: Self, n: nat)
        ensures
            Self::first_spec().gen_int() == 1,
            g.can_increment() == (g.gen_int() < usize::MAX),
            g.can_increment_many(n) == (g.gen_int() + n <= usize::MAX),
            g.can_increment() ==> g.incremented().gen_int() == g.gen_int() + 1,
            g.lt_spec(h) == (g.gen_int() < h.gen_int()),
            (g == h) == (g.gen_int() == h.gen_int()),
    {
    }
}

impl NonzeroWrapGeneration<u8> {
    /// The counter's numeric facts, for callers outside this module: the
    /// first generation measures 1, increments are always possible, the
    /// successor of the width's maximum wraps back to 1 — so the encoded
    /// zero is never produced and stale-handle detection keeps working
    /// right across a forced wrap — and otherwise the measure rises by
    /// exactly one; the order is the numeric one and the measure
    /// determines the value.
    pub proof fn lemma_counter_facts(g: Self, h: Self, n: nat)
        ensures
            Self::first_spec().gen_int() == 1,
            g.can_increment(),
            g.can_increment_many(n),
            g.incremented().gen_int() == (if g.gen_int() == u8::MAX {
                1int
            } else {
                g.gen_int() + 1
            }),
            g.incremented().gen_int() >= 1,
            g.lt_spec(h) == (g.gen_int() < h.gen_int()),
            (g == h) == (g.gen_int() == h.gen_int()),
    {
    }
}

impl NonzeroWrapGeneration<u16> {
    /// The counter's numeric facts, for callers outside this module: the
    /// first generation measures 1, increments are always possible, the
    /// successor of the width's maximum wraps back to 1 — so the encoded
    /// zero is never produced and stale-handle detection keeps working
    /// right across a forced wrap — and otherwise the measure rises by
    /// exactly one; the order is the numeric one and the measure
    /// determines the value.
    pub proof fn lemma_counter_facts(g: Self, h: Self, n: nat)
        ensures
            Self::first_spec().gen_int() == 1,
            g.can_increment(),
            g.can_increment_many(n),
            g.incremented().gen_int() == (if g.gen_int() == u16::MAX {
                1int
            } else {
                g.gen_int() + 1
            }),
            g.incremented().gen_int() >= 1,
            g.lt_spec(h) == (g.gen_int() < h.gen_int()),
            (g == h) == (g.gen_int() == h.gen_int()),
    {
    }
}

} // verus!
