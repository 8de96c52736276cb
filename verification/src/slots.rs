//! The slot sequence and its mathematical model.
//!
//! An arena's backing store is a sequence of [`Entry`] slots, each either
//! `Free` (threaded onto the free list) or `Occupied` (holding a generation
//! tag and a value). [`live_seq`] lists the occupied slots of a sub-range in
//! offset order as `(offset, generation, value)` triples; it is the model
//! that iteration, parallel splitting and the live-count invariant share.

use vstd::prelude::*;

use crate::clone_eq::CloneEq;

verus! {

/// One slot of an arena's backing store.
pub enum Entry<T, I, G> {
    /// An unoccupied slot, linking to the next free slot, if any.
    Free { next_free: Option<I> },
    /// A slot holding a value, stamped with the arena generation at the
    /// moment the value was inserted.
    Occupied { generation: G, value: T },
}

impl<T: CloneEq, I: CloneEq, G: CloneEq> Clone for Entry<T, I, G> {
    /// A clone of a slot is the slot itself: every field's type carries the
    /// [`CloneEq`] law, which is what lets the persistent backend duplicate
    /// slots internally without being observed.
    fn clone(&self) -> (r: Self)
        ensures
            r == *self,
    {
        match self {
            Entry::Free { next_free } => {
                let nf: Option<I> = match next_free {
                    Some(i) => {
                        let i2 = i.clone();
                        proof {
                            I::lemma_clone_eq(*i, i2);
                        }
                        Some(i2)
                    },
                    None => None,
                };
                Entry::Free { next_free: nf }
            },
            Entry::Occupied { generation, value } => {
                let g2 = generation.clone();
                let v2 = value.clone();
                proof {
                    G::lemma_clone_eq(*generation, g2);
                    T::lemma_clone_eq(*value, v2);
                }
                Entry::Occupied { generation: g2, value: v2 }
            },
        }
    }
}

impl<T: CloneEq, I: CloneEq, G: CloneEq> CloneEq for Entry<T, I, G> {
    proof fn lemma_clone_eq(a: Self, b: Self) {
    }
}

/// The occupied slots of `s` in the offset range `[lo, hi)`, in offset
/// order, as `(offset, generation, value)` triples.
pub open spec fn live_seq<T, I, G>(s: Seq<Entry<T, I, G>>, lo: int, hi: int) -> Seq<(int, G, T)>
    decreases hi - lo,
{
    if lo >= hi {
        Seq::empty()
    } else {
        live_seq(s, lo, hi - 1) + match s[hi - 1] {
            Entry::Occupied { generation, value } => seq![(hi - 1, generation, value)],
            Entry::Free { .. } => Seq::empty(),
        }
    }
}

/// The number of occupied slots of `s` in the offset range `[lo, hi)`.
pub open spec fn live_count<T, I, G>(s: Seq<Entry<T, I, G>>, lo: int, hi: int) -> int {
    live_seq(s, lo, hi).len() as int
}

/// The occupied slots of a range are those of its two halves, in order.
pub proof fn lemma_live_seq_split<T, I, G>(s: Seq<Entry<T, I, G>>, lo: int, mid: int, hi: int)
    requires
        lo <= mid <= hi,
    ensures
        live_seq(s, lo, hi) == live_seq(s, lo, mid) + live_seq(s, mid, hi),
    decreases hi - mid,
{
    if hi == mid {
        assert(live_seq(s, lo, hi) =~= live_seq(s, lo, mid) + live_seq(s, mid, hi));
    } else {
        lemma_live_seq_split(s, lo, mid, hi - 1);
        assert(live_seq(s, lo, hi) =~= live_seq(s, lo, mid) + live_seq(s, mid, hi));
    }
}

/// Two slot sequences that agree on a range have the same occupied slots
/// there.
pub proof fn lemma_live_seq_agree<T, I, G>(
    s1: Seq<Entry<T, I, G>>,
    s2: Seq<Entry<T, I, G>>,
    lo: int,
    hi: int,
)
    requires
        forall|o: int| lo <= o < hi ==> s1[o] == s2[o],
    ensures
        live_seq(s1, lo, hi) == live_seq(s2, lo, hi),
    decreases hi - lo,
{
    if lo < hi {
        lemma_live_seq_agree(s1, s2, lo, hi - 1);
    }
}

/// A range of one slot lists that slot exactly when it is occupied.
pub proof fn lemma_live_seq_one<T, I, G>(s: Seq<Entry<T, I, G>>, o: int)
    requires
        0 <= o < s.len(),
    ensures
        s[o] is Occupied ==> live_seq(s, o, o + 1) == seq![(o, s[o]->generation, s[o]->value)],
        s[o] is Free ==> live_seq(s, o, o + 1) == Seq::<(int, G, T)>::empty(),
{
    assert(live_seq(s, o, o) =~= Seq::<(int, G, T)>::empty());
    match s[o] {
        Entry::Occupied { generation, value } => {
            assert(live_seq(s, o, o + 1) =~= seq![(o, generation, value)]);
        },
        Entry::Free { .. } => {
            assert(live_seq(s, o, o + 1) =~= Seq::<(int, G, T)>::empty());
        },
    }
}

/// A range with no occupied slots lists nothing.
pub proof fn lemma_live_seq_all_free<T, I, G>(s: Seq<Entry<T, I, G>>, lo: int, hi: int)
    requires
        forall|o: int| lo <= o < hi ==> !(#[trigger] s[o] is Occupied),
    ensures
        live_seq(s, lo, hi) == Seq::<(int, G, T)>::empty(),
    decreases hi - lo,
{
    if lo < hi {
        lemma_live_seq_all_free(s, lo, hi - 1);
        assert(live_seq(s, lo, hi) =~= Seq::<(int, G, T)>::empty());
    }
}

/// What the listing means: every listed triple names an occupied slot of the
/// range with its generation and value; offsets are listed in strictly
/// increasing order; and every occupied slot of the range is listed.
pub proof fn lemma_live_seq_elements<T, I, G>(s: Seq<Entry<T, I, G>>, lo: int, hi: int)
    ensures
        forall|k: int|
            0 <= k < live_seq(s, lo, hi).len() ==> {
                let t = #[trigger] live_seq(s, lo, hi)[k];
                lo <= t.0 < hi && s[t.0] is Occupied && s[t.0]->generation == t.1 && s[t.0]->value
                    == t.2
            },
        forall|k1: int, k2: int|
            0 <= k1 < k2 < live_seq(s, lo, hi).len() ==> #[trigger] live_seq(s, lo, hi)[k1].0
                < #[trigger] live_seq(s, lo, hi)[k2].0,
        forall|o: int|
            lo <= o < hi && #[trigger] s[o] is Occupied ==> exists|k: int|
                0 <= k < live_seq(s, lo, hi).len() && #[trigger] live_seq(s, lo, hi)[k].0 == o,
    decreases hi - lo,
{
    if lo < hi {
        lemma_live_seq_elements(s, lo, hi - 1);
        let prev = live_seq(s, lo, hi - 1);
        let cur = live_seq(s, lo, hi);
        match s[hi - 1] {
            Entry::Occupied { generation, value } => {
                assert(cur == prev + seq![(hi - 1, generation, value)]);
                assert(forall|k: int| 0 <= k < prev.len() ==> cur[k] == prev[k]);
                assert(cur[prev.len() as int] == (hi - 1, generation, value));
                assert forall|o: int|
                    lo <= o < hi && #[trigger] s[o] is Occupied implies exists|k: int|
                    0 <= k < cur.len() && #[trigger] cur[k].0 == o by {
                    if o == hi - 1 {
                        assert(cur[prev.len() as int].0 == o);
                    } else {
                        let k = choose|k: int| 0 <= k < prev.len() && #[trigger] prev[k].0 == o;
                        assert(cur[k].0 == o);
                    }
                }
            },
            Entry::Free { .. } => {
                assert(cur == prev + Seq::<(int, G, T)>::empty());
                assert(cur =~= prev);
                assert forall|o: int|
                    lo <= o < hi && #[trigger] s[o] is Occupied implies exists|k: int|
                    0 <= k < cur.len() && #[trigger] cur[k].0 == o by {
                    let k = choose|k: int| 0 <= k < prev.len() && #[trigger] prev[k].0 == o;
                    assert(cur[k].0 == o);
                }
            },
        }
    }
}

/// How overwriting one slot changes the live count of the whole sequence,
/// and how the listing decomposes around the overwritten offset.
pub proof fn lemma_live_count_update<T, I, G>(s: Seq<Entry<T, I, G>>, o: int, e: Entry<T, I, G>)
    requires
        0 <= o < s.len(),
    ensures
        live_count(s.update(o, e), 0, s.len() as int) == live_count(s, 0, s.len() as int) + (
        if e is Occupied {
            1int
        } else {
            0int
        }) - (
        if s[o] is Occupied {
            1int
        } else {
            0int
        }),
{
    let n = s.len() as int;
    let s2 = s.update(o, e);
    lemma_live_seq_split(s, 0, o, n);
    lemma_live_seq_split(s, o, o + 1, n);
    lemma_live_seq_one(s, o);
    lemma_live_seq_split(s2, 0, o, n);
    lemma_live_seq_split(s2, o, o + 1, n);
    lemma_live_seq_one(s2, o);
    lemma_live_seq_update_outside(s, o, e, 0, o);
    lemma_live_seq_update_outside(s, o, e, o + 1, n);
}

/// How overwriting a slot inside `[lo, hi)` decomposes the range's listing.
pub proof fn lemma_live_seq_update_inside<T, I, G>(
    s: Seq<Entry<T, I, G>>,
    o: int,
    e: Entry<T, I, G>,
    lo: int,
    hi: int,
)
    requires
        0 <= lo <= o < hi <= s.len(),
    ensures
        live_seq(s.update(o, e), lo, hi) == live_seq(s, lo, o) + live_seq(s.update(o, e), o, o + 1)
            + live_seq(s, o + 1, hi),
        live_count(s.update(o, e), lo, hi) == live_count(s, lo, hi) + (
        if e is Occupied {
            1int
        } else {
            0int
        }) - (
        if s[o] is Occupied {
            1int
        } else {
            0int
        }),
{
    let s2 = s.update(o, e);
    lemma_live_seq_split(s, lo, o, hi);
    lemma_live_seq_split(s, o, o + 1, hi);
    lemma_live_seq_one(s, o);
    lemma_live_seq_split(s2, lo, o, hi);
    lemma_live_seq_split(s2, o, o + 1, hi);
    lemma_live_seq_one(s2, o);
    lemma_live_seq_update_outside(s, o, e, lo, o);
    lemma_live_seq_update_outside(s, o, e, o + 1, hi);
}

/// Changing a slot outside `[lo, hi)` leaves the range's listing unchanged.
pub proof fn lemma_live_seq_update_outside<T, I, G>(
    s: Seq<Entry<T, I, G>>,
    o: int,
    e: Entry<T, I, G>,
    lo: int,
    hi: int,
)
    requires
        0 <= lo,
        hi <= s.len(),
        0 <= o < s.len(),
        o < lo || hi <= o,
    ensures
        live_seq(s.update(o, e), lo, hi) == live_seq(s, lo, hi),
{
    assert(forall|i: int| lo <= i < hi ==> s.update(o, e)[i] == s[i]);
    lemma_live_seq_agree(s.update(o, e), s, lo, hi);
}

} // verus!
