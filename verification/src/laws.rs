//! The laws the arena keeps, stated and proved over its public view.
//!
//! The stale-handle (ABA) argument runs through `handle_dead`: once the
//! arena counter has moved past a handle's generation and its slot no
//! longer matches it, the handle is dead. Removal of a live handle makes it
//! dead; every arena operation — insertion included, since it stamps the
//! current counter, which is already past the dead handle's generation —
//! keeps it dead; and a dead handle never addresses a value again. The
//! other laws here tie the live count to what iteration lists, and state
//! that splitting a range lists exactly what the whole range listed.

use vstd::prelude::*;

use crate::arena::Arena;
use crate::generation::FixedGenerationalIndex;
use crate::generation::GenerationalIndex;
use crate::index::ArenaIndex;
use crate::index::Index;
use crate::slots::Entry;
use crate::slots::lemma_live_seq_elements;
use crate::slots::lemma_live_seq_split;
use crate::slots::live_seq;
use crate::storage::Storage;

verus! {

/// A handle the arena has moved past: the counter is strictly beyond the
/// handle's generation and its slot does not match it. For policies with a
/// strict order this is the permanent form of staleness.
pub open spec fn handle_dead<T, I: ArenaIndex, G: FixedGenerationalIndex, S: Storage<
    Entry<T, I, G>,
>>(a: Arena<T, I, G, S>, h: Index<T, I, G>) -> bool {
    &&& h.gen_spec().gen_int() < a.cur_gen().gen_int()
    &&& !a.valid(h)
}

/// Removing a live handle leaves it dead: the slot is freed and the
/// counter, which its stamp could not exceed, strictly advances. The
/// hypotheses are what `remove`'s contract gives for a successful removal.
pub proof fn lemma_remove_makes_dead<T, I: ArenaIndex, G: GenerationalIndex, S: Storage<
    Entry<T, I, G>,
>>(a: Arena<T, I, G, S>, b: Arena<T, I, G, S>, h: Index<T, I, G>)
    requires
        G::obeys_order(),
        a.inv(),
        a.valid(h),
        a.cur_gen().can_increment(),
        b.cur_gen() == a.cur_gen().incremented(),
        b.slots()[h.idx_int()] is Free,
    ensures
        handle_dead(b, h),
{
    a.lemma_inv_facts();
    G::lemma_increment_strict(a.cur_gen());
}

/// Every operation that only frees slots or rewrites values in place —
/// removal, clearing, draining, retaining, writes through `get_mut` — and
/// never lowers the counter keeps a dead handle dead: a slot that stays
/// occupied keeps its stamp, a freed slot matches nothing, and slots added
/// by growth are free.
pub proof fn lemma_dead_preserved_without_insert<T, I: ArenaIndex, G: FixedGenerationalIndex,
    S: Storage<Entry<T, I, G>>>(a: Arena<T, I, G, S>, b: Arena<T, I, G, S>, h: Index<T, I, G>)
    requires
        handle_dead(a, h),
        a.cur_gen().gen_int() <= b.cur_gen().gen_int(),
        b.cap() >= a.cap(),
        forall|o: int|
            0 <= o < a.cap() ==> ((#[trigger] b.slots()[o]) is Free || (b.slots()[o] is Occupied
                && a.slots()[o] is Occupied && b.slots()[o]->generation
                == a.slots()[o]->generation)),
        forall|o: int| a.cap() <= o < b.cap() ==> !((#[trigger] b.slots()[o]) is Occupied),
    ensures
        handle_dead(b, h),
{
}

/// Insertion keeps a dead handle dead: the new occupant is stamped with
/// the current counter, which is already strictly past the dead handle's
/// generation, so even a reused offset cannot match it. The hypotheses are
/// what `insert`'s contract gives.
pub proof fn lemma_dead_preserved_by_insert<T, I: ArenaIndex, G: FixedGenerationalIndex, S: Storage<
    Entry<T, I, G>,
>>(
    a: Arena<T, I, G, S>,
    b: Arena<T, I, G, S>,
    h: Index<T, I, G>,
    h2: Index<T, I, G>,
    v: T,
)
    requires
        G::obeys_order(),
        handle_dead(a, h),
        b.cur_gen() == a.cur_gen(),
        h2.gen_spec() == a.cur_gen(),
        b.cap() >= a.cap(),
        0 <= h2.idx_int() < b.cap(),
        forall|o: int|
            0 <= o < a.cap() && o != h2.idx_int() ==> #[trigger] b.slots()[o] == a.slots()[o],
        b.slots()[h2.idx_int()] == (Entry::<T, I, G>::Occupied {
            generation: h2.gen_spec(),
            value: v,
        }),
        forall|o: int|
            a.cap() <= o < b.cap() && o != h2.idx_int() ==> ((#[trigger] b.slots()[o]) is Free),
    ensures
        handle_dead(b, h),
{
}

/// A dead handle addresses nothing, so `get`, `get_mut`, `contains` and
/// `remove` all answer "absent" for it.
pub proof fn lemma_dead_handle_misses<T, I: ArenaIndex, G: FixedGenerationalIndex, S: Storage<
    Entry<T, I, G>,
>>(a: Arena<T, I, G, S>, h: Index<T, I, G>)
    requires
        handle_dead(a, h),
    ensures
        !a.valid(h),
{
}

/// A handle whose slot is free addresses nothing — in particular, removing
/// the same handle twice yields nothing the second time.
pub proof fn lemma_freed_slot_invalidates<T, I: ArenaIndex, G: FixedGenerationalIndex, S: Storage<
    Entry<T, I, G>,
>>(a: Arena<T, I, G, S>, h: Index<T, I, G>)
    requires
        a.slots()[h.idx_int()] is Free,
    ensures
        !a.valid(h),
{
}

/// The round trip a handle makes. `insert`'s contract guarantees of its
/// result `h` that the arena holds `v` under it, which is the first
/// hypothesis: an immediate `get` must answer `Some(v)`, and `remove` must
/// answer `Some(v)` too. `remove`'s contract guarantees the slot is free
/// afterwards, which is the second hypothesis: from then on — and so for a
/// second `remove` of the same handle — the lookup answers nothing.
pub proof fn lemma_round_trip<T, I: ArenaIndex, G: FixedGenerationalIndex, S: Storage<
    Entry<T, I, G>,
>>(b: Arena<T, I, G, S>, c: Arena<T, I, G, S>, h: Index<T, I, G>, v: T)
    requires
        b.valid(h),
        b.value_at(h) == v,
        c.slots()[h.idx_int()] is Free,
    ensures
        b.lookup(h) == Some(v),
        c.lookup(h) == None::<T>,
{
}

/// The live-count invariant: `len()` equals the number of entries a full
/// iteration lists; every listed entry names a distinct occupied slot with
/// its generation and value, so each corresponds to exactly one handle
/// with `contains == true`; and every such handle is listed.
pub proof fn lemma_live_count_invariant<T, I: ArenaIndex, G: FixedGenerationalIndex, S: Storage<
    Entry<T, I, G>,
>>(a: Arena<T, I, G, S>)
    requires
        a.inv(),
    ensures
        a.live() == live_seq(a.slots(), 0, a.cap()).len(),
        forall|k: int|
            0 <= k < live_seq(a.slots(), 0, a.cap()).len() ==> {
                let t = #[trigger] live_seq(a.slots(), 0, a.cap())[k];
                &&& 0 <= t.0 < a.cap()
                &&& a.slots()[t.0] is Occupied
                &&& a.slots()[t.0]->generation == t.1
                &&& a.slots()[t.0]->value == t.2
            },
        forall|k1: int, k2: int|
            0 <= k1 < k2 < live_seq(a.slots(), 0, a.cap()).len() ==> #[trigger] live_seq(
                a.slots(),
                0,
                a.cap(),
            )[k1].0 < #[trigger] live_seq(a.slots(), 0, a.cap())[k2].0,
        forall|h: Index<T, I, G>|
            #[trigger] a.valid(h) ==> exists|k: int|
                0 <= k < live_seq(a.slots(), 0, a.cap()).len() && (#[trigger] live_seq(
                    a.slots(),
                    0,
                    a.cap(),
                )[k]).0 == h.idx_int() && live_seq(a.slots(), 0, a.cap())[k].1 == h.gen_spec(),
    {
    a.lemma_inv_facts();
    lemma_live_seq_elements(a.slots(), 0, a.cap());
    assert forall|h: Index<T, I, G>| #[trigger] a.valid(h) implies exists|k: int|
        0 <= k < live_seq(a.slots(), 0, a.cap()).len() && (#[trigger] live_seq(
            a.slots(),
            0,
            a.cap(),
        )[k]).0 == h.idx_int() && live_seq(a.slots(), 0, a.cap())[k].1 == h.gen_spec() by {
        let o = h.idx_int();
        let k = choose|k: int|
            0 <= k < live_seq(a.slots(), 0, a.cap()).len() && #[trigger] live_seq(
                a.slots(),
                0,
                a.cap(),
            )[k].0 == o;
        assert(live_seq(a.slots(), 0, a.cap())[k].1 == h.gen_spec());
    }
}

/// Splitting a range at any point lists, over the two parts, exactly what
/// the whole range listed, in order — so a parallel pass over the leaves
/// of any split tree yields the same entries as one sequential pass, and
/// the parts' live counts add up to the whole's.
pub proof fn lemma_split_equivalence<T, I: ArenaIndex, G: FixedGenerationalIndex, S: Storage<
    Entry<T, I, G>,
>>(a: Arena<T, I, G, S>, mid: int)
    requires
        a.inv(),
        0 <= mid <= a.cap(),
    ensures
        live_seq(a.slots(), 0, a.cap()) == live_seq(a.slots(), 0, mid) + live_seq(
            a.slots(),
            mid,
            a.cap(),
        ),
        a.live() == live_seq(a.slots(), 0, mid).len() + live_seq(a.slots(), mid, a.cap()).len(),
{
    a.lemma_inv_facts();
    lemma_live_seq_split(a.slots(), 0, mid, a.cap());
}

} // verus!
