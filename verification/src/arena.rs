//! The arena core: slot allocation, the free list, and the generation
//! counter, written once against the [`Storage`] backend contract.
//!
//! The arena owns a sequence of slots, a monotonic arena-wide generation
//! counter, a free-list head and a live count. Its invariant ties them
//! together: the live count equals the number of occupied slots, the free
//! list enumerates exactly the free slots with no cycle or omission, and —
//! for generation policies with a strict order — every occupied slot's stamp
//! is at most the arena counter, which is what makes stale handles
//! detectable.

use vstd::prelude::*;

use core::marker::PhantomData;

use crate::clone_eq::CloneEq;
use crate::generation::FixedGenerationalIndex;
use crate::generation::GenerationalIndex;
use crate::index::ArenaIndex;
use crate::index::Index;
use crate::slots::Entry;
use crate::slots::lemma_live_seq_agree;
use crate::slots::lemma_live_seq_all_free;
use crate::slots::lemma_live_seq_one;
use crate::slots::lemma_live_seq_split;
use crate::slots::live_count;
use crate::slots::live_seq;
use crate::storage::Storage;

verus! {

/// The number of slots a fresh arena reserves when none is asked for.
pub const DEFAULT_CAPACITY: usize = 4;

/// A generation-tagged slot arena over value type `T`, offset encoding `I`,
/// generation policy `G` and storage backend `S`.
pub struct Arena<T, I, G, S> {
    store: S,
    generation: G,
    length: usize,
    free_head: Option<I>,
    free: Ghost<Seq<int>>,
    _marker: PhantomData<T>,
}

impl<T, I: ArenaIndex, G: FixedGenerationalIndex, S: Storage<Entry<T, I, G>>> Arena<T, I, G, S> {
    /// The arena's slot sequence.
    pub closed spec fn slots(self) -> Seq<Entry<T, I, G>> {
        self.store.slots()
    }

    /// The arena's current generation counter.
    pub closed spec fn cur_gen(self) -> G {
        self.generation
    }

    /// The number of live (occupied) slots.
    pub closed spec fn live(self) -> int {
        self.length as int
    }

    /// The number of slots, occupied or free.
    pub open spec fn cap(self) -> int {
        self.slots().len() as int
    }

    /// The free slots, in the order the free list chains them.
    pub closed spec fn free_list(self) -> Seq<int> {
        self.free@
    }

    /// Whether handle `h` currently addresses a value: its offset is in
    /// range, the slot there is occupied, and the slot's stamp equals the
    /// handle's generation.
    pub open spec fn valid(self, h: Index<T, I, G>) -> bool {
        &&& 0 <= h.idx_int() < self.cap()
        &&& self.slots()[h.idx_int()] is Occupied
        &&& self.slots()[h.idx_int()]->generation == h.gen_spec()
    }

    /// The value handle `h` addresses.
    pub open spec fn value_at(self, h: Index<T, I, G>) -> T
        recommends
            self.valid(h),
    {
        self.slots()[h.idx_int()]->value
    }

    /// What looking a handle up answers: the slot's value when the handle
    /// is valid, nothing otherwise. `get`, `get_mut`, `contains` and
    /// `remove` all answer according to this function.
    pub open spec fn lookup(self, h: Index<T, I, G>) -> Option<T> {
        if self.valid(h) {
            Some(self.value_at(h))
        } else {
            None
        }
    }

    /// The arena's well-formedness invariant.
    pub closed spec fn inv(self) -> bool {
        Self::inv_parts(
            self.store.slots(),
            self.length as int,
            self.free@,
            self.free_head,
            self.generation,
        )
    }

    /// The invariant, stated over the arena's components: slot sequence,
    /// live count, free-list order, free-list head and generation counter.
    pub closed spec fn inv_parts(
        s: Seq<Entry<T, I, G>>,
        length: int,
        fs: Seq<int>,
        free_head: Option<I>,
        generation: G,
    ) -> bool {
        &&& s.len() <= usize::MAX
        &&& length == live_count(s, 0, s.len() as int)
        &&& length + fs.len() == s.len()
        &&& (forall|k: int| 0 <= k < fs.len() ==> 0 <= #[trigger] fs[k] < s.len())
        &&& (forall|k: int| 0 <= k < fs.len() ==> s[#[trigger] fs[k]] is Free)
        &&& (forall|k1: int, k2: int| 0 <= k1 < k2 < fs.len() ==> fs[k1] != fs[k2])
        &&& (forall|k: int|
            0 <= k < fs.len() ==> {
                let nf = s[#[trigger] fs[k]]->next_free;
                &&& (k + 1 < fs.len() ==> nf is Some && nf->0.idx_spec() == fs[k + 1])
                &&& (k + 1 == fs.len() ==> nf is None)
            })
        &&& (match free_head {
            Some(h) => fs.len() > 0 && h.idx_spec() == fs[0],
            None => fs.len() == 0,
        })
        &&& (forall|o: int| 0 <= o < s.len() && (#[trigger] s[o]) is Free ==> fs.contains(o))
        &&& (forall|j: int| 0 <= j < s.len() ==> #[trigger] I::can_encode(j))
        &&& (G::obeys_order() ==> forall|o: int|
            0 <= o < s.len() && (#[trigger] s[o]) is Occupied ==> s[o]->generation.gen_int()
                <= generation.gen_int())
    }

    /// The capacity `with_capacity(n)` actually reserves: at least one slot.
    pub open spec fn clamped_capacity(n: usize) -> int {
        if n as int >= 1 {
            n as int
        } else {
            1
        }
    }

    /// Constructs a new, empty arena able to hold `n` elements (at least
    /// one) without further allocation.
    pub fn with_capacity(n: usize) -> (a: Self)
        requires
            forall|j: int| 0 <= j < Self::clamped_capacity(n) ==> #[trigger] I::can_encode(j),
        ensures
            a.inv(),
            a.cap() == Self::clamped_capacity(n),
            a.live() == 0,
            a.cur_gen() == G::first_spec(),
            forall|o: int| 0 <= o < a.cap() ==> (#[trigger] a.slots()[o]) is Free,
            a.free_list() == Seq::new(a.cap() as nat, |k: int| k),
    {
        let m: usize = if n < 1 {
            1
        } else {
            n
        };
        let mut a = Arena {
            store: S::empty(),
            generation: G::first_generation(),
            length: 0,
            free_head: None,
            free: Ghost(Seq::empty()),
            _marker: PhantomData,
        };
        proof {
            assert(live_seq(a.slots(), 0, 0) =~= Seq::<(int, G, T)>::empty());
            assert(a.inv());
        }
        a.reserve(m);
        proof {
            assert(a.free_list() =~= Seq::new(a.cap() as nat, |k: int| k));
        }
        a
    }

    /// Constructs a new, empty arena with the default capacity.
    pub fn new() -> (a: Self)
        requires
            forall|j: int| 0 <= j < DEFAULT_CAPACITY ==> #[trigger] I::can_encode(j),
        ensures
            a.inv(),
            a.cap() == DEFAULT_CAPACITY,
            a.live() == 0,
            a.cur_gen() == G::first_spec(),
            forall|o: int| 0 <= o < a.cap() ==> (#[trigger] a.slots()[o]) is Free,
            a.free_list() == Seq::new(a.cap() as nat, |k: int| k),
    {
        Self::with_capacity(DEFAULT_CAPACITY)
    }

    /// Reserve space for `additional_capacity` more elements. The new slots
    /// stand at the tail and are threaded onto the front of the free list,
    /// so older offsets are reused last among the new batch but before what
    /// was already free.
    #[verifier::rlimit(100)]
    #[verifier::spinoff_prover]
    pub fn reserve(&mut self, additional_capacity: usize)
        requires
            old(self).inv(),
            old(self).cap() + additional_capacity <= usize::MAX,
            forall|j: int|
                old(self).cap() <= j < old(self).cap() + additional_capacity
                    ==> #[trigger] I::can_encode(j),
        ensures
            final(self).inv(),
            final(self).cap() == old(self).cap() + additional_capacity,
            final(self).live() == old(self).live(),
            final(self).cur_gen() == old(self).cur_gen(),
            forall|o: int|
                0 <= o < old(self).cap() ==> final(self).slots()[o] == old(self).slots()[o],
            forall|o: int|
                old(self).cap() <= o < final(self).cap() ==> (#[trigger] final(self).slots()[o])
                    is Free,
            final(self).free_list() == Seq::new(
                additional_capacity as nat,
                |k: int| old(self).cap() + k,
            ) + old(self).free_list(),
    {
        let ghost old_slots = self.store.slots();
        let ghost old_fs = self.free@;
        let start = self.store.count();
        let end = start + additional_capacity;
        let old_head = self.free_head;
        if additional_capacity == 0 {
            proof {
                assert(final(self).free_list() =~= Seq::new(
                    additional_capacity as nat,
                    |k: int| old(self).cap() + k,
                ) + old(self).free_list());
            }
            return ;
        }
        let mut i = start;
        while i < end
            invariant
                start <= i <= end,
                end <= usize::MAX,
                start < end,
                self.store.slots().len() == i,
                forall|o: int| 0 <= o < start ==> self.store.slots()[o] == old_slots[o],
                forall|o: int|
                    start <= o < i ==> {
                        let e = #[trigger] self.store.slots()[o];
                        &&& e is Free
                        &&& (o + 1 < end ==> e->next_free is Some && e->next_free->0.idx_spec() == o
                            + 1)
                        &&& (o + 1 == end ==> e->next_free == old_head)
                    },
                old_slots.len() == start,
                self.generation == old(self).cur_gen(),
                self.length == old(self).live(),
                self.free_head == old_head,
                self.free@ == old_fs,
                forall|j: int| start <= j < end ==> #[trigger] I::can_encode(j),
            decreases end - i,
        {
            let entry: Entry<T, I, G> = if i + 1 < end {
                Entry::Free { next_free: Some(I::from_idx(i + 1)) }
            } else {
                Entry::Free { next_free: old_head }
            };
            self.store.append(entry);
            i = i + 1;
        }
        self.free_head = Some(I::from_idx(start));
        proof {
            self.free@ = Seq::new(additional_capacity as nat, |k: int| start + k) + old_fs;
        }
        proof {
            let s = self.store.slots();
            let fs = self.free@;
            let n = additional_capacity as int;
            // Live count is unchanged: the old range is untouched and the
            // new slots are all free.
            lemma_live_seq_agree(s, old_slots, 0, start as int);
            lemma_live_seq_all_free(s, start as int, end as int);
            lemma_live_seq_split(s, 0, start as int, end as int);
            // The old free slots keep their chain and stay listed.
            assert forall|o: int| 0 <= o < s.len() && (#[trigger] s[o]) is Free implies fs.contains(
                o,
            ) by {
                if o < start {
                    assert(old_slots[o] is Free);
                    let k = choose|k: int| 0 <= k < old_fs.len() && old_fs[k] == o;
                    assert(fs[n + k] == o);
                } else {
                    assert(fs[o - start] == o);
                }
            }
            assert forall|k: int| 0 <= k < fs.len() implies {
                let nf = s[#[trigger] fs[k]]->next_free;
                &&& (k + 1 < fs.len() ==> nf is Some && nf->0.idx_spec() == fs[k + 1])
                &&& (k + 1 == fs.len() ==> nf is None)
            } by {
                if k < n {
                    assert(fs[k] == start + k);
                    if k + 1 < n {
                        assert(fs[k + 1] == start + k + 1);
                    } else if old_fs.len() > 0 {
                        assert(fs[k + 1] == old_fs[0]);
                        assert(s[start + k]->next_free == old_head);
                    } else {
                        assert(s[start + k]->next_free == old_head);
                    }
                } else {
                    assert(fs[k] == old_fs[k - n]);
                    assert(s[fs[k]] == old_slots[fs[k]]);
                }
            }
            assert(final(self).free_list() =~= Seq::new(
                additional_capacity as nat,
                |k: int| old(self).cap() + k,
            ) + old(self).free_list());
            if G::obeys_order() {
                assert forall|o: int|
                    0 <= o < s.len() && (#[trigger] s[o]) is Occupied implies (
                s[o]->generation.gen_int() <= self.generation.gen_int()) by {
                    assert(o < start);
                    assert(s[o] == old_slots[o]);
                }
            }
            assert(self.inv());
        }
    }

    /// Overwriting an occupied slot's value, keeping its stamp, preserves
    /// the invariant: no conjunct looks at values.
    proof fn lemma_inv_value_update(
        s: Seq<Entry<T, I, G>>,
        length: int,
        fs: Seq<int>,
        free_head: Option<I>,
        generation: G,
        o: int,
        t: T,
    )
        requires
            Self::inv_parts(s, length, fs, free_head, generation),
            0 <= o < s.len(),
            s[o] is Occupied,
        ensures
            Self::inv_parts(
                s.update(o, Entry::Occupied { generation: s[o]->generation, value: t }),
                length,
                fs,
                free_head,
                generation,
            ),
    {
        let e = Entry::Occupied { generation: s[o]->generation, value: t };
        let s2 = s.update(o, e);
        crate::slots::lemma_live_count_update(s, o, e);
        assert forall|k: int| 0 <= k < fs.len() implies s2[#[trigger] fs[k]] == s[fs[k]] by {
            assert(s[fs[k]] is Free);
        }
        assert forall|o2: int| 0 <= o2 < s2.len() && (#[trigger] s2[o2]) is Free implies fs.contains(
            o2,
        ) by {
            assert(o2 != o);
            assert(s[o2] is Free);
        }
    }

    /// Attempts to insert `value` using existing capacity; never allocates.
    /// Succeeds exactly when a free slot exists, popping the free-list head
    /// and stamping the slot with the arena's current generation; on failure
    /// the value is handed back and nothing changes.
    pub fn try_insert(&mut self, value: T) -> (r: Result<Index<T, I, G>, T>)
        requires
            old(self).inv(),
        ensures
            final(self).inv(),
            final(self).cur_gen() == old(self).cur_gen(),
            final(self).cap() == old(self).cap(),
            (r is Ok) == (old(self).live() < old(self).cap()),
            r matches Err(v) ==> v == value && final(self).slots() == old(self).slots()
                && final(self).live() == old(self).live()
                && final(self).free_list() == old(self).free_list(),
            r matches Ok(h) ==> {
                &&& h.idx_int() == old(self).free_list()[0]
                &&& h.gen_spec() == old(self).cur_gen()
                &&& final(self).slots() == old(self).slots().update(
                    h.idx_int(),
                    Entry::Occupied { generation: old(self).cur_gen(), value },
                )
                &&& final(self).free_list() == old(self).free_list().drop_first()
                &&& final(self).live() == old(self).live() + 1
                &&& final(self).valid(h)
            },
    {
        let ghost pre = *self;
        match self.free_head {
            None => {
                proof {
                    assert(pre.free_list().len() == 0);
                }
                Err(value)
            },
            Some(i) => {
                let o = i.to_idx();
                proof {
                    assert(pre.free_list()[0] == i.idx_spec());
                    assert(0 <= pre.free_list()[0] < pre.cap());
                    assert(pre.slots()[pre.free_list()[0]] is Free);
                }
                let prev = self.store.replace(
                    o,
                    Entry::Occupied { generation: self.generation, value },
                );
                match prev {
                    Entry::Free { next_free } => {
                        self.free_head = next_free;
                        self.length = self.length + 1;
                        let h = Index::new(i, self.generation);
                        proof {
                            self.free@ = pre.free_list().drop_first();
                            let s = pre.slots();
                            let s2 = self.store.slots();
                            let fs = pre.free_list();
                            let fs2 = self.free@;
                            crate::slots::lemma_live_count_update(s, fs[0], s2[fs[0]]);
                            assert forall|k: int|
                                0 <= k < fs2.len() implies s2[#[trigger] fs2[k]] == s[fs2[k]]
                                && fs2[k] != fs[0] by {
                                assert(fs2[k] == fs[k + 1]);
                                assert(s[fs[k + 1]] is Free);
                            }
                            assert forall|o2: int|
                                0 <= o2 < s2.len() && (#[trigger] s2[o2]) is Free implies
                                fs2.contains(o2) by {
                                assert(o2 != fs[0]);
                                assert(s[o2] is Free);
                                let k = choose|k: int| 0 <= k < fs.len() && fs[k] == o2;
                                assert(fs2[k - 1] == o2);
                            }
                            assert(self.inv());
                        }
                        Ok(h)
                    },
                    Entry::Occupied { .. } => vstd::pervasive::unreached(),
                }
            },
        }
    }

    /// Whether `insert` may be called: either a free slot exists, or the
    /// arena can double its capacity without exceeding `usize` or the offset
    /// encoding. Growth past either limit is the fatal capacity-exhaustion
    /// condition, which this library rules out by precondition instead of
    /// trapping.
    pub open spec fn can_insert(self) -> bool {
        self.live() < self.cap() || (1 <= self.cap() && 2 * self.cap() <= usize::MAX && (forall|
            j: int,
        |
            self.cap() <= j < 2 * self.cap() ==> #[trigger] I::can_encode(j)))
    }

    /// Insert `value`, growing capacity if necessary by reserving as many
    /// new slots again as the arena already has. The handle returned is
    /// stamped with the arena's current generation, which insertion never
    /// advances.
    pub fn insert(&mut self, value: T) -> (h: Index<T, I, G>)
        requires
            old(self).inv(),
            old(self).can_insert(),
        ensures
            final(self).inv(),
            final(self).cur_gen() == old(self).cur_gen(),
            h.gen_spec() == old(self).cur_gen(),
            final(self).valid(h),
            final(self).value_at(h) == value,
            final(self).live() == old(self).live() + 1,
            forall|o: int|
                0 <= o < old(self).cap() && o != h.idx_int() ==> final(self).slots()[o] == old(self).slots()[o],
            old(self).live() < old(self).cap() ==> {
                &&& final(self).cap() == old(self).cap()
                &&& h.idx_int() == old(self).free_list()[0]
                &&& final(self).slots() == old(self).slots().update(
                    h.idx_int(),
                    Entry::Occupied { generation: old(self).cur_gen(), value },
                )
                &&& final(self).free_list() == old(self).free_list().drop_first()
            },
            old(self).live() == old(self).cap() ==> {
                &&& final(self).cap() == 2 * old(self).cap()
                &&& h.idx_int() == old(self).cap()
                &&& final(self).slots()[h.idx_int()] == (Entry::<T, I, G>::Occupied {
                    generation: old(self).cur_gen(),
                    value,
                })
                &&& (forall|o: int|
                    old(self).cap() < o < final(self).cap() ==> (#[trigger] final(self).slots()[o])
                        is Free)
                &&& final(self).free_list() == Seq::new(
                    (old(self).cap() - 1) as nat,
                    |k: int| old(self).cap() + 1 + k,
                )
            },
    {
        match self.try_insert(value) {
            Ok(h) => h,
            Err(v) => self.insert_slow_path(v),
        }
    }

    /// The growth path of `insert`: double the capacity, then take the
    /// first of the newly reserved slots.
    #[verifier::rlimit(60)]
    fn insert_slow_path(&mut self, value: T) -> (h: Index<T, I, G>)
        requires
            old(self).inv(),
            old(self).live() == old(self).cap(),
            1 <= old(self).cap(),
            2 * old(self).cap() <= usize::MAX,
            forall|j: int|
                old(self).cap() <= j < 2 * old(self).cap() ==> #[trigger] I::can_encode(j),
        ensures
            final(self).inv(),
            final(self).cur_gen() == old(self).cur_gen(),
            h.gen_spec() == old(self).cur_gen(),
            final(self).valid(h),
            final(self).value_at(h) == value,
            final(self).live() == old(self).live() + 1,
            final(self).cap() == 2 * old(self).cap(),
            h.idx_int() == old(self).cap(),
            forall|o: int|
                0 <= o < old(self).cap() ==> final(self).slots()[o] == old(self).slots()[o],
            final(self).slots()[h.idx_int()] == (Entry::<T, I, G>::Occupied {
                generation: old(self).cur_gen(),
                value,
            }),
            forall|o: int|
                old(self).cap() < o < final(self).cap() ==> (#[trigger] final(self).slots()[o])
                    is Free,
            final(self).free_list() == Seq::new(
                (old(self).cap() - 1) as nat,
                |k: int| old(self).cap() + 1 + k,
            ),
    {
        let ghost pre = *self;
        let n = self.store.count();
        proof {
            assert(pre.free_list().len() == 0);
        }
        self.reserve(n);
        let ghost grown = *self;
        proof {
            assert(grown.free_list() =~= Seq::new(n as nat, |k: int| n + k));
            assert(grown.live() < grown.cap());
        }
        match self.try_insert(value) {
            Ok(h) => {
                proof {
                    assert(h.idx_int() == grown.free_list()[0]);
                    assert(final(self).free_list() =~= Seq::new(
                        (pre.cap() - 1) as nat,
                        |k: int| pre.cap() + 1 + k,
                    ));
                    let post = *final(self);
                    assert forall|o: int|
                        pre.cap() < o < post.cap() implies ((#[trigger] post.slots()[o])
                        is Free) by {
                        assert(grown.slots()[o] is Free);
                        assert(post.slots()[o] == grown.slots()[o]);
                    }
                }
                h
            },
            Err(_) => vstd::pervasive::unreached(),
        }
    }

    /// Get a shared reference to the element addressed by handle `i`, or
    /// `None` when the handle is out of range, the slot is free, or the
    /// slot's stamp differs from the handle's generation.
    pub fn get(&self, i: Index<T, I, G>) -> (r: Option<&T>)
        requires
            self.inv(),
        ensures
            match r {
                Some(v) => self.valid(i) && *v == self.value_at(i),
                None => !self.valid(i),
            },
    {
        let o = i.to_idx();
        if o >= self.store.count() {
            return None;
        }
        let g = i.gen();
        match self.store.slot_ref(o) {
            Entry::Occupied { generation, value } => {
                if generation.generation_eq(&g) {
                    Some(value)
                } else {
                    None
                }
            },
            Entry::Free { .. } => None,
        }
    }

    /// Whether the element addressed by handle `i` is in the arena.
    pub fn contains(&self, i: Index<T, I, G>) -> (r: bool)
        requires
            self.inv(),
        ensures
            r == self.valid(i),
    {
        self.get(i).is_some()
    }

    /// Get an exclusive reference to the element addressed by handle `i`,
    /// or `None` as for `get`. Writing through the reference changes the
    /// slot's value and nothing else.
    pub fn get_mut(&mut self, i: Index<T, I, G>) -> (r: Option<&mut T>)
        requires
            old(self).inv(),
        ensures
            final(self).inv(),
            final(self).cur_gen() == old(self).cur_gen(),
            final(self).cap() == old(self).cap(),
            final(self).live() == old(self).live(),
            final(self).free_list() == old(self).free_list(),
            match r {
                None => !old(self).valid(i) && final(self).slots() == old(self).slots(),
                Some(v) => {
                    &&& old(self).valid(i)
                    &&& *v == old(self).value_at(i)
                    &&& final(self).slots() == old(self).slots().update(
                        i.idx_int(),
                        Entry::Occupied { generation: i.gen_spec(), value: *final(v) },
                    )
                },
            },
    {
        let ghost pre = *self;
        let o = i.to_idx();
        if o >= self.store.count() {
            return None;
        }
        let g = i.gen();
        let e = self.store.slot_mut(o);
        match e {
            Entry::Occupied { generation, value } => {
                if generation.generation_eq(&g) {
                    proof {
                        Self::lemma_inv_value_update(
                            pre.slots(),
                            pre.live(),
                            pre.free_list(),
                            pre.free_head,
                            pre.cur_gen(),
                            o as int,
                            *final(value),
                        );
                    }
                    Some(value)
                } else {
                    proof {
                        assert(pre.slots().update(o as int, pre.slots()[o as int]) =~= pre.slots());
                    }
                    None
                }
            },
            Entry::Free { .. } => {
                proof {
                    assert(pre.slots().update(o as int, pre.slots()[o as int]) =~= pre.slots());
                }
                None
            },
        }
    }

    /// Rebuild every slot as free, chained in offset order, without
    /// touching the generation counter.
    fn reset_all_free(&mut self)
        requires
            old(self).slots().len() <= usize::MAX,
            forall|j: int| 0 <= j < old(self).slots().len() ==> #[trigger] I::can_encode(j),
        ensures
            final(self).inv(),
            final(self).cap() == old(self).cap(),
            final(self).cur_gen() == old(self).cur_gen(),
            final(self).live() == 0,
            forall|o: int|
                0 <= o < final(self).cap() ==> (#[trigger] final(self).slots()[o]) is Free,
            final(self).free_list() == Seq::new(old(self).cap() as nat, |k: int| k),
    {
        let cap = self.store.count();
        let mut o: usize = 0;
        while o < cap
            invariant
                0 <= o <= cap,
                self.store.slots().len() == cap,
                cap <= usize::MAX,
                forall|j: int| 0 <= j < cap ==> #[trigger] I::can_encode(j),
                forall|p: int|
                    0 <= p < o ==> {
                        let e = #[trigger] self.store.slots()[p];
                        &&& e is Free
                        &&& (p + 1 < cap ==> e->next_free is Some && e->next_free->0.idx_spec() == p
                            + 1)
                        &&& (p + 1 == cap ==> e->next_free is None)
                    },
                self.generation == old(self).cur_gen(),
            decreases cap - o,
        {
            let nf: Option<I> = if o + 1 < cap {
                Some(I::from_idx(o + 1))
            } else {
                None
            };
            let _ = self.store.replace(o, Entry::Free { next_free: nf });
            o = o + 1;
        }
        self.free_head = if cap > 0 {
            Some(I::from_idx(0))
        } else {
            None
        };
        self.length = 0;
        proof {
            self.free@ = Seq::new(cap as nat, |k: int| k);
            let s = self.store.slots();
            let fs = self.free@;
            lemma_live_seq_all_free(s, 0, cap as int);
            assert forall|o2: int| 0 <= o2 < s.len() && (#[trigger] s[o2]) is Free implies
                fs.contains(o2) by {
                assert(fs[o2] == o2);
            }
            assert(self.inv());
            assert(final(self).free_list() =~= Seq::new(old(self).cap() as nat, |k: int| k));
        }
    }

    /// Clear all items from the arena, keeping its capacity. Every slot
    /// becomes free and the free list is rebuilt in offset order; the
    /// generation counter is left as it is, so handles from before the
    /// clear stay detectably stale.
    pub fn clear(&mut self)
        requires
            old(self).inv(),
        ensures
            final(self).inv(),
            final(self).cap() == old(self).cap(),
            final(self).cur_gen() == old(self).cur_gen(),
            final(self).live() == 0,
            forall|o: int|
                0 <= o < final(self).cap() ==> (#[trigger] final(self).slots()[o]) is Free,
            final(self).free_list() == Seq::new(old(self).cap() as nat, |k: int| k),
    {
        self.reset_all_free();
    }

    /// What the invariant lets every caller rely on, stated over the public
    /// view: the live count equals the number of occupied slots, the free
    /// list accounts for the rest exactly, and every offset in range is
    /// representable by the index encoding.
    pub proof fn lemma_inv_facts(self)
        requires
            self.inv(),
        ensures
            self.cap() == self.slots().len(),
            self.cap() <= usize::MAX,
            0 <= self.live() <= self.cap(),
            self.live() == live_count(self.slots(), 0, self.cap()),
            self.live() + self.free_list().len() == self.cap(),
            forall|j: int| 0 <= j < self.cap() ==> #[trigger] I::can_encode(j),
            forall|k: int|
                0 <= k < self.free_list().len() ==> 0 <= #[trigger] self.free_list()[k]
                    < self.cap() && self.slots()[self.free_list()[k]] is Free,
            forall|k1: int, k2: int|
                0 <= k1 < k2 < self.free_list().len() ==> self.free_list()[k1]
                    != self.free_list()[k2],
            forall|o: int|
                0 <= o < self.cap() && (#[trigger] self.slots()[o]) is Free
                    ==> self.free_list().contains(o),
            G::obeys_order() ==> forall|o: int|
                0 <= o < self.cap() && (#[trigger] self.slots()[o]) is Occupied ==> (
                self.slots()[o]->generation.gen_int() <= self.cur_gen().gen_int()),
    {
    }

    /// Turn the slot at offset `o` into a handle and a reference to its
    /// value, or `None` when the slot is free.
    pub fn entry_to_ref(&self, o: usize) -> (r: Option<(Index<T, I, G>, &T)>)
        requires
            self.inv(),
            o < self.cap(),
        ensures
            match r {
                None => !(self.slots()[o as int] is Occupied),
                Some((h, v)) => {
                    &&& self.slots()[o as int] is Occupied
                    &&& h.idx_int() == o as int
                    &&& h.gen_spec() == self.slots()[o as int]->generation
                    &&& *v == self.slots()[o as int]->value
                    &&& self.valid(h)
                },
            },
    {
        match self.store.slot_ref(o) {
            Entry::Occupied { generation, value } => {
                let h = Index::new(I::from_idx(o), *generation);
                Some((h, value))
            },
            Entry::Free { .. } => None,
        }
    }

    /// Turn the slot at offset `o` into a handle and an exclusive reference
    /// to its value, or `None` when the slot is free. Writing through the
    /// reference changes that slot's value and nothing else.
    pub fn entry_to_mut(&mut self, o: usize) -> (r: Option<(Index<T, I, G>, &mut T)>)
        requires
            old(self).inv(),
            o < old(self).cap(),
        ensures
            final(self).inv(),
            final(self).cur_gen() == old(self).cur_gen(),
            final(self).cap() == old(self).cap(),
            final(self).live() == old(self).live(),
            final(self).free_list() == old(self).free_list(),
            match r {
                None => !(old(self).slots()[o as int] is Occupied) && final(self).slots() == old(self).slots(),
                Some((h, v)) => {
                    &&& old(self).slots()[o as int] is Occupied
                    &&& h.idx_int() == o as int
                    &&& h.gen_spec() == old(self).slots()[o as int]->generation
                    &&& *v == old(self).slots()[o as int]->value
                    &&& old(self).valid(h)
                    &&& final(self).slots() == old(self).slots().update(
                        o as int,
                        Entry::Occupied { generation: h.gen_spec(), value: *final(v) },
                    )
                },
            },
    {
        let ghost pre = *self;
        let e = self.store.slot_mut(o);
        match e {
            Entry::Occupied { generation, value } => {
                let h = Index::new(I::from_idx(o), *generation);
                proof {
                    Self::lemma_inv_value_update(
                        pre.slots(),
                        pre.live(),
                        pre.free_list(),
                        pre.free_head,
                        pre.cur_gen(),
                        o as int,
                        *final(value),
                    );
                }
                Some((h, value))
            },
            Entry::Free { .. } => {
                proof {
                    assert(pre.slots().update(o as int, pre.slots()[o as int]) =~= pre.slots());
                }
                None
            },
        }
    }

    /// The number of live elements the arena holds.
    pub fn len(&self) -> (n: usize)
        ensures
            n as int == self.live(),
    {
        self.length
    }

    /// Whether the arena holds no elements.
    pub fn is_empty(&self) -> (r: bool)
        ensures
            r == (self.live() == 0),
    {
        self.length == 0
    }

    /// The number of elements the arena can hold without further
    /// allocation, including however many it currently contains.
    pub fn capacity(&self) -> (n: usize)
        ensures
            n as int == self.cap(),
    {
        self.store.count()
    }

    /// A cursor over shared references to the elements, in offset order.
    pub fn iter(&self) -> (it: crate::iter::Iter)
        requires
            self.inv(),
        ensures
            it.wf(*self),
            it.front_spec() == 0,
            it.back_spec() == self.cap(),
            it.remaining_spec() == self.live(),
    {
        proof {
            self.lemma_inv_facts();
        }
        let hi = self.store.count();
        crate::iter::Iter::over_range(0, hi, self.length)
    }

    /// A cursor over exclusive references to the elements, in offset order.
    pub fn iter_mut(&mut self) -> (it: crate::iter::IterMut)
        requires
            old(self).inv(),
        ensures
            *final(self) == *old(self),
            it.wf(*old(self)),
            it.front_spec() == 0,
            it.back_spec() == old(self).cap(),
            it.remaining_spec() == old(self).live(),
    {
        proof {
            self.lemma_inv_facts();
        }
        let hi = self.store.count();
        crate::iter::IterMut::over_range(0, hi, self.length)
    }

    /// A splittable producer of shared references over the whole slot
    /// sequence; its length is the live count, not the raw slot count.
    pub fn par_iter(&self) -> (p: crate::parallel::ParIter)
        requires
            self.inv(),
        ensures
            p.wf(*self),
            p.lo_spec() == 0,
            p.hi_spec() == self.cap(),
            p.live_spec() == self.live(),
    {
        proof {
            self.lemma_inv_facts();
        }
        let hi = self.store.count();
        crate::parallel::ParIter::over_range(0, hi, self.length)
    }

    /// A splittable producer of exclusive references over the whole slot
    /// sequence.
    pub fn par_iter_mut(&mut self) -> (p: crate::parallel::ParIterMut)
        requires
            old(self).inv(),
        ensures
            *final(self) == *old(self),
            p.wf(*old(self)),
            p.lo_spec() == 0,
            p.hi_spec() == old(self).cap(),
            p.live_spec() == old(self).live(),
    {
        proof {
            self.lemma_inv_facts();
        }
        let hi = self.store.count();
        crate::parallel::ParIterMut::over_range(0, hi, self.length)
    }

    /// Consume the arena into a splittable traversal of its values: the
    /// owning counterpart of `par_iter`, since the iterator it returns can
    /// be divided at any element index for independent consumption.
    pub fn into_par_iter(self) -> (it: crate::iter::IntoIter<T>)
        requires
            self.inv(),
        ensures
            it.wf(),
            it.remaining().len() == self.live(),
            forall|k: int|
                0 <= k < it.remaining().len() ==> #[trigger] it.remaining()[k] == live_seq(
                    self.slots(),
                    0,
                    self.cap(),
                )[k].2,
    {
        self.into_iter()
    }

    /// Consume the arena and iterate over its values, in offset order.
    pub fn into_iter(self) -> (it: crate::iter::IntoIter<T>)
        requires
            self.inv(),
        ensures
            it.wf(),
            it.remaining().len() == self.live(),
            forall|k: int|
                0 <= k < it.remaining().len() ==> #[trigger] it.remaining()[k] == live_seq(
                    self.slots(),
                    0,
                    self.cap(),
                )[k].2,
    {
        let ghost s0 = self.slots();
        let mut a = self;
        proof {
            a.lemma_inv_facts();
        }
        let cap = a.store.count();
        let mut vals: Vec<Option<T>> = Vec::new();
        let mut o: usize = 0;
        while o < cap
            invariant
                0 <= o <= cap,
                a.store.slots().len() == cap,
                cap as int == s0.len(),
                forall|p: int| o <= p < cap ==> a.store.slots()[p] == s0[p],
                vals@.len() == live_seq(s0, 0, o as int).len(),
                forall|k: int|
                    0 <= k < vals@.len() ==> (#[trigger] vals@[k]) is Some && vals@[k]->0
                        == live_seq(s0, 0, o as int)[k].2,
            decreases cap - o,
        {
            proof {
                lemma_live_seq_split(s0, 0, o as int, o as int + 1);
                lemma_live_seq_one(s0, o as int);
            }
            let prev = a.store.replace(o, Entry::Free { next_free: None });
            match prev {
                Entry::Occupied { value, .. } => {
                    vals.push(Some(value));
                },
                Entry::Free { .. } => {},
            }
            o = o + 1;
        }
        proof {
            assert(live_seq(s0, 0, cap as int) == live_seq(s0, 0, s0.len() as int));
        }
        crate::iter::IntoIter::from_vals(vals)
    }
}

impl<T, I: ArenaIndex, G: GenerationalIndex, S: Storage<Entry<T, I, G>>> Arena<T, I, G, S> {
    /// Remove the element addressed by handle `i` and return it. Exactly
    /// the valid handles remove something: on a match the slot is freed,
    /// its offset becomes the new free-list head, and the arena generation
    /// advances; a stale or out-of-range handle is a no-op, not an error.
    pub fn remove(&mut self, i: Index<T, I, G>) -> (r: Option<T>)
        requires
            old(self).inv(),
            old(self).valid(i) ==> old(self).cur_gen().can_increment(),
        ensures
            final(self).inv(),
            final(self).cap() == old(self).cap(),
            (r is Some) == old(self).valid(i),
            !old(self).valid(i) ==> final(self).slots() == old(self).slots()
                && final(self).live() == old(self).live()
                && final(self).free_list() == old(self).free_list()
                && final(self).cur_gen() == old(self).cur_gen(),
            old(self).valid(i) ==> {
                &&& r == Some(old(self).value_at(i))
                &&& final(self).slots()[i.idx_int()] is Free
                &&& (forall|o: int|
                    0 <= o < old(self).cap() && o != i.idx_int() ==> final(self).slots()[o] == old(self).slots()[o])
                &&& final(self).free_list() == seq![i.idx_int()] + old(self).free_list()
                &&& final(self).live() == old(self).live() - 1
                &&& final(self).cur_gen() == old(self).cur_gen().incremented()
            },
    {
        let ghost pre = *self;
        let o = i.to_idx();
        if o >= self.store.count() {
            return None;
        }
        let g = i.gen();
        let matches_gen: bool = match self.store.slot_ref(o) {
            Entry::Occupied { generation, .. } => generation.generation_eq(&g),
            Entry::Free { .. } => false,
        };
        if !matches_gen {
            return None;
        }
        proof {
            lemma_live_seq_split(pre.slots(), 0, o as int, pre.cap());
            lemma_live_seq_split(pre.slots(), o as int, o as int + 1, pre.cap());
            lemma_live_seq_one(pre.slots(), o as int);
        }
        let prev = self.store.replace(o, Entry::Free { next_free: self.free_head });
        match prev {
            Entry::Occupied { value, .. } => {
                self.free_head = Some(i.arr_idx());
                self.length = self.length - 1;
                self.generation.increment_generation();
                proof {
                    self.free@ = seq![o as int] + pre.free_list();
                    let s = pre.slots();
                    let s2 = self.store.slots();
                    let fs = pre.free_list();
                    let fs2 = self.free@;
                    crate::slots::lemma_live_count_update(s, o as int, s2[o as int]);
                    assert forall|k: int| 0 <= k < fs.len() implies fs[k] != o as int && s2[(
                    #[trigger] fs[k])] == s[fs[k]] by {
                        assert(s[fs[k]] is Free);
                    }
                    assert forall|k: int|
                        1 <= k < fs2.len() implies (s2[#[trigger] fs2[k]] == s[fs2[k]] && fs2[k]
                        != o as int) by {
                        assert(fs2[k] == fs[k - 1]);
                        assert(s[fs[k - 1]] is Free);
                    }
                    assert forall|o2: int|
                        0 <= o2 < s2.len() && (#[trigger] s2[o2]) is Free implies fs2.contains(
                        o2,
                    ) by {
                        if o2 == o as int {
                            assert(fs2[0] == o2);
                        } else {
                            assert(s[o2] is Free);
                            let k = choose|k: int| 0 <= k < fs.len() && fs[k] == o2;
                            assert(fs2[k + 1] == o2);
                        }
                    }
                    if G::obeys_order() {
                        G::lemma_increment_strict(pre.cur_gen());
                        assert forall|o2: int|
                            0 <= o2 < s2.len() && (#[trigger] s2[o2]) is Occupied implies (
                        s2[o2]->generation.gen_int() <= self.generation.gen_int()) by {
                            assert(s2[o2] == s[o2]);
                        }
                    }
                    assert(self.inv());
                }
                Some(value)
            },
            Entry::Free { .. } => vstd::pervasive::unreached(),
        }
    }

    /// Remove every element, yielding each exactly once as a handle-value
    /// pair, in offset order. The removal happens eagerly: whether or not
    /// the returned iterator is consumed, the arena ends up empty, with its
    /// full capacity back on the free list and the generation counter
    /// advanced once per removed element.
    pub fn drain(&mut self) -> (d: crate::iter::Drain<T, I, G>)
        requires
            old(self).inv(),
            old(self).cur_gen().can_increment_many(old(self).live() as nat),
        ensures
            final(self).inv(),
            final(self).cap() == old(self).cap(),
            final(self).live() == 0,
            forall|o: int|
                0 <= o < final(self).cap() ==> (#[trigger] final(self).slots()[o]) is Free,
            final(self).free_list() == Seq::new(old(self).cap() as nat, |k: int| k),
            final(self).cur_gen() == crate::generation::incremented_many(
                old(self).cur_gen(),
                old(self).live() as nat,
            ),
            d.wf(),
            d.remaining().len() == old(self).live(),
            forall|k: int|
                0 <= k < d.remaining().len() ==> {
                    let t = live_seq(old(self).slots(), 0, old(self).cap())[k];
                    (#[trigger] d.remaining()[k]).0.idx_int() == t.0 && d.remaining()[k].0.gen_spec()
                        == t.1 && d.remaining()[k].1 == t.2
                },
    {
        let ghost s0 = self.slots();
        let ghost g0 = self.cur_gen();
        let ghost live0 = self.live();
        proof {
            self.lemma_inv_facts();
            lemma_live_seq_split(s0, 0, 0, s0.len() as int);
        }
        let cap = self.store.count();
        let mut pairs: Vec<Option<(Index<T, I, G>, T)>> = Vec::new();
        let mut o: usize = 0;
        while o < cap
            invariant
                0 <= o <= cap,
                self.store.slots().len() == cap,
                cap as int == s0.len(),
                live0 == live_count(s0, 0, s0.len() as int),
                forall|p: int| o <= p < cap ==> self.store.slots()[p] == s0[p],
                forall|j: int| 0 <= j < cap ==> #[trigger] I::can_encode(j),
                pairs@.len() == live_seq(s0, 0, o as int).len(),
                forall|k: int|
                    0 <= k < pairs@.len() ==> {
                        let t = live_seq(s0, 0, o as int)[k];
                        &&& (#[trigger] pairs@[k]) is Some
                        &&& (pairs@[k]->0).0.idx_int() == t.0
                        &&& (pairs@[k]->0).0.gen_spec() == t.1
                        &&& (pairs@[k]->0).1 == t.2
                    },
                self.generation == crate::generation::incremented_many(
                    g0,
                    live_seq(s0, 0, o as int).len(),
                ),
                self.generation.can_increment_many(
                    (live0 - live_seq(s0, 0, o as int).len()) as nat,
                ),
                live_seq(s0, 0, o as int).len() + live_count(s0, o as int, s0.len() as int)
                    == live0,
            decreases cap - o,
        {
            proof {
                lemma_live_seq_split(s0, 0, o as int, o as int + 1);
                lemma_live_seq_one(s0, o as int);
                lemma_live_seq_split(s0, o as int, o as int + 1, s0.len() as int);
            }
            let prev = self.store.replace(o, Entry::Free { next_free: None });
            match prev {
                Entry::Occupied { generation, value } => {
                    let h = Index::new(I::from_idx(o), generation);
                    pairs.push(Some((h, value)));
                    proof {
                        let done = live_seq(s0, 0, o as int).len();
                        G::lemma_increment_many(self.generation, (live0 - done) as nat);
                        crate::generation::lemma_incremented_many_snoc(g0, done);
                    }
                    self.generation.increment_generation();
                },
                Entry::Free { .. } => {},
            }
            o = o + 1;
        }
        proof {
            assert(live_seq(s0, 0, cap as int) == live_seq(s0, 0, s0.len() as int));
        }
        self.reset_all_free();
        crate::iter::Drain::from_pairs(pairs)
    }

    /// Retain only the elements for which the predicate answers `true`,
    /// removing the rest through the normal removal path, so free-list and
    /// generation bookkeeping stay consistent. Slots the predicate keeps
    /// are left untouched.
    pub fn retain<F: Fn(Index<T, I, G>, &T) -> bool>(&mut self, predicate: F)
        requires
            old(self).inv(),
            old(self).cur_gen().can_increment_many(old(self).live() as nat),
            forall|h: Index<T, I, G>, v: &T| #[trigger] predicate.requires((h, v)),
        ensures
            final(self).inv(),
            final(self).cap() == old(self).cap(),
            forall|o: int|
                0 <= o < old(self).cap() && (#[trigger] old(self).slots()[o]) is Free ==> final(self).slots()[o] == old(self).slots()[o],
            forall|o: int|
                0 <= o < old(self).cap() && (#[trigger] final(self).slots()[o]) is Occupied
                    ==> final(self).slots()[o] == old(self).slots()[o],
            forall|o: int|
                0 <= o < old(self).cap() && (#[trigger] old(self).slots()[o]) is Occupied ==> (
                final(self).slots()[o] == old(self).slots()[o] || final(self).slots()[o] is Free),
            forall|o: int|
                0 <= o < old(self).cap() && (#[trigger] old(self).slots()[o]) is Occupied && final(self).slots()[o] == old(self).slots()[o] ==> (exists|h: Index<T, I, G>|
                    h.idx_int() == o && h.gen_spec() == old(self).slots()[o]->generation
                        && #[trigger] predicate.ensures(
                        (h, &old(self).slots()[o]->value),
                        true,
                    )),
            forall|o: int|
                0 <= o < old(self).cap() && (#[trigger] old(self).slots()[o]) is Occupied && final(self).slots()[o] is Free ==> (exists|h: Index<T, I, G>|
                    h.idx_int() == o && h.gen_spec() == old(self).slots()[o]->generation
                        && #[trigger] predicate.ensures(
                        (h, &old(self).slots()[o]->value),
                        false,
                    )),
    {
        let ghost s0 = self.slots();
        let ghost live0 = self.live();
        proof {
            self.lemma_inv_facts();
            lemma_live_seq_split(s0, 0, 0, s0.len() as int);
        }
        let cap = self.store.count();
        let mut o: usize = 0;
        while o < cap
            invariant
                0 <= o <= cap,
                self.inv(),
                self.cap() == s0.len(),
                cap as int == s0.len(),
                forall|h: Index<T, I, G>, v: &T| #[trigger] predicate.requires((h, v)),
                forall|p: int| o <= p < cap ==> self.slots()[p] == s0[p],
                forall|p: int|
                    0 <= p < cap && (#[trigger] s0[p]) is Free ==> self.slots()[p] == s0[p],
                forall|p: int|
                    0 <= p < o && (#[trigger] self.slots()[p]) is Occupied ==> self.slots()[p]
                        == s0[p],
                forall|p: int|
                    0 <= p < cap && (#[trigger] s0[p]) is Occupied ==> (self.slots()[p] == s0[p]
                        || self.slots()[p] is Free),
                forall|p: int|
                    0 <= p < o && (#[trigger] s0[p]) is Occupied && self.slots()[p] == s0[p] ==> (
                    exists|h: Index<T, I, G>|
                        h.idx_int() == p && h.gen_spec() == s0[p]->generation
                            && #[trigger] predicate.ensures((h, &s0[p]->value), true)),
                forall|p: int|
                    0 <= p < o && (#[trigger] s0[p]) is Occupied && self.slots()[p] is Free ==> (
                    exists|h: Index<T, I, G>|
                        h.idx_int() == p && h.gen_spec() == s0[p]->generation
                            && #[trigger] predicate.ensures((h, &s0[p]->value), false)),
                self.cur_gen().can_increment_many(live_count(s0, o as int, s0.len() as int) as nat),
            decreases cap - o,
        {
            proof {
                lemma_live_seq_split(s0, o as int, o as int + 1, s0.len() as int);
                lemma_live_seq_one(s0, o as int);
            }
            let decision: Option<Index<T, I, G>> = match self.store.slot_ref(o) {
                Entry::Occupied { generation, value } => {
                    let h = Index::new(I::from_idx(o), *generation);
                    if predicate(h, value) {
                        None
                    } else {
                        Some(h)
                    }
                },
                Entry::Free { .. } => None,
            };
            proof {
                if s0[o as int] is Occupied {
                    G::lemma_increment_many(
                        self.cur_gen(),
                        live_count(s0, o as int, s0.len() as int) as nat,
                    );
                    G::lemma_increment_many_mono(
                        self.cur_gen(),
                        live_count(s0, o as int + 1, s0.len() as int) as nat,
                        live_count(s0, o as int, s0.len() as int) as nat,
                    );
                }
            }
            match decision {
                Some(h) => {
                    let removed = self.remove(h);
                    proof {
                        assert(removed is Some);
                    }
                },
                None => {},
            }
            proof {
                if self.cur_gen().can_increment_many(
                    live_count(s0, o as int, s0.len() as int) as nat,
                ) {
                    G::lemma_increment_many_mono(
                        self.cur_gen(),
                        live_count(s0, o as int + 1, s0.len() as int) as nat,
                        live_count(s0, o as int, s0.len() as int) as nat,
                    );
                }
            }
            o = o + 1;
        }
    }
}

/// Project an exclusive borrow of a slot into one of its value, provided
/// the slot is occupied and its stamp equals `g`; otherwise leave the slot
/// untouched.
fn entry_value_mut<T, I, G: FixedGenerationalIndex>(e: &mut Entry<T, I, G>, g: G) -> (r: Option<
    &mut T,
>)
    ensures
        match r {
            None => *final(e) == *old(e) && !((*old(e)) is Occupied && (*old(e))->generation
                == g),
            Some(v) => (*old(e)) is Occupied && (*old(e))->generation == g && *v == (*old(
                e,
            ))->value && *final(e)
                == (Entry::<T, I, G>::Occupied { generation: g, value: *final(v) }),
        },
{
    match e {
        Entry::Occupied { generation, value } => {
            if generation.generation_eq(&g) {
                Some(value)
            } else {
                None
            }
        },
        Entry::Free { .. } => None,
    }
}

impl<T, I: ArenaIndex, G: FixedGenerationalIndex> Arena<T, I, G, crate::storage::VecStorage<
    Entry<T, I, G>,
>> {
    /// Whether the first of two handles stays active: always, unless both
    /// name the same offset and the second's generation is not below the
    /// first's under the policy's order.
    pub open spec fn first_of_pair_active(i1: Index<T, I, G>, i2: Index<T, I, G>) -> bool {
        i1.idx_int() != i2.idx_int() || i2.gen_spec().lt_spec(i1.gen_spec())
    }

    /// Whether the second of two handles stays active: always, unless both
    /// name the same offset and the second's generation is below the
    /// first's.
    pub open spec fn second_of_pair_active(i1: Index<T, I, G>, i2: Index<T, I, G>) -> bool {
        i1.idx_int() != i2.idx_int() || !i2.gen_spec().lt_spec(i1.gen_spec())
    }

    /// Overwriting a slot with one of the same shape — occupied with the
    /// same stamp, or free with the same link — preserves the invariant.
    proof fn lemma_inv_slot_compatible(
        s: Seq<Entry<T, I, G>>,
        length: int,
        fs: Seq<int>,
        free_head: Option<I>,
        generation: G,
        o: int,
        e2: Entry<T, I, G>,
    )
        requires
            Self::inv_parts(s, length, fs, free_head, generation),
            0 <= o < s.len(),
            s[o] is Free ==> e2 == s[o],
            s[o] is Occupied ==> e2 is Occupied && e2->generation == s[o]->generation,
        ensures
            Self::inv_parts(s.update(o, e2), length, fs, free_head, generation),
    {
        let s2 = s.update(o, e2);
        if s[o] is Free {
            assert(s2 =~= s);
        } else {
            crate::slots::lemma_live_count_update(s, o, e2);
            assert forall|k: int| 0 <= k < fs.len() implies s2[#[trigger] fs[k]] == s[fs[k]] by {
                assert(s[fs[k]] is Free);
            }
            assert forall|o2: int|
                0 <= o2 < s2.len() && (#[trigger] s2[o2]) is Free implies fs.contains(o2) by {
                assert(o2 != o);
                assert(s[o2] is Free);
            }
        }
    }

    /// Get a pair of exclusive references to the elements addressed by two
    /// handles in one call. Handles naming the same offset must carry
    /// different generations; the one whose generation is lower under the
    /// policy's order is treated as stale and its side yields `None`. Each
    /// side otherwise resolves like `get_mut`.
    pub fn get2_mut(&mut self, i1: Index<T, I, G>, i2: Index<T, I, G>) -> (r: (
        Option<&mut T>,
        Option<&mut T>,
    ))
        requires
            old(self).inv(),
            i1.idx_int() == i2.idx_int() ==> i1.gen_spec() != i2.gen_spec(),
        ensures
            final(self).inv(),
            final(self).cur_gen() == old(self).cur_gen(),
            final(self).cap() == old(self).cap(),
            final(self).live() == old(self).live(),
            final(self).free_list() == old(self).free_list(),
            match r.0 {
                Some(v) => Self::first_of_pair_active(i1, i2) && old(self).valid(i1) && *v == old(
                    self,
                ).value_at(i1) && final(self).slots()[i1.idx_int()] == (Entry::<T, I, G>::Occupied {
                    generation: i1.gen_spec(),
                    value: *final(v),
                }),
                None => !(Self::first_of_pair_active(i1, i2) && old(self).valid(i1)),
            },
            match r.1 {
                Some(v) => Self::second_of_pair_active(i1, i2) && old(self).valid(i2) && *v == old(
                    self,
                ).value_at(i2) && final(self).slots()[i2.idx_int()] == (Entry::<T, I, G>::Occupied {
                    generation: i2.gen_spec(),
                    value: *final(v),
                }),
                None => !(Self::second_of_pair_active(i1, i2) && old(self).valid(i2)),
            },
            forall|o: int|
                0 <= o < old(self).cap() && (r.0 is Some ==> o != i1.idx_int()) && (r.1 is Some
                    ==> o != i2.idx_int()) ==> final(self).slots()[o] == old(self).slots()[o],
    {
        let ghost pre = *self;
        proof {
            self.lemma_inv_facts();
        }
        let o1 = i1.to_idx();
        let o2 = i2.to_idx();
        let cap = self.store.count();
        if o1 == o2 {
            if i2.gen().generation_lt(&i1.gen()) {
                let r0 = self.get_mut(i1);
                (r0, None)
            } else {
                let r1 = self.get_mut(i2);
                (None, r1)
            }
        } else if o1 >= cap {
            let r1 = self.get_mut(i2);
            (None, r1)
        } else if o2 >= cap {
            let r0 = self.get_mut(i1);
            (r0, None)
        } else {
            let flip = o2 < o1;
            let lo = if flip {
                o2
            } else {
                o1
            };
            let hi = if flip {
                o1
            } else {
                o2
            };
            let glo = if flip {
                i2.gen()
            } else {
                i1.gen()
            };
            let ghi = if flip {
                i1.gen()
            } else {
                i2.gen()
            };
            proof {
                let s = pre.slots();
                assert forall|e1: Entry<T, I, G>, e2: Entry<T, I, G>|
                    ((s[lo as int] is Free ==> e1 == s[lo as int]) && (s[lo as int] is Occupied
                        ==> e1 is Occupied && e1->generation == s[lo as int]->generation) && (
                    s[hi as int] is Free ==> e2 == s[hi as int]) && (s[hi as int] is Occupied
                        ==> e2 is Occupied && e2->generation
                        == s[hi as int]->generation)) implies Self::inv_parts(
                    #[trigger] s.update(lo as int, e1).update(hi as int, e2),
                    pre.live(),
                    pre.free_list(),
                    pre.free_head,
                    pre.cur_gen(),
                ) by {
                    Self::lemma_inv_slot_compatible(
                        s,
                        pre.live(),
                        pre.free_list(),
                        pre.free_head,
                        pre.cur_gen(),
                        lo as int,
                        e1,
                    );
                    Self::lemma_inv_slot_compatible(
                        s.update(lo as int, e1),
                        pre.live(),
                        pre.free_list(),
                        pre.free_head,
                        pre.cur_gen(),
                        hi as int,
                        e2,
                    );
                }
            }
            let (ea, eb) = self.store.two_muts(lo, hi);
            let ra = entry_value_mut(ea, glo);
            let rb = entry_value_mut(eb, ghi);
            if flip {
                (rb, ra)
            } else {
                (ra, rb)
            }
        }
    }
}

impl<T: CloneEq, I: ArenaIndex + CloneEq, G: FixedGenerationalIndex + CloneEq> Arena<
    T,
    I,
    G,
    crate::persistent::PersistentStorage<Entry<T, I, G>>,
> {
    /// Freeze an independent snapshot of this arena in O(1). The copy holds
    /// exactly the same slots, counter and free list as the original at
    /// this moment, and mutation of either side is never observed by the
    /// other: every value a handle addresses in the snapshot stays as it
    /// was at snapshot time, whatever is later inserted, updated, removed,
    /// drained or cleared here.
    pub fn snapshot(&self) -> (r: Self)
        ensures
            r.slots() == self.slots(),
            r.cur_gen() == self.cur_gen(),
            r.live() == self.live(),
            r.free_list() == self.free_list(),
            self.inv() ==> r.inv(),
    {
        Arena {
            store: self.store.duplicate(),
            generation: self.generation,
            length: self.length,
            free_head: self.free_head,
            free: self.free,
            _marker: PhantomData,
        }
    }
}

impl<T: Clone, I: ArenaIndex + Clone, G: FixedGenerationalIndex + Clone, S: Storage<
    Entry<T, I, G>,
> + Clone> Clone for Arena<T, I, G, S> {
    /// Clone the arena: a deep copy on the exclusive array backend, an O(1)
    /// structure-shared snapshot on the persistent one. The counter, live
    /// count and free list are plain copies; what the cloned store holds is
    /// not visible through this impl, so verified code on the persistent
    /// backend uses `snapshot`, which says that too.
    fn clone(&self) -> (r: Self)
        ensures
            r.cur_gen() == self.cur_gen(),
            r.live() == self.live(),
            r.free_list() == self.free_list(),
    {
        Arena {
            store: self.store.clone(),
            generation: self.generation,
            length: self.length,
            free_head: self.free_head,
            free: self.free,
            _marker: PhantomData,
        }
    }
}

} // verus!
