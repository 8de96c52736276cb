//! Sequential iteration over an arena's live slots.
//!
//! The cursors here walk a sub-range of the slot sequence in offset order,
//! skipping free slots. They hold no reference to the arena; each step takes
//! the arena as an argument, and its contract says which element of the
//! range's [`live_seq`] listing comes out.

use vstd::prelude::*;

use crate::arena::Arena;
use crate::generation::FixedGenerationalIndex;
use crate::index::ArenaIndex;
use crate::index::Index;
use crate::slots::Entry;
use crate::slots::lemma_live_seq_one;
use crate::slots::lemma_live_seq_split;
use crate::slots::live_count;
use crate::slots::live_seq;
use crate::storage::Storage;

verus! {

/// A cursor over shared references to the elements in an arena, yielding
/// `(handle, &value)` pairs in offset order from either end.
pub struct Iter {
    front: usize,
    back: usize,
    remaining: usize,
}

impl Iter {
    /// The offset the cursor will look at next from the front.
    pub closed spec fn front_spec(self) -> int {
        self.front as int
    }

    /// The offset bound the cursor will look at next from the back.
    pub closed spec fn back_spec(self) -> int {
        self.back as int
    }

    /// How many live elements are left to yield.
    pub closed spec fn remaining_spec(self) -> int {
        self.remaining as int
    }

    /// Whether the cursor is a well-formed view of arena `a`'s range.
    pub open spec fn wf<T, I: ArenaIndex, G: FixedGenerationalIndex, S: Storage<Entry<T, I, G>>>(
        self,
        a: Arena<T, I, G, S>,
    ) -> bool {
        &&& 0 <= self.front_spec() <= self.back_spec() <= a.cap()
        &&& self.remaining_spec() == live_count(a.slots(), self.front_spec(), self.back_spec())
    }

    /// A cursor over `[lo, hi)` with `remaining` already counted.
    pub(crate) fn over_range(lo: usize, hi: usize, remaining: usize) -> (it: Iter)
        ensures
            it.front_spec() == lo as int,
            it.back_spec() == hi as int,
            it.remaining_spec() == remaining as int,
    {
        Iter { front: lo, back: hi, remaining }
    }

    /// How many live elements are left.
    pub fn len(&self) -> (n: usize)
        ensures
            n as int == self.remaining_spec(),
    {
        self.remaining
    }

    /// Yield the first live element at or after the front of the range:
    /// the head of the range's listing.
    pub fn next<'a, T, I: ArenaIndex, G: FixedGenerationalIndex, S: Storage<Entry<T, I, G>>>(
        &mut self,
        a: &'a Arena<T, I, G, S>,
    ) -> (r: Option<(Index<T, I, G>, &'a T)>)
        requires
            a.inv(),
            old(self).wf(*a),
        ensures
            final(self).wf(*a),
            final(self).back_spec() == old(self).back_spec(),
            ({
                let items = live_seq(a.slots(), old(self).front_spec(), old(self).back_spec());
                match r {
                    None => items.len() == 0 && final(self).remaining_spec() == 0,
                    Some((h, v)) => {
                        &&& items.len() > 0
                        &&& h.idx_int() == items[0].0
                        &&& h.gen_spec() == items[0].1
                        &&& *v == items[0].2
                        &&& a.valid(h) && *v == a.value_at(h)
                        &&& live_seq(a.slots(), final(self).front_spec(), final(self).back_spec())
                            == items.drop_first()
                        &&& final(self).remaining_spec() == old(self).remaining_spec() - 1
                    },
                }
            }),
    {
        let ghost s = a.slots();
        let ghost f0 = self.front as int;
        proof {
            a.lemma_inv_facts();
        }
        while self.front < self.back
            invariant
                a.inv(),
                s == a.slots(),
                f0 == old(self).front_spec(),
                self.back as int == old(self).back_spec(),
                f0 <= self.front as int <= self.back as int <= s.len(),
                self.remaining as int == live_count(s, self.front as int, self.back as int),
                old(self).remaining_spec() == live_count(s, f0, self.back as int),
                live_seq(s, f0, self.back as int) == live_seq(
                    s,
                    self.front as int,
                    self.back as int,
                ),
            decreases self.back as int - self.front as int,
        {
            let o = self.front;
            match a.entry_to_ref(o) {
                Some((h, v)) => {
                    proof {
                        lemma_live_seq_split(s, o as int, o as int + 1, self.back as int);
                        lemma_live_seq_one(s, o as int);
                        let items = live_seq(s, o as int, self.back as int);
                        assert(items == seq![(o as int, h.gen_spec(), *v)] + live_seq(
                            s,
                            o as int + 1,
                            self.back as int,
                        ));
                        assert(items[0] == (o as int, h.gen_spec(), *v));
                        assert(items.drop_first() =~= live_seq(
                            s,
                            o as int + 1,
                            self.back as int,
                        ));
                    }
                    self.front = o + 1;
                    self.remaining = self.remaining - 1;
                    return Some((h, v));
                },
                None => {
                    proof {
                        lemma_live_seq_split(s, o as int, o as int + 1, self.back as int);
                        lemma_live_seq_one(s, o as int);
                        assert(live_seq(s, o as int, self.back as int) =~= live_seq(
                            s,
                            o as int + 1,
                            self.back as int,
                        ));
                    }
                    self.front = o + 1;
                },
            }
        }
        proof {
            assert(live_seq(s, self.front as int, self.back as int) =~= Seq::<(
                int,
                G,
                T,
            )>::empty());
        }
        None
    }

    /// Yield the last live element before the back of the range: the last
    /// element of the range's listing.
    pub fn next_back<'a, T, I: ArenaIndex, G: FixedGenerationalIndex, S: Storage<Entry<T, I, G>>>(
        &mut self,
        a: &'a Arena<T, I, G, S>,
    ) -> (r: Option<(Index<T, I, G>, &'a T)>)
        requires
            a.inv(),
            old(self).wf(*a),
        ensures
            final(self).wf(*a),
            final(self).front_spec() == old(self).front_spec(),
            ({
                let items = live_seq(a.slots(), old(self).front_spec(), old(self).back_spec());
                match r {
                    None => items.len() == 0 && final(self).remaining_spec() == 0,
                    Some((h, v)) => {
                        &&& items.len() > 0
                        &&& h.idx_int() == items.last().0
                        &&& h.gen_spec() == items.last().1
                        &&& *v == items.last().2
                        &&& a.valid(h) && *v == a.value_at(h)
                        &&& live_seq(a.slots(), final(self).front_spec(), final(self).back_spec())
                            == items.drop_last()
                        &&& final(self).remaining_spec() == old(self).remaining_spec() - 1
                    },
                }
            }),
    {
        let ghost s = a.slots();
        let ghost b0 = self.back as int;
        proof {
            a.lemma_inv_facts();
        }
        while self.front < self.back
            invariant
                a.inv(),
                s == a.slots(),
                b0 == old(self).back_spec(),
                self.front as int == old(self).front_spec(),
                0 <= self.front as int <= self.back as int <= s.len(),
                self.back as int <= b0,
                self.remaining as int == live_count(s, self.front as int, self.back as int),
                old(self).remaining_spec() == live_count(s, self.front as int, b0),
                live_seq(s, self.front as int, b0) == live_seq(
                    s,
                    self.front as int,
                    self.back as int,
                ),
            decreases self.back as int - self.front as int,
        {
            let o = self.back - 1;
            match a.entry_to_ref(o) {
                Some((h, v)) => {
                    proof {
                        let items = live_seq(s, self.front as int, self.back as int);
                        lemma_live_seq_one(s, o as int);
                        assert(items == live_seq(s, self.front as int, o as int) + seq![
                            (o as int, h.gen_spec(), *v),
                        ]);
                        assert(items.last() == (o as int, h.gen_spec(), *v));
                        assert(items.drop_last() =~= live_seq(s, self.front as int, o as int));
                    }
                    self.back = o;
                    self.remaining = self.remaining - 1;
                    return Some((h, v));
                },
                None => {
                    proof {
                        assert(live_seq(s, self.front as int, self.back as int) =~= live_seq(
                            s,
                            self.front as int,
                            o as int,
                        ));
                    }
                    self.back = o;
                },
            }
        }
        proof {
            assert(live_seq(s, self.front as int, self.back as int) =~= Seq::<(
                int,
                G,
                T,
            )>::empty());
        }
        None
    }
}

/// A cursor over exclusive references to the elements in an arena. Each
/// step yields the next live element's handle and an exclusive reference to
/// its value; writing through it changes that slot's value and nothing
/// else, so occupancy — and with it the cursor's view — is preserved.
pub struct IterMut {
    front: usize,
    back: usize,
    remaining: usize,
}

impl IterMut {
    /// The offset the cursor will look at next from the front.
    pub closed spec fn front_spec(self) -> int {
        self.front as int
    }

    /// The offset bound the cursor will look at next from the back.
    pub closed spec fn back_spec(self) -> int {
        self.back as int
    }

    /// How many live elements are left to yield.
    pub closed spec fn remaining_spec(self) -> int {
        self.remaining as int
    }

    /// Whether the cursor is a well-formed view of arena `a`'s range.
    pub open spec fn wf<T, I: ArenaIndex, G: FixedGenerationalIndex, S: Storage<Entry<T, I, G>>>(
        self,
        a: Arena<T, I, G, S>,
    ) -> bool {
        &&& 0 <= self.front_spec() <= self.back_spec() <= a.cap()
        &&& self.remaining_spec() == live_count(a.slots(), self.front_spec(), self.back_spec())
    }

    /// A cursor over `[lo, hi)` with `remaining` already counted.
    pub(crate) fn over_range(lo: usize, hi: usize, remaining: usize) -> (it: IterMut)
        ensures
            it.front_spec() == lo as int,
            it.back_spec() == hi as int,
            it.remaining_spec() == remaining as int,
    {
        IterMut { front: lo, back: hi, remaining }
    }

    /// How many live elements are left.
    pub fn len(&self) -> (n: usize)
        ensures
            n as int == self.remaining_spec(),
    {
        self.remaining
    }

    /// Yield the next live element from the front, with an exclusive
    /// reference to its value.
    pub fn next<'a, T, I: ArenaIndex, G: FixedGenerationalIndex, S: Storage<Entry<T, I, G>>>(
        &mut self,
        a: &'a mut Arena<T, I, G, S>,
    ) -> (r: Option<(Index<T, I, G>, &'a mut T)>)
        requires
            old(a).inv(),
            old(self).wf(*old(a)),
        ensures
            final(a).inv(),
            final(self).wf(*final(a)),
            final(self).back_spec() == old(self).back_spec(),
            final(a).cur_gen() == old(a).cur_gen(),
            final(a).cap() == old(a).cap(),
            final(a).live() == old(a).live(),
            final(a).free_list() == old(a).free_list(),
            ({
                let items = live_seq(old(a).slots(), old(self).front_spec(), old(self).back_spec());
                match r {
                    None => items.len() == 0 && final(self).remaining_spec() == 0
                        && final(a).slots() == old(a).slots(),
                    Some((h, v)) => {
                        &&& items.len() > 0
                        &&& h.idx_int() == items[0].0
                        &&& h.gen_spec() == items[0].1
                        &&& *v == items[0].2
                        &&& old(a).valid(h)
                        &&& final(a).slots() == old(a).slots().update(
                            h.idx_int(),
                            Entry::Occupied { generation: h.gen_spec(), value: *final(v) },
                        )
                        &&& final(self).remaining_spec() == old(self).remaining_spec() - 1
                    },
                }
            }),
    {
        let ghost s = a.slots();
        let ghost f0 = self.front as int;
        proof {
            a.lemma_inv_facts();
        }
        while self.front < self.back
            invariant
                a.inv(),
                *a == *old(a),
                s == a.slots(),
                f0 == old(self).front_spec(),
                self.back as int == old(self).back_spec(),
                f0 <= self.front as int <= self.back as int <= s.len(),
                self.remaining as int == live_count(s, self.front as int, self.back as int),
                old(self).remaining_spec() == live_count(s, f0, self.back as int),
                live_seq(s, f0, self.back as int) == live_seq(
                    s,
                    self.front as int,
                    self.back as int,
                ),
            decreases self.back as int - self.front as int,
        {
            let o = self.front;
            let is_live = match a.entry_to_ref(o) {
                Some(_) => true,
                None => false,
            };
            if is_live {
                proof {
                    lemma_live_seq_split(s, o as int, o as int + 1, self.back as int);
                    lemma_live_seq_one(s, o as int);
                    let items = live_seq(s, o as int, self.back as int);
                    assert(items[0] == (o as int, s[o as int]->generation, s[o as int]->value));
                    crate::slots::lemma_live_seq_update_inside(
                        s,
                        o as int,
                        Entry::Occupied {
                            generation: s[o as int]->generation,
                            value: s[o as int]->value,
                        },
                        self.front as int,
                        self.back as int,
                    );
                }
                self.front = o + 1;
                self.remaining = self.remaining - 1;
                let r = a.entry_to_mut(o);
                match r {
                    Some((h, v)) => {
                        proof {
                            crate::slots::lemma_live_seq_update_outside(
                                s,
                                o as int,
                                Entry::Occupied { generation: h.gen_spec(), value: *final(v) },
                                o as int + 1,
                                self.back as int,
                            );
                        }
                        return Some((h, v));
                    },
                    None => {
                        return vstd::pervasive::unreached();
                    },
                }
            } else {
                proof {
                    lemma_live_seq_split(s, o as int, o as int + 1, self.back as int);
                    lemma_live_seq_one(s, o as int);
                    assert(live_seq(s, o as int, self.back as int) =~= live_seq(
                        s,
                        o as int + 1,
                        self.back as int,
                    ));
                }
                self.front = o + 1;
            }
        }
        proof {
            assert(live_seq(s, self.front as int, self.back as int) =~= Seq::<(
                int,
                G,
                T,
            )>::empty());
        }
        None
    }

    /// Yield the last live element before the back of the range, with an
    /// exclusive reference to its value.
    pub fn next_back<'a, T, I: ArenaIndex, G: FixedGenerationalIndex, S: Storage<Entry<T, I, G>>>(
        &mut self,
        a: &'a mut Arena<T, I, G, S>,
    ) -> (r: Option<(Index<T, I, G>, &'a mut T)>)
        requires
            old(a).inv(),
            old(self).wf(*old(a)),
        ensures
            final(a).inv(),
            final(self).wf(*final(a)),
            final(self).front_spec() == old(self).front_spec(),
            final(a).cur_gen() == old(a).cur_gen(),
            final(a).cap() == old(a).cap(),
            final(a).live() == old(a).live(),
            final(a).free_list() == old(a).free_list(),
            ({
                let items = live_seq(old(a).slots(), old(self).front_spec(), old(self).back_spec());
                match r {
                    None => items.len() == 0 && final(self).remaining_spec() == 0
                        && final(a).slots() == old(a).slots(),
                    Some((h, v)) => {
                        &&& items.len() > 0
                        &&& h.idx_int() == items.last().0
                        &&& h.gen_spec() == items.last().1
                        &&& *v == items.last().2
                        &&& old(a).valid(h)
                        &&& final(a).slots() == old(a).slots().update(
                            h.idx_int(),
                            Entry::Occupied { generation: h.gen_spec(), value: *final(v) },
                        )
                        &&& final(self).remaining_spec() == old(self).remaining_spec() - 1
                    },
                }
            }),
    {
        let ghost s = a.slots();
        let ghost b0 = self.back as int;
        proof {
            a.lemma_inv_facts();
        }
        while self.front < self.back
            invariant
                a.inv(),
                *a == *old(a),
                s == a.slots(),
                b0 == old(self).back_spec(),
                self.front as int == old(self).front_spec(),
                0 <= self.front as int <= self.back as int <= s.len(),
                self.back as int <= b0,
                self.remaining as int == live_count(s, self.front as int, self.back as int),
                old(self).remaining_spec() == live_count(s, self.front as int, b0),
                live_seq(s, self.front as int, b0) == live_seq(
                    s,
                    self.front as int,
                    self.back as int,
                ),
            decreases self.back as int - self.front as int,
        {
            let o = self.back - 1;
            let is_live = match a.entry_to_ref(o) {
                Some(_) => true,
                None => false,
            };
            if is_live {
                proof {
                    let items = live_seq(s, self.front as int, self.back as int);
                    lemma_live_seq_one(s, o as int);
                    assert(items == live_seq(s, self.front as int, o as int) + seq![
                        (o as int, s[o as int]->generation, s[o as int]->value),
                    ]);
                    assert(items.last() == (o as int, s[o as int]->generation, s[o as int]->value));
                    assert(items.drop_last() =~= live_seq(s, self.front as int, o as int));
                }
                self.back = o;
                self.remaining = self.remaining - 1;
                let r = a.entry_to_mut(o);
                match r {
                    Some((h, v)) => {
                        proof {
                            crate::slots::lemma_live_seq_update_outside(
                                s,
                                o as int,
                                Entry::Occupied { generation: h.gen_spec(), value: *final(v) },
                                self.front as int,
                                o as int,
                            );
                        }
                        return Some((h, v));
                    },
                    None => {
                        return vstd::pervasive::unreached();
                    },
                }
            } else {
                proof {
                    assert(live_seq(s, self.front as int, self.back as int) =~= live_seq(
                        s,
                        self.front as int,
                        o as int,
                    ));
                }
                self.back = o;
            }
        }
        proof {
            assert(live_seq(s, self.front as int, self.back as int) =~= Seq::<(
                int,
                G,
                T,
            )>::empty());
        }
        None
    }
}

/// An iterator over the values of a consumed arena, in offset order.
pub struct IntoIter<T> {
    vals: Vec<Option<T>>,
    front: usize,
    back: usize,
}

impl<T> IntoIter<T> {
    /// The values still to be yielded, in order.
    pub closed spec fn remaining(self) -> Seq<T> {
        Seq::new((self.back - self.front) as nat, |k: int| self.vals@[self.front + k]->0)
    }

    /// Whether the iterator's window is well formed.
    pub closed spec fn wf(self) -> bool {
        &&& 0 <= self.front <= self.back <= self.vals@.len()
        &&& forall|k: int| self.front <= k < self.back ==> (#[trigger] self.vals@[k]) is Some
    }

    /// Build an iterator over `vals`, all of which must be present.
    pub(crate) fn from_vals(vals: Vec<Option<T>>) -> (it: IntoIter<T>)
        requires
            forall|k: int| 0 <= k < vals@.len() ==> (#[trigger] vals@[k]) is Some,
        ensures
            it.wf(),
            it.remaining().len() == vals@.len(),
            forall|k: int|
                0 <= k < vals@.len() ==> #[trigger] it.remaining()[k] == vals@[k]->0,
    {
        let n = vals.len();
        IntoIter { vals, front: 0, back: n }
    }

    /// How many values are left.
    pub fn len(&self) -> (n: usize)
        requires
            self.wf(),
        ensures
            n as int == self.remaining().len(),
    {
        self.back - self.front
    }

    /// Yield the first remaining value.
    pub fn next(&mut self) -> (r: Option<T>)
        requires
            old(self).wf(),
        ensures
            final(self).wf(),
            old(self).remaining().len() == 0 ==> r is None && final(self).remaining() == old(self).remaining(),
            old(self).remaining().len() > 0 ==> r == Some(old(self).remaining()[0]) && final(self).remaining() == old(self).remaining().drop_first(),
    {
        if self.front >= self.back {
            proof {
                assert(final(self).remaining() =~= old(self).remaining());
            }
            return None;
        }
        let mut tmp: Option<T> = None;
        core::mem::swap(&mut tmp, &mut self.vals[self.front]);
        self.front = self.front + 1;
        proof {
            assert(final(self).remaining() =~= old(self).remaining().drop_first());
        }
        tmp
    }

    /// Split the remaining values so that the left iterator yields exactly
    /// the first `k` of them and the right iterator the rest: the owning
    /// traversal's counterpart of a parallel producer's split.
    pub fn split_at(self, k: usize) -> (r: (IntoIter<T>, IntoIter<T>))
        requires
            self.wf(),
            k as int <= self.remaining().len(),
        ensures
            r.0.wf(),
            r.1.wf(),
            r.0.remaining() == self.remaining().subrange(0, k as int),
            r.1.remaining() == self.remaining().subrange(k as int, self.remaining().len() as int),
    {
        let ghost pre = self;
        let front = self.front;
        let back = self.back;
        let mut left_vals = self.vals;
        let boundary = front + k;
        let right_vals = left_vals.split_off(boundary);
        let left = IntoIter { vals: left_vals, front, back: boundary };
        let right = IntoIter { vals: right_vals, front: 0, back: back - boundary };
        proof {
            assert(left.remaining() =~= pre.remaining().subrange(0, k as int));
            assert(right.remaining() =~= pre.remaining().subrange(
                k as int,
                pre.remaining().len() as int,
            ));
        }
        (left, right)
    }

    /// Yield the last remaining value.
    pub fn next_back(&mut self) -> (r: Option<T>)
        requires
            old(self).wf(),
        ensures
            final(self).wf(),
            old(self).remaining().len() == 0 ==> r is None && final(self).remaining() == old(self).remaining(),
            old(self).remaining().len() > 0 ==> r == Some(old(self).remaining().last()) && final(self).remaining() == old(self).remaining().drop_last(),
    {
        if self.front >= self.back {
            proof {
                assert(final(self).remaining() =~= old(self).remaining());
            }
            return None;
        }
        let mut tmp: Option<T> = None;
        let b = self.back - 1;
        core::mem::swap(&mut tmp, &mut self.vals[b]);
        self.back = b;
        proof {
            assert(final(self).remaining() =~= old(self).remaining().drop_last());
        }
        tmp
    }
}

/// An iterator over `(handle, value)` pairs that an arena's `drain` has
/// already removed; the arena itself is emptied eagerly, however much of
/// this iterator is consumed.
pub struct Drain<T, I, G> {
    pairs: Vec<Option<(Index<T, I, G>, T)>>,
    front: usize,
}

impl<T, I, G> Drain<T, I, G> {
    /// The pairs still to be yielded, in offset order.
    pub closed spec fn remaining(self) -> Seq<(Index<T, I, G>, T)> {
        Seq::new((self.pairs@.len() - self.front) as nat, |k: int| self.pairs@[self.front + k]->0)
    }

    /// Whether the iterator's window is well formed.
    pub closed spec fn wf(self) -> bool {
        &&& 0 <= self.front <= self.pairs@.len()
        &&& forall|k: int|
            self.front <= k < self.pairs@.len() ==> (#[trigger] self.pairs@[k]) is Some
    }

    /// Build the iterator over removed pairs, all of which must be present.
    pub(crate) fn from_pairs(pairs: Vec<Option<(Index<T, I, G>, T)>>) -> (d: Drain<T, I, G>)
        requires
            forall|k: int| 0 <= k < pairs@.len() ==> (#[trigger] pairs@[k]) is Some,
        ensures
            d.wf(),
            d.remaining().len() == pairs@.len(),
            forall|k: int|
                0 <= k < pairs@.len() ==> #[trigger] d.remaining()[k] == pairs@[k]->0,
    {
        Drain { pairs, front: 0 }
    }

    /// How many pairs are left.
    pub fn len(&self) -> (n: usize)
        requires
            self.wf(),
        ensures
            n as int == self.remaining().len(),
    {
        self.pairs.len() - self.front
    }

    /// Yield the next removed pair.
    pub fn next(&mut self) -> (r: Option<(Index<T, I, G>, T)>)
        requires
            old(self).wf(),
        ensures
            final(self).wf(),
            old(self).remaining().len() == 0 ==> r is None && final(self).remaining() == old(self).remaining(),
            old(self).remaining().len() > 0 ==> r == Some(old(self).remaining()[0]) && final(self).remaining() == old(self).remaining().drop_first(),
    {
        if self.front >= self.pairs.len() {
            proof {
                assert(final(self).remaining() =~= old(self).remaining());
            }
            return None;
        }
        let mut tmp: Option<(Index<T, I, G>, T)> = None;
        core::mem::swap(&mut tmp, &mut self.pairs[self.front]);
        self.front = self.front + 1;
        proof {
            assert(final(self).remaining() =~= old(self).remaining().drop_first());
        }
        tmp
    }
}

} // verus!
