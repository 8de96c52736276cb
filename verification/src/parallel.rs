//! Splittable producers for parallel iteration.
//!
//! A producer names a sub-range of the slot sequence together with the
//! count of live entries inside it — the count a fork-join scheduler's
//! balancing depends on, since free slots are interspersed. `split_at(k)`
//! scans for the raw position of the `k`-th live entry and divides the
//! range there, so the left part holds exactly the first `k` live entries
//! and the right part the rest, however the holes are distributed. Each
//! part converts into a sequential cursor that yields the same listing the
//! arena's own iteration does, which is what makes a parallel pass over the
//! leaves equivalent to one sequential pass.

use vstd::prelude::*;

use crate::arena::Arena;
use crate::generation::FixedGenerationalIndex;
use crate::index::ArenaIndex;
use crate::slots::Entry;
use crate::slots::lemma_live_seq_one;
use crate::slots::lemma_live_seq_split;
use crate::slots::live_count;
use crate::slots::live_seq;
use crate::storage::Storage;

verus! {

/// A splittable producer of shared references: a sub-range of the slot
/// sequence plus its live count.
pub struct ParIter {
    lo: usize,
    hi: usize,
    live: usize,
}

impl ParIter {
    /// The start of the producer's range.
    pub closed spec fn lo_spec(self) -> int {
        self.lo as int
    }

    /// The end of the producer's range.
    pub closed spec fn hi_spec(self) -> int {
        self.hi as int
    }

    /// The number of live entries in the range.
    pub closed spec fn live_spec(self) -> int {
        self.live as int
    }

    /// Whether the producer is a well-formed view of arena `a`.
    pub open spec fn wf<T, I: ArenaIndex, G: FixedGenerationalIndex, S: Storage<Entry<T, I, G>>>(
        self,
        a: Arena<T, I, G, S>,
    ) -> bool {
        &&& 0 <= self.lo_spec() <= self.hi_spec() <= a.cap()
        &&& self.live_spec() == live_count(a.slots(), self.lo_spec(), self.hi_spec())
    }

    /// A producer over `[lo, hi)` with `live` entries already counted.
    pub(crate) fn over_range(lo: usize, hi: usize, live: usize) -> (p: ParIter)
        ensures
            p.lo_spec() == lo as int,
            p.hi_spec() == hi as int,
            p.live_spec() == live as int,
    {
        ParIter { lo, hi, live }
    }

    /// The number of live entries this producer will yield — not the raw
    /// slot count.
    pub fn len(&self) -> (n: usize)
        ensures
            n as int == self.live_spec(),
    {
        self.live
    }

    /// Split the range so that the left part holds exactly the first `k`
    /// live entries and the right part the remaining `live - k`, wherever
    /// the free slots lie; together the parts list exactly what the whole
    /// range listed, in order.
    pub fn split_at<T, I: ArenaIndex, G: FixedGenerationalIndex, S: Storage<Entry<T, I, G>>>(
        self,
        a: &Arena<T, I, G, S>,
        k: usize,
    ) -> (r: (ParIter, ParIter))
        requires
            a.inv(),
            self.wf(*a),
            k as int <= self.live_spec(),
        ensures
            r.0.wf(*a),
            r.1.wf(*a),
            r.0.live_spec() == k as int,
            r.1.live_spec() == self.live_spec() - k,
            r.0.lo_spec() == self.lo_spec(),
            r.0.hi_spec() == r.1.lo_spec(),
            r.1.hi_spec() == self.hi_spec(),
            live_seq(a.slots(), self.lo_spec(), self.hi_spec()) == live_seq(
                a.slots(),
                r.0.lo_spec(),
                r.0.hi_spec(),
            ) + live_seq(a.slots(), r.1.lo_spec(), r.1.hi_spec()),
    {
        let ghost s = a.slots();
        proof {
            a.lemma_inv_facts();
        }
        let mut p = self.lo;
        let mut c: usize = 0;
        while c < k
            invariant
                a.inv(),
                s == a.slots(),
                self.lo as int <= p as int <= self.hi as int <= s.len(),
                c as int == live_count(s, self.lo as int, p as int),
                c <= k,
                k as int <= self.live as int,
                self.live as int == live_count(s, self.lo as int, self.hi as int),
            decreases self.hi as int - p as int,
        {
            proof {
                lemma_live_seq_split(s, self.lo as int, p as int, self.hi as int);
                assert(live_seq(s, self.hi as int, self.hi as int) == Seq::<(int, G, T)>::empty());
                assert((p as int) < (self.hi as int));
                lemma_live_seq_split(s, p as int, p as int + 1, self.hi as int);
                lemma_live_seq_one(s, p as int);
            }
            let is_live = match a.entry_to_ref(p) {
                Some(_) => true,
                None => false,
            };
            proof {
                lemma_live_seq_split(s, self.lo as int, p as int, p as int + 1);
                lemma_live_seq_one(s, p as int);
            }
            if is_live {
                c = c + 1;
            }
            p = p + 1;
        }
        proof {
            lemma_live_seq_split(s, self.lo as int, p as int, self.hi as int);
        }
        (ParIter { lo: self.lo, hi: p, live: k }, ParIter { lo: p, hi: self.hi, live: self.live - k })
    }

    /// Turn this producer into a sequential cursor over its range.
    pub fn into_seq<T, I: ArenaIndex, G: FixedGenerationalIndex, S: Storage<Entry<T, I, G>>>(
        self,
        a: &Arena<T, I, G, S>,
    ) -> (it: crate::iter::Iter)
        requires
            a.inv(),
            self.wf(*a),
        ensures
            it.wf(*a),
            it.front_spec() == self.lo_spec(),
            it.back_spec() == self.hi_spec(),
            it.remaining_spec() == self.live_spec(),
    {
        crate::iter::Iter::over_range(self.lo, self.hi, self.live)
    }
}

/// A splittable producer of exclusive references: the same range-and-count
/// view as [`ParIter`], consumed through a mutating cursor.
pub struct ParIterMut {
    lo: usize,
    hi: usize,
    live: usize,
}

impl ParIterMut {
    /// The start of the producer's range.
    pub closed spec fn lo_spec(self) -> int {
        self.lo as int
    }

    /// The end of the producer's range.
    pub closed spec fn hi_spec(self) -> int {
        self.hi as int
    }

    /// The number of live entries in the range.
    pub closed spec fn live_spec(self) -> int {
        self.live as int
    }

    /// Whether the producer is a well-formed view of arena `a`.
    pub open spec fn wf<T, I: ArenaIndex, G: FixedGenerationalIndex, S: Storage<Entry<T, I, G>>>(
        self,
        a: Arena<T, I, G, S>,
    ) -> bool {
        &&& 0 <= self.lo_spec() <= self.hi_spec() <= a.cap()
        &&& self.live_spec() == live_count(a.slots(), self.lo_spec(), self.hi_spec())
    }

    /// A producer over `[lo, hi)` with `live` entries already counted.
    pub(crate) fn over_range(lo: usize, hi: usize, live: usize) -> (p: ParIterMut)
        ensures
            p.lo_spec() == lo as int,
            p.hi_spec() == hi as int,
            p.live_spec() == live as int,
    {
        ParIterMut { lo, hi, live }
    }

    /// The number of live entries this producer will yield.
    pub fn len(&self) -> (n: usize)
        ensures
            n as int == self.live_spec(),
    {
        self.live
    }

    /// Split as [`ParIter::split_at`] does; the halves own disjoint
    /// sub-ranges, so their mutations cannot touch each other's entries.
    pub fn split_at<T, I: ArenaIndex, G: FixedGenerationalIndex, S: Storage<Entry<T, I, G>>>(
        self,
        a: &Arena<T, I, G, S>,
        k: usize,
    ) -> (r: (ParIterMut, ParIterMut))
        requires
            a.inv(),
            self.wf(*a),
            k as int <= self.live_spec(),
        ensures
            r.0.wf(*a),
            r.1.wf(*a),
            r.0.live_spec() == k as int,
            r.1.live_spec() == self.live_spec() - k,
            r.0.lo_spec() == self.lo_spec(),
            r.0.hi_spec() == r.1.lo_spec(),
            r.1.hi_spec() == self.hi_spec(),
            live_seq(a.slots(), self.lo_spec(), self.hi_spec()) == live_seq(
                a.slots(),
                r.0.lo_spec(),
                r.0.hi_spec(),
            ) + live_seq(a.slots(), r.1.lo_spec(), r.1.hi_spec()),
    {
        let p = ParIter::over_range(self.lo, self.hi, self.live);
        let (left, right) = p.split_at(a, k);
        let llo = left.lo_raw();
        let lhi = left.hi_raw();
        let llive = left.len();
        let rlo = right.lo_raw();
        let rhi = right.hi_raw();
        let rlive = right.len();
        (ParIterMut { lo: llo, hi: lhi, live: llive }, ParIterMut {
            lo: rlo,
            hi: rhi,
            live: rlive,
        })
    }

    /// Turn this producer into a sequential mutating cursor over its range.
    pub fn into_seq_mut<T, I: ArenaIndex, G: FixedGenerationalIndex, S: Storage<Entry<T, I, G>>>(
        self,
        a: &Arena<T, I, G, S>,
    ) -> (it: crate::iter::IterMut)
        requires
            a.inv(),
            self.wf(*a),
        ensures
            it.wf(*a),
            it.front_spec() == self.lo_spec(),
            it.back_spec() == self.hi_spec(),
            it.remaining_spec() == self.live_spec(),
    {
        crate::iter::IterMut::over_range(self.lo, self.hi, self.live)
    }
}

impl ParIter {
    /// The raw start offset.
    pub fn lo_raw(&self) -> (n: usize)
        ensures
            n as int == self.lo_spec(),
    {
        self.lo
    }

    /// The raw end offset.
    pub fn hi_raw(&self) -> (n: usize)
        ensures
            n as int == self.hi_spec(),
    {
        self.hi
    }
}

} // verus!
