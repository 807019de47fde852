use vstd::prelude::*;

verus! {

use crate::outcome::{outcome_seq_wf, Outcome};

/// The sum, over a sequence of outcomes, of the score at position `i`.
pub open spec fn position_total(h: Seq<Seq<u8>>, i: int) -> int
    decreases h.len(),
{
    if h.len() == 0 {
        0
    } else {
        position_total(h.drop_last(), i) + h.last()[i]
    }
}

pub proof fn lemma_position_total_push(h: Seq<Seq<u8>>, o: Seq<u8>, i: int)
    ensures
        position_total(h.push(o), i) == position_total(h, i) + o[i],
{
    assert(h.push(o).drop_last() =~= h);
    assert(h.push(o).last() == o);
}

/// The mean of a per-position running sum over `count` trials, in
/// hundredths, rounded half-up to the nearest hundredth.
pub open spec fn mean_hundredths(total: int, count: int) -> int
    recommends
        count > 0,
{
    (200 * total + count) / (2 * count)
}

/// Running aggregate of one trial count and six per-position sums over the
/// outcomes incorporated so far. The outcomes themselves are kept only as a
/// ghost history that the sums are stated against.
pub struct Accumulator {
    pub count: u64,
    pub sums: Vec<u128>,
    pub history: Ghost<Seq<Seq<u8>>>,
}

impl Accumulator {
    /// After incorporating the outcomes of `history`, the count is their
    /// number and each running sum is the total of the matching position.
    pub open spec fn wf(&self) -> bool {
        &&& self.sums@.len() == 6
        &&& self.count as int == self.history@.len()
        &&& forall|k: int|
            0 <= k < self.history@.len() ==> outcome_seq_wf(#[trigger] self.history@[k])
        &&& forall|i: int|
            0 <= i < 6 ==> (#[trigger] self.sums@[i] as int == position_total(self.history@, i)
                && self.sums@[i] <= 18 * (self.count as int))
    }

    /// A fresh accumulator: no trials, all sums zero.
    pub fn new() -> (r: Accumulator)
        ensures
            r.wf(),
            r.count == 0,
            r.history@ == Seq::<Seq<u8>>::empty(),
    {
        let sums: Vec<u128> = vec![0, 0, 0, 0, 0, 0];
        Accumulator { count: 0, sums, history: Ghost(Seq::empty()) }
    }

    /// Folds one more outcome into the running sums and the trial count.
    #[verifier::loop_isolation(false)]
    pub fn incorporate(&mut self, o: &Outcome)
        requires
            old(self).wf(),
            o.wf(),
            old(self).count < u64::MAX,
        ensures
            final(self).wf(),
            final(self).count == old(self).count + 1,
            final(self).history@ == old(self).history@.push(o@),
    {
        let mut i: usize = 0;
        while i < 6
            invariant
                i <= 6,
                self.sums@.len() == 6,
                self.count == old(self).count,
                self.history@ == old(self).history@,
                forall|k: int|
                    0 <= k < i ==> #[trigger] self.sums@[k] as int == position_total(
                        old(self).history@,
                        k,
                    ) + o@[k],
                forall|k: int| i <= k < 6 ==> #[trigger] self.sums@[k] == old(self).sums@[k],
            decreases 6 - i,
        {
            let v = o.get(i);
            let s = self.sums[i];
            self.sums.set(i, s + v as u128);
            i = i + 1;
        }
        self.count = self.count + 1;
        proof {
            self.history@ = old(self).history@.push(o@);
            assert forall|k: int| 0 <= k < 6 implies (#[trigger] self.sums@[k] as int
                == position_total(self.history@, k) && self.sums@[k] <= 18 * (
            self.count as int)) by {
                assert(old(self).sums@[k] as int == position_total(old(self).history@, k));
                assert(old(self).sums@[k] <= 18 * (old(self).count as int));
                assert(o@[k] <= 18);
                lemma_position_total_push(old(self).history@, o@, k);
            }
        }
    }

    /// The per-position means over all incorporated outcomes, in hundredths,
    /// rounded half-up: entry `i` is the mean of position `i`'s scores.
    #[verifier::loop_isolation(false)]
    pub fn render(&self) -> (r: Vec<u64>)
        requires
            self.wf(),
            self.count > 0,
        ensures
            r@.len() == 6,
            forall|i: int|
                0 <= i < 6 ==> #[trigger] r@[i] as int == mean_hundredths(
                    position_total(self.history@, i),
                    self.count as int,
                ),
            forall|i: int| 0 <= i < 6 ==> #[trigger] r@[i] <= 1800,
    {
        let mut r: Vec<u64> = Vec::new();
        let mut i: usize = 0;
        while i < 6
            invariant
                i <= 6,
                r@.len() == i,
                forall|k: int|
                    0 <= k < i ==> #[trigger] r@[k] as int == mean_hundredths(
                        position_total(self.history@, k),
                        self.count as int,
                    ),
                forall|k: int| 0 <= k < i ==> #[trigger] r@[k] <= 1800,
            decreases 6 - i,
        {
            let t: u128 = 200 * self.sums[i] + self.count as u128;
            let d: u128 = 2 * (self.count as u128);
            let q = t / d;
            proof {
                vstd::arithmetic::div_mod::lemma_multiply_divide_lt(t as int, d as int, 1801);
            }
            r.push(q as u64);
            i = i + 1;
        }
        r
    }
}

impl Default for Accumulator {
    /// A fresh accumulator, the same as `Accumulator::new`.
    fn default() -> (r: Accumulator)
        ensures
            r.wf(),
            r.count == 0,
            r.history@ == Seq::<Seq<u8>>::empty(),
    {
        Accumulator::new()
    }
}

/// Rendering reads the accumulator without changing it: any two renderings
/// of the same accumulator state, with no incorporation between them, are
/// identical.
pub proof fn lemma_render_idempotent(a: Accumulator, r1: Seq<u64>, r2: Seq<u64>)
    requires
        r1.len() == 6,
        r2.len() == 6,
        forall|i: int|
            0 <= i < 6 ==> #[trigger] r1[i] as int == mean_hundredths(
                position_total(a.history@, i),
                a.count as int,
            ),
        forall|i: int|
            0 <= i < 6 ==> #[trigger] r2[i] as int == mean_hundredths(
                position_total(a.history@, i),
                a.count as int,
            ),
    ensures
        r1 == r2,
{
    assert forall|i: int| 0 <= i < 6 implies r1[i] == r2[i] by {
        assert(r1[i] as int == r2[i] as int);
    }
    assert(r1 =~= r2);
}

} // verus!
