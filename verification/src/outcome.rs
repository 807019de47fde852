use vstd::prelude::*;

verus! {

/// Six scores as plain values: exactly six entries, each in `[0, 18]`.
pub open spec fn outcome_seq_wf(o: Seq<u8>) -> bool {
    o.len() == 6 && forall|i: int| 0 <= i < 6 ==> #[trigger] o[i] <= 18
}

/// One complete set of six ability scores for a single trial. Created once
/// per trial and not changed afterwards.
#[derive(Clone, Debug)]
pub struct Outcome {
    pub values: Vec<u8>,
}

impl View for Outcome {
    type V = Seq<u8>;

    open spec fn view(&self) -> Seq<u8> {
        self.values@
    }
}

impl Outcome {
    /// A well-formed outcome holds exactly six scores, each in `[0, 18]`.
    pub open spec fn wf(&self) -> bool {
        outcome_seq_wf(self@)
    }

    /// Wraps six scores as an outcome.
    pub fn new(values: Vec<u8>) -> (r: Outcome)
        requires
            outcome_seq_wf(values@),
        ensures
            r@ == values@,
            r.wf(),
    {
        Outcome { values }
    }

    /// The score at one of the six positions.
    pub fn get(&self, i: usize) -> (r: u8)
        requires
            self.wf(),
            i < 6,
        ensures
            r == self@[i as int],
    {
        self.values[i]
    }
}

} // verus!
