use crate::field::Felt;
use crate::rescue::all_wf;
use vstd::prelude::*;

verus! {

/// The system chiplet: the clock.
pub struct System {
    pub clk: usize,
}

impl System {
    pub fn new(init_trace_length: usize) -> (r: System)
        ensures
            r.clk == 0,
    {
        System { clk: 0 }
    }

    /// Rows recorded so far.
    pub fn trace_length(&self) -> (r: usize)
        requires
            self.clk < usize::MAX,
        ensures
            r == self.clk + 1,
    {
        self.clk + 1
    }

    pub fn advance_step(&mut self)
        requires
            old(self).clk < usize::MAX,
        ensures
            final(self).clk == old(self).clk + 1,
    {
        self.clk = self.clk + 1;
    }

    /// The clock column: `0, 1, 2, ...` over `trace_length` rows.
    pub fn into_trace(self, trace_length: usize) -> (r: Vec<Vec<Felt>>)
        ensures
            r.len() == 1,
            r@[0].len() == trace_length,
            all_wf(r@[0]@),
            forall|i: int| 0 <= i < trace_length ==> (#[trigger] r@[0]@[i])@ == i,
    {
        let mut col: Vec<Felt> = Vec::new();
        let mut i: usize = 0;
        while i < trace_length
            invariant
                0 <= i <= trace_length,
                col.len() == i,
                all_wf(col@),
                forall|t: int| 0 <= t < i ==> (#[trigger] col@[t])@ == t,
            decreases trace_length - i,
        {
            col.push(Felt::from_usize(i));
            i += 1;
        }
        vec![col]
    }
}

} // verus!
