use crate::errors::ChipletsError;
use crate::field::Felt;
use crate::opcodes::{OpCode, Operation};
use crate::rescue::{
    all_wf, felts, sponge_absorb, Rescue128, CYCLE_LENGTH, NUM_ROUNDS, STATE_WIDTH,
};
use vstd::prelude::*;

verus! {

/// The hash chiplet: the sponge state on every row, one round per operation.
pub struct Chiplets {
    pub clk: usize,
    pub sponge: Rescue128,
    /// The sponge state on each row so far.
    pub states: Vec<Vec<Felt>>,
    /// The operations absorbed so far.
    pub ops: Ghost<Seq<Operation>>,
}

impl Chiplets {
    pub open spec fn wf(&self) -> bool {
        &&& self.sponge.wf()
        &&& self.sponge.steps == self.clk
        &&& self.ops@.len() == self.clk
        &&& self.states.len() == self.clk + 1
        &&& self.clk < usize::MAX - 1
        &&& forall|i: int|
            0 <= i <= self.clk ==> (#[trigger] self.states@[i]).len() == STATE_WIDTH && all_wf(
                self.states@[i]@,
            ) && felts(self.states@[i]@) == sponge_absorb(self.ops@.subrange(0, i))
        &&& felts(self.sponge.state@) == sponge_absorb(self.ops@)
    }

    pub fn new(init_trace_length: usize) -> (r: Chiplets)
        ensures
            r.wf(),
            r.clk == 0,
            r.ops@ == Seq::<Operation>::empty(),
    {
        let sponge = Rescue128::new();
        let first = sponge.state();
        let r = Chiplets { clk: 0, sponge, states: vec![first], ops: Ghost(Seq::empty()) };
        assert(r.ops@.subrange(0, 0) =~= Seq::<Operation>::empty());
        r
    }

    /// Rows recorded so far.
    pub fn trace_length(&self) -> (r: usize)
        requires
            self.wf(),
        ensures
            r == self.clk + 1,
    {
        self.clk + 1
    }

    /// Absorbs the operation of the current row. Only `noop` may stand on
    /// the two capacity-reset rows at the end of a cycle.
    pub fn hash_op(&mut self, op: &Operation) -> (r: Result<(), ChipletsError>)
        requires
            old(self).wf(),
            old(self).clk < usize::MAX - 2,
        ensures
            old(self).clk % 16 >= 14 && op.op_code != OpCode::Noop ==> r == Err::<(), ChipletsError>(
                ChipletsError::invalid_operation_spec(*op, (old(self).clk + 1) as usize),
            ),
            !(old(self).clk % 16 >= 14 && op.op_code != OpCode::Noop) ==> {
                &&& r.is_ok()
                &&& final(self).wf()
                &&& final(self).clk == old(self).clk + 1
                &&& final(self).ops@ == old(self).ops@.push(*op)
                &&& final(self).states@.subrange(0, old(self).clk + 1) == old(self).states@
            },
    {
        if self.clk % CYCLE_LENGTH >= NUM_ROUNDS {
            if let OpCode::Noop = op.op_code {
            } else {
                return Err(ChipletsError::invalid_operation(op, self.clk + 1));
            }
        }
        let ghost ops0 = self.ops@;
        let ghost states0 = self.states@;
        self.sponge.update(op.code(), op.value());
        let state = self.sponge.state();
        self.states.push(state);
        self.clk = self.clk + 1;
        self.ops = Ghost(ops0.push(*op));
        proof {
            assert(self.ops@.drop_last() =~= ops0);
            assert(self.ops@.subrange(0, self.clk as int) =~= self.ops@);
            assert forall|i: int|
                0 <= i <= self.clk implies (#[trigger] self.states@[i]).len() == STATE_WIDTH && all_wf(
                self.states@[i]@,
            ) && felts(self.states@[i]@) == sponge_absorb(self.ops@.subrange(0, i)) by {
                if i < self.clk {
                    assert(self.states@[i] == states0[i]);
                    assert(self.ops@.subrange(0, i) =~= ops0.subrange(0, i));
                }
            }
            assert(self.states@.subrange(0, ops0.len() as int + 1) =~= states0);
        }
        Ok(())
    }

    /// The hash-enable column, 1 on the rows of operations and 0 after, then
    /// the four sponge lanes, each extended with its last value.
    pub fn into_trace(self, trace_length: usize) -> (r: Result<Vec<Vec<Felt>>, ChipletsError>)
        requires
            self.wf(),
            self.clk < trace_length,
        ensures
            self.clk % 16 != 0 ==> r == Err::<Vec<Vec<Felt>>, ChipletsError>(
                ChipletsError::invalid_trace_length_spec(CYCLE_LENGTH, self.clk, self.clk),
            ),
            self.clk % 16 == 0 ==> r.is_ok() && chiplets_columns(
                r->Ok_0@,
                self.ops@,
                trace_length as int,
            ),
    {
        if self.clk % CYCLE_LENGTH != 0 {
            return Err(ChipletsError::invalid_trace_length(CYCLE_LENGTH, self.clk, self.clk));
        }
        let mut flags: Vec<Felt> = Vec::new();
        let mut i: usize = 0;
        while i < trace_length
            invariant
                0 <= i <= trace_length,
                flags.len() == i,
                all_wf(flags@),
                forall|t: int| 0 <= t < i ==> (#[trigger] flags@[t])@ == if t < self.clk { 1int } else { 0 },
            decreases trace_length - i,
        {
            if i < self.clk {
                flags.push(Felt::one());
            } else {
                flags.push(Felt::zero());
            }
            i += 1;
        }
        let mut cols: Vec<Vec<Felt>> = vec![flags];
        let mut c: usize = 0;
        while c < STATE_WIDTH
            invariant
                self.wf(),
                self.clk < trace_length,
                0 <= c <= 4,
                cols.len() == c + 1,
                forall|cc: int| 0 <= cc <= c ==> (#[trigger] cols@[cc]).len() == trace_length && all_wf(cols@[cc]@),
                forall|t: int|
                    0 <= t < trace_length ==> (#[trigger] cols@[0]@[t])@ == if t < self.clk {
                        1int
                    } else {
                        0
                    },
                forall|cc: int, t: int|
                    0 <= cc < c && 0 <= t < trace_length ==> (#[trigger] cols@[cc + 1]@[t])@
                        == sponge_absorb(self.ops@.subrange(0, if t < self.clk { t } else { self.clk as int }))[cc],
            decreases 4 - c,
        {
            let mut col: Vec<Felt> = Vec::new();
            let mut i: usize = 0;
            while i < trace_length
                invariant
                    self.wf(),
                    self.clk < trace_length,
                    c < 4,
                    0 <= i <= trace_length,
                    col.len() == i,
                    all_wf(col@),
                    forall|t: int|
                        0 <= t < i ==> (#[trigger] col@[t])@ == sponge_absorb(
                            self.ops@.subrange(0, if t < self.clk { t } else { self.clk as int }),
                        )[c as int],
                decreases trace_length - i,
            {
                let at = if i < self.clk {
                    i
                } else {
                    self.clk
                };
                assert(self.states@[at as int].len() == STATE_WIDTH && all_wf(self.states@[at as int]@));
                col.push(self.states[at][c]);
                i += 1;
            }
            let ghost before = cols@;
            cols.push(col);
            proof {
                assert forall|cc: int, t: int|
                    0 <= cc < c + 1 && 0 <= t < trace_length implies (#[trigger] cols@[cc + 1]@[t])@
                        == sponge_absorb(self.ops@.subrange(0, if t < self.clk { t } else { self.clk as int }))[cc] by {
                    if cc < c {
                        assert(cols@[cc + 1] == before[cc + 1]);
                    }
                }
                assert(cols@[0] == before[0]);
            }
            c += 1;
        }
        Ok(cols)
    }
}

/// The five columns of the hash chiplet over `len` rows, after `ops`: the
/// hash-enable flag, then the sponge lanes, held at their last value.
pub open spec fn chiplets_columns(cols: Seq<Vec<Felt>>, ops: Seq<Operation>, len: int) -> bool {
    &&& cols.len() == 5
    &&& forall|c: int| 0 <= c < 5 ==> (#[trigger] cols[c]).len() == len && all_wf(cols[c]@)
    &&& forall|t: int| 0 <= t < len ==> (#[trigger] cols[0]@[t])@ == if t < ops.len() { 1int } else { 0 }
    &&& forall|c: int, t: int|
        0 <= c < 4 && 0 <= t < len ==> (#[trigger] cols[c + 1]@[t])@ == sponge_absorb(
            ops.subrange(0, if t < ops.len() { t } else { ops.len() as int }),
        )[c]
}

} // verus!
