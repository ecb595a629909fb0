use crate::chiplets::Chiplets;
use crate::decoder::Decoder;
use crate::errors::{ChipletsError, ChipletsErrorKind, ProcessorError, StackError};
use crate::fhe::{random_in, LweParameters};
use crate::field::{Felt, MODULUS};
use crate::opcodes::{bit, op_code_of, OpCode, Operation};
use crate::program::Program;
use crate::rescue::{all_wf, sponge_absorb};
use crate::stack::{cts_view, stack_next, tape_a_after, tape_b_after, ProgramInputs, Stack};
use crate::system::System;
use vstd::prelude::*;

verus! {

/// The shortest trace: the sponge needs a full cycle.
pub const MIN_TRACE_LENGTH: usize = 16;

/// Columns of the trace: clock, five opcode bits, hash flag, four sponge
/// lanes, depth, sixteen stack slots.
pub const TRACE_WIDTH: usize = 28;

/// The state of the machine after a prefix of a run.
pub struct RunState {
    pub rows: Seq<Seq<int>>,
    pub depths: Seq<int>,
    pub tape_a: Seq<u8>,
    pub tape_b: Seq<Seq<int>>,
}

/// Runs `code` from the empty stack: the state after it, or the first error.
/// On each step the stack runs the operation, then the hash chiplet refuses
/// anything but `noop` on the capacity-reset rows.
pub open spec fn run_spec(
    code: Seq<Operation>,
    tape_a: Seq<u8>,
    tape_b: Seq<Seq<int>>,
    params: LweParameters,
) -> Result<RunState, ProcessorError>
    decreases code.len(),
{
    if code.len() == 0 {
        Ok(RunState { rows: seq![Seq::new(16, |j: int| 0int)], depths: seq![0], tape_a, tape_b })
    } else {
        match run_spec(code.drop_last(), tape_a, tape_b, params) {
            Err(e) => Err(e),
            Ok(st) => {
                let i = code.len() - 1;
                let op = code.last();
                match stack_next(st.rows.last(), st.depths.last(), op, st.tape_a, st.tape_b, params) {
                    Err(kind) => Err(ProcessorError::Stack(StackError { kind, op, step: (i + 1) as usize })),
                    Ok((row, d)) => if i % 16 >= 14 && op.op_code != OpCode::Noop {
                        Err(
                            ProcessorError::Chiplets(
                                ChipletsError {
                                    kind: ChipletsErrorKind::InvalidOperation(op),
                                    step: (i + 1) as usize,
                                },
                            ),
                        )
                    } else {
                        Ok(
                            RunState {
                                rows: st.rows.push(row),
                                depths: st.depths.push(d),
                                tape_a: tape_a_after(op, st.tape_a),
                                tape_b: tape_b_after(op, st.tape_b),
                            },
                        )
                    },
                }
            },
        }
    }
}

pub open spec fn is_pow2(x: int) -> bool
    decreases x,
{
    if x <= 1 {
        x == 1
    } else {
        x % 2 == 0 && is_pow2(x / 2)
    }
}

/// The smallest power of two that is at least `n`.
pub fn next_power_of_two(n: usize) -> (r: usize)
    requires
        n <= usize::MAX / 2,
    ensures
        is_pow2(r as int),
        r >= n,
        r == 1 || r / 2 < n,
{
    let mut p: usize = 1;
    while p < n
        invariant
            is_pow2(p as int),
            p >= 1,
            p == 1 || p / 2 < n,
            n <= usize::MAX / 2,
        decreases usize::MAX - p,
    {
        assert(is_pow2((p * 2) as int)) by {
            assert((p * 2) as int / 2 == p as int);
        }
        p = p * 2;
    }
    p
}

/// The columns of a trace of `code` over `len` rows: the clock, the opcode
/// bits, the hash flag and sponge lanes, the depth and the stack slots, each
/// held at its last value after the run, and `last` on the final row.
pub open spec fn trace_columns(
    cols: Seq<Vec<Felt>>,
    code: Seq<Operation>,
    st: RunState,
    len: int,
    last: Seq<Felt>,
) -> bool {
    let n = code.len() as int;
    &&& cols.len() == TRACE_WIDTH
    &&& forall|c: int| 0 <= c < TRACE_WIDTH ==> (#[trigger] cols[c]).len() == len && all_wf(cols[c]@)
    &&& forall|c: int| 0 <= c < TRACE_WIDTH ==> (#[trigger] cols[c]@[len - 1]) == last[c]
    &&& forall|i: int| 0 <= i < len - 1 ==> (#[trigger] cols[0]@[i])@ == i
    &&& forall|j: int, i: int|
        0 <= j < 5 && 0 <= i < len - 1 ==> (#[trigger] cols[1 + j]@[i])@ == bit(
            if i < n {
                op_code_of(code[i]) as int
            } else {
                0
            },
            j as nat,
        )
    &&& forall|i: int| 0 <= i < len - 1 ==> (#[trigger] cols[6]@[i])@ == if i < n { 1int } else { 0 }
    &&& forall|c: int, i: int|
        0 <= c < 4 && 0 <= i < len - 1 ==> (#[trigger] cols[7 + c]@[i])@ == sponge_absorb(
            code.subrange(0, if i < n { i } else { n }),
        )[c]
    &&& forall|i: int|
        0 <= i < len - 1 ==> (#[trigger] cols[11]@[i])@ == st.depths[if i < n { i } else { n }]
    &&& forall|c: int, i: int|
        0 <= c < 16 && 0 <= i < len - 1 ==> (#[trigger] cols[12 + c]@[i])@ == st.rows[if i < n {
            i
        } else {
            n
        }][c]
}

/// The machine: the four chiplets that a run fills row by row.
pub struct Processor {
    pub stack: Stack,
    pub decoder: Decoder,
    pub system: System,
    pub chiplets: Chiplets,
}

impl Processor {
    pub open spec fn wf(&self) -> bool {
        &&& self.stack.wf()
        &&& self.decoder.wf()
        &&& self.chiplets.wf()
        &&& self.system.clk == self.stack.clk
        &&& self.decoder.clk == self.stack.clk
        &&& self.chiplets.clk == self.stack.clk
        &&& self.decoder.codes@ == self.chiplets.ops@.map_values(|op: Operation| op_code_of(op))
    }

    /// The run so far, as a `RunState`.
    pub open spec fn state(&self) -> RunState {
        RunState {
            rows: self.stack.rows_view(),
            depths: self.stack.depths@.map_values(|d: usize| d as int),
            tape_a: self.stack.tape_a_view(),
            tape_b: self.stack.tape_b_view(),
        }
    }

    fn new(inputs: &ProgramInputs) -> (r: Processor)
        requires
            inputs.wf(),
        ensures
            r.wf(),
            r.stack.clk == 0,
            r.chiplets.ops@ == Seq::<Operation>::empty(),
            r.state() == (RunState {
                rows: seq![Seq::new(16, |j: int| 0int)],
                depths: seq![0],
                tape_a: inputs.public@,
                tape_b: cts_view(inputs.secret@),
            }),
            r.stack.server_key.parameters == inputs.server_key.parameters,
    {
        let r = Processor {
            stack: Stack::new(inputs, MIN_TRACE_LENGTH),
            decoder: Decoder::new(MIN_TRACE_LENGTH),
            system: System::new(MIN_TRACE_LENGTH),
            chiplets: Chiplets::new(MIN_TRACE_LENGTH),
        };
        assert(r.stack.depths@.map_values(|d: usize| d as int) =~= seq![0int]);
        assert(r.decoder.codes@ =~= r.chiplets.ops@.map_values(|op: Operation| op_code_of(op)));
        r
    }

    /// Runs a program on its inputs: the machine after the last operation,
    /// or the first error.
    pub fn run(program: &Program, inputs: &ProgramInputs) -> (r: Result<Processor, ProcessorError>)
        requires
            inputs.wf(),
            program.code.len() < usize::MAX - 4,
        ensures
            match run_spec(
                program.code@,
                inputs.public@,
                cts_view(inputs.secret@),
                inputs.server_key.parameters,
            ) {
                Ok(st) => {
                    &&& r.is_ok()
                    &&& r->Ok_0.wf()
                    &&& r->Ok_0.state() == st
                    &&& r->Ok_0.chiplets.ops@ == program.code@
                    &&& r->Ok_0.stack.clk == program.code.len()
                },
                Err(e) => r == Err::<Processor, ProcessorError>(e),
            },
    {
        let mut p = Processor::new(inputs);
        let ghost code = program.code@;
        let ghost params = inputs.server_key.parameters;
        let mut i: usize = 0;
        assert(code.subrange(0, 0) =~= Seq::<Operation>::empty());
        while i < program.code.len()
            invariant
                code == program.code@,
                program.code.len() < usize::MAX - 4,
                params == inputs.server_key.parameters,
                0 <= i <= program.code.len(),
                p.wf(),
                p.stack.clk == i,
                p.stack.server_key.parameters == params,
                p.chiplets.ops@ == code.subrange(0, i as int),
                run_spec(code.subrange(0, i as int), inputs.public@, cts_view(inputs.secret@), params)
                    == Ok::<RunState, ProcessorError>(p.state()),
            decreases program.code.len() - i,
        {
            let op = program.code[i];
            proof {
                assert(code.subrange(0, i + 1).drop_last() =~= code.subrange(0, i as int));
                assert(code.subrange(0, i + 1).last() == op);
                assert(p.state().rows.last() == p.stack.last_row());
                assert(p.state().depths.last() == p.stack.depth as int);
            }
            let ghost st0 = p.state();
            p.system.advance_step();
            if let Err(e) = p.stack.execute_op(&op) {
                proof {
                    lemma_run_spec_err(code, i as int + 1, inputs.public@, cts_view(inputs.secret@), params);
                }
                return Err(ProcessorError::Stack(e));
            }
            p.decoder.decode_op(&op);
            if let Err(e) = p.chiplets.hash_op(&op) {
                proof {
                    lemma_run_spec_err(code, i as int + 1, inputs.public@, cts_view(inputs.secret@), params);
                }
                return Err(ProcessorError::Chiplets(e));
            }
            proof {
                assert(p.stack.depths@.map_values(|d: usize| d as int) =~= st0.depths.push(
                    p.stack.depth as int,
                ));
                assert(p.decoder.codes@ =~= p.chiplets.ops@.map_values(|op: Operation| op_code_of(op)));
                assert(p.chiplets.ops@ =~= code.subrange(0, i + 1));
            }
            i += 1;
        }
        proof {
            assert(code.subrange(0, code.len() as int) =~= code);
        }
        Ok(p)
    }

    /// The slots of the last row.
    pub fn output(&self) -> (r: Vec<Felt>)
        requires
            self.wf(),
        ensures
            r@ == self.stack.rows@[self.stack.clk as int]@,
    {
        self.stack.current_stack_state()
    }

    /// Rows of the trace: the next power of two above the rows of the run,
    /// and at least the shortest length.
    pub fn trace_length(&self) -> (r: usize)
        requires
            self.wf(),
            self.stack.clk <= usize::MAX / 4,
        ensures
            is_pow2(r as int),
            r >= self.stack.clk + 2,
            r >= MIN_TRACE_LENGTH,
    {
        let rows = self.stack.clk + 2;
        let n = if rows < MIN_TRACE_LENGTH {
            MIN_TRACE_LENGTH
        } else {
            rows
        };
        next_power_of_two(n)
    }

    /// The trace with `last` on its final row.
    pub fn assemble_trace(self, last: &Vec<Felt>) -> (r: Result<Vec<Vec<Felt>>, ProcessorError>)
        requires
            self.wf(),
            self.stack.clk <= usize::MAX / 4,
            last.len() == TRACE_WIDTH,
            all_wf(last@),
        ensures
            self.stack.clk % 16 != 0 ==> r == Err::<Vec<Vec<Felt>>, ProcessorError>(
                ProcessorError::Chiplets(
                    ChipletsError::invalid_trace_length_spec(16, self.stack.clk, self.stack.clk),
                ),
            ),
            self.stack.clk % 16 == 0 ==> r.is_ok() && exists|len: int|
                is_pow2(len) && len >= self.stack.clk + 2 && trace_columns(
                    r->Ok_0@,
                    self.chiplets.ops@,
                    self.state(),
                    len,
                    last@,
                ),
    {
        let len = self.trace_length();
        let ghost code = self.chiplets.ops@;
        let ghost st = self.state();
        let ghost n = self.stack.clk;
        let ghost codes = self.decoder.codes@;
        let ghost depths = self.stack.depths@;
        let mut trace: Vec<Vec<Felt>> = Vec::new();
        let sys = self.system.into_trace(len);
        let dec = self.decoder.into_trace(len);
        let chip = match self.chiplets.into_trace(len) {
            Ok(cols) => cols,
            Err(e) => return Err(ProcessorError::Chiplets(e)),
        };
        let stk = self.stack.into_trace(len);
        append_columns(&mut trace, sys);
        append_columns(&mut trace, dec);
        append_columns(&mut trace, chip);
        append_columns(&mut trace, stk);
        let ghost before = trace@;
        let mut c: usize = 0;
        while c < TRACE_WIDTH
            invariant
                trace.len() == TRACE_WIDTH,
                before.len() == TRACE_WIDTH,
                last.len() == TRACE_WIDTH,
                all_wf(last@),
                len >= 2,
                0 <= c <= TRACE_WIDTH,
                forall|cc: int| 0 <= cc < TRACE_WIDTH ==> (#[trigger] before[cc]).len() == len && all_wf(before[cc]@),
                forall|cc: int| 0 <= cc < TRACE_WIDTH ==> (#[trigger] trace@[cc]).len() == len && all_wf(trace@[cc]@),
                forall|cc: int, t: int| 0 <= cc < TRACE_WIDTH && 0 <= t < len - 1 ==> (#[trigger] trace@[cc]@[t]) == before[cc]@[t],
                forall|cc: int| 0 <= cc < c ==> (#[trigger] trace@[cc]@[len - 1]) == last@[cc],
                forall|cc: int| c <= cc < TRACE_WIDTH ==> (#[trigger] trace@[cc]) == before[cc],
            decreases TRACE_WIDTH - c,
        {
            let mut col = trace.remove(c);
            col.set(len - 1, last[c]);
            trace.insert(c, col);
            c += 1;
        }
        proof {
            let nn = n as int;
            assert(before =~= sys@ + dec@ + chip@ + stk@);
            assert forall|i: int| 0 <= i < len - 1 implies (#[trigger] trace@[0]@[i])@ == i by {
                assert(before[0] == sys@[0]);
            }
            assert forall|j: int, i: int| 0 <= j < 5 && 0 <= i < len - 1 implies (#[trigger] trace@[1 + j]@[i])@
                == bit(if i < nn { op_code_of(code[i]) as int } else { 0 }, j as nat) by {
                assert(before[1 + j] == dec@[j]);
                if i < nn {
                    assert(codes[i] == op_code_of(code[i]));
                }
            }
            assert forall|i: int| 0 <= i < len - 1 implies (#[trigger] trace@[6]@[i])@ == if i < nn { 1int } else { 0 } by {
                assert(before[6] == chip@[0]);
            }
            assert forall|c: int, i: int| 0 <= c < 4 && 0 <= i < len - 1 implies (#[trigger] trace@[7 + c]@[i])@
                == sponge_absorb(code.subrange(0, if i < nn { i } else { nn }))[c] by {
                assert(before[7 + c] == chip@[c + 1]);
            }
            assert forall|i: int| 0 <= i < len - 1 implies (#[trigger] trace@[11]@[i])@ == st.depths[if i < nn { i } else { nn }] by {
                assert(before[11] == stk@[0]);
            }
            assert forall|c: int, i: int| 0 <= c < 16 && 0 <= i < len - 1 implies (#[trigger] trace@[12 + c]@[i])@
                == st.rows[if i < nn { i } else { nn }][c] by {
                assert(before[12 + c] == stk@[c + 1]);
            }
            assert(trace_columns(trace@, code, st, len as int, last@));
        }
        Ok(trace)
    }

    /// The trace of the run: every column padded to the trace length, the
    /// final row overwritten with random non-zero elements.
    pub fn trace(self) -> (r: Result<Vec<Vec<Felt>>, ProcessorError>)
        requires
            self.wf(),
            self.stack.clk <= usize::MAX / 4,
        ensures
            self.stack.clk % 16 != 0 ==> r.is_err(),
            self.stack.clk % 16 == 0 ==> r.is_ok() && exists|len: int, last: Seq<Felt>|
                is_pow2(len) && len >= self.stack.clk + 2 && trace_columns(
                    r->Ok_0@,
                    self.chiplets.ops@,
                    self.state(),
                    len,
                    last,
                ) && forall|c: int| 0 <= c < TRACE_WIDTH ==> (#[trigger] last[c])@ != 0,
    {
        let mut last: Vec<Felt> = Vec::new();
        let mut c: usize = 0;
        while c < TRACE_WIDTH
            invariant
                0 <= c <= TRACE_WIDTH,
                last.len() == c,
                all_wf(last@),
                forall|t: int| 0 <= t < c ==> (#[trigger] last@[t])@ != 0,
            decreases TRACE_WIDTH - c,
        {
            last.push(Felt { value: random_in(1, MODULUS) });
            c += 1;
        }
        self.assemble_trace(&last)
    }
}

/// Moves the columns of `cols` to the end of `trace`.
fn append_columns(trace: &mut Vec<Vec<Felt>>, cols: Vec<Vec<Felt>>)
    ensures
        final(trace)@ == old(trace)@ + cols@,
{
    let mut cols = cols;
    trace.append(&mut cols);
}

/// An error on a prefix of the code is the error of the whole run.
proof fn lemma_run_spec_err(
    code: Seq<Operation>,
    j: int,
    tape_a: Seq<u8>,
    tape_b: Seq<Seq<int>>,
    params: LweParameters,
)
    requires
        0 <= j <= code.len(),
        run_spec(code.subrange(0, j), tape_a, tape_b, params).is_err(),
    ensures
        run_spec(code, tape_a, tape_b, params) == run_spec(code.subrange(0, j), tape_a, tape_b, params),
    decreases code.len() - j,
{
    if j < code.len() {
        assert(code.subrange(0, j + 1).drop_last() =~= code.subrange(0, j));
        lemma_run_spec_err(code, j + 1, tape_a, tape_b, params);
    } else {
        assert(code.subrange(0, j) =~= code);
    }
}

} // verus!
