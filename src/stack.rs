use crate::errors::{StackError, StackErrorKind};
use crate::fhe::{add_ct, scalar_add_ct, scalar_mul_ct, FheElement, FheUInt8, LweParameters, ServerKey};
use crate::field::{fe_add, fe_mul, Felt};
use crate::opcodes::{op_imm_of, OpCode, Operation};
use crate::rescue::{all_wf, felts};
use vstd::prelude::*;

verus! {

/// Slots of the stack; each is a column of the trace.
pub const MAX_STACK_DEPTH: usize = 16;

/// The tapes and the key that a run reads: public bytes, secret ciphertexts,
/// both consumed from the front.
#[derive(Clone, Debug)]
pub struct ProgramInputs {
    pub public: Vec<u8>,
    pub secret: Vec<FheUInt8>,
    pub server_key: ServerKey,
}

/// Ciphertexts as the integer vectors they hold.
pub open spec fn cts_view(v: Seq<FheUInt8>) -> Seq<Seq<int>> {
    v.map_values(|c: FheUInt8| felts(c.ciphertext@))
}

pub open spec fn cts_wf(v: Seq<FheUInt8>) -> bool {
    forall|i: int| 0 <= i < v.len() ==> all_wf(#[trigger] v[i].ciphertext@)
}

impl ProgramInputs {
    pub open spec fn wf(&self) -> bool {
        &&& self.server_key.wf()
        &&& cts_wf(self.secret@)
    }

    pub fn new(public: &[u8], secret: &[FheUInt8], server_key: &ServerKey) -> (r: ProgramInputs)
        ensures
            r.public@ == public@,
            cts_view(r.secret@) == cts_view(secret@),
            cts_wf(secret@) ==> cts_wf(r.secret@),
            r.server_key.key@ == server_key.key@,
            r.server_key.parameters == server_key.parameters,
    {
        let mut p: Vec<u8> = Vec::new();
        let mut i: usize = 0;
        while i < public.len()
            invariant
                0 <= i <= public.len(),
                p@ == public@.subrange(0, i as int),
            decreases public.len() - i,
        {
            p.push(public[i]);
            i += 1;
        }
        let mut s: Vec<FheUInt8> = Vec::new();
        let mut j: usize = 0;
        while j < secret.len()
            invariant
                0 <= j <= secret.len(),
                s.len() == j,
                forall|t: int| 0 <= t < j ==> (#[trigger] s@[t]).ciphertext@ == secret@[t].ciphertext@,
            decreases secret.len() - j,
        {
            s.push(FheElement::new(&secret[j].ciphertext));
            j += 1;
        }
        assert(p@ =~= public@);
        assert(cts_view(s@) =~= cts_view(secret@));
        assert(cts_wf(secret@) ==> cts_wf(s@)) by {
            if cts_wf(secret@) {
                assert forall|t: int| 0 <= t < s.len() implies all_wf(#[trigger] s@[t].ciphertext@) by {
                    assert(all_wf(secret@[t].ciphertext@));
                }
            }
        }
        let key = ServerKey { key: server_key.key.clone(), parameters: server_key.parameters };
        ProgramInputs { public: p, secret: s, server_key: key }
    }

    pub fn public(&self) -> (r: &Vec<u8>)
        ensures
            r == &self.public,
    {
        &self.public
    }

    pub fn secret(&self) -> (r: &Vec<FheUInt8>)
        ensures
            r == &self.secret,
    {
        &self.secret
    }

    pub fn server_key(&self) -> (r: &ServerKey)
        ensures
            r == &self.server_key,
    {
        &self.server_key
    }
}

/// The next row of the stack: `written` on top, then the old slots from
/// `consumed` on, then zeros from the new depth on.
pub open spec fn shift_row(old: Seq<int>, written: Seq<int>, consumed: int, depth: int) -> Seq<int> {
    Seq::new(
        16,
        |i: int|
            if i < written.len() {
                written[i]
            } else if i < depth {
                old[i - written.len() + consumed]
            } else {
                0
            },
    )
}

/// What one operation does to the stack: the next row and depth, or why it
/// fails. `tape_a` and `tape_b` are the inputs still to read, next first.
pub open spec fn stack_next(
    row: Seq<int>,
    depth: int,
    op: Operation,
    tape_a: Seq<u8>,
    tape_b: Seq<Seq<int>>,
    params: LweParameters,
) -> Result<(Seq<int>, int), StackErrorKind> {
    let n = params.k + 1;
    match op.op_code {
        OpCode::Noop => Ok((shift_row(row, seq![], 0, depth), depth)),
        OpCode::Push => if depth + 1 > 16 {
            Err(StackErrorKind::StackOverflow)
        } else {
            Ok((shift_row(row, seq![op_imm_of(op) as int], 0, depth + 1), depth + 1))
        },
        OpCode::Read => if depth + 1 > 16 {
            Err(StackErrorKind::StackOverflow)
        } else if tape_a.len() == 0 {
            Err(StackErrorKind::EmptyInput)
        } else {
            Ok((shift_row(row, seq![tape_a[0] as int], 0, depth + 1), depth + 1))
        },
        OpCode::Read2 => if tape_b.len() == 0 {
            Err(StackErrorKind::EmptyInput)
        } else if depth + tape_b[0].len() > 16 {
            Err(StackErrorKind::StackOverflow)
        } else {
            Ok((shift_row(row, tape_b[0], 0, depth + tape_b[0].len()), depth + tape_b[0].len()))
        },
        OpCode::Add => if depth < 2 {
            Err(StackErrorKind::StackUnderflow)
        } else {
            Ok((shift_row(row, seq![fe_add(row[0], row[1])], 2, depth - 1), depth - 1))
        },
        OpCode::Mul => if depth < 2 {
            Err(StackErrorKind::StackUnderflow)
        } else {
            Ok((shift_row(row, seq![fe_mul(row[0], row[1])], 2, depth - 1), depth - 1))
        },
        OpCode::SAdd => if depth < n + 1 {
            Err(StackErrorKind::StackUnderflow)
        } else {
            Ok((
                shift_row(row, scalar_add_ct(params, row[0], row.subrange(1, n + 1)), n + 1, depth - 1),
                depth - 1,
            ))
        },
        OpCode::SMul => if depth < n + 1 {
            Err(StackErrorKind::StackUnderflow)
        } else {
            Ok((
                shift_row(row, scalar_mul_ct(params, row[0], row.subrange(1, n + 1)), n + 1, depth - 1),
                depth - 1,
            ))
        },
        OpCode::Add2 => if depth < 2 * n {
            Err(StackErrorKind::StackUnderflow)
        } else {
            Ok((
                shift_row(row, add_ct(n as nat, row.subrange(0, n), row.subrange(n, 2 * n)), 2 * n, depth - n),
                depth - n,
            ))
        },
    }
}

/// The public tape after an operation.
pub open spec fn tape_a_after(op: Operation, tape_a: Seq<u8>) -> Seq<u8> {
    if op.op_code == OpCode::Read {
        tape_a.drop_first()
    } else {
        tape_a
    }
}

/// The secret tape after an operation.
pub open spec fn tape_b_after<T>(op: Operation, tape_b: Seq<T>) -> Seq<T> {
    if op.op_code == OpCode::Read2 {
        tape_b.drop_first()
    } else {
        tape_b
    }
}

/// Every slot at or above the depth holds zero.
pub open spec fn zero_above(row: Seq<int>, depth: int) -> bool {
    forall|j: int| depth <= j < 16 ==> #[trigger] row[j] == 0
}

/// The stack chiplet: one row of 16 slots and a depth per clock cycle.
pub struct Stack {
    pub clk: usize,
    pub rows: Vec<Vec<Felt>>,
    pub depths: Vec<usize>,
    /// Public inputs still to read, the next one last.
    pub tape_a: Vec<u8>,
    /// Secret inputs still to read, the next one last.
    pub tape_b: Vec<FheUInt8>,
    pub depth: usize,
    pub server_key: ServerKey,
}

impl Stack {
    pub open spec fn wf(&self) -> bool {
        &&& self.rows.len() == self.clk + 1
        &&& self.depths.len() == self.clk + 1
        &&& self.depth == self.depths@[self.clk as int]
        &&& self.clk < usize::MAX - 1
        &&& forall|r: int|
            0 <= r < self.rows.len() ==> (#[trigger] self.rows@[r]).len() == 16 && all_wf(
                self.rows@[r]@,
            )
        &&& forall|r: int|
            0 <= r < self.depths.len() ==> #[trigger] self.depths@[r] <= 16 && zero_above(
                felts(self.rows@[r]@),
                self.depths@[r] as int,
            )
        &&& self.server_key.wf()
        &&& cts_wf(self.tape_b@)
    }

    /// The rows so far, as integers.
    pub open spec fn rows_view(&self) -> Seq<Seq<int>> {
        self.rows@.map_values(|r: Vec<Felt>| felts(r@))
    }

    /// The public tape, next input first.
    pub open spec fn tape_a_view(&self) -> Seq<u8> {
        self.tape_a@.reverse()
    }

    /// The secret tape, next input first.
    pub open spec fn tape_b_view(&self) -> Seq<Seq<int>> {
        cts_view(self.tape_b@.reverse())
    }

    pub open spec fn last_row(&self) -> Seq<int> {
        felts(self.rows@[self.clk as int]@)
    }

    /// An empty stack at clock 0 that will read the given inputs.
    pub fn new(inputs: &ProgramInputs, init_trace_length: usize) -> (r: Stack)
        requires
            inputs.wf(),
        ensures
            r.wf(),
            r.clk == 0,
            r.depth == 0,
            r.rows_view() == seq![Seq::new(16, |j: int| 0int)],
            r.tape_a_view() == inputs.public@,
            r.tape_b_view() == cts_view(inputs.secret@),
            r.server_key.parameters == inputs.server_key.parameters,
            r.server_key.key@ == inputs.server_key.key@,
    {
        let mut row: Vec<Felt> = Vec::new();
        let mut i: usize = 0;
        while i < MAX_STACK_DEPTH
            invariant
                0 <= i <= MAX_STACK_DEPTH,
                row.len() == i,
                forall|j: int| 0 <= j < i ==> #[trigger] row@[j].value == 0,
            decreases MAX_STACK_DEPTH - i,
        {
            row.push(Felt::zero());
            i += 1;
        }
        let mut tape_a: Vec<u8> = Vec::new();
        let mut k: usize = inputs.public.len();
        while k > 0
            invariant
                k <= inputs.public.len(),
                tape_a@ == inputs.public@.subrange(k as int, inputs.public.len() as int).reverse(),
            decreases k,
        {
            k -= 1;
            tape_a.push(inputs.public[k]);
            assert(tape_a@ =~= inputs.public@.subrange(k as int, inputs.public.len() as int).reverse());
        }
        assert(inputs.public@.subrange(0, inputs.public.len() as int) =~= inputs.public@);
        let mut tape_b: Vec<FheUInt8> = Vec::new();
        let mut m: usize = inputs.secret.len();
        while m > 0
            invariant
                m <= inputs.secret.len(),
                cts_wf(inputs.secret@),
                cts_wf(tape_b@),
                cts_view(tape_b@) == cts_view(
                    inputs.secret@.subrange(m as int, inputs.secret.len() as int).reverse(),
                ),
            decreases m,
        {
            m -= 1;
            let ghost before = tape_b@;
            let ghost x = inputs.secret@[m as int];
            let ghost old_sub = inputs.secret@.subrange(m + 1, inputs.secret.len() as int).reverse();
            tape_b.push(FheElement::new(&inputs.secret[m].ciphertext));
            proof {
                assert(inputs.secret@.subrange(m as int, inputs.secret.len() as int).reverse() =~= old_sub.push(x));
                assert(cts_view(tape_b@) =~= cts_view(before).push(felts(x.ciphertext@)));
                assert(cts_view(old_sub.push(x)) =~= cts_view(old_sub).push(felts(x.ciphertext@)));
                assert(all_wf(x.ciphertext@));
                assert forall|t: int| 0 <= t < tape_b.len() implies all_wf(#[trigger] tape_b@[t].ciphertext@) by {
                    if t < before.len() {
                        assert(tape_b@[t] == before[t]);
                    }
                }
            }
        }
        assert(inputs.secret@.subrange(0, inputs.secret.len() as int) =~= inputs.secret@);
        let server_key = ServerKey { key: inputs.server_key.key.clone(), parameters: inputs.server_key.parameters };
        let s = Stack {
            clk: 0,
            rows: vec![row],
            depths: vec![0],
            tape_a,
            tape_b,
            depth: 0,
            server_key,
        };
        assert(tape_b@.reverse().reverse() =~= tape_b@);
        assert(s.tape_a_view() =~= inputs.public@);
        assert(s.tape_b_view() =~= cts_view(inputs.secret@)) by {
            assert(cts_view(tape_b@.reverse()) =~= cts_view(tape_b@).reverse());
            assert(cts_view(inputs.secret@).reverse() =~= cts_view(inputs.secret@.reverse()));
        }
        assert(s.rows_view() =~= seq![Seq::new(16, |j: int| 0int)]) by {
            assert(felts(row@) =~= Seq::new(16, |j: int| 0int));
        }
        s
    }

    /// Runs one operation: the next row and depth, or the error, at the
    /// clock of the operation.
    #[verifier::rlimit(100)]
    #[verifier::spinoff_prover]
    pub fn execute_op(&mut self, op: &Operation) -> (r: Result<(), StackError>)
        requires
            old(self).wf(),
            old(self).clk < usize::MAX - 2,
        ensures
            match stack_next(
                old(self).last_row(),
                old(self).depth as int,
                *op,
                old(self).tape_a_view(),
                old(self).tape_b_view(),
                old(self).server_key.parameters,
            ) {
                Ok((row, d)) => {
                    &&& r.is_ok()
                    &&& final(self).wf()
                    &&& final(self).clk == old(self).clk + 1
                    &&& final(self).rows_view() == old(self).rows_view().push(row)
                    &&& final(self).depths@ == old(self).depths@.push(d as usize)
                    &&& final(self).depth == d
                    &&& final(self).tape_a_view() == tape_a_after(*op, old(self).tape_a_view())
                    &&& final(self).tape_b_view() == tape_b_after(*op, old(self).tape_b_view())
                    &&& final(self).server_key == old(self).server_key
                },
                Err(kind) => r == Err::<(), StackError>(
                    StackError { kind, op: *op, step: (old(self).clk + 1) as usize },
                ),
            },
    {
        let n = self.server_key.lwe_size();
        let d = self.depth;
        let step = self.clk + 1;
        let ghost row_v = self.last_row();
        let ghost params = self.server_key.parameters;
        let ghost ta0 = self.tape_a_view();
        let ghost tb0 = self.tape_b_view();
        let ghost written_v: Seq<int>;
        assert(self.rows@[self.clk as int].len() == 16 && all_wf(self.rows@[self.clk as int]@));
        assert(d <= 16 && zero_above(row_v, d as int));
        let written: Vec<Felt>;
        let consumed: usize;
        let new_depth: usize;
        match op.op_code {
            OpCode::Noop => {
                written = Vec::new();
                consumed = 0;
                new_depth = d;
                proof {
                    written_v = seq![];
                    assert(felts(written@) =~= written_v);
                }
            },
            OpCode::Push => {
                if d + 1 > MAX_STACK_DEPTH {
                    return Err(StackError::stack_overflow(op, step));
                }
                written = vec![Felt::from_u8(op.value())];
                consumed = 0;
                new_depth = d + 1;
                proof {
                    written_v = seq![op_imm_of(*op) as int];
                    assert(felts(written@) =~= written_v);
                }
            },
            OpCode::Read => {
                if d + 1 > MAX_STACK_DEPTH {
                    return Err(StackError::stack_overflow(op, step));
                }
                let ghost before = self.tape_a@;
                let value = match self.tape_a.pop() {
                    Some(value) => value,
                    None => return Err(StackError::empty_inputs(op, step)),
                };
                proof {
                    assert(self.tape_a@.reverse() =~= before.reverse().drop_first());
                }
                written = vec![Felt::from_u8(value)];
                consumed = 0;
                new_depth = d + 1;
                proof {
                    assert(ta0[0] == value);
                    written_v = seq![ta0[0] as int];
                    assert(felts(written@) =~= written_v);
                }
            },
            OpCode::Read2 => {
                let ghost before = self.tape_b@;
                let ct = match self.tape_b.pop() {
                    Some(value) => value,
                    None => return Err(StackError::empty_inputs(op, step)),
                };
                proof {
                    assert(self.tape_b@.reverse() =~= before.reverse().drop_first());
                    assert(cts_view(self.tape_b@.reverse()) =~= cts_view(before.reverse()).drop_first());
                    assert(before.reverse()[0] == ct);
                    assert(all_wf(before[before.len() - 1].ciphertext@));
                }
                if ct.ciphertext.len() > MAX_STACK_DEPTH || d + ct.ciphertext.len() > MAX_STACK_DEPTH {
                    return Err(StackError::stack_overflow(op, step));
                }
                written = ct.ciphertext;
                consumed = 0;
                new_depth = d + written.len();
                proof {
                    written_v = tb0[0];
                    assert(felts(written@) == written_v);
                }
            },
            OpCode::Add | OpCode::Mul => {
                if d < 2 {
                    return Err(StackError::stack_underflow(op, step));
                }
                let row = &self.rows[self.clk];
                assert(row@[0].wf() && row@[1].wf());
                let v = if let OpCode::Add = op.op_code {
                    row[0].add(row[1])
                } else {
                    row[0].mul(row[1])
                };
                written = vec![v];
                consumed = 2;
                new_depth = d - 1;
                proof {
                    written_v = felts(written@);
                    assert(felts(written@) =~= seq![v@]);
                }
            },
            OpCode::SAdd | OpCode::SMul => {
                if n > MAX_STACK_DEPTH || d < n + 1 {
                    return Err(StackError::stack_underflow(op, step));
                }
                let row = &self.rows[self.clk];
                let ct = FheElement { ciphertext: slots(row, 1, n + 1) };
                assert(felts(ct.ciphertext@) =~= row_v.subrange(1, n + 1));
                assert(row@[0].wf());
                let result = if let OpCode::SAdd = op.op_code {
                    self.server_key.scalar_add(&row[0], &ct)
                } else {
                    self.server_key.scalar_mul(&row[0], &ct)
                };
                written = result.ciphertext;
                consumed = n + 1;
                new_depth = d - 1;
                proof {
                    written_v = felts(written@);
                }
            },
            OpCode::Add2 => {
                if n > MAX_STACK_DEPTH || d < 2 * n {
                    return Err(StackError::stack_underflow(op, step));
                }
                let row = &self.rows[self.clk];
                let ct0 = FheElement { ciphertext: slots(row, 0, n) };
                let ct1 = FheElement { ciphertext: slots(row, n, 2 * n) };
                assert(felts(ct0.ciphertext@) =~= row_v.subrange(0, n as int));
                assert(felts(ct1.ciphertext@) =~= row_v.subrange(n as int, 2 * n));
                let result = self.server_key.add(&ct0, &ct1);
                written = result.ciphertext;
                consumed = 2 * n;
                new_depth = d - n;
                proof {
                    written_v = felts(written@);
                }
            },
        }
        let new_row = shifted(&self.rows[self.clk], &written, consumed, new_depth);
        let ghost rows0 = self.rows@;
        let ghost depths0 = self.depths@;
        self.rows.push(new_row);
        self.depths.push(new_depth);
        self.depth = new_depth;
        self.clk = step;
        proof {
            assert(stack_next(row_v, d as int, *op, ta0, tb0, params) == Ok::<(Seq<int>, int), StackErrorKind>(
                (felts(new_row@), new_depth as int),
            ));
            assert(self.rows_view() =~= rows0.map_values(|r: Vec<Felt>| felts(r@)).push(felts(new_row@)));
            assert forall|r: int| 0 <= r < self.depths.len() implies #[trigger] self.depths@[r] <= 16
                && zero_above(felts(self.rows@[r]@), self.depths@[r] as int) by {
                if r < depths0.len() {
                    assert(self.depths@[r] == depths0[r]);
                    assert(self.rows@[r] == rows0[r]);
                }
            }
            assert forall|r: int| 0 <= r < self.rows.len() implies (#[trigger] self.rows@[r]).len() == 16
                && all_wf(self.rows@[r]@) by {
                if r < rows0.len() {
                    assert(self.rows@[r] == rows0[r]);
                }
            }
        }
        Ok(())
    }

    /// The slots of the current row.
    pub fn current_stack_state(&self) -> (r: Vec<Felt>)
        requires
            self.wf(),
        ensures
            r@ == self.rows@[self.clk as int]@,
    {
        slots(&self.rows[self.clk], 0, MAX_STACK_DEPTH)
    }

    /// The depth column then the 16 slot columns, each extended to
    /// `trace_length` rows with its last value.
    pub fn into_trace(self, trace_length: usize) -> (r: Vec<Vec<Felt>>)
        requires
            self.wf(),
            self.clk < trace_length,
        ensures
            r.len() == 17,
            forall|c: int| 0 <= c < 17 ==> (#[trigger] r@[c]).len() == trace_length && all_wf(r@[c]@),
            forall|i: int|
                0 <= i < trace_length ==> (#[trigger] r@[0]@[i])@ == self.depths@[if i < self.clk {
                    i
                } else {
                    self.clk as int
                }] as int,
            forall|c: int, i: int|
                0 <= c < 16 && 0 <= i < trace_length ==> (#[trigger] r@[c + 1]@[i])@ == self.rows_view()[if i
                    < self.clk {
                    i
                } else {
                    self.clk as int
                }][c],
    {
        let mut trace: Vec<Vec<Felt>> = Vec::new();
        let mut depth_col: Vec<Felt> = Vec::new();
        let mut i: usize = 0;
        while i < trace_length
            invariant
                self.wf(),
                self.clk < trace_length,
                0 <= i <= trace_length,
                depth_col.len() == i,
                all_wf(depth_col@),
                forall|t: int|
                    0 <= t < i ==> (#[trigger] depth_col@[t])@ == self.depths@[if t < self.clk {
                        t
                    } else {
                        self.clk as int
                    }] as int,
            decreases trace_length - i,
        {
            let at = if i < self.clk {
                i
            } else {
                self.clk
            };
            depth_col.push(Felt::from_usize(self.depths[at]));
            i += 1;
        }
        trace.push(depth_col);
        let mut c: usize = 0;
        while c < MAX_STACK_DEPTH
            invariant
                self.wf(),
                self.clk < trace_length,
                0 <= c <= MAX_STACK_DEPTH,
                trace.len() == c + 1,
                forall|cc: int| 0 <= cc <= c ==> (#[trigger] trace@[cc]).len() == trace_length && all_wf(trace@[cc]@),
                forall|t: int|
                    0 <= t < trace_length ==> (#[trigger] trace@[0]@[t])@ == self.depths@[if t < self.clk {
                        t
                    } else {
                        self.clk as int
                    }] as int,
                forall|cc: int, t: int|
                    0 <= cc < c && 0 <= t < trace_length ==> (#[trigger] trace@[cc + 1]@[t])@
                        == self.rows_view()[if t < self.clk {
                        t
                    } else {
                        self.clk as int
                    }][cc],
            decreases MAX_STACK_DEPTH - c,
        {
            let mut col: Vec<Felt> = Vec::new();
            let mut i: usize = 0;
            while i < trace_length
                invariant
                    self.wf(),
                    self.clk < trace_length,
                    c < 16,
                    0 <= i <= trace_length,
                    col.len() == i,
                    all_wf(col@),
                    forall|t: int|
                        0 <= t < i ==> (#[trigger] col@[t])@ == self.rows_view()[if t < self.clk {
                            t
                        } else {
                            self.clk as int
                        }][c as int],
                decreases trace_length - i,
            {
                let at = if i < self.clk {
                    i
                } else {
                    self.clk
                };
                assert(self.rows@[at as int].len() == 16 && all_wf(self.rows@[at as int]@));
                col.push(self.rows[at][c]);
                i += 1;
            }
            let ghost before = trace@;
            trace.push(col);
            proof {
                assert forall|cc: int, t: int|
                    0 <= cc < c + 1 && 0 <= t < trace_length implies (#[trigger] trace@[cc + 1]@[t])@
                        == self.rows_view()[if t < self.clk {
                        t
                    } else {
                        self.clk as int
                    }][cc] by {
                    if cc < c {
                        assert(trace@[cc + 1] == before[cc + 1]);
                    }
                }
                assert(trace@[0] == before[0]);
            }
            c += 1;
        }
        trace
    }
}

/// Slots `from..to` of a row.
fn slots(row: &Vec<Felt>, from: usize, to: usize) -> (r: Vec<Felt>)
    requires
        from <= to <= row.len(),
        all_wf(row@),
    ensures
        r@ == row@.subrange(from as int, to as int),
        all_wf(r@),
{
    let mut r: Vec<Felt> = Vec::new();
    let mut i: usize = from;
    while i < to
        invariant
            from <= i <= to <= row.len(),
            all_wf(row@),
            r@ == row@.subrange(from as int, i as int),
        decreases to - i,
    {
        r.push(row[i]);
        i += 1;
        assert(r@ =~= row@.subrange(from as int, i as int));
    }
    r
}

/// Builds the next row: `written` on top, then the old slots from `consumed`
/// on, then zeros from `depth` on.
fn shifted(old: &Vec<Felt>, written: &Vec<Felt>, consumed: usize, depth: usize) -> (r: Vec<Felt>)
    requires
        old.len() == 16,
        all_wf(old@),
        all_wf(written@),
        written.len() <= depth <= 16,
        depth + consumed <= 16 + written.len(),
    ensures
        r.len() == 16,
        all_wf(r@),
        felts(r@) == shift_row(felts(old@), felts(written@), consumed as int, depth as int),
{
    let w = written.len();
    let mut r: Vec<Felt> = Vec::new();
    let mut i: usize = 0;
    while i < MAX_STACK_DEPTH
        invariant
            old.len() == 16,
            all_wf(old@),
            all_wf(written@),
            w == written.len(),
            w <= depth <= 16,
            depth + consumed <= 16 + w,
            0 <= i <= 16,
            r.len() == i,
            all_wf(r@),
            forall|t: int|
                0 <= t < i ==> (#[trigger] r@[t])@ == shift_row(
                    felts(old@),
                    felts(written@),
                    consumed as int,
                    depth as int,
                )[t],
        decreases 16 - i,
    {
        if i < w {
            r.push(written[i]);
        } else if i < depth {
            r.push(old[i + consumed - w]);
        } else {
            r.push(Felt::zero());
        }
        i += 1;
    }
    assert(felts(r@) =~= shift_row(felts(old@), felts(written@), consumed as int, depth as int));
    r
}

} // verus!
