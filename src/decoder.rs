use crate::field::Felt;
use crate::opcodes::{bit, op_code_of, Operation};
use crate::rescue::all_wf;
use vstd::prelude::*;

verus! {

/// Columns of the decoder, one per bit of the opcode.
pub const NUM_OP_BITS: usize = 5;

/// The decoder chiplet: the encoding of the operation run on each row.
pub struct Decoder {
    pub clk: usize,
    pub codes: Vec<u8>,
}

/// The five bits of `c`, least significant first.
pub open spec fn bits_row(c: int) -> Seq<int> {
    Seq::new(5, |j: int| bit(c, j as nat))
}

/// The bits of `code`, least significant first, as field elements.
fn code_bits(code: u8) -> (r: Vec<Felt>)
    ensures
        r.len() == NUM_OP_BITS,
        all_wf(r@),
        forall|j: int| 0 <= j < 5 ==> (#[trigger] r@[j])@ == bit(code as int, j as nat),
{
    let mut r: Vec<Felt> = Vec::new();
    let mut x: u8 = code;
    let mut j: usize = 0;
    while j < NUM_OP_BITS
        invariant
            0 <= j <= 5,
            r.len() == j,
            all_wf(r@),
            forall|t: int| 0 <= t < j ==> (#[trigger] r@[t])@ == bit(code as int, t as nat),
            forall|t: nat| #[trigger] bit(code as int, (j + t) as nat) == bit(x as int, t),
        decreases 5 - j,
    {
        r.push(Felt::from_u8(x % 2));
        proof {
            assert(bit(code as int, (j + 0) as nat) == bit(x as int, 0));
            assert forall|t: nat| #[trigger] bit(code as int, (j + 1 + t) as nat) == bit((x / 2) as int, t) by {
                assert(bit(code as int, (j + (t + 1)) as nat) == bit(x as int, (t + 1) as nat));
                assert(bit(x as int, (t + 1) as nat) == bit(x as int / 2, t));
            }
        }
        x = x / 2;
        j += 1;
    }
    r
}

impl Decoder {
    pub fn new(init_trace_length: usize) -> (r: Decoder)
        ensures
            r.clk == 0,
            r.codes@ == Seq::<u8>::empty(),
    {
        Decoder { clk: 0, codes: Vec::new() }
    }

    pub open spec fn wf(&self) -> bool {
        self.codes.len() == self.clk
    }

    /// Records the encoding of the operation run on the current row.
    pub fn decode_op(&mut self, op: &Operation)
        requires
            old(self).wf(),
            old(self).clk < usize::MAX,
        ensures
            final(self).wf(),
            final(self).clk == old(self).clk + 1,
            final(self).codes@ == old(self).codes@.push(op_code_of(*op)),
    {
        self.codes.push(op.code());
        self.clk = self.clk + 1;
    }

    /// The bits on row `clk`, least significant first; zero past the last
    /// operation.
    pub fn decoder_bits_state(&self, clk: usize) -> (r: Vec<Felt>)
        requires
            self.wf(),
        ensures
            r.len() == NUM_OP_BITS,
            felts_bits(r@) == bits_row(if clk < self.clk { self.codes@[clk as int] as int } else { 0 }),
    {
        let code = if clk < self.clk {
            self.codes[clk]
        } else {
            0
        };
        let r = code_bits(code);
        assert(felts_bits(r@) =~= bits_row(code as int));
        r
    }

    /// The five bit columns, least significant first, each `trace_length`
    /// rows long; rows past the last operation hold zeros.
    pub fn into_trace(self, trace_length: usize) -> (r: Vec<Vec<Felt>>)
        requires
            self.wf(),
        ensures
            r.len() == NUM_OP_BITS,
            forall|c: int| 0 <= c < 5 ==> (#[trigger] r@[c]).len() == trace_length && all_wf(r@[c]@),
            forall|c: int, i: int|
                0 <= c < 5 && 0 <= i < trace_length ==> (#[trigger] r@[c]@[i])@ == bit(
                    if i < self.clk {
                        self.codes@[i] as int
                    } else {
                        0
                    },
                    c as nat,
                ),
    {
        let mut rows: Vec<Vec<Felt>> = Vec::new();
        let mut i: usize = 0;
        while i < trace_length
            invariant
                self.wf(),
                0 <= i <= trace_length,
                rows.len() == i,
                forall|t: int|
                    0 <= t < i ==> (#[trigger] rows@[t]).len() == 5 && all_wf(rows@[t]@) && forall|
                        c: int,
                    |
                        0 <= c < 5 ==> (#[trigger] rows@[t]@[c])@ == bit(
                            if t < self.clk {
                                self.codes@[t] as int
                            } else {
                                0
                            },
                            c as nat,
                        ),
            decreases trace_length - i,
        {
            let code = if i < self.clk {
                self.codes[i]
            } else {
                0
            };
            rows.push(code_bits(code));
            i += 1;
        }
        let mut cols: Vec<Vec<Felt>> = Vec::new();
        let mut c: usize = 0;
        while c < NUM_OP_BITS
            invariant
                self.wf(),
                rows.len() == trace_length,
                forall|t: int|
                    0 <= t < trace_length ==> (#[trigger] rows@[t]).len() == 5 && all_wf(rows@[t]@)
                        && forall|cc: int|
                        0 <= cc < 5 ==> (#[trigger] rows@[t]@[cc])@ == bit(
                            if t < self.clk {
                                self.codes@[t] as int
                            } else {
                                0
                            },
                            cc as nat,
                        ),
                0 <= c <= 5,
                cols.len() == c,
                forall|cc: int| 0 <= cc < c ==> (#[trigger] cols@[cc]).len() == trace_length && all_wf(cols@[cc]@),
                forall|cc: int, t: int|
                    0 <= cc < c && 0 <= t < trace_length ==> (#[trigger] cols@[cc]@[t])@ == bit(
                        if t < self.clk {
                            self.codes@[t] as int
                        } else {
                            0
                        },
                        cc as nat,
                    ),
            decreases 5 - c,
        {
            let mut col: Vec<Felt> = Vec::new();
            let mut i: usize = 0;
            while i < trace_length
                invariant
                    rows.len() == trace_length,
                    c < 5,
                    forall|t: int|
                        0 <= t < trace_length ==> (#[trigger] rows@[t]).len() == 5 && all_wf(rows@[t]@),
                    0 <= i <= trace_length,
                    col.len() == i,
                    all_wf(col@),
                    forall|t: int| 0 <= t < i ==> #[trigger] col@[t] == rows@[t]@[c as int],
                decreases trace_length - i,
            {
                col.push(rows[i][c]);
                i += 1;
            }
            let ghost before = cols@;
            cols.push(col);
            proof {
                assert forall|cc: int, t: int|
                    0 <= cc < c + 1 && 0 <= t < trace_length implies (#[trigger] cols@[cc]@[t])@ == bit(
                        if t < self.clk {
                            self.codes@[t] as int
                        } else {
                            0
                        },
                        cc as nat,
                    ) by {
                    if cc < c {
                        assert(cols@[cc] == before[cc]);
                    } else {
                        assert(cols@[cc]@[t] == rows@[t]@[cc]);
                    }
                }
            }
            c += 1;
        }
        cols
    }
}

pub open spec fn felts_bits(v: Seq<Felt>) -> Seq<int> {
    v.map_values(|f: Felt| f@)
}

} // verus!
