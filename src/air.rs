use crate::fhe::{add_ct, scalar_add_ct, scalar_mul_ct, FheElement, LweParameters, ServerKey};
use crate::field::{fe_add, fe_mul, fe_sub, Felt};
use crate::processor::TRACE_WIDTH;
use crate::rescue::{
    all_wf, apply_inv_mds, apply_mds, apply_sbox, felts, get_round_constants, inv_mds_matrix,
    mat_apply, mds_matrix, sbox, CYCLE_LENGTH, STATE_WIDTH,
};
use vstd::prelude::*;

verus! {

/// Boundary assertions of the AIR.
pub const NUM_ASSERTIONS: usize = 22;

/// Transition constraints of the AIR.
pub const NUM_CONSTRAINTS: usize = 20;

/// Degrees of the transition constraints, in the order of evaluation.
pub const CONSTRAINT_DEGREES: [usize; 20] = [1, 5, 2, 6, 6, 6, 7, 7, 6, 6, 6, 6, 4, 7, 4, 4, 2, 2, 2, 2];

/// Two consecutive rows of the trace.
pub struct Frame {
    pub current: Vec<Felt>,
    pub next: Vec<Felt>,
}

impl Frame {
    pub open spec fn wf(&self) -> bool {
        &&& self.current.len() == TRACE_WIDTH
        &&& self.next.len() == TRACE_WIDTH
        &&& all_wf(self.current@)
        &&& all_wf(self.next@)
    }

    pub open spec fn cur(&self) -> Seq<int> {
        felts(self.current@)
    }

    pub open spec fn nxt(&self) -> Seq<int> {
        felts(self.next@)
    }

    pub fn from_rows(current: Vec<Felt>, next: Vec<Felt>) -> (r: Frame)
        ensures
            r.current == current,
            r.next == next,
    {
        Frame { current, next }
    }
}

/// The opcode bits of the current row, `b0` the most significant.
pub trait EvaluationFrameExtBits {
    fn b0(&self) -> Felt;

    fn b1(&self) -> Felt;

    fn b2(&self) -> Felt;

    fn b3(&self) -> Felt;

    fn b4(&self) -> Felt;
}

impl EvaluationFrameExtBits for Frame {
    fn b0(&self) -> Felt {
        if self.current.len() > 5 { self.current[5] } else { Felt::zero() }
    }

    fn b1(&self) -> Felt {
        if self.current.len() > 4 { self.current[4] } else { Felt::zero() }
    }

    fn b2(&self) -> Felt {
        if self.current.len() > 3 { self.current[3] } else { Felt::zero() }
    }

    fn b3(&self) -> Felt {
        if self.current.len() > 2 { self.current[2] } else { Felt::zero() }
    }

    fn b4(&self) -> Felt {
        if self.current.len() > 1 { self.current[1] } else { Felt::zero() }
    }
}

/// `1 - x`.
pub open spec fn not_spec(x: int) -> int {
    fe_sub(1, x)
}

/// The product of five factors, left to right.
pub open spec fn prod5(a: int, b: int, c: int, d: int, e: int) -> int {
    fe_mul(fe_mul(fe_mul(fe_mul(a, b), c), d), e)
}

/// The indicator of the opcode whose bits, `b0` first, are `bits`: the
/// product over the five bit columns of the column or its complement.
pub open spec fn indicator(cur: Seq<int>, bits: Seq<bool>) -> int {
    let f = |k: int, col: int| if bits[k] { cur[col] } else { not_spec(cur[col]) };
    prod5(f(0, 5), f(1, 4), f(2, 3), f(3, 2), f(4, 1))
}

pub open spec fn noop_bits() -> Seq<bool> { seq![false, false, false, false, false] }
pub open spec fn add_bits() -> Seq<bool> { seq![false, true, false, false, false] }
pub open spec fn mul_bits() -> Seq<bool> { seq![false, true, false, false, true] }
pub open spec fn sadd_bits() -> Seq<bool> { seq![false, true, false, true, false] }
pub open spec fn smul_bits() -> Seq<bool> { seq![false, true, true, false, false] }
pub open spec fn add2_bits() -> Seq<bool> { seq![false, true, false, true, true] }
pub open spec fn push_bits() -> Seq<bool> { seq![true, false, false, false, false] }
pub open spec fn read_bits() -> Seq<bool> { seq![true, false, false, false, true] }
pub open spec fn read2_bits() -> Seq<bool> { seq![true, false, false, true, false] }

/// `1 - bit`.
pub fn not_(bit: Felt) -> (r: Felt)
    requires
        bit.wf(),
    ensures
        r.wf(),
        r@ == not_spec(bit@),
{
    Felt::one().sub(bit)
}

fn indicator_exec(frame: &Frame, bits: [bool; 5]) -> (r: Felt)
    requires
        frame.wf(),
        bits@.len() == 5,
    ensures
        r.wf(),
        r@ == indicator(frame.cur(), bits@),
{
    let cols: [usize; 5] = [5, 4, 3, 2, 1];
    let mut acc = Felt::one();
    let mut k: usize = 0;
    while k < 5
        invariant
            frame.wf(),
            cols@ == seq![5usize, 4, 3, 2, 1],
            0 <= k <= 5,
            acc.wf(),
            acc@ == partial_indicator(frame.cur(), bits@, k as int),
        decreases 5 - k,
    {
        let col = cols[k];
        assert(frame.current@[col as int].wf());
        let v = frame.current[col];
        let f = if bits[k] { v } else { not_(v) };
        acc = acc.mul(f);
        k += 1;
    }
    proof {
        assert forall|i: int| 0 <= i < frame.cur().len() implies 0 <= #[trigger] frame.cur()[i]
            < crate::field::MODULUS by {
            assert(frame.current@[i].wf());
        }
        lemma_partial_indicator(frame.cur(), bits@);
    }
    acc
}

/// The product of the first `k` factors of an indicator.
pub open spec fn partial_indicator(cur: Seq<int>, bits: Seq<bool>, k: int) -> int
    decreases k,
{
    if k <= 0 {
        1
    } else {
        let col = 6 - k;
        fe_mul(partial_indicator(cur, bits, k - 1), if bits[k - 1] { cur[col] } else { not_spec(cur[col]) })
    }
}

proof fn lemma_partial_indicator(cur: Seq<int>, bits: Seq<bool>)
    requires
        forall|i: int| 0 <= i < cur.len() ==> 0 <= #[trigger] cur[i] < crate::field::MODULUS,
        cur.len() == 28,
        bits.len() == 5,
    ensures
        partial_indicator(cur, bits, 5) == indicator(cur, bits),
{
    reveal_with_fuel(partial_indicator, 6);
    assert(0 <= cur[5] < crate::field::MODULUS);
    let f0 = if bits[0] { cur[5] } else { not_spec(cur[5]) };
    assert(0 <= f0 < crate::field::MODULUS);
    vstd::arithmetic::div_mod::lemma_small_mod(f0 as nat, crate::field::MODULUS as nat);
    assert(fe_mul(1, f0) == f0);
}

pub fn is_shr(frame: &Frame) -> (r: Felt)
    requires
        frame.wf(),
    ensures
        r == frame.current@[5],
{
    frame.current[5]
}

pub fn is_shl(frame: &Frame) -> (r: Felt)
    requires
        frame.wf(),
    ensures
        r == frame.current@[4],
{
    frame.current[4]
}

pub fn is_noop(frame: &Frame) -> (r: Felt)
    requires
        frame.wf(),
    ensures
        r.wf(),
        r@ == indicator(frame.cur(), noop_bits()),
{
    indicator_exec(frame, [false, false, false, false, false])
}

pub fn is_add(frame: &Frame) -> (r: Felt)
    requires
        frame.wf(),
    ensures
        r.wf(),
        r@ == indicator(frame.cur(), add_bits()),
{
    indicator_exec(frame, [false, true, false, false, false])
}

pub fn is_mul(frame: &Frame) -> (r: Felt)
    requires
        frame.wf(),
    ensures
        r.wf(),
        r@ == indicator(frame.cur(), mul_bits()),
{
    indicator_exec(frame, [false, true, false, false, true])
}

pub fn is_sadd(frame: &Frame) -> (r: Felt)
    requires
        frame.wf(),
    ensures
        r.wf(),
        r@ == indicator(frame.cur(), sadd_bits()),
{
    indicator_exec(frame, [false, true, false, true, false])
}

pub fn is_smul(frame: &Frame) -> (r: Felt)
    requires
        frame.wf(),
    ensures
        r.wf(),
        r@ == indicator(frame.cur(), smul_bits()),
{
    indicator_exec(frame, [false, true, true, false, false])
}

pub fn is_add2(frame: &Frame) -> (r: Felt)
    requires
        frame.wf(),
    ensures
        r.wf(),
        r@ == indicator(frame.cur(), add2_bits()),
{
    indicator_exec(frame, [false, true, false, true, true])
}

pub fn is_push(frame: &Frame) -> (r: Felt)
    requires
        frame.wf(),
    ensures
        r.wf(),
        r@ == indicator(frame.cur(), push_bits()),
{
    indicator_exec(frame, [true, false, false, false, false])
}

pub fn is_read(frame: &Frame) -> (r: Felt)
    requires
        frame.wf(),
    ensures
        r.wf(),
        r@ == indicator(frame.cur(), read_bits()),
{
    indicator_exec(frame, [true, false, false, false, true])
}

pub fn is_read2(frame: &Frame) -> (r: Felt)
    requires
        frame.wf(),
    ensures
        r.wf(),
        r@ == indicator(frame.cur(), read2_bits()),
{
    indicator_exec(frame, [true, false, false, true, false])
}

/// The opcode of the current row, rebuilt from its bits.
pub open spec fn opcode_spec(cur: Seq<int>) -> int {
    fe_add(
        fe_add(fe_add(fe_add(fe_mul(cur[5], 16), fe_mul(cur[4], 8)), fe_mul(cur[3], 4)), fe_mul(cur[2], 2)),
        cur[1],
    )
}

pub fn opcode_to_element(frame: &Frame) -> (r: Felt)
    requires
        frame.wf(),
    ensures
        r.wf(),
        r@ == opcode_spec(frame.cur()),
{
    let c = &frame.current;
    assert(c@[1].wf() && c@[2].wf() && c@[3].wf() && c@[4].wf() && c@[5].wf());
    c[5].mul(Felt::from_u8(16)).add(c[4].mul(Felt::from_u8(8))).add(c[3].mul(Felt::from_u8(4))).add(
        c[2].mul(Felt::from_u8(2)),
    ).add(c[1])
}

// ----------------------------------------------------------------------------
// Transition constraints
// ----------------------------------------------------------------------------

pub open spec fn clock_spec(cur: Seq<int>, nxt: Seq<int>) -> int {
    fe_sub(nxt[0], fe_add(cur[0], 1))
}

pub open spec fn stack_shift_spec(cur: Seq<int>, nxt: Seq<int>) -> int {
    fe_mul(cur[5], cur[4])
}

pub open spec fn add_spec(cur: Seq<int>, nxt: Seq<int>) -> int {
    fe_mul(
        indicator(cur, add_bits()),
        fe_sub(nxt[12], fe_add(cur[12], cur[13])),
    )
}

pub open spec fn mul_spec(cur: Seq<int>, nxt: Seq<int>) -> int {
    fe_mul(
        indicator(cur, mul_bits()),
        fe_sub(nxt[12], fe_mul(cur[12], cur[13])),
    )
}

pub open spec fn push_spec(cur: Seq<int>, nxt: Seq<int>) -> int {
    fe_mul(indicator(cur, push_bits()), fe_sub(nxt[13], cur[12]))
}

pub open spec fn read_spec(cur: Seq<int>, nxt: Seq<int>) -> int {
    fe_mul(indicator(cur, read_bits()), fe_sub(nxt[13], cur[12]))
}

pub open spec fn read2_spec(cur: Seq<int>, nxt: Seq<int>) -> int {
    fe_mul(indicator(cur, read2_bits()), fe_sub(nxt[17], cur[12]))
}

pub open spec fn noop_spec(cur: Seq<int>, nxt: Seq<int>) -> int {
    fe_mul(indicator(cur, noop_bits()), fe_sub(nxt[12], cur[12]))
}

pub open spec fn sadd_spec(cur: Seq<int>, nxt: Seq<int>, params: LweParameters) -> int {
    fe_mul(
        indicator(cur, sadd_bits()),
        sum_diff(
            nxt.subrange(12, 12 + params.k + 1),
            scalar_add_ct(
                params,
                cur[12],
                cur.subrange(13, 13 + params.k + 1),
            ),
            (params.k + 1) as nat,
        ),
    )
}

pub open spec fn smul_spec(cur: Seq<int>, nxt: Seq<int>, params: LweParameters) -> int {
    fe_mul(
        indicator(cur, smul_bits()),
        sum_diff(
            nxt.subrange(12, 12 + params.k + 1),
            scalar_mul_ct(
                params,
                cur[12],
                cur.subrange(13, 13 + params.k + 1),
            ),
            (params.k + 1) as nat,
        ),
    )
}

pub open spec fn add2_spec(cur: Seq<int>, nxt: Seq<int>, params: LweParameters) -> int {
    fe_mul(
        indicator(cur, add2_bits()),
        sum_diff(
            nxt.subrange(12, 12 + params.k + 1),
            add_ct(
                (params.k + 1) as nat,
                cur.subrange(12, 12 + params.k + 1),
                cur.subrange(13 + params.k, 14 + 2 * params.k),
            ),
            (params.k + 1) as nat,
        ),
    )
}


pub fn enforce_clock_increase(frame: &Frame) -> (r: Felt)
    requires
        frame.wf(),
    ensures
        r.wf(),
        r@ == clock_spec(frame.cur(), frame.nxt()),
{
    assert(frame.current@[0].wf() && frame.next@[0].wf());
    frame.next[0].sub(frame.current[0].add(Felt::one()))
}

pub fn enforce_stack_shift(frame: &Frame) -> (r: Felt)
    requires
        frame.wf(),
    ensures
        r.wf(),
        r@ == stack_shift_spec(frame.cur(), frame.nxt()),
{
    assert(frame.current@[4].wf() && frame.current@[5].wf());
    is_shr(frame).mul(is_shl(frame))
}

pub open spec fn stack_depth_spec(cur: Seq<int>, nxt: Seq<int>) -> int {
    fe_add(
        fe_sub(
            fe_add(fe_sub(fe_sub(nxt[11], cur[11]), cur[5]), cur[4]),
            fe_mul(indicator(cur, read2_bits()), 4),
        ),
        fe_mul(indicator(cur, add2_bits()), 4),
    )
}

pub fn enforce_stack_depth(frame: &Frame) -> (r: Felt)
    requires
        frame.wf(),
    ensures
        r.wf(),
        r@ == stack_depth_spec(frame.cur(), frame.nxt()),
{
    let c = &frame.current;
    let n = &frame.next;
    assert(c@[11].wf() && n@[11].wf() && c@[4].wf() && c@[5].wf());
    let four = Felt::from_u8(4);
    n[11].sub(c[11]).sub(is_shr(frame)).add(is_shl(frame)).sub(is_read2(frame).mul(four)).add(
        is_add2(frame).mul(four),
    )
}

pub fn enforce_add(frame: &Frame) -> (r: Felt)
    requires
        frame.wf(),
    ensures
        r.wf(),
        r@ == add_spec(frame.cur(), frame.nxt()),
{
    let c = &frame.current;
    assert(c@[12].wf() && c@[13].wf() && frame.next@[12].wf());
    is_add(frame).mul(frame.next[12].sub(c[12].add(c[13])))
}

pub fn enforce_mul(frame: &Frame) -> (r: Felt)
    requires
        frame.wf(),
    ensures
        r.wf(),
        r@ == mul_spec(frame.cur(), frame.nxt()),
{
    let c = &frame.current;
    assert(c@[12].wf() && c@[13].wf() && frame.next@[12].wf());
    is_mul(frame).mul(frame.next[12].sub(c[12].mul(c[13])))
}

pub fn enforce_push(frame: &Frame) -> (r: Felt)
    requires
        frame.wf(),
    ensures
        r.wf(),
        r@ == push_spec(frame.cur(), frame.nxt()),
{
    assert(frame.current@[12].wf() && frame.next@[13].wf());
    is_push(frame).mul(frame.next[13].sub(frame.current[12]))
}

pub fn enforce_read(frame: &Frame) -> (r: Felt)
    requires
        frame.wf(),
    ensures
        r.wf(),
        r@ == read_spec(frame.cur(), frame.nxt()),
{
    assert(frame.current@[12].wf() && frame.next@[13].wf());
    is_read(frame).mul(frame.next[13].sub(frame.current[12]))
}

pub fn enforce_read2(frame: &Frame) -> (r: Felt)
    requires
        frame.wf(),
    ensures
        r.wf(),
        r@ == read2_spec(frame.cur(), frame.nxt()),
{
    assert(frame.current@[12].wf() && frame.next@[17].wf());
    is_read2(frame).mul(frame.next[17].sub(frame.current[12]))
}

pub fn enforce_noop(frame: &Frame) -> (r: Felt)
    requires
        frame.wf(),
    ensures
        r.wf(),
        r@ == noop_spec(frame.cur(), frame.nxt()),
{
    assert(frame.current@[12].wf() && frame.next@[12].wf());
    is_noop(frame).mul(frame.next[12].sub(frame.current[12]))
}

/// `sum_{i < len} (a[i] - b[i])` in the field, left to right from zero.
pub open spec fn sum_diff(a: Seq<int>, b: Seq<int>, len: nat) -> int
    decreases len,
{
    if len == 0 {
        0
    } else {
        fe_add(sum_diff(a, b, (len - 1) as nat), fe_sub(a[len - 1], b[len - 1]))
    }
}

fn sum_diff_exec(a: &Vec<Felt>, b: &Vec<Felt>) -> (r: Felt)
    requires
        all_wf(a@),
        all_wf(b@),
    ensures
        r.wf(),
        r@ == sum_diff(felts(a@), felts(b@), vstd::math::min(a.len() as int, b.len() as int) as nat),
{
    let mut acc = Felt::zero();
    let mut i: usize = 0;
    while i < a.len() && i < b.len()
        invariant
            all_wf(a@),
            all_wf(b@),
            0 <= i <= a.len(),
            i <= b.len(),
            acc.wf(),
            acc@ == sum_diff(felts(a@), felts(b@), i as nat),
        decreases a.len() - i,
    {
        assert(a@[i as int].wf() && b@[i as int].wf());
        acc = acc.add(a[i].sub(b[i]));
        i += 1;
    }
    acc
}

/// Columns `from..from + len` of a row.
fn columns(row: &Vec<Felt>, from: usize, len: usize) -> (r: Vec<Felt>)
    requires
        from + len <= row.len(),
        all_wf(row@),
    ensures
        r@ == row@.subrange(from as int, from + len),
        all_wf(r@),
{
    let mut r: Vec<Felt> = Vec::new();
    let mut i: usize = 0;
    while i < len
        invariant
            from + len <= row.len(),
            all_wf(row@),
            0 <= i <= len,
            r@ == row@.subrange(from as int, from + i),
        decreases len - i,
    {
        r.push(row[from + i]);
        i += 1;
        assert(r@ =~= row@.subrange(from as int, from + i));
    }
    r
}

pub fn enforce_sadd(frame: &Frame, server_key: &ServerKey) -> (r: Felt)
    requires
        frame.wf(),
        server_key.wf(),
        server_key.parameters.k + 1 <= 8,
    ensures
        r.wf(),
        r@ == sadd_spec(frame.cur(), frame.nxt(), server_key.parameters),
{
    let n = server_key.lwe_size();
    let ct = FheElement { ciphertext: columns(&frame.current, 13, n) };
    let next = columns(&frame.next, 12, n);
    assert(frame.current@[12].wf());
    let out = server_key.scalar_add(&frame.current[12], &ct);
    proof {
        assert(felts(ct.ciphertext@) =~= frame.cur().subrange(13, 13 + n));
        assert(felts(next@) =~= frame.nxt().subrange(12, 12 + n));
    }
    assert(felts(out.ciphertext@).len() == out.ciphertext@.len());
    assert(out.ciphertext.len() == n);
    let d = sum_diff_exec(&next, &out.ciphertext);
    is_sadd(frame).mul(d)
}

pub fn enforce_smul(frame: &Frame, server_key: &ServerKey) -> (r: Felt)
    requires
        frame.wf(),
        server_key.wf(),
        server_key.parameters.k + 1 <= 8,
    ensures
        r.wf(),
        r@ == smul_spec(frame.cur(), frame.nxt(), server_key.parameters),
{
    let n = server_key.lwe_size();
    let ct = FheElement { ciphertext: columns(&frame.current, 13, n) };
    let next = columns(&frame.next, 12, n);
    assert(frame.current@[12].wf());
    let out = server_key.scalar_mul(&frame.current[12], &ct);
    proof {
        assert(felts(ct.ciphertext@) =~= frame.cur().subrange(13, 13 + n));
        assert(felts(next@) =~= frame.nxt().subrange(12, 12 + n));
    }
    assert(felts(out.ciphertext@).len() == out.ciphertext@.len());
    assert(out.ciphertext.len() == n);
    let d = sum_diff_exec(&next, &out.ciphertext);
    is_smul(frame).mul(d)
}

pub fn enforce_add2(frame: &Frame, server_key: &ServerKey) -> (r: Felt)
    requires
        frame.wf(),
        server_key.wf(),
        server_key.parameters.k + 1 <= 8,
    ensures
        r.wf(),
        r@ == add2_spec(frame.cur(), frame.nxt(), server_key.parameters),
{
    let n = server_key.lwe_size();
    let ct0 = FheElement { ciphertext: columns(&frame.current, 12, n) };
    let ct1 = FheElement { ciphertext: columns(&frame.current, 12 + n, n) };
    let next = columns(&frame.next, 12, n);
    let out = server_key.add(&ct0, &ct1);
    proof {
        assert(felts(ct0.ciphertext@) =~= frame.cur().subrange(12, 12 + n));
        assert(felts(ct1.ciphertext@) =~= frame.cur().subrange(12 + n, 12 + 2 * n));
        assert(felts(next@) =~= frame.nxt().subrange(12, 12 + n));
    }
    assert(felts(out.ciphertext@).len() == out.ciphertext@.len());
    assert(out.ciphertext.len() == n);
    let d = sum_diff_exec(&next, &out.ciphertext);
    is_add2(frame).mul(d)
}

/// The two halves of a Rescue round meet in the middle: the S-box of the
/// next state stripped of its constants and MDS equals the MDS of the
/// S-box of the current state plus its constants and the injected operation.
pub open spec fn hash_round_spec(cur: Seq<int>, nxt: Seq<int>, flag: int, ark: Seq<int>) -> Seq<int> {
    let s = cur.subrange(7, 11);
    let t = nxt.subrange(7, 11);
    let a = add_ark_from(mat_apply(mds_matrix(), sbox(s)), ark, 0);
    let step0 = a.update(0, fe_add(a[0], opcode_spec(cur))).update(
        1,
        fe_add(a[1], fe_mul(nxt[12], indicator(cur, push_bits()))),
    );
    let step1 = sbox(mat_apply(inv_mds_matrix(), sub_ark_from(t, ark, 4)));
    Seq::new(4, |i: int| fe_mul(fe_mul(fe_sub(step1[i], step0[i]), flag), cur[6]))
}

pub open spec fn add_ark_from(s: Seq<int>, ark: Seq<int>, offset: int) -> Seq<int> {
    Seq::new(4, |i: int| fe_add(s[i], ark[offset + i]))
}

pub open spec fn sub_ark_from(s: Seq<int>, ark: Seq<int>, offset: int) -> Seq<int> {
    Seq::new(4, |i: int| fe_sub(s[i], ark[offset + i]))
}

pub fn enforce_hash_round(frame: &Frame, hash_flag: Felt, ark: &Vec<Felt>) -> (r: Vec<Felt>)
    requires
        frame.wf(),
        hash_flag.wf(),
        ark.len() == 8,
        all_wf(ark@),
    ensures
        r.len() == 4,
        all_wf(r@),
        felts(r@) == hash_round_spec(frame.cur(), frame.nxt(), hash_flag@, felts(ark@)),
{
    let mut step0 = columns(&frame.current, 7, STATE_WIDTH);
    let ghost s = felts(step0@);
    apply_sbox(&mut step0);
    apply_mds(&mut step0);
    let mut i: usize = 0;
    let ghost m = felts(step0@);
    while i < STATE_WIDTH
        invariant
            step0.len() == 4,
            all_wf(step0@),
            ark.len() == 8,
            all_wf(ark@),
            0 <= i <= 4,
            forall|j: int| 0 <= j < i ==> (#[trigger] step0@[j])@ == fe_add(m[j], ark@[j]@),
            forall|j: int| i <= j < 4 ==> (#[trigger] step0@[j])@ == m[j],
        decreases 4 - i,
    {
        assert(step0@[i as int].wf() && ark@[i as int].wf());
        let v = step0[i].add(ark[i]);
        step0.set(i, v);
        i += 1;
    }
    let ghost a = felts(step0@);
    assert(a =~= add_ark_from(m, felts(ark@), 0));
    let op = opcode_to_element(frame);
    assert(step0@[0].wf() && step0@[1].wf() && frame.next@[12].wf());
    let v0 = step0[0].add(op);
    step0.set(0, v0);
    let v1 = step0[1].add(frame.next[12].mul(is_push(frame)));
    step0.set(1, v1);
    let mut step1 = columns(&frame.next, 7, STATE_WIDTH);
    let ghost t = felts(step1@);
    let mut i: usize = 0;
    while i < STATE_WIDTH
        invariant
            step1.len() == 4,
            all_wf(step1@),
            ark.len() == 8,
            all_wf(ark@),
            0 <= i <= 4,
            forall|j: int| 0 <= j < i ==> (#[trigger] step1@[j])@ == fe_sub(t[j], ark@[4 + j]@),
            forall|j: int| i <= j < 4 ==> (#[trigger] step1@[j])@ == t[j],
        decreases 4 - i,
    {
        assert(step1@[i as int].wf() && ark@[4 + i].wf());
        let v = step1[i].sub(ark[4 + i]);
        step1.set(i, v);
        i += 1;
    }
    assert(felts(step1@) =~= sub_ark_from(t, felts(ark@), 4));
    apply_inv_mds(&mut step1);
    apply_sbox(&mut step1);
    assert(frame.current@[6].wf());
    let h0 = frame.current[6];
    let mut result: Vec<Felt> = Vec::new();
    let mut j: usize = 0;
    while j < STATE_WIDTH
        invariant
            step0.len() == 4,
            step1.len() == 4,
            all_wf(step0@),
            all_wf(step1@),
            hash_flag.wf(),
            h0.wf(),
            0 <= j <= 4,
            result.len() == j,
            all_wf(result@),
            forall|k: int|
                0 <= k < j ==> (#[trigger] result@[k])@ == fe_mul(
                    fe_mul(fe_sub(step1@[k]@, step0@[k]@), hash_flag@),
                    h0@,
                ),
        decreases 4 - j,
    {
        assert(step0@[j as int].wf() && step1@[j as int].wf());
        result.push(step1[j].sub(step0[j]).mul(hash_flag).mul(h0));
        j += 1;
    }
    proof {
        assert(s =~= frame.cur().subrange(7, 11));
        assert(t =~= frame.nxt().subrange(7, 11));
        assert(felts(result@) =~= hash_round_spec(frame.cur(), frame.nxt(), hash_flag@, felts(ark@)));
    }
    result
}

/// On the capacity-reset rows the rate lanes are copied and the capacity
/// lanes cleared.
pub open spec fn hash_copy_spec(cur: Seq<int>, nxt: Seq<int>, flag: int) -> Seq<int> {
    let g = fe_mul(not_spec(flag), cur[6]);
    seq![
        fe_mul(fe_sub(nxt[7], cur[7]), g),
        fe_mul(fe_sub(nxt[8], cur[8]), g),
        fe_mul(nxt[9], g),
        fe_mul(nxt[10], g),
    ]
}

pub fn enforce_hash_copy(frame: &Frame, hash_flag: Felt) -> (r: Vec<Felt>)
    requires
        frame.wf(),
        hash_flag.wf(),
    ensures
        r.len() == 4,
        all_wf(r@),
        felts(r@) == hash_copy_spec(frame.cur(), frame.nxt(), hash_flag@),
{
    let c = &frame.current;
    let n = &frame.next;
    assert(c@[6].wf() && c@[7].wf() && c@[8].wf() && n@[7].wf() && n@[8].wf() && n@[9].wf() && n@[10].wf());
    let g = not_(hash_flag).mul(c[6]);
    let r = vec![n[7].sub(c[7]).mul(g), n[8].sub(c[8]).mul(g), n[9].mul(g), n[10].mul(g)];
    assert(felts(r@) =~= hash_copy_spec(frame.cur(), frame.nxt(), hash_flag@));
    r
}


/// The transition constraints, in order: clock, depth, shift bits, `add`,
/// `sadd`, `add2`, `mul`, `smul`, `push`, `read`, `read2`, `noop`, the four
/// lanes of the Rescue round, the four lanes of the capacity reset.
/// `periodic_values` holds the cycle mask, then the eight round constants.
pub open spec fn transition_spec(
    cur: Seq<int>,
    nxt: Seq<int>,
    periodic: Seq<int>,
    params: LweParameters,
) -> Seq<int> {
    seq![
        clock_spec(cur, nxt),
        stack_depth_spec(cur, nxt),
        stack_shift_spec(cur, nxt),
        add_spec(cur, nxt),
        sadd_spec(cur, nxt, params),
        add2_spec(cur, nxt, params),
        mul_spec(cur, nxt),
        smul_spec(cur, nxt, params),
        push_spec(cur, nxt),
        read_spec(cur, nxt),
        read2_spec(cur, nxt),
        noop_spec(cur, nxt),
    ] + hash_round_spec(cur, nxt, periodic[0], periodic.subrange(1, 9)) + hash_copy_spec(cur, nxt, periodic[0])
}

/// Evaluates every transition constraint on a pair of rows.
#[verifier::rlimit(100)]
#[verifier::spinoff_prover]
pub fn evaluate_transition(frame: &Frame, periodic_values: &Vec<Felt>, server_key: &ServerKey) -> (r: Vec<Felt>)
    requires
        frame.wf(),
        periodic_values.len() == 9,
        all_wf(periodic_values@),
        server_key.wf(),
        server_key.parameters.k + 1 <= 8,
    ensures
        r.len() == NUM_CONSTRAINTS,
        all_wf(r@),
        felts(r@) == transition_spec(frame.cur(), frame.nxt(), felts(periodic_values@), server_key.parameters),
{
    let mut r: Vec<Felt> = Vec::new();
    r.push(enforce_clock_increase(frame));
    r.push(enforce_stack_depth(frame));
    r.push(enforce_stack_shift(frame));
    r.push(enforce_add(frame));
    r.push(enforce_sadd(frame, server_key));
    r.push(enforce_add2(frame, server_key));
    r.push(enforce_mul(frame));
    r.push(enforce_smul(frame, server_key));
    r.push(enforce_push(frame));
    r.push(enforce_read(frame));
    r.push(enforce_read2(frame));
    r.push(enforce_noop(frame));
    let flag = periodic_values[0];
    let ark = columns(periodic_values, 1, 8);
    assert(periodic_values@[0].wf());
    let mut round = enforce_hash_round(frame, flag, &ark);
    let mut copy = enforce_hash_copy(frame, flag);
    let ghost first = r@;
    let ghost round_v = round@;
    let ghost copy_v = copy@;
    r.append(&mut round);
    r.append(&mut copy);
    proof {
        assert(felts(ark@) =~= felts(periodic_values@).subrange(1, 9));
        assert(r@ =~= first + round_v + copy_v);
        assert(felts(r@) =~= transition_spec(frame.cur(), frame.nxt(), felts(periodic_values@), server_key.parameters));
    }
    r
}

// ----------------------------------------------------------------------------
// Periodic columns and boundary assertions
// ----------------------------------------------------------------------------

/// The cycle mask, 1 on the rounds and 0 on the two capacity-reset rows,
/// then the round constants column by column.
pub fn get_periodic_column_values() -> (r: Vec<Vec<Felt>>)
    ensures
        r.len() == 9,
        r@[0].len() == CYCLE_LENGTH,
        forall|i: int| 0 <= i < 16 ==> (#[trigger] r@[0]@[i])@ == if i < 14 { 1int } else { 0 },
        forall|j: int| 0 <= j < 8 ==> (#[trigger] r@[j + 1]).len() == CYCLE_LENGTH,
        forall|j: int, i: int|
            0 <= j < 8 && 0 <= i < 16 ==> (#[trigger] r@[j + 1]@[i])@ == crate::rescue::ark(i, j),
{
    let mut mask: Vec<Felt> = Vec::new();
    let mut i: usize = 0;
    while i < CYCLE_LENGTH
        invariant
            0 <= i <= 16,
            mask.len() == i,
            forall|t: int| 0 <= t < i ==> (#[trigger] mask@[t])@ == if t < 14 { 1int } else { 0 },
        decreases 16 - i,
    {
        if i < 14 {
            mask.push(Felt::one());
        } else {
            mask.push(Felt::zero());
        }
        i += 1;
    }
    let mut result = vec![mask];
    let mut constants = get_round_constants();
    let ghost cv = constants@;
    result.append(&mut constants);
    proof {
        assert forall|j: int, i: int| 0 <= j < 8 && 0 <= i < 16 implies (#[trigger] result@[j + 1]@[i])@
            == crate::rescue::ark(i, j) by {
            assert(result@[j + 1] == cv[j]);
        }
    }
    result
}

/// A value that the trace must hold in a given column on a given row.
#[derive(Clone, Copy, PartialEq, Eq, Structural, Debug)]
pub struct Assertion {
    pub column: usize,
    pub step: usize,
    pub value: Felt,
}

/// Boundary assertion `idx`: clock and depth zero on row 0; then for each
/// rate lane, zero on row 0 and the hash on `last_step`; then the same for the
/// top eight slots, with the outputs.
pub open spec fn expected_assertion(
    idx: int,
    program_hash: crate::rescue::Hash,
    stack_outputs: Seq<Felt>,
    last_step: usize,
) -> Assertion {
    if idx == 0 {
        Assertion { column: 0, step: 0, value: Felt { value: 0 } }
    } else if idx == 1 {
        Assertion { column: 11, step: 0, value: Felt { value: 0 } }
    } else if idx < 6 {
        let k = (idx - 2) / 2;
        if idx % 2 == 0 {
            Assertion { column: (7 + k) as usize, step: 0, value: Felt { value: 0 } }
        } else {
            Assertion {
                column: (7 + k) as usize,
                step: last_step,
                value: if k == 0 { program_hash.lane0 } else { program_hash.lane1 },
            }
        }
    } else {
        let k = (idx - 6) / 2;
        if idx % 2 == 0 {
            Assertion { column: (12 + k) as usize, step: 0, value: Felt { value: 0 } }
        } else {
            Assertion { column: (12 + k) as usize, step: last_step, value: stack_outputs[k] }
        }
    }
}

/// The boundary assertions that tie the trace to the public inputs.
pub fn get_assertions(program_hash: &crate::rescue::Hash, stack_outputs: &Vec<Felt>, last_step: usize) -> (r: Vec<
    Assertion,
>)
    requires
        stack_outputs.len() >= 8,
    ensures
        r.len() == NUM_ASSERTIONS,
        forall|i: int|
            0 <= i < NUM_ASSERTIONS ==> #[trigger] r@[i] == expected_assertion(
                i,
                *program_hash,
                stack_outputs@,
                last_step,
            ),
{
    let mut r: Vec<Assertion> = Vec::new();
    r.push(Assertion { column: 0, step: 0, value: Felt::zero() });
    r.push(Assertion { column: 11, step: 0, value: Felt::zero() });
    r.push(Assertion { column: 7, step: 0, value: Felt::zero() });
    r.push(Assertion { column: 7, step: last_step, value: program_hash.lane0 });
    r.push(Assertion { column: 8, step: 0, value: Felt::zero() });
    r.push(Assertion { column: 8, step: last_step, value: program_hash.lane1 });
    let mut i: usize = 0;
    assert forall|t: int| 0 <= t < 6 implies #[trigger] r@[t] == expected_assertion(
        t,
        *program_hash,
        stack_outputs@,
        last_step,
    ) by {}
    while i < 8
        invariant
            stack_outputs.len() >= 8,
            0 <= i <= 8,
            r.len() == 6 + 2 * i,
            forall|t: int|
                0 <= t < r.len() ==> #[trigger] r@[t] == expected_assertion(
                    t,
                    *program_hash,
                    stack_outputs@,
                    last_step,
                ),
        decreases 8 - i,
    {
        r.push(Assertion { column: 12 + i, step: 0, value: Felt::zero() });
        r.push(Assertion { column: 12 + i, step: last_step, value: stack_outputs[i] });
        proof {
            let a = 6 + 2 * i;
            assert((a - 6) / 2 == i);
            assert((a + 1 - 6) / 2 == i);
        }
        i += 1;
    }
    r
}

} // verus!
