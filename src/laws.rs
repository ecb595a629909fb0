use crate::air::{
    hash_copy_spec, add2_spec, read2_spec, sadd_spec, smul_spec, stack_depth_spec, sum_diff, add_spec, clock_spec, mul_spec, noop_spec, push_spec, read_spec,
    expected_assertion, NUM_ASSERTIONS, add2_bits, add_bits, indicator, mul_bits, noop_bits, not_spec, prod5, push_bits, read2_bits, read_bits,
    sadd_bits, smul_bits,
};
use crate::errors::StackErrorKind;
use crate::field::{fe_add, fe_mul, fe_sub, Felt, MODULUS};
use crate::fhe::{add_ct, scalar_add_ct, scalar_mul_ct, LweParameters};
use crate::opcodes::{bit, op_code_of, op_imm_of, opcode_value, OpCode, OpValue, Operation};
use crate::processor::{run_spec, trace_columns, RunState, TRACE_WIDTH};
use crate::program::{compile_spec, is_digest_of, layout, noops, padded_code, plain_op, tokens};
use crate::rescue::{felts, rescue_round, sponge_absorb};
use crate::stack::{stack_next, zero_above};
use vstd::prelude::*;

verus! {

/// The values of row `i` of a trace.
pub open spec fn row_at(cols: Seq<Vec<Felt>>, i: int) -> Seq<int> {
    Seq::new(TRACE_WIDTH as nat, |c: int| cols[c]@[i]@)
}

/// The opcode on row `i` of a trace of `code`: `noop` past the last one.
pub open spec fn row_opcode(code: Seq<Operation>, i: int) -> OpCode {
    if i < code.len() {
        code[i].op_code
    } else {
        OpCode::Noop
    }
}

/// The bits, `b0` first, of an opcode's indicator.
pub open spec fn indicator_bits(c: OpCode) -> Seq<bool> {
    match c {
        OpCode::Noop => noop_bits(),
        OpCode::Push => push_bits(),
        OpCode::Read => read_bits(),
        OpCode::Read2 => read2_bits(),
        OpCode::Add => add_bits(),
        OpCode::Mul => mul_bits(),
        OpCode::SAdd => sadd_bits(),
        OpCode::SMul => smul_bits(),
        OpCode::Add2 => add2_bits(),
    }
}

/// The clock column holds `0, 1, 2, ...` on every row before the last,
/// which holds a random value.
pub proof fn law_clock_column(cols: Seq<Vec<Felt>>, code: Seq<Operation>, st: RunState, len: int, last: Seq<Felt>)
    requires
        trace_columns(cols, code, st, len, last),
    ensures
        forall|i: int| 0 <= i < len - 1 ==> (#[trigger] cols[0]@[i])@ == i,
{
}

/// What a successful run leaves: one row and one depth per clock, every
/// depth in `0..=16`, and every slot at or above the depth zero.
pub proof fn law_run_stack_invariants(
    code: Seq<Operation>,
    tape_a: Seq<u8>,
    tape_b: Seq<Seq<int>>,
    params: LweParameters,
)
    requires
        run_spec(code, tape_a, tape_b, params).is_ok(),
    ensures
        ({
            let st = run_spec(code, tape_a, tape_b, params)->Ok_0;
            &&& st.rows.len() == code.len() + 1
            &&& st.depths.len() == code.len() + 1
            &&& forall|r: int| 0 <= r <= code.len() ==> 0 <= #[trigger] st.depths[r] <= 16
            &&& forall|r: int| 0 <= r <= code.len() ==> (#[trigger] st.rows[r]).len() == 16
            &&& forall|r: int| 0 <= r <= code.len() ==> zero_above(#[trigger] st.rows[r], st.depths[r])
            &&& st.depths[0] == 0
            &&& st.rows[0] == Seq::new(16, |j: int| 0int)
        }),
    decreases code.len(),
{
    if code.len() > 0 {
        law_run_stack_invariants(code.drop_last(), tape_a, tape_b, params);
        let st = run_spec(code.drop_last(), tape_a, tape_b, params)->Ok_0;
        let n = code.len() - 1;
        assert(0 <= st.depths[n] <= 16);
        assert(st.rows.last() == st.rows[n]);
    } else {
        assert(zero_above(Seq::new(16, |j: int| 0int), 0));
    }
}

/// On every row before the last the depth is in `0..=16`, and every slot at
/// or above the depth holds zero.
pub proof fn law_trace_depth_and_empty_slots(
    cols: Seq<Vec<Felt>>,
    code: Seq<Operation>,
    tape_a: Seq<u8>,
    tape_b: Seq<Seq<int>>,
    params: LweParameters,
    len: int,
    last: Seq<Felt>,
)
    requires
        run_spec(code, tape_a, tape_b, params).is_ok(),
        trace_columns(cols, code, run_spec(code, tape_a, tape_b, params)->Ok_0, len, last),
    ensures
        forall|i: int| 0 <= i < len - 1 ==> 0 <= (#[trigger] cols[11]@[i])@ <= 16,
        forall|i: int, j: int|
            0 <= i < len - 1 && 0 <= j < 16 && j >= cols[11]@[i]@ ==> (#[trigger] cols[12 + j]@[i])@ == 0,
{
    law_run_stack_invariants(code, tape_a, tape_b, params);
    let st = run_spec(code, tape_a, tape_b, params)->Ok_0;
    let n = code.len() as int;
    assert forall|i: int| 0 <= i < len - 1 implies 0 <= (#[trigger] cols[11]@[i])@ <= 16 by {
        let r = if i < n { i } else { n };
        assert(0 <= st.depths[r] <= 16);
    }
    assert forall|i: int, j: int|
        0 <= i < len - 1 && 0 <= j < 16 && j >= cols[11]@[i]@ implies (#[trigger] cols[12 + j]@[i])@ == 0 by {
        let r = if i < n { i } else { n };
        assert(zero_above(st.rows[r], st.depths[r]));
        assert(cols[11]@[i]@ == st.depths[r]);
    }
}

proof fn lemma_opcode_bits(c: OpCode)
    ensures
        forall|j: nat| j < 5 ==> #[trigger] bit(opcode_value(c) as int, j) == (if indicator_bits(c)[4 - j] {
            1int
        } else {
            0
        }),
        bit(opcode_value(c) as int, 4) * bit(opcode_value(c) as int, 3) == 0,
{
    reveal_with_fuel(bit, 5);
    let v = opcode_value(c) as int;
    assert(bit(v, 4) == (if indicator_bits(c)[0] { 1int } else { 0 }));
    assert(bit(v, 3) == (if indicator_bits(c)[1] { 1int } else { 0 }));
    assert(!(indicator_bits(c)[0] && indicator_bits(c)[1]));
}

proof fn lemma_bool_mul(x: int, y: int)
    requires
        x == 0 || x == 1,
        y == 0 || y == 1,
    ensures
        fe_mul(x, y) == if x == 1 && y == 1 { 1int } else { 0 },
{
}

/// The shift-right and shift-left bits are never both set: `b0 * b1 = 0` on
/// every row before the last.
pub proof fn law_shift_bits_exclusive(
    cols: Seq<Vec<Felt>>,
    code: Seq<Operation>,
    st: RunState,
    len: int,
    last: Seq<Felt>,
)
    requires
        trace_columns(cols, code, st, len, last),
    ensures
        forall|i: int| 0 <= i < len - 1 ==> fe_mul((#[trigger] cols[5]@[i])@, cols[4]@[i]@) == 0,
{
    assert forall|i: int| 0 <= i < len - 1 implies fe_mul((#[trigger] cols[5]@[i])@, cols[4]@[i]@) == 0 by {
        let c = row_opcode(code, i);
        lemma_opcode_bits(c);
        assert(cols[1 + 4int]@[i]@ == bit(opcode_value(c) as int, 4));
        assert(cols[1 + 3int]@[i]@ == bit(opcode_value(c) as int, 3));
    }
}

/// An indicator on bits that are 0 or 1 is 1 when the bits are those of
/// the opcode and 0 otherwise.
proof fn lemma_indicator_value(cur: Seq<int>, bits: Seq<bool>)
    requires
        cur.len() == 28,
        bits.len() == 5,
        forall|j: int| 1 <= j <= 5 ==> #[trigger] cur[j] == 0 || cur[j] == 1,
    ensures
        indicator(cur, bits) == if (forall|k: int| 0 <= k < 5 ==> #[trigger] bits[k] == (cur[5 - k] == 1)) {
            1int
        } else {
            0
        },
{
    let m = MODULUS as int;
    let f = |k: int, col: int| if bits[k] { cur[col] } else { not_spec(cur[col]) };
    assert forall|k: int| 0 <= k < 5 implies #[trigger] f(k, 5 - k) == (if bits[k] == (cur[5 - k] == 1) {
        1int
    } else {
        0
    }) by {
        assert(cur[5 - k] == 0 || cur[5 - k] == 1);
    }
    let a = f(0, 5);
    let b = f(1, 4);
    let c = f(2, 3);
    let d = f(3, 2);
    let e = f(4, 1);
    assert(f(0, 5 - 0) == a && f(1, 5 - 1) == b && f(2, 5 - 2) == c && f(3, 5 - 3) == d && f(4, 5 - 4) == e);
    lemma_bool_mul(a, b);
    let ab = fe_mul(a, b);
    lemma_bool_mul(ab, c);
    let abc = fe_mul(ab, c);
    lemma_bool_mul(abc, d);
    let abcd = fe_mul(abc, d);
    lemma_bool_mul(abcd, e);
    assert(prod5(a, b, c, d, e) == fe_mul(abcd, e));
    if forall|k: int| 0 <= k < 5 ==> #[trigger] bits[k] == (cur[5 - k] == 1) {
        assert(bits[0] == (cur[5 - 0] == 1) && bits[1] == (cur[5 - 1] == 1) && bits[2] == (cur[5 - 2] == 1)
            && bits[3] == (cur[5 - 3] == 1) && bits[4] == (cur[5 - 4] == 1));
        assert(a == 1 && b == 1 && c == 1 && d == 1 && e == 1);
    } else {
        let k = choose|k: int| 0 <= k < 5 && !(#[trigger] bits[k] == (cur[5 - k] == 1));
        assert(f(k, 5 - k) == 0);
        assert(a == 0 || b == 0 || c == 0 || d == 0 || e == 0);
    }
}

/// On every row before the last, exactly one opcode indicator is 1, the one
/// of the operation run on that row (`noop` past the end), and all others
/// are 0.
pub proof fn law_one_indicator(
    cols: Seq<Vec<Felt>>,
    code: Seq<Operation>,
    st: RunState,
    len: int,
    last: Seq<Felt>,
)
    requires
        trace_columns(cols, code, st, len, last),
    ensures
        forall|i: int, c: OpCode|
            0 <= i < len - 1 ==> #[trigger] indicator(row_at(cols, i), indicator_bits(c)) == if c
                == row_opcode(code, i) {
                1int
            } else {
                0
            },
{
    assert forall|i: int, c: OpCode| 0 <= i < len - 1 implies #[trigger] indicator(
        row_at(cols, i),
        indicator_bits(c),
    ) == if c == row_opcode(code, i) {
        1int
    } else {
        0
    } by {
        let cur = row_at(cols, i);
        let rc = row_opcode(code, i);
        lemma_opcode_bits(rc);
        assert forall|j: int| 1 <= j <= 5 implies #[trigger] cur[j] == 0 || cur[j] == 1 by {
            assert(cur[j] == cols[1 + (j - 1)]@[i]@);
            assert(bit(opcode_value(rc) as int, (j - 1) as nat) == 0 || bit(opcode_value(rc) as int, (j - 1) as nat) == 1);
        }
        assert forall|k: int| 0 <= k < 5 implies (#[trigger] cur[5 - k] == 1) == indicator_bits(rc)[k] by {
            assert(cur[5 - k] == cols[1 + (4 - k)]@[i]@);
            assert(bit(opcode_value(rc) as int, (4 - k) as nat) == (if indicator_bits(rc)[4 - (4 - k)] { 1int } else { 0 }));
        }
        lemma_indicator_value(cur, indicator_bits(c));
        if c != rc {
            assert(exists|k: int| 0 <= k < 5 && indicator_bits(c)[k] != indicator_bits(rc)[k]) by {
                lemma_indicator_bits_distinct(c, rc);
            }
        } else {
            assert(forall|k: int| 0 <= k < 5 ==> #[trigger] indicator_bits(c)[k] == (cur[5 - k] == 1));
        }
    }
}

proof fn lemma_indicator_bits_distinct(c: OpCode, d: OpCode)
    requires
        c != d,
    ensures
        exists|k: int| 0 <= k < 5 && indicator_bits(c)[k] != indicator_bits(d)[k],
{
    let b = indicator_bits(c);
    let e = indicator_bits(d);
    assert(b[0] != e[0] || b[1] != e[1] || b[2] != e[2] || b[3] != e[3] || b[4] != e[4]);
}

/// The rate lanes on the second-to-last row hold the program hash.
pub proof fn law_final_sponge_is_digest(
    cols: Seq<Vec<Felt>>,
    code: Seq<Operation>,
    st: RunState,
    len: int,
    last: Seq<Felt>,
    hash: crate::rescue::Hash,
)
    requires
        trace_columns(cols, code, st, len, last),
        len >= code.len() + 2,
        is_digest_of(hash, code),
    ensures
        cols[7]@[len - 2] == hash.lane0,
        cols[8]@[len - 2] == hash.lane1,
{
    assert(code.subrange(0, code.len() as int) =~= code);
    assert(cols[7 + 0int]@[len - 2]@ == sponge_absorb(code)[0]);
    assert(cols[7 + 1int]@[len - 2]@ == sponge_absorb(code)[1]);
}

/// The trace of a successful run meets every boundary assertion: on row 0
/// the clock, the depth, the rate lanes and the top slots are zero; on row
/// `len - 2` the rate lanes hold the program hash and the slots the outputs.
pub proof fn law_boundary_assertions_hold(
    cols: Seq<Vec<Felt>>,
    code: Seq<Operation>,
    tape_a: Seq<u8>,
    tape_b: Seq<Seq<int>>,
    params: LweParameters,
    len: int,
    last: Seq<Felt>,
    hash: crate::rescue::Hash,
    outputs: Seq<Felt>,
)
    requires
        run_spec(code, tape_a, tape_b, params).is_ok(),
        trace_columns(cols, code, run_spec(code, tape_a, tape_b, params)->Ok_0, len, last),
        len >= code.len() + 2,
        is_digest_of(hash, code),
        outputs.len() == 16,
        felts(outputs) == run_spec(code, tape_a, tape_b, params)->Ok_0.rows[code.len() as int],
    ensures
        forall|i: int|
            0 <= i < NUM_ASSERTIONS ==> {
                let a = #[trigger] expected_assertion(i, hash, outputs, (len - 2) as usize);
                cols[a.column as int]@[a.step as int] == a.value
            },
{
    law_run_stack_invariants(code, tape_a, tape_b, params);
    law_final_sponge_is_digest(cols, code, run_spec(code, tape_a, tape_b, params)->Ok_0, len, last, hash);
    let st = run_spec(code, tape_a, tape_b, params)->Ok_0;
    let n = code.len() as int;
    assert(code.subrange(0, 0) =~= Seq::<Operation>::empty());
    assert forall|i: int|
        0 <= i < NUM_ASSERTIONS implies {
            let a = #[trigger] expected_assertion(i, hash, outputs, (len - 2) as usize);
            cols[a.column as int]@[a.step as int] == a.value
        } by {
        let a = expected_assertion(i, hash, outputs, (len - 2) as usize);
        if i == 0 {
            assert(cols[0]@[0]@ == 0);
        } else if i == 1 {
            assert(cols[11]@[0]@ == st.depths[0]);
        } else if i < 6 {
            let k = (i - 2) / 2;
            if i % 2 == 0 {
                assert(cols[7 + k]@[0]@ == sponge_absorb(code.subrange(0, 0))[k]);
            }
        } else {
            let k = (i - 6) / 2;
            if i % 2 == 0 {
                assert(cols[12 + k]@[0]@ == st.rows[0][k]);
            } else {
                assert(cols[12 + k]@[len - 2]@ == st.rows[n][k]);
                assert(outputs[k]@ == felts(outputs)[k]);
            }
        }
    }
}

/// Code with no-ops appended keeps its entries and holds no-ops after them.
proof fn lemma_append_noops(c: Seq<Operation>, n: nat)
    ensures
        (c + noops(n)).len() == c.len() + n,
        forall|i: int| 0 <= i < c.len() ==> #[trigger] (c + noops(n))[i] == c[i],
        forall|i: int| c.len() <= i < c.len() + n ==> #[trigger] (c + noops(n))[i] == plain_op(OpCode::Noop),
{
}

/// Laid-out code puts every `push` at an index that is a multiple of 8 and
/// only `noop` on the last two rows of each cycle.
#[verifier::rlimit(50)]
pub proof fn law_layout(ops: Seq<Operation>)
    ensures
        forall|i: int|
            0 <= i < layout(ops).len() && (#[trigger] layout(ops)[i]).op_code == OpCode::Push ==> i % 8 == 0,
        forall|i: int| 0 <= i < layout(ops).len() && i % 16 >= 14 ==> (#[trigger] layout(ops)[i]).op_code == OpCode::Noop,
        layout(ops).len() % 16 < 15,
    decreases ops.len(),
{
    if ops.len() > 0 {
        law_layout(ops.drop_last());
        let code = layout(ops.drop_last());
        let op = ops.last();
        let n1: nat = if op.op_code == OpCode::Push { ((8 - code.len() % 8) % 8) as nat } else { 0 };
        let c1 = code + noops(n1);
        lemma_append_noops(code, n1);
        assert(op.op_code == OpCode::Push ==> c1.len() % 8 == 0);
        assert(c1 == if op.op_code == OpCode::Push {
            code + noops(((8 - code.len() % 8) % 8) as nat)
        } else {
            code
        }) by {
            if op.op_code != OpCode::Push {
                assert(code + noops(0) =~= code);
            }
        }
        let n2: nat = if c1.len() % 16 >= 14 { (16 - c1.len() % 16) as nat } else { 0 };
        let c2 = c1 + noops(n2);
        lemma_append_noops(c1, n2);
        assert(c2 == if c1.len() % 16 >= 14 {
            c1 + noops((16 - c1.len() % 16) as nat)
        } else {
            c1
        }) by {
            if c1.len() % 16 < 14 {
                assert(c1 + noops(0) =~= c1);
            }
        }
        assert(c2.len() % 16 < 14);
        assert(op.op_code == OpCode::Push ==> c2.len() % 8 == 0);
        assert(layout(ops) == c2.push(op));
        assert forall|i: int|
            0 <= i < c2.len() implies ((#[trigger] c2[i]).op_code == OpCode::Push ==> i % 8 == 0) && (i % 16
                >= 14 ==> c2[i].op_code == OpCode::Noop) by {
            if i < code.len() {
                assert(c2[i] == code[i]);
            }
        }
    }
}

/// In compiled code a `push` stands at a multiple of 8, so the sponge
/// absorbs it with a round, not a capacity reset, and its immediate enters
/// lane 1 on the same row as its opcode enters lane 0.
pub proof fn law_push_absorbed_with_immediate(ops: Seq<Operation>, i: int)
    requires
        0 <= i < padded_code(ops).len(),
        padded_code(ops)[i].op_code == OpCode::Push,
    ensures
        i % 8 == 0,
        sponge_absorb(padded_code(ops).subrange(0, i + 1)) == rescue_round(
            sponge_absorb(padded_code(ops).subrange(0, i)),
            16,
            op_imm_of(padded_code(ops)[i]) as int,
            i % 16,
        ),
{
    law_layout(ops);
    let code = padded_code(ops);
    let l = layout(ops);
    if i >= l.len() {
        assert(code[i] == plain_op(OpCode::Noop));
    }
    assert(code[i] == l[i]);
    let pre = code.subrange(0, i + 1);
    assert(pre.drop_last() =~= code.subrange(0, i));
    assert(pre.last() == code[i]);
}

/// Compiled code has only `noop` on the capacity-reset rows.
pub proof fn law_padded_reset_rows(ops: Seq<Operation>)
    ensures
        padded_code(ops).len() % 16 == 0,
        forall|i: int|
            0 <= i < padded_code(ops).len() && i % 16 >= 14 ==> (#[trigger] padded_code(ops)[i]).op_code
                == OpCode::Noop,
{
    law_layout(ops);
    let l = layout(ops);
    let code = padded_code(ops);
    assert forall|i: int| 0 <= i < code.len() && i % 16 >= 14 implies (#[trigger] code[i]).op_code == OpCode::Noop by {
        if i >= l.len() {
            assert(code[i] == plain_op(OpCode::Noop));
        } else {
            assert(code[i] == l[i]);
        }
    }
}

/// Code with only `noop` on the capacity-reset rows never trips the hash
/// chiplet: a run of it fails, if at all, with a stack error.
pub proof fn law_reset_rows_never_fail(
    code: Seq<Operation>,
    tape_a: Seq<u8>,
    tape_b: Seq<Seq<int>>,
    params: LweParameters,
)
    requires
        forall|i: int| 0 <= i < code.len() && i % 16 >= 14 ==> (#[trigger] code[i]).op_code == OpCode::Noop,
    ensures
        !(run_spec(code, tape_a, tape_b, params) is Err && run_spec(code, tape_a, tape_b, params)->Err_0 is Chiplets),
    decreases code.len(),
{
    if code.len() > 0 {
        let pre = code.drop_last();
        assert forall|i: int| 0 <= i < pre.len() && i % 16 >= 14 implies (#[trigger] pre[i]).op_code == OpCode::Noop by {
            assert(pre[i] == code[i]);
        }
        law_reset_rows_never_fail(pre, tape_a, tape_b, params);
        assert(code.last() == code[code.len() - 1]);
    }
}

/// A compiled program never trips the hash chiplet.
pub proof fn law_compiled_code_never_fails_in_hash_chiplet(
    ops: Seq<Operation>,
    tape_a: Seq<u8>,
    tape_b: Seq<Seq<int>>,
    params: LweParameters,
)
    ensures
        !(run_spec(padded_code(ops), tape_a, tape_b, params) is Err && run_spec(
            padded_code(ops),
            tape_a,
            tape_b,
            params,
        )->Err_0 is Chiplets),
{
    law_padded_reset_rows(ops);
    law_reset_rows_never_fail(padded_code(ops), tape_a, tape_b, params);
}

/// The run of a prefix of the code is the start of the run of the code.
proof fn lemma_run_prefix(code: Seq<Operation>, tape_a: Seq<u8>, tape_b: Seq<Seq<int>>, params: LweParameters, j: int)
    requires
        0 <= j <= code.len(),
        run_spec(code, tape_a, tape_b, params).is_ok(),
    ensures
        run_spec(code.subrange(0, j), tape_a, tape_b, params).is_ok(),
        run_spec(code.subrange(0, j), tape_a, tape_b, params)->Ok_0.rows == run_spec(
            code,
            tape_a,
            tape_b,
            params,
        )->Ok_0.rows.subrange(0, j + 1),
        run_spec(code.subrange(0, j), tape_a, tape_b, params)->Ok_0.depths == run_spec(
            code,
            tape_a,
            tape_b,
            params,
        )->Ok_0.depths.subrange(0, j + 1),
    decreases code.len() - j,
{
    law_run_stack_invariants(code, tape_a, tape_b, params);
    if j == code.len() {
        assert(code.subrange(0, j) =~= code);
        let st = run_spec(code, tape_a, tape_b, params)->Ok_0;
        assert(st.rows.subrange(0, j + 1) =~= st.rows);
        assert(st.depths.subrange(0, j + 1) =~= st.depths);
    } else {
        lemma_run_prefix(code, tape_a, tape_b, params, j + 1);
        let next = code.subrange(0, j + 1);
        assert(next.drop_last() =~= code.subrange(0, j));
        let st1 = run_spec(next, tape_a, tape_b, params)->Ok_0;
        let st0 = run_spec(code.subrange(0, j), tape_a, tape_b, params)->Ok_0;
        law_run_stack_invariants(code.subrange(0, j), tape_a, tape_b, params);
        assert(st0.rows =~= st1.rows.drop_last());
        assert(st0.depths =~= st1.depths.drop_last());
        let st = run_spec(code, tape_a, tape_b, params)->Ok_0;
        assert(st0.rows =~= st.rows.subrange(0, j + 1));
        assert(st0.depths =~= st.depths.subrange(0, j + 1));
    }
}

/// Each step of a successful run is a step of the stack: some tapes take
/// row `i` and its depth to row `i + 1` and its depth under operation `i`.
/// The secret tape after a successful run is what is left of the initial
/// one.
proof fn lemma_tape_b_suffix(code: Seq<Operation>, tape_a: Seq<u8>, tape_b: Seq<Seq<int>>, params: LweParameters)
    requires
        run_spec(code, tape_a, tape_b, params).is_ok(),
    ensures
        exists|k: int|
            0 <= k <= tape_b.len() && run_spec(code, tape_a, tape_b, params)->Ok_0.tape_b == tape_b.subrange(
                k,
                tape_b.len() as int,
            ),
    decreases code.len(),
{
    if code.len() == 0 {
        assert(tape_b.subrange(0, tape_b.len() as int) =~= tape_b);
    } else {
        lemma_tape_b_suffix(code.drop_last(), tape_a, tape_b, params);
        let st0 = run_spec(code.drop_last(), tape_a, tape_b, params)->Ok_0;
        let k = choose|k: int| 0 <= k <= tape_b.len() && st0.tape_b == tape_b.subrange(k, tape_b.len() as int);
        if code.last().op_code == OpCode::Read2 && st0.tape_b.len() > 0 {
            assert(st0.tape_b.drop_first() =~= tape_b.subrange(k + 1, tape_b.len() as int));
        }
    }
}

proof fn lemma_run_step(code: Seq<Operation>, tape_a: Seq<u8>, tape_b: Seq<Seq<int>>, params: LweParameters, i: int)
    requires
        0 <= i < code.len(),
        run_spec(code, tape_a, tape_b, params).is_ok(),
    ensures
        ({
            let st = run_spec(code, tape_a, tape_b, params)->Ok_0;
            exists|ta: Seq<u8>, k: int|
                0 <= k <= tape_b.len() && stack_next(
                    st.rows[i],
                    st.depths[i],
                    code[i],
                    ta,
                    tape_b.subrange(k, tape_b.len() as int),
                    params,
                ) == Ok::<(Seq<int>, int), StackErrorKind>((st.rows[i + 1], st.depths[i + 1]))
        }),
{
    law_run_stack_invariants(code, tape_a, tape_b, params);
    lemma_run_prefix(code, tape_a, tape_b, params, i);
    lemma_run_prefix(code, tape_a, tape_b, params, i + 1);
    let pre = code.subrange(0, i + 1);
    assert(pre.drop_last() =~= code.subrange(0, i));
    assert(pre.last() == code[i]);
    let st = run_spec(code, tape_a, tape_b, params)->Ok_0;
    let st0 = run_spec(code.subrange(0, i), tape_a, tape_b, params)->Ok_0;
    let st1 = run_spec(pre, tape_a, tape_b, params)->Ok_0;
    law_run_stack_invariants(code.subrange(0, i), tape_a, tape_b, params);
    law_run_stack_invariants(pre, tape_a, tape_b, params);
    let res = stack_next(st0.rows.last(), st0.depths.last(), code[i], st0.tape_a, st0.tape_b, params);
    assert(res is Ok);
    let (row, d) = res->Ok_0;
    assert(st1.rows == st0.rows.push(row));
    assert(st1.depths == st0.depths.push(d));
    assert(st0.rows.last() == st.rows.subrange(0, i + 1)[i]);
    assert(st0.depths.last() == st.depths.subrange(0, i + 1)[i]);
    assert(st1.rows[i + 1] == st.rows.subrange(0, i + 2)[i + 1]);
    assert(st1.depths[i + 1] == st.depths.subrange(0, i + 2)[i + 1]);
    assert(stack_next(st.rows[i], st.depths[i], code[i], st0.tape_a, st0.tape_b, params) == Ok::<
        (Seq<int>, int),
        StackErrorKind,
    >((st.rows[i + 1], st.depths[i + 1])));
    lemma_tape_b_suffix(code.subrange(0, i), tape_a, tape_b, params);
}

proof fn lemma_fe_mul_zero_one(x: int)
    requires
        0 <= x < MODULUS,
    ensures
        fe_mul(0, x) == 0,
        fe_mul(1, x) == x,
{
    vstd::arithmetic::div_mod::lemma_small_mod(x as nat, MODULUS as nat);
}

/// On every pair of consecutive rows before the random last row, the trace
/// of a successful run meets the clock constraint and the constraints of
/// `noop`, `push`, `read`, `add` and `mul`.
pub proof fn law_trace_meets_stack_constraints(
    cols: Seq<Vec<Felt>>,
    code: Seq<Operation>,
    tape_a: Seq<u8>,
    tape_b: Seq<Seq<int>>,
    params: LweParameters,
    len: int,
    last: Seq<Felt>,
)
    requires
        run_spec(code, tape_a, tape_b, params).is_ok(),
        trace_columns(cols, code, run_spec(code, tape_a, tape_b, params)->Ok_0, len, last),
    ensures
        forall|i: int|
            0 <= i < len - 2 ==> {
                let cur = #[trigger] row_at(cols, i);
                let nxt = row_at(cols, i + 1);
                &&& clock_spec(cur, nxt) == 0
                &&& noop_spec(cur, nxt) == 0
                &&& push_spec(cur, nxt) == 0
                &&& read_spec(cur, nxt) == 0
                &&& add_spec(cur, nxt) == 0
                &&& mul_spec(cur, nxt) == 0
            },
{
    let st = run_spec(code, tape_a, tape_b, params)->Ok_0;
    let n = code.len() as int;
    law_run_stack_invariants(code, tape_a, tape_b, params);
    law_one_indicator(cols, code, st, len, last);
    assert forall|i: int| 0 <= i < len - 2 implies {
        let cur = #[trigger] row_at(cols, i);
        let nxt = row_at(cols, i + 1);
        &&& clock_spec(cur, nxt) == 0
        &&& noop_spec(cur, nxt) == 0
        &&& push_spec(cur, nxt) == 0
        &&& read_spec(cur, nxt) == 0
        &&& add_spec(cur, nxt) == 0
        &&& mul_spec(cur, nxt) == 0
    } by {
        let cur = row_at(cols, i);
        let nxt = row_at(cols, i + 1);
        let rc = row_opcode(code, i);
        assert(cur[0] == i && nxt[0] == i + 1);
        assert forall|c: int| 0 <= c < 28 implies 0 <= #[trigger] cur[c] < MODULUS && 0 <= nxt[c] < MODULUS by {
            assert(cols[c]@[i].wf() && cols[c]@[i + 1].wf());
        }
        let r = if i < n { i } else { n };
        let r1 = if i + 1 < n { i + 1 } else { n };
        assert(forall|c: int| 0 <= c < 16 ==> #[trigger] cur[12 + c] == st.rows[r][c]);
        assert(forall|c: int| 0 <= c < 16 ==> #[trigger] nxt[12 + c] == st.rows[r1][c]);
        assert(cur[12 + 0int] == st.rows[r][0] && cur[12 + 1int] == st.rows[r][1]);
        assert(nxt[12 + 0int] == st.rows[r1][0] && nxt[12 + 1int] == st.rows[r1][1]);
        // the indicators of this row
        assert(indicator(cur, noop_bits()) == indicator(row_at(cols, i), indicator_bits(OpCode::Noop)));
        assert(indicator(cur, push_bits()) == indicator(row_at(cols, i), indicator_bits(OpCode::Push)));
        assert(indicator(cur, read_bits()) == indicator(row_at(cols, i), indicator_bits(OpCode::Read)));
        assert(indicator(cur, add_bits()) == indicator(row_at(cols, i), indicator_bits(OpCode::Add)));
        assert(indicator(cur, mul_bits()) == indicator(row_at(cols, i), indicator_bits(OpCode::Mul)));
        lemma_fe_mul_zero_one(fe_sub(nxt[12], cur[12]));
        lemma_fe_mul_zero_one(fe_sub(nxt[13], cur[12]));
        lemma_fe_mul_zero_one(fe_sub(nxt[12], fe_add(cur[12], cur[13])));
        lemma_fe_mul_zero_one(fe_sub(nxt[12], fe_mul(cur[12], cur[13])));
        assert(clock_spec(cur, nxt) == 0) by {
            vstd::arithmetic::div_mod::lemma_small_mod((i + 1) as nat, MODULUS as nat);
        }
        if i < n {
            lemma_run_step(code, tape_a, tape_b, params, i);
            let (ta, k) = choose|ta: Seq<u8>, k: int|
                0 <= k <= tape_b.len() && stack_next(
                    st.rows[i],
                    st.depths[i],
                    code[i],
                    ta,
                    tape_b.subrange(k, tape_b.len() as int),
                    params,
                ) == Ok::<(Seq<int>, int), StackErrorKind>((st.rows[i + 1], st.depths[i + 1]));
            assert(r1 == i + 1);
            let d = st.depths[i];
            assert(zero_above(st.rows[i], d));
            assert(0 <= d <= 16);
            if d == 0 {
                assert(st.rows[i][0] == 0);
            }
            if d <= 1 {
                assert(st.rows[i][1] == 0);
            }
            let nr = st.rows[i + 1];
            if rc == OpCode::Push || rc == OpCode::Read {
                assert(nr[1] == st.rows[i][0]);
            }
            if rc == OpCode::Add {
                assert(nr[0] == fe_add(st.rows[i][0], st.rows[i][1]));
            }
            if rc == OpCode::Mul {
                assert(nr[0] == fe_mul(st.rows[i][0], st.rows[i][1]));
            }
        } else {
            assert(r == r1);
        }
        assert(clock_spec(cur, nxt) == 0);
        assert(noop_spec(cur, nxt) == 0);
        assert(push_spec(cur, nxt) == 0);
        assert(read_spec(cur, nxt) == 0);
        assert(add_spec(cur, nxt) == 0);
        assert(mul_spec(cur, nxt) == 0);
    }
}

proof fn lemma_sum_diff_zero(a: Seq<int>, b: Seq<int>, n: nat)
    requires
        n <= a.len(),
        n <= b.len(),
        forall|j: int| 0 <= j < n ==> #[trigger] a[j] == b[j],
    ensures
        sum_diff(a, b, n) == 0,
    decreases n,
{
    if n > 0 {
        lemma_sum_diff_zero(a, b, (n - 1) as nat);
        assert(a[n - 1] == b[n - 1]);
    }
}

proof fn lemma_sum_diff_reduced(a: Seq<int>, b: Seq<int>, n: nat)
    ensures
        0 <= sum_diff(a, b, n) < MODULUS,
    decreases n,
{
}

/// One row of the ciphertext constraints below.
#[verifier::rlimit(100)]
#[verifier::spinoff_prover]
proof fn lemma_row_meets_ciphertext_constraints(
    cols: Seq<Vec<Felt>>,
    code: Seq<Operation>,
    tape_a: Seq<u8>,
    tape_b: Seq<Seq<int>>,
    params: LweParameters,
    len: int,
    last: Seq<Felt>,
    i: int,
)
    requires
        run_spec(code, tape_a, tape_b, params).is_ok(),
        trace_columns(cols, code, run_spec(code, tape_a, tape_b, params)->Ok_0, len, last),
        params.k == 4,
        forall|j: int| 0 <= j < tape_b.len() ==> (#[trigger] tape_b[j]).len() == 5,
        0 <= i < len - 2,
    ensures
        ({
            let cur = row_at(cols, i);
            let nxt = row_at(cols, i + 1);
            &&& stack_depth_spec(cur, nxt) == 0
            &&& read2_spec(cur, nxt) == 0
            &&& sadd_spec(cur, nxt, params) == 0
            &&& smul_spec(cur, nxt, params) == 0
            &&& add2_spec(cur, nxt, params) == 0
        }),
{
    let st = run_spec(code, tape_a, tape_b, params)->Ok_0;
    let n = code.len() as int;
    law_run_stack_invariants(code, tape_a, tape_b, params);
    law_one_indicator(cols, code, st, len, last);
    let cur = row_at(cols, i);
    let nxt = row_at(cols, i + 1);
    let rc = row_opcode(code, i);
    let r = if i < n { i } else { n };
    let r1 = if i + 1 < n { i + 1 } else { n };
    assert forall|c: int| 0 <= c < 16 implies #[trigger] cur[12 + c] == st.rows[r][c] && nxt[12 + c]
        == st.rows[r1][c] by {}
    assert(cur[11] == st.depths[r] && nxt[11] == st.depths[r1]);
    lemma_opcode_bits(rc);
    let code_v = if i < n { op_code_of(code[i]) as int } else { 0 };
    assert(code_v == opcode_value(rc) as int);
    assert(cols[1 + 4int]@[i]@ == bit(code_v, 4));
    assert(cols[1 + 3int]@[i]@ == bit(code_v, 3));
    assert(cur[5] == bit(opcode_value(rc) as int, 4));
    assert(cur[4] == bit(opcode_value(rc) as int, 3));
    assert(indicator(cur, read2_bits()) == indicator(row_at(cols, i), indicator_bits(OpCode::Read2)));
    assert(indicator(cur, sadd_bits()) == indicator(row_at(cols, i), indicator_bits(OpCode::SAdd)));
    assert(indicator(cur, smul_bits()) == indicator(row_at(cols, i), indicator_bits(OpCode::SMul)));
    assert(indicator(cur, add2_bits()) == indicator(row_at(cols, i), indicator_bits(OpCode::Add2)));
    let sub_next = nxt.subrange(12, 17);
    let sadd_v = scalar_add_ct(params, cur[12], cur.subrange(13, 18));
    let smul_v = scalar_mul_ct(params, cur[12], cur.subrange(13, 18));
    let add2_v = add_ct(5, cur.subrange(12, 17), cur.subrange(17, 22));
    lemma_sum_diff_reduced(sub_next, sadd_v, 5);
    lemma_sum_diff_reduced(sub_next, smul_v, 5);
    lemma_sum_diff_reduced(sub_next, add2_v, 5);
    lemma_fe_mul_zero_one(sum_diff(sub_next, sadd_v, 5));
    lemma_fe_mul_zero_one(sum_diff(sub_next, smul_v, 5));
    lemma_fe_mul_zero_one(sum_diff(sub_next, add2_v, 5));
    lemma_fe_mul_zero_one(fe_sub(nxt[17], cur[12]));
    lemma_fe_mul_zero_one(4);
    assert(cur.subrange(13, 13 + params.k + 1) == cur.subrange(13, 18));
    assert(cur.subrange(13 + params.k, 14 + 2 * params.k) == cur.subrange(17, 22));
    if i < n {
        lemma_run_step(code, tape_a, tape_b, params, i);
        let (ta, k) = choose|ta: Seq<u8>, k: int|
            0 <= k <= tape_b.len() && stack_next(
                st.rows[i],
                st.depths[i],
                code[i],
                ta,
                tape_b.subrange(k, tape_b.len() as int),
                params,
            ) == Ok::<(Seq<int>, int), StackErrorKind>((st.rows[i + 1], st.depths[i + 1]));
        let tb = tape_b.subrange(k, tape_b.len() as int);
        let d = st.depths[i];
        let row = st.rows[i];
        let nr = st.rows[i + 1];
        assert(zero_above(row, d));
        assert(0 <= d <= 16);
        if d == 0 {
            assert(row[0] == 0);
        }
        assert forall|j: int| 0 <= j < 5 implies #[trigger] cur.subrange(13, 18)[j] == row.subrange(1, 6)[j] by {
            assert(cur[12 + (j + 1)] == row[j + 1]);
        }
        assert forall|j: int| 0 <= j < 5 implies #[trigger] cur.subrange(12, 17)[j] == row.subrange(0, 5)[j] by {
            assert(cur[12 + j] == row[j]);
        }
        assert forall|j: int| 0 <= j < 5 implies #[trigger] cur.subrange(17, 22)[j] == row.subrange(5, 10)[j] by {
            assert(cur[12 + (j + 5)] == row[j + 5]);
        }
        assert forall|j: int| 0 <= j < 5 implies #[trigger] sub_next[j] == nr[j] by {
            assert(nxt[12 + j] == nr[j]);
        }
        assert(cur.subrange(13, 18) =~= row.subrange(1, 6));
        assert(cur.subrange(12, 17) =~= row.subrange(0, 5));
        assert(cur.subrange(17, 22) =~= row.subrange(5, 10));
        assert(cur[12 + 0int] == row[0]);
        if rc == OpCode::Read2 {
            assert(tb[0] == tape_b[k]);
            assert(tb[0].len() == 5);
            assert(nr[5] == row[0]);
            assert(nxt[12 + 5int] == nr[5]);
        }
        if rc == OpCode::SAdd {
            assert(sadd_v == scalar_add_ct(params, row[0], row.subrange(1, 6)));
            assert forall|j: int| 0 <= j < 5 implies #[trigger] sub_next[j] == sadd_v[j] by {
                assert(sub_next[j] == nr[j]);
            }
            lemma_sum_diff_zero(sub_next, sadd_v, 5);
            assert(sadd_spec(cur, nxt, params) == 0);
        }
        if rc == OpCode::SMul {
            assert(smul_v == scalar_mul_ct(params, row[0], row.subrange(1, 6)));
            assert forall|j: int| 0 <= j < 5 implies #[trigger] sub_next[j] == smul_v[j] by {
                assert(sub_next[j] == nr[j]);
            }
            lemma_sum_diff_zero(sub_next, smul_v, 5);
            assert(smul_spec(cur, nxt, params) == 0);
        }
        if rc == OpCode::Add2 {
            assert(add2_v == add_ct(5, row.subrange(0, 5), row.subrange(5, 10)));
            assert forall|j: int| 0 <= j < 5 implies #[trigger] sub_next[j] == add2_v[j] by {
                assert(sub_next[j] == nr[j]);
            }
            lemma_sum_diff_zero(sub_next, add2_v, 5);
            assert(add2_spec(cur, nxt, params) == 0);
        }
    } else {
        assert(r == r1);
    }
}

/// With ciphertexts of five elements (`k = 4`), on every pair of
/// consecutive rows before the random last row, the trace of a successful
/// run meets the depth constraint and the constraints of `read2`, `sadd`,
/// `smul` and `add2`.
pub proof fn law_trace_meets_ciphertext_constraints(
    cols: Seq<Vec<Felt>>,
    code: Seq<Operation>,
    tape_a: Seq<u8>,
    tape_b: Seq<Seq<int>>,
    params: LweParameters,
    len: int,
    last: Seq<Felt>,
)
    requires
        run_spec(code, tape_a, tape_b, params).is_ok(),
        trace_columns(cols, code, run_spec(code, tape_a, tape_b, params)->Ok_0, len, last),
        params.k == 4,
        forall|j: int| 0 <= j < tape_b.len() ==> (#[trigger] tape_b[j]).len() == 5,
    ensures
        forall|i: int|
            0 <= i < len - 2 ==> {
                let cur = #[trigger] row_at(cols, i);
                let nxt = row_at(cols, i + 1);
                &&& stack_depth_spec(cur, nxt) == 0
                &&& read2_spec(cur, nxt) == 0
                &&& sadd_spec(cur, nxt, params) == 0
                &&& smul_spec(cur, nxt, params) == 0
                &&& add2_spec(cur, nxt, params) == 0
            },
{
    assert forall|i: int| 0 <= i < len - 2 implies {
        let cur = #[trigger] row_at(cols, i);
        let nxt = row_at(cols, i + 1);
        &&& stack_depth_spec(cur, nxt) == 0
        &&& read2_spec(cur, nxt) == 0
        &&& sadd_spec(cur, nxt, params) == 0
        &&& smul_spec(cur, nxt, params) == 0
        &&& add2_spec(cur, nxt, params) == 0
    } by {
        lemma_row_meets_ciphertext_constraints(cols, code, tape_a, tape_b, params, len, last, i);
    }
}

/// The cycle mask on row `i`: 1 on the rounds, 0 on the capacity resets.
pub open spec fn cycle_mask(i: int) -> int {
    if i % 16 < 14 {
        1
    } else {
        0
    }
}

/// On every pair of consecutive rows before the random last row, the trace
/// meets the capacity-reset constraints, with the cycle mask of the row.
pub proof fn law_trace_meets_capacity_reset(
    cols: Seq<Vec<Felt>>,
    code: Seq<Operation>,
    st: RunState,
    len: int,
    last: Seq<Felt>,
)
    requires
        trace_columns(cols, code, st, len, last),
    ensures
        forall|i: int|
            0 <= i < len - 2 ==> #[trigger] hash_copy_spec(
                row_at(cols, i),
                row_at(cols, i + 1),
                cycle_mask(i),
            ) == seq![0int, 0, 0, 0],
{
    let n = code.len() as int;
    assert forall|i: int|
        0 <= i < len - 2 implies #[trigger] hash_copy_spec(
            row_at(cols, i),
            row_at(cols, i + 1),
            cycle_mask(i),
        ) == seq![0int, 0, 0, 0] by {
        let cur = row_at(cols, i);
        let nxt = row_at(cols, i + 1);
        let flag = cycle_mask(i);
        let g = fe_mul(not_spec(flag), cur[6]);
        assert(cur[6] == cols[6]@[i]@);
        assert forall|c: int| 0 <= c < 4 implies 0 <= #[trigger] cur[7 + c] < MODULUS && 0 <= nxt[7 + c] < MODULUS by {
            assert(cols[7 + c]@[i].wf() && cols[7 + c]@[i + 1].wf());
        }
        let s = sponge_absorb(code.subrange(0, if i < n { i } else { n }));
        let t = sponge_absorb(code.subrange(0, if i + 1 < n { i + 1 } else { n }));
        assert forall|c: int| 0 <= c < 4 implies #[trigger] cur[7 + c] == s[c] && nxt[7 + c] == t[c] by {}
        assert(cur[7 + 0int] == s[0] && cur[7 + 1int] == s[1] && nxt[7 + 0int] == t[0] && nxt[7 + 1int] == t[1]
            && nxt[7 + 2int] == t[2] && nxt[7 + 3int] == t[3]);
        assert(cur[6] == if i < n { 1int } else { 0 });
        assert(flag == 1 ==> not_spec(flag) == 0);
        assert(flag == 1 || cur[6] == 0 ==> g == 0);
        if g != 0 {
            assert(flag == 0 && i < n);
            let pre = code.subrange(0, i + 1);
            assert(pre.drop_last() =~= code.subrange(0, i));
            assert(t == sponge_absorb(pre));
            assert(t == seq![s[0], s[1], 0, 0]);
        } else {
            lemma_fe_mul_zero_one(fe_sub(nxt[7], cur[7]));
            lemma_fe_mul_zero_one(fe_sub(nxt[8], cur[8]));
            lemma_fe_mul_zero_one(nxt[9]);
            lemma_fe_mul_zero_one(nxt[10]);
        }
        assert(hash_copy_spec(cur, nxt, flag) =~= seq![0int, 0, 0, 0]);
    }
}

/// Compiling depends on the tokens alone: two sources with the same tokens,
/// whatever their white space and comments, give the same code and error.
pub proof fn law_formatting_irrelevant(s1: Seq<u8>, s2: Seq<u8>)
    requires
        tokens(s1) == tokens(s2),
    ensures
        compile_spec(s1) == compile_spec(s2),
{
}

/// A `push` on a full stack fails with an overflow.
pub proof fn law_push_on_full_stack(
    row: Seq<int>,
    value: u8,
    tape_a: Seq<u8>,
    tape_b: Seq<Seq<int>>,
    params: LweParameters,
)
    ensures
        stack_next(
            row,
            16,
            Operation { op_code: OpCode::Push, op_value: OpValue::Push(value) },
            tape_a,
            tape_b,
            params,
        ) == Err::<(Seq<int>, int), StackErrorKind>(StackErrorKind::StackOverflow),
{
}

/// Reading from an empty tape fails with `EmptyInput`: `read` when the
/// stack has room, `read2` always.
pub proof fn law_read_empty_tape(row: Seq<int>, depth: int, tape_b: Seq<Seq<int>>, params: LweParameters)
    requires
        depth < 16,
    ensures
        stack_next(
            row,
            depth,
            Operation { op_code: OpCode::Read, op_value: OpValue::Empty },
            seq![],
            tape_b,
            params,
        ) == Err::<(Seq<int>, int), StackErrorKind>(StackErrorKind::EmptyInput),
        stack_next(
            row,
            depth,
            Operation { op_code: OpCode::Read2, op_value: OpValue::Empty },
            seq![],
            seq![],
            params,
        ) == Err::<(Seq<int>, int), StackErrorKind>(StackErrorKind::EmptyInput),
{
}

} // verus!
