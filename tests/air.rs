use fhe_vm::air::{
    enforce_add, enforce_add2, enforce_clock_increase, enforce_hash_copy, enforce_hash_round, enforce_mul,
    enforce_noop, enforce_push, enforce_read, enforce_read2, enforce_sadd, enforce_smul, enforce_stack_depth,
    enforce_stack_shift, get_assertions, get_periodic_column_values, opcode_to_element, EvaluationFrameExtBits, Frame,
};
use fhe_vm::fhe::{LweParameters, ServerKey};
use fhe_vm::field::Felt;
use fhe_vm::rescue::{apply_round, ARK};

fn zeros() -> Vec<Felt> {
    vec![Felt::zero(); 28]
}

fn el(v: u8) -> Felt {
    Felt::from_u8(v)
}

fn server_key() -> ServerKey {
    let std = 2.412_390_240_121_573e-5_f64;
    ServerKey::new(LweParameters::new(8, 128, 4, std.to_bits()))
}

#[test]
fn test_enforce_clock_increase() {
    let mut current = zeros();
    let mut next = zeros();
    current[0] = el(3);
    next[0] = el(4);
    let frame = Frame::from_rows(current, next);
    assert_eq!(enforce_clock_increase(&frame), Felt::zero())
}

#[test]
fn test_enforce_stack_shift() {
    for values in [[0u8, 0], [1, 0], [0, 1]].iter() {
        let mut current = zeros();
        let next = zeros();
        current[4] = el(values[0]);
        current[5] = el(values[1]);
        let frame = Frame::from_rows(current, next);
        assert_eq!(enforce_stack_shift(&frame), Felt::zero());
    }
}

#[test]
fn test_enforce_stack_depth() {
    for (&depth, opcode) in
        [1i8, -1, 5, -5].iter().zip([[0u8, 0, 0, 0, 1], [0, 0, 0, 1, 0], [0, 1, 0, 0, 1], [1, 1, 0, 1, 0]])
    {
        let mut current = zeros();
        let mut next = zeros();
        current[1] = el(opcode[0]);
        current[2] = el(opcode[1]);
        current[3] = el(opcode[2]);
        current[4] = el(opcode[3]);
        current[5] = el(opcode[4]);
        current[11] = el(10);
        next[11] = el((10 + depth) as u8);
        let frame = Frame::from_rows(current, next);
        assert_eq!(enforce_stack_depth(&frame), Felt::zero());
    }
}

#[test]
fn test_enforce_add() {
    let mut current = zeros();
    let mut next = zeros();
    current[4] = Felt::one();
    current[12] = el(4);
    current[13] = el(2);
    next[12] = el(6);
    let frame = Frame::from_rows(current, next);
    assert_eq!(enforce_add(&frame), Felt::zero())
}

#[test]
fn add_constraint_catches_a_wrong_sum() {
    let mut current = zeros();
    let mut next = zeros();
    current[4] = Felt::one();
    current[12] = el(4);
    current[13] = el(2);
    next[12] = el(7);
    let frame = Frame::from_rows(current, next);
    assert_eq!(enforce_add(&frame), Felt::one())
}

#[test]
fn test_enforce_sadd() {
    let mut current = zeros();
    let mut next = zeros();
    let server_key = server_key();
    let value = server_key.encrypt(4u8, 0);
    let value_ct = value.ciphertext();
    current[2] = Felt::one();
    current[4] = Felt::one();
    current[12] = el(4);
    for i in 0..5 {
        current[13 + i] = value_ct[i];
    }
    let result = server_key.scalar_add(&el(4), &value);
    let result_ct = result.ciphertext();
    for i in 0..5 {
        next[12 + i] = result_ct[i];
    }
    let frame = Frame::from_rows(current, next);
    assert_eq!(enforce_sadd(&frame, &server_key), Felt::zero())
}

#[test]
fn test_enforce_add2() {
    let mut current = zeros();
    let mut next = zeros();
    let server_key = server_key();
    let value0 = server_key.encrypt(4u8, 0);
    let value_ct0 = value0.ciphertext();
    let value1 = server_key.encrypt(6u8, 0);
    let value_ct1 = value1.ciphertext();
    current[1] = Felt::one();
    current[2] = Felt::one();
    current[4] = Felt::one();
    for i in 0..5 {
        current[12 + i] = value_ct0[i];
        current[17 + i] = value_ct1[i];
    }
    let result = server_key.add(&value0, &value1);
    let result_ct = result.ciphertext();
    for i in 0..5 {
        next[12 + i] = result_ct[i];
    }
    let frame = Frame::from_rows(current, next);
    assert_eq!(enforce_add2(&frame, &server_key), Felt::zero())
}

#[test]
fn test_enforce_mul() {
    let mut current = zeros();
    let mut next = zeros();
    current[1] = Felt::one();
    current[4] = Felt::one();
    current[12] = el(4);
    current[13] = el(2);
    next[12] = el(8);
    let frame = Frame::from_rows(current, next);
    assert_eq!(enforce_mul(&frame), Felt::zero())
}

#[test]
fn test_enforce_smul() {
    let mut current = zeros();
    let mut next = zeros();
    let server_key = server_key();
    let value = server_key.encrypt(4u8, 0);
    let value_ct = value.ciphertext();
    current[3] = Felt::one();
    current[4] = Felt::one();
    current[12] = el(4);
    for i in 0..5 {
        current[13 + i] = value_ct[i];
    }
    let result = server_key.scalar_mul(&el(4), &value);
    let result_ct = result.ciphertext();
    for i in 0..5 {
        next[12 + i] = result_ct[i];
    }
    let frame = Frame::from_rows(current, next);
    assert_eq!(enforce_smul(&frame, &server_key), Felt::zero())
}

#[test]
fn test_enforce_push() {
    let mut current = zeros();
    let mut next = zeros();
    current[5] = Felt::one();
    current[12] = el(4);
    next[13] = el(4);
    let frame = Frame::from_rows(current, next);
    assert_eq!(enforce_push(&frame), Felt::zero())
}

#[test]
fn test_enforce_read() {
    let mut current = zeros();
    let mut next = zeros();
    current[1] = Felt::one();
    current[5] = Felt::one();
    current[12] = el(4);
    next[13] = el(4);
    let frame = Frame::from_rows(current, next);
    assert_eq!(enforce_read(&frame), Felt::zero())
}

#[test]
fn test_enforce_read2() {
    let mut current = zeros();
    let mut next = zeros();
    current[2] = Felt::one();
    current[5] = Felt::one();
    current[12] = el(4);
    next[17] = el(4);
    let frame = Frame::from_rows(current, next);
    assert_eq!(enforce_read2(&frame), Felt::zero())
}

#[test]
fn test_enforce_noop() {
    let mut current = zeros();
    let mut next = zeros();
    current[12] = el(4);
    next[12] = el(4);
    let frame = Frame::from_rows(current, next);
    assert_eq!(enforce_noop(&frame), Felt::zero())
}

fn ark_row(r: usize) -> Vec<Felt> {
    ARK[r].iter().map(|v| Felt::new(*v)).collect()
}

#[test]
fn test_enforce_hash_round() {
    let mut current = zeros();
    let mut next = zeros();
    let mut state = vec![Felt::zero(); 4];
    current[5] = Felt::one();
    current[6] = Felt::one();
    for i in 0..4 {
        current[7 + i] = state[i];
    }
    apply_round(&mut state, 16, 2, 0);
    for i in 0..4 {
        next[7 + i] = state[i];
    }
    next[12] = el(2);
    let frame = Frame::from_rows(current, next);
    let result = enforce_hash_round(&frame, Felt::one(), &ark_row(0));
    assert_eq!(result, vec![Felt::zero(); 4])
}

#[test]
fn hash_round_catches_a_wrong_immediate() {
    let mut current = zeros();
    let mut next = zeros();
    let mut state = vec![Felt::zero(); 4];
    current[5] = Felt::one();
    current[6] = Felt::one();
    apply_round(&mut state, 16, 2, 0);
    for i in 0..4 {
        next[7 + i] = state[i];
    }
    next[12] = el(3);
    let frame = Frame::from_rows(current, next);
    let result = enforce_hash_round(&frame, Felt::one(), &ark_row(0));
    assert_ne!(result, vec![Felt::zero(); 4])
}

#[test]
fn test_enforce_hash_copy() {
    let mut current = zeros();
    let mut next = zeros();
    current[6] = Felt::one();
    current[7] = el(2);
    current[8] = el(4);
    current[9] = el(6);
    current[10] = el(8);
    next[7] = el(2);
    next[8] = el(4);
    next[9] = Felt::zero();
    next[10] = Felt::zero();
    let frame = Frame::from_rows(current, next);
    let result = enforce_hash_copy(&frame, Felt::zero());
    assert_eq!(result, vec![Felt::zero(); 4])
}

#[test]
fn test_opcode_to_element() {
    let mut current = zeros();
    let next = zeros();
    current[1] = Felt::one();
    current[2] = Felt::one();
    current[4] = Felt::one();
    let frame = Frame::from_rows(current, next);
    assert_eq!(opcode_to_element(&frame), el(11));
    assert_eq!(frame.b1(), Felt::one());
    assert_eq!(frame.b0(), Felt::zero());
}

#[test]
fn periodic_columns_and_assertions() {
    let periodic = get_periodic_column_values();
    assert_eq!(periodic.len(), 9);
    assert_eq!(periodic[0][13], Felt::one());
    assert_eq!(periodic[0][14], Felt::zero());
    assert_eq!(periodic[1][0], Felt::new(ARK[0][0]));
    assert_eq!(periodic[8][15], Felt::zero());
    let hash = fhe_vm::rescue::Hash::new(el(1), el(2));
    let outputs: Vec<Felt> = (0..16).map(|i| el(i as u8 + 10)).collect();
    let assertions = get_assertions(&hash, &outputs, 30);
    assert_eq!(assertions.len(), 22);
    assert_eq!(assertions[3].column, 7);
    assert_eq!(assertions[3].step, 30);
    assert_eq!(assertions[3].value, el(1));
    assert_eq!(assertions[21].column, 19);
    assert_eq!(assertions[21].value, el(17));
}
