use fhe_vm::fhe::{FheUInt8, LweParameters, ServerKey};
use fhe_vm::field::{Felt, MODULUS};

fn default_key() -> ServerKey {
    let plaintext_modulus: u32 = 8u32;
    let ciphertext_modulus: u32 = 128u32;
    let k: usize = 4;
    let std = 2.412_390_240_121_573e-5_f64;
    let parameters = LweParameters::new(plaintext_modulus, ciphertext_modulus, k, std.to_bits());
    ServerKey::new(parameters)
}

#[test]
fn test_server_key_encryption() {
    let server_key = default_key();
    let clear_x = 33u8;
    let x = server_key.encrypt(clear_x, 0);
    assert_eq!(clear_x, server_key.decrypt(&x))
}

#[test]
fn test_addition() {
    let server_key = default_key();
    let a = server_key.encrypt(5u8, 0);
    let b = server_key.encrypt(10u8, 0);
    let result = server_key.add(&a, &b);
    assert_eq!(5u8 + 10u8, server_key.decrypt(&result))
}

#[test]
fn test_scalar_addition() {
    let server_key = default_key();
    let a = Felt::from_u8(3u8);
    let x = server_key.encrypt(33u8, 0);
    let result = server_key.scalar_add(&a, &x);
    assert_eq!(3u8 + 33u8, server_key.decrypt(&result))
}

#[test]
fn test_scalar_multiplication() {
    let server_key = default_key();
    let a = Felt::from_u8(3u8);
    let x = server_key.encrypt(33u8, 0);
    let result = server_key.scalar_mul(&a, &x);
    assert_eq!(3u8 * 33u8, server_key.decrypt(&result))
}

#[test]
fn parameters_and_key_shape() {
    let key = default_key();
    assert_eq!(key.parameters.delta, 16);
    assert_eq!(key.lwe_size(), 5);
    assert_eq!(key.key().len(), 4);
    for bit in key.key() {
        assert!(bit.as_int() <= 1);
    }
}

#[test]
fn decrypt_of_encrypt_for_every_byte_and_small_noise() {
    let key = default_key();
    for m in 0..=255u8 {
        for noise in [0i64, 1, 7] {
            let ct = key.encrypt(m, noise);
            assert_eq!(ct.ciphertext().len(), 5);
            assert_eq!(key.decrypt(&ct), m);
        }
    }
    // negative noise rounds back up for a non-zero message
    let ct = key.encrypt(5, -3);
    assert_eq!(key.decrypt(&ct), 5);
}

#[test]
fn homomorphic_laws_on_values() {
    let key = default_key();
    let x = key.encrypt(200, 0);
    let y = key.encrypt(100, 0);
    // results wrap modulo 256
    assert_eq!(key.decrypt(&key.add(&x, &y)), 44);
    assert_eq!(key.decrypt(&key.scalar_add(&Felt::from_u8(60), &x)), 4);
    assert_eq!(key.decrypt(&key.scalar_mul(&Felt::from_u8(2), &x)), 144);
}

#[test]
fn trivial_encryption_decrypts_without_mask() {
    let key = default_key();
    let t = key.encrypt_trivial(&Felt::from_u8(9));
    let ct = t.ciphertext();
    assert_eq!(ct.len(), 5);
    for i in 0..4 {
        assert_eq!(ct[i], Felt::zero());
    }
    assert_eq!(ct[4], Felt::from_u8(144));
    assert_eq!(key.decrypt(&t), 9);
}

#[test]
fn scalar_operations_touch_the_right_components() {
    let key = default_key();
    let ct = FheUInt8::new(&vec![Felt::from_u8(1), Felt::from_u8(2), Felt::from_u8(3), Felt::from_u8(4), Felt::from_u8(5)]);
    let added = key.scalar_add(&Felt::from_u8(2), &ct);
    assert_eq!(
        added.ciphertext().to_vec(),
        vec![Felt::from_u8(1), Felt::from_u8(2), Felt::from_u8(3), Felt::from_u8(4), Felt::from_u8(37)]
    );
    let scaled = key.scalar_mul(&Felt::from_u8(3), &ct);
    assert_eq!(
        scaled.ciphertext().to_vec(),
        vec![Felt::from_u8(3), Felt::from_u8(6), Felt::from_u8(9), Felt::from_u8(12), Felt::from_u8(15)]
    );
}

#[test]
fn field_arithmetic_wraps_modulo_the_prime() {
    let top = Felt::new(MODULUS - 1);
    assert_eq!(top.add(Felt::from_u8(2)), Felt::one());
    assert_eq!(Felt::zero().sub(Felt::one()), top);
    assert_eq!(top.mul(top), Felt::one());
    assert_eq!(Felt::from_u8(2).exp(128).as_int(), 45 * (1u128 << 40) - 1);
    assert_eq!(Felt::from_u8(7).exp(0), Felt::one());
    assert_eq!(Felt::new(MODULUS + 5), Felt::from_u8(5));
    let x = Felt::from_u32(123456789);
    let cube = x.exp(3);
    let inv = fhe_vm::rescue::INV_ALPHA;
    assert_eq!(cube.exp(inv), x);
}
