use crate::field::{fe_add, fe_mul, fe_sub, MODULUS};
use crate::fhe::{add_ct, decode, decrypt_spec, inner, log2_floor, phase, scalar_add_ct, scalar_mul_ct, LweParameters};
use vstd::arithmetic::div_mod::{
    lemma_add_mod_noop, lemma_add_mod_noop_right, lemma_fundamental_div_mod_converse, lemma_mul_mod_noop_left,
    lemma_mul_mod_noop_right, lemma_small_mod, lemma_sub_mod_noop,
};
use vstd::arithmetic::power2::{lemma_pow2_pos, lemma_pow2_unfold, pow2};
use vstd::prelude::*;

verus! {

/// Every entry is a reduced field element.
pub open spec fn reduced(s: Seq<int>) -> bool {
    forall|i: int| 0 <= i < s.len() ==> 0 <= #[trigger] s[i] < MODULUS
}

/// The parameters decrypt exactly: `delta` is a power of two above 1.
pub open spec fn exact_delta(params: LweParameters) -> bool {
    &&& params.delta >= 2
    &&& params.delta as nat == pow2(log2_floor(params.delta as nat))
}

/// Half of `delta`: the noise must stay below it.
pub open spec fn noise_bound(params: LweParameters) -> int {
    pow2((log2_floor(params.delta as nat) - 1) as nat) as int
}

proof fn lemma_log2_pos(x: nat)
    requires
        x >= 2,
    ensures
        log2_floor(x) >= 1,
{
}

/// The phase `delta * w + e` decodes to `w` when the noise is below half of
/// `delta`.
pub proof fn lemma_decode_exact(l: nat, w: int, e: int)
    requires
        l >= 1,
        w >= 0,
        0 <= e < pow2((l - 1) as nat),
    ensures
        decode(pow2(l) * w + e, l) == w % 256,
{
    let d = pow2(l) as int;
    let h = pow2((l - 1) as nat) as int;
    lemma_pow2_unfold(l);
    lemma_pow2_pos((l - 1) as nat);
    assert(d * w == (2 * w) * h) by (nonlinear_arith)
        requires
            d == 2 * h,
    ;
    lemma_fundamental_div_mod_converse(d * w + e, d, w, e);
    lemma_fundamental_div_mod_converse(d * w + e, h, 2 * w, e);
    assert((2 * w) % 2 == 0);
}

proof fn lemma_inner_reduced(ct: Seq<int>, key: Seq<int>, n: nat)
    ensures
        0 <= inner(ct, key, n) < MODULUS,
    decreases n,
{
}

proof fn lemma_inner_ext(a: Seq<int>, b: Seq<int>, key: Seq<int>, n: nat)
    requires
        n <= a.len(),
        n <= b.len(),
        forall|i: int| 0 <= i < n ==> #[trigger] a[i] == b[i],
    ensures
        inner(a, key, n) == inner(b, key, n),
    decreases n,
{
    if n > 0 {
        lemma_inner_ext(a, b, key, (n - 1) as nat);
        assert(a[n - 1] == b[n - 1]);
    }
}

/// `((x % m) - y) % m == (x - y) % m` for reduced `y`, and the like.
proof fn lemma_shuffle_add_sub(b: int, t: int, i: int)
    requires
        0 <= i < MODULUS,
    ensures
        fe_sub(fe_add(b, t), i) == fe_add(fe_sub(b, i), t),
{
    let m = MODULUS as int;
    lemma_small_mod(i as nat, m as nat);
    lemma_sub_mod_noop(b + t, i, m);
    lemma_add_mod_noop_right(t, b - i, m);
    assert(b + t - i == t + (b - i));
}

/// Adding a scalar adds `delta * s` to the phase.
pub proof fn lemma_phase_scalar_add(key: Seq<int>, params: LweParameters, s: int, ct: Seq<int>)
    requires
        ct.len() == params.k + 1,
        reduced(ct),
    ensures
        phase(key, params.k as nat, scalar_add_ct(params, s, ct)) == fe_add(
            phase(key, params.k as nat, ct),
            fe_mul(params.delta as int, s),
        ),
{
    let k = params.k as nat;
    let c2 = scalar_add_ct(params, s, ct);
    assert forall|i: int| 0 <= i < k implies #[trigger] c2[i] == ct[i] by {
        lemma_small_mod(ct[i] as nat, MODULUS as nat);
    }
    lemma_inner_ext(c2, ct, key, k);
    lemma_inner_reduced(ct, key, k);
    lemma_shuffle_add_sub(ct[k as int], fe_mul(params.delta as int, s), inner(ct, key, k));
}

proof fn lemma_inner_scalar_mul(ct: Seq<int>, key: Seq<int>, s: int, n: nat)
    requires
        n <= ct.len(),
    ensures
        inner(Seq::new(ct.len(), |i: int| fe_mul(ct[i], s)), key, n) == fe_mul(inner(ct, key, n), s),
    decreases n,
{
    let m = MODULUS as int;
    let c2 = Seq::new(ct.len(), |i: int| fe_mul(ct[i], s));
    if n > 0 {
        lemma_inner_scalar_mul(ct, key, s, (n - 1) as nat);
        let i0 = inner(ct, key, (n - 1) as nat);
        let c = ct[n - 1];
        let kk = key[n - 1];
        assert(c2[n - 1] == fe_mul(c, s));
        // left side: ((i0 s % m) + ((c s % m) kk % m)) % m
        lemma_mul_mod_noop_left(c * s, kk, m);
        lemma_add_mod_noop(i0 * s, c * s * kk, m);
        // right side: ((i0 + c kk % m) % m * s) % m
        lemma_mul_mod_noop_left(i0 + (c * kk) % m, s, m);
        assert((i0 + (c * kk) % m) * s == i0 * s + ((c * kk) % m) * s) by (nonlinear_arith);
        lemma_mul_mod_noop_left(c * kk, s, m);
        lemma_add_mod_noop_right(i0 * s, ((c * kk) % m) * s, m);
        lemma_add_mod_noop_right(i0 * s, (c * kk) * s, m);
        assert(c * s * kk == (c * kk) * s) by (nonlinear_arith);
        assert(fe_add(fe_mul(i0, s), fe_mul(fe_mul(c, s), kk)) == (i0 * s + c * s * kk) % m);
        assert(fe_mul(fe_add(i0, fe_mul(c, kk)), s) == (i0 * s + (c * kk) * s) % m);
    }
}

/// Multiplying by a scalar multiplies the phase.
pub proof fn lemma_phase_scalar_mul(key: Seq<int>, params: LweParameters, s: int, ct: Seq<int>)
    requires
        ct.len() == params.k + 1,
    ensures
        phase(key, params.k as nat, scalar_mul_ct(params, s, ct)) == fe_mul(phase(key, params.k as nat, ct), s),
{
    let m = MODULUS as int;
    let k = params.k as nat;
    let c2 = scalar_mul_ct(params, s, ct);
    assert(c2 =~= Seq::new(ct.len(), |i: int| fe_mul(ct[i], s)));
    lemma_inner_scalar_mul(ct, key, s, k);
    let b = ct[k as int];
    let i0 = inner(ct, key, k);
    lemma_sub_mod_noop(b * s, i0 * s, m);
    lemma_mul_mod_noop_left(b - i0, s, m);
    assert((b - i0) * s == b * s - i0 * s) by (nonlinear_arith);
}

proof fn lemma_inner_add(a: Seq<int>, b: Seq<int>, key: Seq<int>, n: nat)
    requires
        n <= a.len(),
        n <= b.len(),
    ensures
        inner(Seq::new(n, |i: int| fe_add(a[i], b[i])), key, n) == fe_add(inner(a, key, n), inner(b, key, n)),
    decreases n,
{
    let m = MODULUS as int;
    if n > 0 {
        let c2 = Seq::new(n, |i: int| fe_add(a[i], b[i]));
        let c1 = Seq::new((n - 1) as nat, |i: int| fe_add(a[i], b[i]));
        lemma_inner_add(a, b, key, (n - 1) as nat);
        lemma_inner_ext(c2, c1, key, (n - 1) as nat);
        let ia = inner(a, key, (n - 1) as nat);
        let ib = inner(b, key, (n - 1) as nat);
        let x = a[n - 1];
        let y = b[n - 1];
        let kk = key[n - 1];
        lemma_mul_mod_noop_left(x + y, kk, m);
        assert((x + y) * kk == x * kk + y * kk) by (nonlinear_arith);
        lemma_add_mod_noop(ia + ib, (x + y) * kk, m);
        lemma_add_mod_noop(ia, ib, m);
        lemma_add_mod_noop(ia + x * kk, ib + y * kk, m);
        lemma_add_mod_noop(ia, x * kk, m);
        lemma_add_mod_noop(ib, y * kk, m);
        lemma_inner_reduced(a, key, (n - 1) as nat);
        lemma_inner_reduced(b, key, (n - 1) as nat);
        lemma_small_mod(ia as nat, m as nat);
        lemma_small_mod(ib as nat, m as nat);
        assert(fe_add(fe_add(ia, ib), fe_mul(fe_add(x, y), kk)) == (ia + ib + (x + y) * kk) % m);
        assert(fe_add(fe_add(ia, fe_mul(x, kk)), fe_add(ib, fe_mul(y, kk))) == (ia + x * kk + (ib + y * kk)) % m);
    }
}

/// The phase of a sum is the sum of the phases.
pub proof fn lemma_phase_add(key: Seq<int>, params: LweParameters, ct0: Seq<int>, ct1: Seq<int>)
    requires
        ct0.len() == params.k + 1,
        ct1.len() == params.k + 1,
    ensures
        phase(key, params.k as nat, add_ct((params.k + 1) as nat, ct0, ct1)) == fe_add(
            phase(key, params.k as nat, ct0),
            phase(key, params.k as nat, ct1),
        ),
{
    let m = MODULUS as int;
    let k = params.k as nat;
    let c2 = add_ct((k + 1) as nat, ct0, ct1);
    let c3 = Seq::new(k, |i: int| fe_add(ct0[i], ct1[i]));
    lemma_inner_ext(c2, c3, key, k);
    lemma_inner_add(ct0, ct1, key, k);
    let i0 = inner(ct0, key, k);
    let i1 = inner(ct1, key, k);
    let b0 = ct0[k as int];
    let b1 = ct1[k as int];
    lemma_inner_reduced(ct0, key, k);
    lemma_inner_reduced(ct1, key, k);
    lemma_sub_mod_noop(b0 + b1, i0 + i1, m);
    lemma_add_mod_noop(b0 - i0, b1 - i1, m);
    lemma_add_mod_noop(b0, b1, m);
    lemma_add_mod_noop(i0, i1, m);
    assert(fe_sub(fe_add(b0, b1), fe_add(i0, i1)) == (b0 + b1 - (i0 + i1)) % m);
}

/// Adding a public scalar `a` to a ciphertext of `w` with noise below half
/// of `delta` gives a ciphertext of `a + w`: its decryption is
/// `(a + decrypt(ct)) mod 256`, as long as the phase does not wrap.
pub proof fn law_decrypt_scalar_add(key: Seq<int>, params: LweParameters, ct: Seq<int>, a: int, w: int, e: int)
    requires
        ct.len() == params.k + 1,
        reduced(ct),
        exact_delta(params),
        w >= 0,
        0 <= e < noise_bound(params),
        phase(key, params.k as nat, ct) == params.delta * w + e,
        0 <= a,
        params.delta * (w + a) + e < MODULUS,
    ensures
        decrypt_spec(key, params, scalar_add_ct(params, a, ct)) == (a + decrypt_spec(key, params, ct)) % 256,
{
    let l = log2_floor(params.delta as nat);
    let d = params.delta as int;
    lemma_log2_pos(params.delta as nat);
    lemma_phase_scalar_add(key, params, a, ct);
    assert(d * (w + a) == d * w + d * a) by (nonlinear_arith);
    assert(0 <= d * a) by (nonlinear_arith)
        requires
            d >= 2,
            a >= 0,
    ;
    lemma_small_mod((d * a) as nat, MODULUS as nat);
    lemma_small_mod((d * w + e + d * a) as nat, MODULUS as nat);
    lemma_decode_exact(l, w + a, e);
    lemma_decode_exact(l, w, e);
    lemma_add_mod_noop_right(a, w, 256);
}

/// Multiplying a ciphertext of `w` by a public scalar `a` gives a ciphertext
/// of `a * w`: its decryption is `(a * decrypt(ct)) mod 256`, as long as the
/// scaled noise stays below half of `delta` and the phase does not wrap.
pub proof fn law_decrypt_scalar_mul(key: Seq<int>, params: LweParameters, ct: Seq<int>, a: int, w: int, e: int)
    requires
        ct.len() == params.k + 1,
        exact_delta(params),
        w >= 0,
        0 <= e < noise_bound(params),
        phase(key, params.k as nat, ct) == params.delta * w + e,
        0 <= a,
        a * e < noise_bound(params),
        a * (params.delta * w + e) < MODULUS,
    ensures
        decrypt_spec(key, params, scalar_mul_ct(params, a, ct)) == (a * decrypt_spec(key, params, ct)) % 256,
{
    let l = log2_floor(params.delta as nat);
    let d = params.delta as int;
    lemma_log2_pos(params.delta as nat);
    lemma_phase_scalar_mul(key, params, a, ct);
    assert(a * (d * w + e) == d * (a * w) + a * e) by (nonlinear_arith);
    assert(0 <= a * (d * w + e)) by (nonlinear_arith)
        requires
            a >= 0,
            d >= 2,
            w >= 0,
            e >= 0,
    ;
    assert(0 <= a * w) by (nonlinear_arith)
        requires
            a >= 0,
            w >= 0,
    ;
    assert(0 <= a * e) by (nonlinear_arith)
        requires
            a >= 0,
            e >= 0,
    ;
    assert((d * w + e) * a == a * (d * w + e)) by (nonlinear_arith);
    lemma_small_mod((a * (d * w + e)) as nat, MODULUS as nat);
    lemma_decode_exact(l, a * w, a * e);
    lemma_decode_exact(l, w, e);
    lemma_mul_mod_noop_right(a, w, 256);
}

/// Adding ciphertexts of `w0` and `w1` gives a ciphertext of `w0 + w1`:
/// its decryption is `(decrypt(ct0) + decrypt(ct1)) mod 256`, as long as the
/// summed noise stays below half of `delta` and the phase does not wrap.
pub proof fn law_decrypt_add(
    key: Seq<int>,
    params: LweParameters,
    ct0: Seq<int>,
    ct1: Seq<int>,
    w0: int,
    e0: int,
    w1: int,
    e1: int,
)
    requires
        ct0.len() == params.k + 1,
        ct1.len() == params.k + 1,
        exact_delta(params),
        w0 >= 0,
        w1 >= 0,
        e0 >= 0,
        e1 >= 0,
        e0 + e1 < noise_bound(params),
        phase(key, params.k as nat, ct0) == params.delta * w0 + e0,
        phase(key, params.k as nat, ct1) == params.delta * w1 + e1,
        params.delta * (w0 + w1) + e0 + e1 < MODULUS,
    ensures
        decrypt_spec(key, params, add_ct((params.k + 1) as nat, ct0, ct1)) == (decrypt_spec(key, params, ct0)
            + decrypt_spec(key, params, ct1)) % 256,
{
    let l = log2_floor(params.delta as nat);
    let d = params.delta as int;
    lemma_log2_pos(params.delta as nat);
    lemma_phase_add(key, params, ct0, ct1);
    assert(d * (w0 + w1) == d * w0 + d * w1) by (nonlinear_arith);
    assert(0 <= d * w0 && 0 <= d * w1) by (nonlinear_arith)
        requires
            d >= 2,
            w0 >= 0,
            w1 >= 0,
    ;
    lemma_small_mod((d * (w0 + w1) + e0 + e1) as nat, MODULUS as nat);
    lemma_decode_exact(l, w0 + w1, e0 + e1);
    lemma_decode_exact(l, w0, e0);
    lemma_decode_exact(l, w1, e1);
    lemma_add_mod_noop(w0, w1, 256);
}

/// A fresh encryption of `m` with noise below half of `delta` decrypts to
/// `m`.
pub proof fn law_decrypt_encrypt(key: Seq<int>, params: LweParameters, ct: Seq<int>, m: u8, e: int)
    requires
        exact_delta(params),
        0 <= e < noise_bound(params),
        phase(key, params.k as nat, ct) == (params.delta * m + e) % (MODULUS as int),
    ensures
        decrypt_spec(key, params, ct) == m,
{
    let l = log2_floor(params.delta as nat);
    let d = params.delta as int;
    lemma_log2_pos(params.delta as nat);
    assert(d * m <= 0xffff_ffff * 255) by (nonlinear_arith)
        requires
            d <= 0xffff_ffff,
            0 <= m <= 255,
    ;
    assert(0 <= d * m) by (nonlinear_arith)
        requires
            d >= 0,
            m >= 0,
    ;
    lemma_pow2_unfold(l);
    lemma_pow2_pos((l - 1) as nat);
    lemma_small_mod((d * m + e) as nat, MODULUS as nat);
    lemma_decode_exact(l, m as int, e);
}

} // verus!
