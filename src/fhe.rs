use crate::field::{fe_add, fe_mul, fe_sub, Felt, MODULUS};
use crate::rescue::{all_wf, felts};
use vstd::arithmetic::power2::{lemma_pow2_unfold, pow2};
use rand::Rng;
use vstd::prelude::*;

verus! {

/// A failure to read or write a key or a ciphertext.
pub struct Error {
    pub message: String,
}

impl Error {
    pub fn new(message: String) -> (r: Error)
        ensures
            r.message@ == message@,
    {
        Error { message }
    }
}

/// Parameters of the LWE scheme. The noise deviation is kept as the bit
/// pattern of an IEEE double: only the sampler reads it.
#[derive(Clone, Copy, PartialEq, Eq, Structural, Debug)]
pub struct LweParameters {
    pub plaintext_modulus: u32,
    pub ciphertext_modulus: u32,
    pub delta: u32,
    pub k: usize,
    pub std_bits: u64,
}

impl LweParameters {
    pub fn new(plaintext_modulus: u32, ciphertext_modulus: u32, k: usize, std_bits: u64) -> (r:
        LweParameters)
        requires
            plaintext_modulus > 0,
        ensures
            r.plaintext_modulus == plaintext_modulus,
            r.ciphertext_modulus == ciphertext_modulus,
            r.delta == ciphertext_modulus / plaintext_modulus,
            r.k == k,
            r.std_bits == std_bits,
    {
        LweParameters {
            plaintext_modulus,
            ciphertext_modulus,
            delta: ciphertext_modulus / plaintext_modulus,
            k,
            std_bits,
        }
    }
}

/// An LWE ciphertext: the mask `a_1 .. a_k`, then the body `b`.
#[derive(Clone, PartialEq, Eq, Debug)]
pub struct FheElement {
    pub ciphertext: Vec<Felt>,
}

/// A ciphertext of a byte.
pub type FheUInt8 = FheElement;

impl FheElement {
    pub fn new(ciphertext: &Vec<Felt>) -> (r: FheElement)
        ensures
            r.ciphertext@ == ciphertext@,
    {
        FheElement { ciphertext: ciphertext.clone() }
    }

    pub fn ciphertext(&self) -> (r: &Vec<Felt>)
        ensures
            r@ == self.ciphertext@,
    {
        &self.ciphertext
    }
}

/// `sum_{i < n} ct[i] * key[i]` in the field.
pub open spec fn inner(ct: Seq<int>, key: Seq<int>, n: nat) -> int
    decreases n,
{
    if n == 0 {
        0
    } else {
        fe_add(inner(ct, key, (n - 1) as nat), fe_mul(ct[n - 1], key[n - 1]))
    }
}

/// The body minus the masked key: `delta * m + e` for an encryption of `m`.
pub open spec fn phase(key: Seq<int>, k: nat, ct: Seq<int>) -> int {
    fe_sub(ct[k as int], inner(ct, key, k))
}

/// The position of the highest set bit of `x`, 0 for 0 and 1.
pub open spec fn log2_floor(x: nat) -> nat
    decreases x,
{
    if x < 2 {
        0
    } else {
        1 + log2_floor(x / 2)
    }
}

/// The top bits of a phase above `l`, rounded on bit `l - 1`, as a byte.
pub open spec fn decode(m: int, l: nat) -> int {
    (m / (pow2(l) as int) + (m / (pow2((l - 1) as nat) as int)) % 2) % 256
}

/// The plaintext of a ciphertext under a key.
pub open spec fn decrypt_spec(key: Seq<int>, params: LweParameters, ct: Seq<int>) -> int {
    decode(phase(key, params.k as nat, ct), log2_floor(params.delta as nat))
}

/// `ct0 + ct1` on the first `n` components.
pub open spec fn add_ct(n: nat, ct0: Seq<int>, ct1: Seq<int>) -> Seq<int> {
    let len = vstd::math::min(vstd::math::min(ct0.len() as int, ct1.len() as int), n as int);
    Seq::new(len as nat, |i: int| fe_add(ct0[i], ct1[i]))
}

/// Adds `delta * s` to the body, the mask unchanged, on the first `k + 1`
/// components.
pub open spec fn scalar_add_ct(params: LweParameters, s: int, ct: Seq<int>) -> Seq<int> {
    let len = vstd::math::min(ct.len() as int, params.k + 1);
    Seq::new(
        len as nat,
        |i: int|
            if i < params.k {
                fe_add(ct[i], 0)
            } else {
                fe_add(ct[i], fe_mul(params.delta as int, s))
            },
    )
}

/// Multiplies the first `k + 1` components by `s`.
pub open spec fn scalar_mul_ct(params: LweParameters, s: int, ct: Seq<int>) -> Seq<int> {
    let len = vstd::math::min(ct.len() as int, params.k + 1);
    Seq::new(len as nat, |i: int| fe_mul(ct[i], s))
}

/// Relies on rand's `Rng::gen_range` on the thread-local generator: a value
/// in `low..high`.
#[verifier::external_body]
pub(crate) fn random_in(low: u128, high: u128) -> (r: u128)
    requires
        low < high,
    ensures
        low <= r < high,
{
    rand::thread_rng().gen_range(low..high)
}

/// The secret key of the scheme, with its parameters. The key is a vector of
/// `k` field elements, each 0 or 1 when the key was drawn here.
#[derive(Clone, Debug)]
pub struct ServerKey {
    pub key: Vec<Felt>,
    pub parameters: LweParameters,
}

impl ServerKey {
    pub open spec fn wf(&self) -> bool {
        &&& self.key.len() == self.parameters.k
        &&& self.parameters.k < usize::MAX
        &&& all_wf(self.key@)
    }

    pub open spec fn key_view(&self) -> Seq<int> {
        felts(self.key@)
    }

    /// Draws a key of `k` random bits.
    pub fn new(parameters: LweParameters) -> (r: ServerKey)
        requires
            parameters.k < usize::MAX,
        ensures
            r.wf(),
            r.parameters == parameters,
            forall|i: int| 0 <= i < parameters.k ==> #[trigger] r.key@[i]@ == 0 || r.key@[i]@ == 1,
    {
        let mut key: Vec<Felt> = Vec::new();
        let mut i: usize = 0;
        while i < parameters.k
            invariant
                0 <= i <= parameters.k,
                key.len() == i,
                all_wf(key@),
                forall|j: int| 0 <= j < i ==> #[trigger] key@[j]@ == 0 || key@[j]@ == 1,
            decreases parameters.k - i,
        {
            let bit = random_in(0, 2);
            key.push(Felt::new(bit));
            i += 1;
        }
        ServerKey { key, parameters }
    }

    pub fn lwe_size(&self) -> (r: usize)
        requires
            self.wf(),
        ensures
            r == self.parameters.k + 1,
    {
        self.parameters.k + 1
    }

    pub fn key(&self) -> (r: &Vec<Felt>)
        ensures
            r@ == self.key@,
    {
        &self.key
    }

    /// `sum_{i < k} ct[i] * key[i]` in the field.
    fn apply_mask(&self, ct: &Vec<Felt>) -> (r: Felt)
        requires
            self.wf(),
            ct.len() >= self.parameters.k,
            all_wf(ct@),
        ensures
            r.wf(),
            r@ == inner(felts(ct@), self.key_view(), self.parameters.k as nat),
    {
        let k = self.parameters.k;
        let mut acc = Felt::zero();
        let mut i: usize = 0;
        while i < k
            invariant
                self.wf(),
                k == self.parameters.k,
                ct.len() >= k,
                all_wf(ct@),
                0 <= i <= k,
                acc.wf(),
                acc@ == inner(felts(ct@), self.key_view(), i as nat),
            decreases k - i,
        {
            assert(ct@[i as int].wf() && self.key@[i as int].wf());
            acc = acc.add(ct[i].mul(self.key[i]));
            i += 1;
        }
        acc
    }

    /// Encrypts `value` with a fresh random mask and the given noise.
    pub fn encrypt(&self, value: u8, noise: i64) -> (r: FheUInt8)
        requires
            self.wf(),
        ensures
            r.ciphertext.len() == self.parameters.k + 1,
            all_wf(r.ciphertext@),
            phase(self.key_view(), self.parameters.k as nat, felts(r.ciphertext@)) == (
            self.parameters.delta * value + noise) % (MODULUS as int),
    {
        let k = self.parameters.k;
        let mut ciphertext: Vec<Felt> = Vec::new();
        let mut i: usize = 0;
        while i < k
            invariant
                0 <= i <= k,
                ciphertext.len() == i,
                all_wf(ciphertext@),
            decreases k - i,
        {
            ciphertext.push(Felt { value: random_in(0, MODULUS) });
            i += 1;
        }
        let mask = self.apply_mask(&ciphertext);
        let scaled = Felt::from_u32(self.parameters.delta).mul(Felt::from_u8(value));
        let body = mask.add(scaled);
        let magnitude: u128 = if noise >= 0 {
            noise as u128
        } else {
            (-(noise as i128)) as u128
        };
        let e = Felt { value: magnitude };
        let body = if noise > 0 {
            body.add(e)
        } else {
            body.sub(e)
        };
        let ghost before = ciphertext@;
        ciphertext.push(body);
        proof {
            assert(felts(ciphertext@).subrange(0, k as int) =~= felts(before));
            assert(felts(before).subrange(0, k as int) =~= felts(before));
            lemma_inner_prefix(felts(ciphertext@), felts(before), self.key_view(), k as nat);
            lemma_phase_of_body(
                mask@,
                self.parameters.delta * value,
                noise as int,
            );
        }
        FheElement { ciphertext }
    }

    /// Decrypts a ciphertext: the phase, shifted right by `log2(delta)` bits
    /// and rounded on the bit below.
    pub fn decrypt(&self, value: &FheUInt8) -> (r: u8)
        requires
            self.wf(),
            value.ciphertext.len() > self.parameters.k,
            all_wf(value.ciphertext@),
            self.parameters.delta >= 2,
        ensures
            r as int == decrypt_spec(self.key_view(), self.parameters, felts(value.ciphertext@)),
    {
        let ct = &value.ciphertext;
        let mask = self.apply_mask(ct);
        assert(ct@[self.parameters.k as int].wf());
        let m = ct[self.parameters.k].sub(mask).as_int();
        let mut l: u32 = 0;
        let mut x: u32 = self.parameters.delta;
        let mut p: u128 = 1;
        proof {
            vstd::arithmetic::power2::lemma2_to64();
            lemma_log2_floor_le(self.parameters.delta as nat);
        }
        while x >= 2
            invariant
                log2_floor(self.parameters.delta as nat) == l + log2_floor(x as nat),
                log2_floor(self.parameters.delta as nat) <= self.parameters.delta,
                p == pow2(l as nat),
                x as nat * pow2(l as nat) <= self.parameters.delta,
                self.parameters.delta < 0x1_0000_0000,
            decreases x,
        {
            proof {
                assert(log2_floor(x as nat) == 1 + log2_floor((x / 2) as nat));
                lemma_pow2_unfold((l + 1) as nat);
                assert(x as nat * pow2(l as nat) >= 2 * pow2(l as nat)) by (nonlinear_arith)
                    requires
                        x >= 2,
                ;
                assert((x / 2) as nat * pow2((l + 1) as nat) <= x as nat * pow2(l as nat))
                    by (nonlinear_arith)
                    requires
                        pow2((l + 1) as nat) == 2 * pow2(l as nat),
                ;
            }
            x = x / 2;
            l = l + 1;
            p = p * 2;
        }
        proof {
            assert(log2_floor(x as nat) == 0);
            assert(log2_floor(self.parameters.delta as nat) == 1 + log2_floor(
                (self.parameters.delta / 2) as nat,
            ));
            lemma_pow2_unfold(l as nat);
            vstd::arithmetic::power2::lemma_pow2_pos(l as nat);
        }
        let half = p / 2;
        let r = ((m / p + (m / half) % 2) % 256) as u8;
        r
    }

    /// The ciphertext of `message` with a zero mask: `(0, .., 0, delta * message)`.
    pub fn encrypt_trivial(&self, message: &Felt) -> (r: FheElement)
        requires
            self.wf(),
            message.wf(),
        ensures
            r.ciphertext.len() == self.parameters.k + 1,
            all_wf(r.ciphertext@),
            forall|i: int| 0 <= i < self.parameters.k ==> #[trigger] r.ciphertext@[i]@ == 0,
            r.ciphertext@[self.parameters.k as int]@ == fe_mul(self.parameters.delta as int, message@),
    {
        let k = self.parameters.k;
        let mut ciphertext: Vec<Felt> = Vec::new();
        let mut i: usize = 0;
        while i < k
            invariant
                0 <= i <= k,
                ciphertext.len() == i,
                all_wf(ciphertext@),
                forall|j: int| 0 <= j < i ==> #[trigger] ciphertext@[j]@ == 0,
            decreases k - i,
        {
            ciphertext.push(Felt::zero());
            i += 1;
        }
        let body = Felt::from_u32(self.parameters.delta).mul(*message);
        ciphertext.push(body);
        FheElement { ciphertext }
    }

    /// Component-wise sum of two ciphertexts.
    pub fn add(&self, value0: &FheElement, value1: &FheElement) -> (r: FheElement)
        requires
            self.wf(),
            all_wf(value0.ciphertext@),
            all_wf(value1.ciphertext@),
        ensures
            all_wf(r.ciphertext@),
            felts(r.ciphertext@) == add_ct(
                (self.parameters.k + 1) as nat,
                felts(value0.ciphertext@),
                felts(value1.ciphertext@),
            ),
    {
        let n = self.lwe_size();
        let a = &value0.ciphertext;
        let b = &value1.ciphertext;
        let mut ciphertext: Vec<Felt> = Vec::new();
        let mut i: usize = 0;
        while i < a.len() && i < b.len() && i < n
            invariant
                all_wf(a@),
                all_wf(b@),
                0 <= i <= n,
                i <= a.len(),
                i <= b.len(),
                ciphertext.len() == i,
                all_wf(ciphertext@),
                forall|j: int| 0 <= j < i ==> #[trigger] ciphertext@[j]@ == fe_add(a@[j]@, b@[j]@),
            decreases n - i,
        {
            assert(a@[i as int].wf() && b@[i as int].wf());
            ciphertext.push(a[i].add(b[i]));
            i += 1;
        }
        assert(felts(ciphertext@) =~= add_ct(n as nat, felts(a@), felts(b@)));
        FheElement { ciphertext }
    }

    /// Adds a public scalar: the sum with its trivial encryption.
    pub fn scalar_add(&self, scalar: &Felt, value: &FheElement) -> (r: FheElement)
        requires
            self.wf(),
            scalar.wf(),
            all_wf(value.ciphertext@),
        ensures
            all_wf(r.ciphertext@),
            felts(r.ciphertext@) == scalar_add_ct(self.parameters, scalar@, felts(value.ciphertext@)),
    {
        let trivial = self.encrypt_trivial(scalar);
        let n = self.lwe_size();
        let a = &value.ciphertext;
        let t = &trivial.ciphertext;
        let mut ciphertext: Vec<Felt> = Vec::new();
        let mut i: usize = 0;
        while i < a.len() && i < n
            invariant
                self.wf(),
                n == self.parameters.k + 1,
                all_wf(a@),
                all_wf(t@),
                t.len() == n,
                forall|j: int| 0 <= j < self.parameters.k ==> #[trigger] t@[j]@ == 0,
                t@[self.parameters.k as int]@ == fe_mul(self.parameters.delta as int, scalar@),
                0 <= i <= n,
                i <= a.len(),
                ciphertext.len() == i,
                all_wf(ciphertext@),
                forall|j: int|
                    0 <= j < i ==> #[trigger] ciphertext@[j]@ == scalar_add_ct(
                        self.parameters,
                        scalar@,
                        felts(a@),
                    )[j],
            decreases n - i,
        {
            assert(a@[i as int].wf() && t@[i as int].wf());
            ciphertext.push(a[i].add(t[i]));
            i += 1;
        }
        assert(felts(ciphertext@) =~= scalar_add_ct(self.parameters, scalar@, felts(a@)));
        FheElement { ciphertext }
    }

    /// Multiplies every component by a public scalar.
    pub fn scalar_mul(&self, scalar: &Felt, value: &FheElement) -> (r: FheElement)
        requires
            self.wf(),
            scalar.wf(),
            all_wf(value.ciphertext@),
        ensures
            all_wf(r.ciphertext@),
            felts(r.ciphertext@) == scalar_mul_ct(self.parameters, scalar@, felts(value.ciphertext@)),
    {
        let n = self.lwe_size();
        let a = &value.ciphertext;
        let mut ciphertext: Vec<Felt> = Vec::new();
        let mut i: usize = 0;
        while i < a.len() && i < n
            invariant
                all_wf(a@),
                scalar.wf(),
                0 <= i <= n,
                i <= a.len(),
                ciphertext.len() == i,
                all_wf(ciphertext@),
                forall|j: int| 0 <= j < i ==> #[trigger] ciphertext@[j]@ == fe_mul(a@[j]@, scalar@),
            decreases n - i,
        {
            assert(a@[i as int].wf());
            ciphertext.push(a[i].mul(*scalar));
            i += 1;
        }
        assert(felts(ciphertext@) =~= scalar_mul_ct(self.parameters, scalar@, felts(a@)));
        FheElement { ciphertext }
    }
}

/// The masked key depends only on the first `n` components.
pub proof fn lemma_inner_prefix(ct: Seq<int>, pre: Seq<int>, key: Seq<int>, n: nat)
    requires
        n <= pre.len(),
        n <= ct.len(),
        ct.subrange(0, n as int) == pre.subrange(0, n as int),
    ensures
        inner(ct, key, n) == inner(pre, key, n),
    decreases n,
{
    if n > 0 {
        assert(ct[n - 1] == ct.subrange(0, n as int)[n - 1]);
        assert(pre[n - 1] == pre.subrange(0, n as int)[n - 1]);
        assert(ct.subrange(0, n - 1) =~= ct.subrange(0, n as int).subrange(0, n - 1));
        assert(pre.subrange(0, n - 1) =~= pre.subrange(0, n as int).subrange(0, n - 1));
        lemma_inner_prefix(ct, pre, key, (n - 1) as nat);
    }
}

proof fn lemma_log2_floor_le(x: nat)
    ensures
        log2_floor(x) <= x,
    decreases x,
{
    if x >= 2 {
        lemma_log2_floor_le(x / 2);
    }
}

/// Adding `mask` under the modulus and taking it away again leaves `y`.
proof fn lemma_shift_cancel(mask: int, y: int)
    requires
        0 <= mask < MODULUS,
    ensures
        fe_sub((mask + y) % (MODULUS as int), mask) == y % (MODULUS as int),
{
    let m = MODULUS as int;
    vstd::arithmetic::div_mod::lemma_sub_mod_noop(mask + y, mask, m);
    vstd::arithmetic::div_mod::lemma_small_mod(mask as nat, m as nat);
    assert(mask + y - mask == y);
}

/// The phase of the body that `encrypt` builds from the masked key `mask`,
/// the scaled message `x` and the noise `e`.
proof fn lemma_phase_of_body(mask: int, x: int, e: int)
    requires
        0 <= mask < MODULUS,
        0 <= x,
        -0x8000_0000_0000_0000 <= e < 0x8000_0000_0000_0000,
    ensures
        fe_sub(
            if e > 0 {
                fe_add(fe_add(mask, x % (MODULUS as int)), (if e >= 0 { e } else { -e }))
            } else {
                fe_sub(fe_add(mask, x % (MODULUS as int)), (if e >= 0 { e } else { -e }))
            },
            mask,
        ) == (x + e) % (MODULUS as int),
{
    let m = MODULUS as int;
    let a = mask + x % m;
    let body = if e > 0 {
        fe_add(a % m, e)
    } else {
        fe_sub(a % m, -e)
    };
    assert(body == (mask + (x % m + e)) % m) by {
        if e > 0 {
            vstd::arithmetic::div_mod::lemma_add_mod_noop_right(e, a, m);
        } else {
            vstd::arithmetic::div_mod::lemma_sub_mod_noop(a, -e, m);
            vstd::arithmetic::div_mod::lemma_mod_twice(a, m);
            vstd::arithmetic::div_mod::lemma_small_mod((-e) as nat, m as nat);
        }
    }
    lemma_shift_cancel(mask, x % m + e);
    vstd::arithmetic::div_mod::lemma_add_mod_noop_right(e, x, m);
}

} // verus!
