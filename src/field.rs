use vstd::prelude::*;
use winterfell::math::fields::f128::BaseElement;
use winterfell::math::{FieldElement, StarkField};

verus! {

/// The prime of the base field: 2^128 - 45 * 2^40 + 1.
pub const MODULUS: u128 = 340282366920938463463374557953744961537;

/// Sum in the base field.
pub open spec fn fe_add(a: int, b: int) -> int {
    (a + b) % (MODULUS as int)
}

/// Difference in the base field.
pub open spec fn fe_sub(a: int, b: int) -> int {
    (a - b) % (MODULUS as int)
}

/// Product in the base field.
pub open spec fn fe_mul(a: int, b: int) -> int {
    (a * b) % (MODULUS as int)
}

/// `a` raised to the power `e` in the base field.
pub open spec fn fe_pow(a: int, e: nat) -> int
    decreases e,
{
    if e == 0 {
        1
    } else {
        fe_mul(a, fe_pow(a, (e - 1) as nat))
    }
}

/// An element of the base field, held as its canonical representative.
#[derive(Clone, Copy, PartialEq, Eq, Structural, Debug)]
pub struct Felt {
    pub value: u128,
}

impl View for Felt {
    type V = int;

    open spec fn view(&self) -> int {
        self.value as int
    }
}

impl Felt {
    /// The representative is reduced.
    pub open spec fn wf(&self) -> bool {
        self.value < MODULUS
    }

    /// The element that an integer of any size stands for.
    pub fn new(value: u128) -> (r: Felt)
        ensures
            r.wf(),
            r@ == value as int % (MODULUS as int),
    {
        if value < MODULUS {
            Felt { value }
        } else {
            Felt { value: value - MODULUS }
        }
    }

    pub fn zero() -> (r: Felt)
        ensures
            r.wf(),
            r@ == 0,
    {
        Felt { value: 0 }
    }

    pub fn one() -> (r: Felt)
        ensures
            r.wf(),
            r@ == 1,
    {
        Felt { value: 1 }
    }

    pub fn from_u8(value: u8) -> (r: Felt)
        ensures
            r.wf(),
            r@ == value as int,
    {
        Felt { value: value as u128 }
    }

    pub fn from_u32(value: u32) -> (r: Felt)
        ensures
            r.wf(),
            r@ == value as int,
    {
        Felt { value: value as u128 }
    }

    pub fn from_usize(value: usize) -> (r: Felt)
        ensures
            r.wf(),
            r@ == value as int,
    {
        Felt { value: value as u128 }
    }

    pub fn as_int(&self) -> (r: u128)
        ensures
            r == self.value,
    {
        self.value
    }

    pub fn add(self, other: Felt) -> (r: Felt)
        requires
            self.wf(),
            other.wf(),
        ensures
            r.wf(),
            r@ == fe_add(self@, other@),
    {
        Felt { value: base_add(self.value, other.value) }
    }

    pub fn sub(self, other: Felt) -> (r: Felt)
        requires
            self.wf(),
            other.wf(),
        ensures
            r.wf(),
            r@ == fe_sub(self@, other@),
    {
        Felt { value: base_sub(self.value, other.value) }
    }

    pub fn mul(self, other: Felt) -> (r: Felt)
        requires
            self.wf(),
            other.wf(),
        ensures
            r.wf(),
            r@ == fe_mul(self@, other@),
    {
        Felt { value: base_mul(self.value, other.value) }
    }

    pub fn exp(self, power: u128) -> (r: Felt)
        requires
            self.wf(),
        ensures
            r.wf(),
            r@ == fe_pow(self@, power as nat),
    {
        Felt { value: base_exp(self.value, power) }
    }
}

/// Relies on winterfell's f128 `BaseElement` addition: the sum reduced modulo the prime.
#[verifier::external_body]
fn base_add(a: u128, b: u128) -> (r: u128)
    requires
        a < MODULUS,
        b < MODULUS,
    ensures
        r < MODULUS,
        r as int == fe_add(a as int, b as int),
{
    (BaseElement::new(a) + BaseElement::new(b)).as_int()
}

/// Relies on winterfell's f128 `BaseElement` subtraction: the difference reduced modulo the prime.
#[verifier::external_body]
fn base_sub(a: u128, b: u128) -> (r: u128)
    requires
        a < MODULUS,
        b < MODULUS,
    ensures
        r < MODULUS,
        r as int == fe_sub(a as int, b as int),
{
    (BaseElement::new(a) - BaseElement::new(b)).as_int()
}

/// Relies on winterfell's f128 `BaseElement` multiplication: the product reduced modulo the prime.
#[verifier::external_body]
fn base_mul(a: u128, b: u128) -> (r: u128)
    requires
        a < MODULUS,
        b < MODULUS,
    ensures
        r < MODULUS,
        r as int == fe_mul(a as int, b as int),
{
    (BaseElement::new(a) * BaseElement::new(b)).as_int()
}

/// Relies on winterfell's `FieldElement::exp` for the f128 `BaseElement`: repeated
/// multiplication modulo the prime, with `x^0 = 1`.
#[verifier::external_body]
fn base_exp(a: u128, power: u128) -> (r: u128)
    requires
        a < MODULUS,
    ensures
        r < MODULUS,
        r as int == fe_pow(a as int, power as nat),
{
    BaseElement::new(a).exp(power).as_int()
}

} // verus!
