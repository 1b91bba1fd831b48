use vstd::prelude::*;
use vstd::arithmetic::div_mod::{
    lemma_mod_add_multiples_vanish,
    lemma_mul_mod_noop_left,
    lemma_mul_mod_noop_right,
};
use vstd::arithmetic::mul::lemma_mul_is_associative;

verus! {

/// The prime 2^64 - 2^32 + 1. Its multiplicative group has a subgroup of
/// order 2^32.
pub const MODULUS: u64 = 18446744069414584321;

/// Sum of two residues.
pub open spec fn fadd(a: int, b: int) -> int {
    (a + b) % (MODULUS as int)
}

/// Difference of two residues.
pub open spec fn fsub(a: int, b: int) -> int {
    (a - b) % (MODULUS as int)
}

/// Product of two residues.
pub open spec fn fmul(a: int, b: int) -> int {
    (a * b) % (MODULUS as int)
}

/// `base` raised to the power `e`.
pub open spec fn fpow(base: int, e: nat) -> int
    decreases e,
{
    if e == 0 {
        1
    } else {
        fmul(base, fpow(base, (e - 1) as nat))
    }
}

/// The inverse of a non-zero residue, by Fermat's little theorem; 0 for 0.
pub open spec fn finv(a: int) -> int {
    fpow(a, (MODULUS - 2) as nat)
}

/// Multiplication of residues is associative.
pub proof fn lemma_fmul_associative(a: int, b: int, c: int)
    ensures
        fmul(a, fmul(b, c)) == fmul(fmul(a, b), c),
{
    lemma_mul_mod_noop_right(a, b * c, MODULUS as int);
    lemma_mul_mod_noop_left(a * b, c, MODULUS as int);
    lemma_mul_is_associative(a, b, c);
}

/// Squaring the base halves the exponent.
pub proof fn lemma_fpow_square(base: int, k: nat)
    ensures
        fpow(fmul(base, base), k) == fpow(base, 2 * k),
    decreases k,
{
    if k > 0 {
        lemma_fpow_square(base, (k - 1) as nat);
        let rest = fpow(base, (2 * k - 2) as nat);
        assert(fpow(base, (2 * k - 1) as nat) == fmul(base, rest));
        assert(fpow(base, 2 * k) == fmul(base, fmul(base, rest)));
        lemma_fmul_associative(base, base, rest);
    }
}

/// A power is a residue.
pub proof fn lemma_fpow_range(base: int, e: nat)
    ensures
        0 <= fpow(base, e) < MODULUS,
    decreases e,
{
    if e > 0 {
        lemma_fpow_range(base, (e - 1) as nat);
    }
}

/// An element of the prime field of order `MODULUS`, held as a machine word
/// that stands for its residue class.
#[derive(Debug, Clone, Copy, PartialEq, Eq, Structural)]
pub struct Felt {
    pub raw: u64,
}

/// The integers of a sequence of field elements.
pub open spec fn values_of(elements: Seq<Felt>) -> Seq<int> {
    Seq::new(elements.len(), |i: int| elements[i].value())
}

impl Felt {
    /// The element as an integer in `0..MODULUS`.
    pub open spec fn value(self) -> int {
        self.raw as int % (MODULUS as int)
    }

    /// The word is the element itself, not another member of its class.
    pub open spec fn is_canonical(self) -> bool {
        self.raw < MODULUS
    }

    pub fn new(raw: u64) -> (r: Felt)
        ensures
            r.is_canonical(),
            r.value() == raw as int % (MODULUS as int),
    {
        Felt { raw: raw % MODULUS }
    }

    pub fn zero() -> (r: Felt)
        ensures
            r == (Felt { raw: 0 }),
            r.value() == 0,
    {
        Felt { raw: 0 }
    }

    pub fn one() -> (r: Felt)
        ensures
            r == (Felt { raw: 1 }),
            r.value() == 1,
    {
        Felt { raw: 1 }
    }

    /// The canonical integer of the element.
    pub fn to_canonical(&self) -> (r: u64)
        ensures
            r as int == self.value(),
    {
        self.raw % MODULUS
    }

    pub fn is_zero(&self) -> (r: bool)
        ensures
            r == (self.value() == 0),
    {
        self.raw % MODULUS == 0
    }

    /// Equality of field elements, whatever words stand for them.
    pub fn equals(&self, other: &Felt) -> (r: bool)
        ensures
            r == (self.value() == other.value()),
    {
        self.raw % MODULUS == other.raw % MODULUS
    }

    pub fn add(&self, other: &Felt) -> (r: Felt)
        ensures
            r.is_canonical(),
            r.value() == fadd(self.value(), other.value()),
    {
        let x: u128 = (self.raw % MODULUS) as u128;
        let y: u128 = (other.raw % MODULUS) as u128;
        let s: u128 = (x + y) % (MODULUS as u128);
        Felt { raw: s as u64 }
    }

    pub fn sub(&self, other: &Felt) -> (r: Felt)
        ensures
            r.is_canonical(),
            r.value() == fsub(self.value(), other.value()),
    {
        let x: u128 = (self.raw % MODULUS) as u128;
        let y: u128 = (other.raw % MODULUS) as u128;
        let s: u128 = (x + (MODULUS as u128) - y) % (MODULUS as u128);
        proof {
            lemma_mod_add_multiples_vanish(x as int - y as int, MODULUS as int);
        }
        Felt { raw: s as u64 }
    }

    pub fn mul(&self, other: &Felt) -> (r: Felt)
        ensures
            r.is_canonical(),
            r.value() == fmul(self.value(), other.value()),
    {
        let x: u128 = (self.raw % MODULUS) as u128;
        let y: u128 = (other.raw % MODULUS) as u128;
        assert(x * y <= 0xFFFF_FFFF_0000_0000 * 0xFFFF_FFFF_0000_0000) by (nonlinear_arith)
            requires
                0 <= x <= 0xFFFF_FFFF_0000_0000,
                0 <= y <= 0xFFFF_FFFF_0000_0000,
        ;
        let p: u128 = (x * y) % (MODULUS as u128);
        Felt { raw: p as u64 }
    }

    /// The element raised to the power `exponent`, by repeated squaring.
    pub fn pow(&self, exponent: u64) -> (r: Felt)
        ensures
            r.is_canonical(),
            r.value() == fpow(self.value(), exponent as nat),
    {
        let mut acc: Felt = Felt::one();
        let mut base: Felt = Felt::new(self.raw);
        let mut e: u64 = exponent;
        while e > 0
            invariant
                acc.is_canonical(),
                base.is_canonical(),
                fmul(acc.value(), fpow(base.value(), e as nat)) == fpow(
                    self.value(),
                    exponent as nat,
                ),
            decreases e,
        {
            proof {
                lemma_fpow_range(base.value(), e as nat);
                lemma_fpow_range(base.value(), (e - 1) as nat);
            }
            if e % 2 == 1 {
                proof {
                    lemma_fmul_associative(
                        acc.value(),
                        base.value(),
                        fpow(base.value(), (e - 1) as nat),
                    );
                }
                acc = acc.mul(&base);
                e = e - 1;
            }
            proof {
                lemma_fpow_square(base.value(), (e / 2) as nat);
                assert(2 * ((e / 2) as nat) == e as nat);
            }
            base = base.mul(&base);
            e = e / 2;
        }
        proof {
            lemma_fpow_range(self.value(), exponent as nat);
        }
        acc
    }

    /// The multiplicative inverse of a non-zero element; zero for zero.
    pub fn inverse(&self) -> (r: Felt)
        ensures
            r.is_canonical(),
            r.value() == finv(self.value()),
    {
        self.pow(MODULUS - 2)
    }
}

} // verus!
