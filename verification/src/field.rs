//! The base field of the machine: integers modulo the 64-bit prime
//! 2^64 - 2^32 + 1. Every value is kept in canonical form (below the
//! modulus), and every operation states its result as modular arithmetic
//! over the integers.
use vstd::prelude::*;
use vstd::arithmetic::div_mod::{
    lemma_mul_mod_noop_left, lemma_mod_multiples_vanish, lemma_small_mod,
};
use winter_math::fields::f64::BaseElement;
use winter_math::{FieldElement, StarkField};

verus! {

/// The prime modulus of the field: 2^64 - 2^32 + 1.
pub const FIELD_MODULUS: u64 = 0xFFFF_FFFF_0000_0001;

/// The modulus as a mathematical integer, for use in specifications.
pub open spec fn fp() -> int {
    FIELD_MODULUS as int
}

/// Field addition over the integers.
pub open spec fn f_add(a: int, b: int) -> int {
    (a + b) % fp()
}

/// Field subtraction over the integers.
pub open spec fn f_sub(a: int, b: int) -> int {
    (a - b) % fp()
}

/// Field negation over the integers.
pub open spec fn f_neg(a: int) -> int {
    (0 - a) % fp()
}

/// Field multiplication over the integers.
pub open spec fn f_mul(a: int, b: int) -> int {
    (a * b) % fp()
}

/// The multiplicative inverse of a canonical field value: the unique
/// canonical `y` with `a * y == 1` in the field, and `0` for `0`. When no
/// such `y` exists the choice is arbitrary; every use in this crate first
/// establishes that an inverse exists.
pub open spec fn f_inv(a: int) -> int {
    if a == 0 {
        0
    } else {
        choose|y: int| 0 <= y < fp() && f_mul(a, y) == 1
    }
}

/// The canonical integer values of a sequence of field elements.
pub open spec fn vals(s: Seq<Felt>) -> Seq<int> {
    s.map_values(|f: Felt| f.value as int)
}

/// True when every element of the sequence is in canonical form.
pub open spec fn all_valid(s: Seq<Felt>) -> bool {
    forall|i: int| 0 <= i < s.len() ==> #[trigger] s[i].valid()
}

/// A field element, stored in canonical form (a value below the modulus).
#[derive(Clone, Copy, Debug, PartialEq, Eq, Structural, Hash)]
pub struct Felt {
    pub value: u64,
}

impl Felt {
    /// True when the stored value is in canonical form.
    pub open spec fn valid(self) -> bool {
        self.value < FIELD_MODULUS
    }

    /// Returns a new field element, reducing the given integer modulo the
    /// field size.
    pub fn new(value: u64) -> (r: Felt)
        ensures
            r.valid(),
            r.value == value as int % fp(),
    {
        Felt { value: value % FIELD_MODULUS }
    }

    /// The zero element of the field.
    pub fn zero() -> (r: Felt)
        ensures
            r.valid(),
            r.value == 0,
    {
        Felt { value: 0 }
    }

    /// The one element of the field.
    pub fn one() -> (r: Felt)
        ensures
            r.valid(),
            r.value == 1,
    {
        Felt { value: 1 }
    }

    /// Returns the canonical integer representation of this element.
    pub fn as_int(self) -> (r: u64)
        ensures
            r == self.value,
    {
        self.value
    }

    /// Field addition.
    pub fn add(self, rhs: Felt) -> (r: Felt)
        requires
            self.valid(),
            rhs.valid(),
        ensures
            r.valid(),
            r.value == f_add(self.value as int, rhs.value as int),
    {
        let s: u128 = self.value as u128 + rhs.value as u128;
        let m: u128 = FIELD_MODULUS as u128;
        Felt { value: (s % m) as u64 }
    }

    /// Field subtraction.
    pub fn sub(self, rhs: Felt) -> (r: Felt)
        requires
            self.valid(),
            rhs.valid(),
        ensures
            r.valid(),
            r.value == f_sub(self.value as int, rhs.value as int),
    {
        let r = if self.value >= rhs.value {
            Felt { value: self.value - rhs.value }
        } else {
            Felt { value: self.value + (FIELD_MODULUS - rhs.value) }
        };
        proof {
            if self.value < rhs.value {
                lemma_mod_multiples_vanish(1, self.value - rhs.value, fp());
            }
            lemma_small_mod(r.value as nat, FIELD_MODULUS as nat);
        }
        r
    }

    /// Field negation (the additive inverse).
    pub fn neg(self) -> (r: Felt)
        requires
            self.valid(),
        ensures
            r.valid(),
            r.value == f_neg(self.value as int),
    {
        let r = if self.value == 0 {
            Felt { value: 0 }
        } else {
            Felt { value: FIELD_MODULUS - self.value }
        };
        proof {
            if self.value != 0 {
                lemma_mod_multiples_vanish(1, 0 - self.value, fp());
            }
            lemma_small_mod(r.value as nat, FIELD_MODULUS as nat);
        }
        r
    }

    /// Field multiplication.
    pub fn mul(self, rhs: Felt) -> (r: Felt)
        requires
            self.valid(),
            rhs.valid(),
        ensures
            r.valid(),
            r.value == f_mul(self.value as int, rhs.value as int),
    {
        proof {
            assert((self.value as int) * (rhs.value as int) < 0x1_0000_0000_0000_0000_0000_0000_0000_0000)
                by (nonlinear_arith)
                requires
                    self.value < 0x1_0000_0000_0000_0000,
                    rhs.value < 0x1_0000_0000_0000_0000,
            ;
        }
        let p: u128 = self.value as u128 * rhs.value as u128;
        let m: u128 = FIELD_MODULUS as u128;
        Felt { value: (p % m) as u64 }
    }

    /// Relies on winter_math's base field inversion: it returns the
    /// multiplicative inverse of the element, and zero for zero, in
    /// canonical form.
    #[verifier::external_body]
    pub fn inv(self) -> (r: Felt)
        requires
            self.valid(),
        ensures
            r.valid(),
            self.value == 0 ==> r.value == 0,
            self.value != 0 ==> f_mul(self.value as int, r.value as int) == 1,
    {
        Felt { value: BaseElement::new(self.value).inv().as_int() }
    }
}

/// An inverse of a nonzero canonical value is itself nonzero and unique
/// among canonical values.
pub proof fn lemma_inverse_unique(a: int, y1: int, y2: int)
    requires
        0 <= a < fp(),
        0 <= y1 < fp(),
        0 <= y2 < fp(),
        f_mul(a, y1) == 1,
        f_mul(a, y2) == 1,
    ensures
        y1 == y2,
{
    // y2 == ((a * y1) % p) * y2 % p == (a * y1 * y2) % p, and symmetrically
    // y1 == (a * y2 * y1) % p; the two products are the same integer.
    lemma_mul_mod_noop_left(a * y1, y2, fp());
    lemma_mul_mod_noop_left(a * y2, y1, fp());
    lemma_small_mod(y1 as nat, fp() as nat);
    lemma_small_mod(y2 as nat, fp() as nat);
    assert(a * y1 * y2 == a * y2 * y1) by (nonlinear_arith);
}

/// A value with an inverse equals `f_inv` of nothing else: once some
/// canonical `y` inverts `a`, `f_inv(a)` is exactly that `y`.
pub proof fn lemma_f_inv_agrees(a: int, y: int)
    requires
        0 < a < fp(),
        0 <= y < fp(),
        f_mul(a, y) == 1,
    ensures
        f_inv(a) == y,
{
    let chosen = choose|z: int| 0 <= z < fp() && f_mul(a, z) == 1;
    lemma_inverse_unique(a, chosen, y);
}

} // verus!
