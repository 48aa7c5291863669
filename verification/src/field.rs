//! Arithmetic in the prime field of order `P = 2^31 - 1`.
use vstd::prelude::*;
use vstd::arithmetic::div_mod::{lemma_mul_mod_noop_left, lemma_mul_mod_noop_right, lemma_small_mod};
use vstd::arithmetic::mul::{lemma_mul_is_associative, lemma_mul_is_commutative};
use p3_field::Field;
use p3_field::PrimeField32;

verus! {

/// The Mersenne-31 prime, `2^31 - 1`.
pub const P: u32 = 0x7fff_ffff;

/// Field addition on canonical representatives.
pub open spec fn add_mod(a: nat, b: nat) -> nat {
    (a + b) % (P as nat)
}

/// Field multiplication on canonical representatives.
pub open spec fn mul_mod(a: nat, b: nat) -> nat {
    (a * b) % (P as nat)
}

/// Whether `r` is the multiplicative inverse of `a` in the field.
pub open spec fn is_inverse(a: nat, r: nat) -> bool {
    r < P && (a * r) % (P as nat) == 1
}

/// The multiplicative inverse of `a` in the field (meaningful when `a mod P != 0`).
pub open spec fn field_inv(a: nat) -> nat {
    choose|r: nat| is_inverse(a, r)
}

/// A field element has at most one inverse.
pub proof fn lemma_inverse_unique(a: nat, r1: nat, r2: nat)
    requires
        is_inverse(a, r1),
        is_inverse(a, r2),
    ensures
        r1 == r2,
{
    let p = P as int;
    let (a, r1, r2) = (a as int, r1 as int, r2 as int);
    lemma_mul_mod_noop_right(r1, a * r2, p);
    lemma_small_mod(r1 as nat, P as nat);
    lemma_small_mod(r2 as nat, P as nat);
    lemma_mul_is_associative(r1, a, r2);
    lemma_mul_is_commutative(r1, a);
    lemma_mul_mod_noop_left(a * r1, r2, p);
    assert((r1 * (a * r2)) % p == r1);
    assert(((a * r1) * r2) % p == r2);
}

/// Calls `p3_mersenne_31::Mersenne31::inverse` (through `p3_field::Field`) on
/// the element `a`. Trusted to return the canonical inverse of a nonzero
/// element, as that trait documents; it panics on zero, which `requires` rules out.
#[verifier::external_body]
fn p3_inverse(a: u32) -> (r: u32)
    requires
        0 < a < P,
    ensures
        is_inverse(a as nat, r as nat),
{
    p3_mersenne_31::Mersenne31::new(a).inverse().as_canonical_u32()
}

/// An element of the prime field of order `P`, kept in canonical form.
#[derive(Clone, Copy, PartialEq, Eq, Structural, Debug)]
pub struct Mersenne31 {
    value: u32,
}

impl View for Mersenne31 {
    type V = nat;

    /// The canonical representative of the element, in `[0, P)`.
    closed spec fn view(&self) -> nat {
        self.value as nat
    }
}

impl Mersenne31 {
    #[verifier::type_invariant]
    spec fn canonical(self) -> bool {
        self.value < P
    }

    /// The additive identity.
    pub fn zero() -> (r: Self)
        ensures
            r@ == 0,
    {
        Mersenne31 { value: 0 }
    }

    /// The field element `x mod P`.
    pub fn from_u32(x: u32) -> (r: Self)
        ensures
            r@ == x as nat % (P as nat),
    {
        Mersenne31 { value: x % P }
    }

    /// The element whose canonical representative is `x`.
    pub fn from_canonical_unchecked(x: u32) -> (r: Self)
        requires
            x < P,
        ensures
            r@ == x,
    {
        Mersenne31 { value: x }
    }

    /// The field element `x mod P`.
    pub fn from_usize(x: usize) -> (r: Self)
        ensures
            r@ == x as nat % (P as nat),
    {
        let v = x % (P as usize);
        Mersenne31 { value: v as u32 }
    }

    /// The element whose canonical representative is `x`, if `x < P`.
    pub fn new_checked(x: u32) -> (r: Option<Self>)
        ensures
            r is Some <==> x < P,
            r matches Some(e) ==> e@ == x,
    {
        if x < P {
            Some(Mersenne31 { value: x })
        } else {
            None
        }
    }

    /// The canonical representative of this element.
    pub fn as_canonical_u32(&self) -> (r: u32)
        ensures
            r as nat == self@,
            r < P,
    {
        proof {
            use_type_invariant(self);
        }
        self.value
    }

    /// Field addition.
    pub fn plus(self, other: Self) -> (r: Self)
        ensures
            r@ == add_mod(self@, other@),
    {
        let a = self.as_canonical_u32();
        let b = other.as_canonical_u32();
        let s = a + b;
        if s >= P {
            Mersenne31 { value: s - P }
        } else {
            Mersenne31 { value: s }
        }
    }

    /// Field multiplication.
    pub fn times(self, other: Self) -> (r: Self)
        ensures
            r@ == mul_mod(self@, other@),
    {
        let a = self.as_canonical_u32();
        let b = other.as_canonical_u32();
        assert((a as u64) * (b as u64) <= 0x3fff_ffff_0000_0001) by (nonlinear_arith)
            requires
                a < P,
                b < P,
        ;
        let prod: u64 = (a as u64) * (b as u64);
        let r: u64 = prod % (P as u64);
        Mersenne31 { value: r as u32 }
    }

    /// The multiplicative inverse of this nonzero element.
    pub fn inverse(self) -> (r: Self)
        requires
            self@ != 0,
        ensures
            is_inverse(self@, r@),
            r@ == field_inv(self@),
    {
        let a = self.as_canonical_u32();
        let r = p3_inverse(a);
        proof {
            lemma_inverse_unique(a as nat, r as nat, field_inv(a as nat));
        }
        Mersenne31 { value: r }
    }

    /// The square of this element.
    pub fn square(self) -> (r: Self)
        ensures
            r@ == mul_mod(self@, self@),
    {
        self.times(self)
    }
}

} // verus!
