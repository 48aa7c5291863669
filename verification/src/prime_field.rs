//! `P = 2^31 - 1` is prime, so every nonzero residue modulo `P` has an inverse.
use vstd::prelude::*;
use vstd::arithmetic::div_mod::{
    lemma_fundamental_div_mod, lemma_mod_multiples_basic, lemma_mod_self_0, lemma_small_mod,
    lemma_mul_mod_noop_right, lemma_mod_bound, lemma_add_mod_noop,
};
use vstd::arithmetic::mul::lemma_mul_is_commutative;
use crate::field::{P, field_inv, is_inverse};

verus! {

/// No product of two integers from 2 up to `P` is `P`.
#[verifier::rlimit(100)]
proof fn lemma_no_small_factor(x: u64, y: u64)
    requires
        2 <= x <= 46341,
        2 <= y <= 0x7fff_ffff,
    ensures
        x * y != 0x7fff_ffff,
{
    assert(x * y != 0x7fff_ffffu64) by (bit_vector)
        requires
            2u64 <= x && x <= 46341u64 && 2u64 <= y && y <= 0x7fff_ffffu64,
    ;
}

/// `P` is prime: in any factorisation of `P` into positive integers one factor is 1.
pub proof fn lemma_p_is_prime(a: int, b: int)
    requires
        a >= 1,
        b >= 1,
        a * b == P,
    ensures
        a == 1 || b == 1,
{
    if a >= 2 && b >= 2 {
        if a <= b {
            assert(a * a <= a * b) by (nonlinear_arith)
                requires
                    1 <= a <= b,
            ;
            assert(a <= 46341) by (nonlinear_arith)
                requires
                    a * a <= 0x7fff_ffff,
                    a >= 1,
            ;
            assert(b <= 0x7fff_ffff) by (nonlinear_arith)
                requires
                    a >= 1,
                    a * b == 0x7fff_ffff,
            ;
            lemma_no_small_factor(a as u64, b as u64);
        } else {
            assert(b * b <= a * b) by (nonlinear_arith)
                requires
                    1 <= b <= a,
            ;
            assert(b <= 46341) by (nonlinear_arith)
                requires
                    b * b <= 0x7fff_ffff,
                    b >= 1,
            ;
            assert(a <= 0x7fff_ffff) by (nonlinear_arith)
                requires
                    b >= 1,
                    a * b == 0x7fff_ffff,
            ;
            lemma_mul_is_commutative(a, b);
            lemma_no_small_factor(b as u64, a as u64);
        }
    }
}

/// A common divisor `g` of `a` and `b` with `s * a + t * b == g` (extended Euclid).
proof fn ext_gcd(a: int, b: int) -> (r: (int, int, int))
    requires
        a >= 0,
        b >= 0,
        a + b > 0,
    ensures
        r.2 > 0,
        r.0 * a + r.1 * b == r.2,
        a % r.2 == 0,
        b % r.2 == 0,
    decreases b,
{
    if b == 0 {
        lemma_mod_self_0(a);
        (1, 0, a)
    } else {
        let q = a / b;
        let rem = a % b;
        lemma_fundamental_div_mod(a, b);
        lemma_mod_bound(a, b);
        let (s, t, g) = ext_gcd(b, rem);
        lemma_fundamental_div_mod(b, g);
        lemma_fundamental_div_mod(rem, g);
        let kb = b / g;
        let kr = rem / g;
        assert(a == g * (kb * q + kr)) by (nonlinear_arith)
            requires
                a == b * q + rem,
                b == g * kb,
                rem == g * kr,
        ;
        lemma_mul_is_commutative(g, kb * q + kr);
        lemma_mod_multiples_basic(kb * q + kr, g);
        assert(t * a + (s - t * q) * b == g) by (nonlinear_arith)
            requires
                a == b * q + rem,
                s * b + t * rem == g,
        ;
        (t, s - t * q, g)
    }
}

/// Every residue that is not zero modulo `P` has an inverse modulo `P`.
pub proof fn lemma_inverse_exists(a: int)
    requires
        a % (P as int) != 0,
    ensures
        is_inverse((a % (P as int)) as nat, field_inv((a % (P as int)) as nat)),
        ((a * field_inv((a % (P as int)) as nat)) % (P as int)) == 1,
{
    let p = P as int;
    let a0 = a % p;
    lemma_mod_bound(a, p);
    let (s, t, g) = ext_gcd(a0, p);
    lemma_fundamental_div_mod(p, g);
    let k = p / g;
    assert(g * k == p);
    assert(k >= 1) by (nonlinear_arith)
        requires
            g > 0,
            g * k == p,
            p > 0,
    ;
    lemma_p_is_prime(g, k);
    if g != 1 {
        assert(g == p);
        lemma_small_mod(a0 as nat, P as nat);
        assert(a0 % g == a0);
    }
    assert(g == 1);
    let r = s % p;
    lemma_mod_bound(s, p);
    // (a0 * r) % p == (a0 * s) % p == (1 - t * p) % p == 1
    lemma_mul_mod_noop_right(a0, s, p);
    lemma_mul_is_commutative(t, p);
    lemma_mod_multiples_basic(-t, p);
    assert(a0 * s == 1 + (-t) * p) by (nonlinear_arith)
        requires
            s * a0 + t * p == 1,
    ;
    lemma_add_mod_noop(1, (-t) * p, p);
    lemma_small_mod(1, P as nat);
    assert((a0 * r) % p == 1);
    assert(is_inverse(a0 as nat, r as nat));
    let w = field_inv(a0 as nat);
    assert(is_inverse(a0 as nat, w));
    lemma_fundamental_div_mod(a, p);
    lemma_mul_mod_noop_right(w as int, a, p);
    lemma_mul_is_commutative(w as int, a);
    lemma_mul_is_commutative(w as int, a0);
}

} // verus!
