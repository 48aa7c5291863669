//! Cauchy matrices over the field are invertible: a combination of the
//! columns of a Cauchy matrix with distinct parameters vanishes only when
//! every coefficient does.
use vstd::prelude::*;
use vstd::arithmetic::div_mod::{
    lemma_add_mod_noop, lemma_mul_mod_noop, lemma_sub_mod_noop, lemma_small_mod,
};
use vstd::arithmetic::mul::{lemma_mul_is_associative, lemma_mul_is_commutative, lemma_mul_is_distributive_sub};
use crate::field::{P, field_inv};
use crate::invertibility::{
    sum, lemma_sum_congruent, lemma_sum_ext, lemma_sum_scale, lemma_sum_add, lemma_sum_zero,
};
use crate::prime_field::lemma_inverse_exists;
use vstd::arithmetic::div_mod::lemma_fundamental_div_mod;
use crate::layers::{canonical, mat_vec};
use crate::invertibility::lemma_dot_as_sum;
use crate::mds::{
    cauchy_denominator, cauchy_matrix, lemma_cauchy_denominator,
};
use crate::xof::{X_MASK, Y_MASK};

verus! {

/// `a` and `b` are congruent modulo `P`.
pub open spec fn eqm(a: int, b: int) -> bool {
    a % (P as int) == b % (P as int)
}

/// The inverse modulo `P` of `a` (meaningful when `a` is not a multiple of `P`).
pub open spec fn inv(a: int) -> int {
    field_inv((a % (P as int)) as nat) as int
}

/// `a * inv(a)` is one modulo `P`.
pub proof fn lemma_inv(a: int)
    requires
        a % (P as int) != 0,
    ensures
        eqm(a * inv(a), 1),
        inv(a) % (P as int) != 0,
{
    lemma_inverse_exists(a);
    lemma_small_mod(1, P as nat);
    if inv(a) % (P as int) == 0 {
        lemma_mul_mod_noop(a, inv(a), P as int);
        assert((a % (P as int)) * 0 == 0);
    }
}

/// Congruence is kept by multiplication.
pub proof fn lemma_eqm_mul(a: int, b: int, c: int, d: int)
    requires
        eqm(a, b),
        eqm(c, d),
    ensures
        eqm(a * c, b * d),
{
    lemma_mul_mod_noop(a, c, P as int);
    lemma_mul_mod_noop(b, d, P as int);
}

/// Congruence is kept by addition.
pub proof fn lemma_eqm_add(a: int, b: int, c: int, d: int)
    requires
        eqm(a, b),
        eqm(c, d),
    ensures
        eqm(a + c, b + d),
{
    lemma_add_mod_noop(a, c, P as int);
    lemma_add_mod_noop(b, d, P as int);
}

/// Congruence is kept by subtraction.
pub proof fn lemma_eqm_sub(a: int, b: int, c: int, d: int)
    requires
        eqm(a, b),
        eqm(c, d),
    ensures
        eqm(a - c, b - d),
{
    lemma_sub_mod_noop(a, c, P as int);
    lemma_sub_mod_noop(b, d, P as int);
}

/// A factor that is not a multiple of `P` can be cancelled from a product congruent to zero.
pub proof fn lemma_cancel(u: int, v: int)
    requires
        u % (P as int) != 0,
        eqm(u * v, 0),
    ensures
        eqm(v, 0),
{
    lemma_inv(u);
    lemma_eqm_mul(u * v, 0, inv(u), inv(u));
    lemma_eqm_mul(v, v, u * inv(u), 1);
    lemma_mul_is_associative(v, u, inv(u));
    lemma_mul_is_commutative(u, v);
    assert(v * (u * inv(u)) == (u * v) * inv(u));
}

/// The difference of two inverses: `inv(a) - inv(b) = (b - a) * inv(a) * inv(b)`.
pub proof fn lemma_inv_difference(a: int, b: int)
    requires
        a % (P as int) != 0,
        b % (P as int) != 0,
    ensures
        eqm(inv(a) - inv(b), (b - a) * inv(a) * inv(b)),
{
    let (ia, ib) = (inv(a), inv(b));
    lemma_inv(a);
    lemma_inv(b);
    assert((b - a) * ia * ib == (b * ib) * ia - (a * ia) * ib) by (nonlinear_arith);
    lemma_eqm_mul(b * ib, 1, ia, ia);
    lemma_eqm_mul(a * ia, 1, ib, ib);
    lemma_eqm_sub((b * ib) * ia, ia, (a * ia) * ib, ib);
}

/// The difference of two sums is the sum of the differences.
pub proof fn lemma_sum_sub(f: spec_fn(int) -> int, g: spec_fn(int) -> int, n: nat)
    ensures
        sum(f, n) - sum(g, n) == sum(|j: int| f(j) - g(j), n),
    decreases n,
{
    if n > 0 {
        lemma_sum_sub(f, g, (n - 1) as nat);
    }
}

/// Column combination `i` of the Cauchy system: `sum_j c[j] / (x[i] + y[j])` over `j < n`.
pub open spec fn combination(x: Seq<int>, y: Seq<int>, c: Seq<int>, i: int, n: nat) -> int {
    sum(|j: int| c[j] * inv(x[i] + y[j]), n)
}

/// The first `n` parameters are distinct modulo `P` and no denominator is a multiple of `P`.
pub open spec fn cauchy_params_ok(x: Seq<int>, y: Seq<int>, n: nat) -> bool {
    &&& n <= x.len()
    &&& n <= y.len()
    &&& forall|i: int, k: int| 0 <= i < n && 0 <= k < n && i != k ==> #[trigger] ((x[i] - x[k]) % (P as int)) != 0
    &&& forall|i: int, k: int| 0 <= i < n && 0 <= k < n && i != k ==> #[trigger] ((y[i] - y[k]) % (P as int)) != 0
    &&& forall|i: int, j: int| 0 <= i < n && 0 <= j < n ==> #[trigger] ((x[i] + y[j]) % (P as int)) != 0
}


/// Equal terms give congruent sums: a helper to turn termwise congruence into sums.
proof fn lemma_sum_eqm(f: spec_fn(int) -> int, g: spec_fn(int) -> int, n: nat)
    requires
        forall|j: int| 0 <= j < n ==> eqm(#[trigger] f(j), g(j)),
    ensures
        eqm(sum(f, n), sum(g, n)),
{
    assert forall|j: int| 0 <= j < n implies #[trigger] f(j) % (P as int) == g(j) % (P as int) by {
        assert(eqm(f(j), g(j)));
    }
    lemma_sum_congruent(f, g, n);
}

/// The coefficients scaled by the last row's inverses: `c[j] / (x[n-1] + y[j])`.
pub open spec fn row_scaled(x: Seq<int>, y: Seq<int>, c: Seq<int>, n: nat) -> Seq<int> {
    Seq::new(n, |j: int| c[j] * inv(x[n - 1] + y[j]))
}

/// The scaled coefficients weighted by the last column's differences: `c1[j] * (y[n-1] - y[j])`.
pub open spec fn column_weighted(y: Seq<int>, c1: Seq<int>, n: nat) -> Seq<int> {
    Seq::new((n - 1) as nat, |j: int| c1[j] * (y[n - 1] - y[j]))
}

/// Subtracting the last equation from equation `i` leaves an equation in the
/// row-scaled coefficients.
proof fn lemma_eliminate_row(x: Seq<int>, y: Seq<int>, c: Seq<int>, n: nat, i: int)
    requires
        cauchy_params_ok(x, y, n),
        n >= 1,
        c.len() >= n,
        0 <= i < n - 1,
        eqm(combination(x, y, c, i, n), 0),
        eqm(combination(x, y, c, n - 1, n), 0),
    ensures
        eqm(combination(x, y, row_scaled(x, y, c, n), i, n), 0),
{
    let p = P as int;
    let m = n - 1;
    let c1 = row_scaled(x, y, c, n);
    let dx = x[m] - x[i];
    let f = |j: int| c[j] * inv(x[i] + y[j]);
    let g = |j: int| c[j] * inv(x[m] + y[j]);
    let d = |j: int| f(j) - g(j);
    let e = |j: int| c1[j] * inv(x[i] + y[j]);
    let h = |j: int| dx * e(j);
    lemma_sum_sub(f, g, n);
    lemma_eqm_sub(sum(f, n), 0, sum(g, n), 0);
    assert forall|j: int| 0 <= j < n implies eqm(#[trigger] d(j), h(j)) by {
        let a = x[i] + y[j];
        let b = x[m] + y[j];
        assert(a % p != 0);
        assert(b % p != 0);
        lemma_inv_difference(a, b);
        lemma_eqm_mul(c[j], c[j], inv(a) - inv(b), (b - a) * inv(a) * inv(b));
        lemma_mul_is_distributive_sub(c[j], inv(a), inv(b));
        assert(b - a == dx);
        let (cj, ia, ib) = (c[j], inv(a), inv(b));
        assert(cj * ((b - a) * ia * ib) == dx * ((cj * ib) * ia)) by (nonlinear_arith)
            requires
                b - a == dx,
        ;
        assert(c1[j] == c[j] * inv(b));
    }
    lemma_sum_eqm(d, h, n);
    lemma_sum_scale(dx, e, n);
    lemma_sum_ext(|j: int| dx * e(j), h, n);
    lemma_sum_ext(e, |j: int| c1[j] * inv(x[i] + y[j]), n);
    assert(dx % p != 0);
    lemma_cancel(dx, combination(x, y, c1, i, n));
}

/// Splitting off the last column leaves an equation of the smaller system in
/// the column-weighted coefficients.
proof fn lemma_eliminate_column(x: Seq<int>, y: Seq<int>, c1: Seq<int>, n: nat, i: int)
    requires
        cauchy_params_ok(x, y, n),
        n >= 1,
        c1.len() >= n,
        0 <= i < n - 1,
        eqm(combination(x, y, c1, i, n), 0),
        eqm(sum(|j: int| c1[j], n), 0),
    ensures
        eqm(combination(x, y, column_weighted(y, c1, n), i, (n - 1) as nat), 0),
{
    let p = P as int;
    let m = n - 1;
    let c2 = column_weighted(y, c1, n);
    let b = x[i] + y[m];
    let ib = inv(b);
    assert(b % p != 0);
    lemma_inv(b);
    let t = |j: int| c1[j] * inv(x[i] + y[j]);
    let wp = |j: int| c1[j] * (y[m] - y[j]) * inv(x[i] + y[j]);
    let u = |j: int| ib * c1[j];
    let w = |j: int| ib * wp(j);
    let uw = |j: int| u(j) + w(j);
    assert forall|j: int| 0 <= j < n implies eqm(#[trigger] t(j), uw(j)) by {
        let a = x[i] + y[j];
        assert(a % p != 0);
        lemma_inv_difference(a, b);
        // inv(a) == ib + (inv(a) - ib), and inv(a) - ib is congruent to (b - a) * inv(a) * ib
        lemma_eqm_add(ib, ib, inv(a) - ib, (b - a) * inv(a) * ib);
        lemma_eqm_mul(c1[j], c1[j], inv(a), ib + (b - a) * inv(a) * ib);
        assert(b - a == y[m] - y[j]);
        assert(c1[j] * (ib + (b - a) * inv(a) * ib) == ib * c1[j] + ib * (c1[j] * (b - a) * inv(a)))
            by (nonlinear_arith);
    }
    lemma_sum_eqm(t, uw, n);
    lemma_sum_ext(t, |j: int| c1[j] * inv(x[i] + y[j]), n);
    lemma_sum_add(u, w, n);
    lemma_sum_ext(|j: int| u(j) + w(j), uw, n);
    lemma_sum_scale(ib, |j: int| c1[j], n);
    lemma_sum_ext(|j: int| ib * (|j: int| c1[j])(j), u, n);
    lemma_sum_scale(ib, wp, n);
    lemma_sum_ext(|j: int| ib * wp(j), w, n);
    // sum(u) is congruent to zero
    lemma_eqm_mul(ib, ib, sum(|j: int| c1[j], n), 0);
    // the last term of wp vanishes, the others are the weighted combination
    let (cm, ym, im) = (c1[m], y[m], inv(x[i] + y[m]));
    assert(cm * (ym - ym) * im == 0) by (nonlinear_arith);
    assert(wp(m) == 0);
    assert(sum(wp, n) == sum(wp, m as nat) + wp(m));
    lemma_sum_ext(wp, |j: int| c2[j] * inv(x[i] + y[j]), m as nat);
    let k = combination(x, y, c2, i, m as nat);
    assert(sum(wp, n) == k);
    lemma_eqm_add(sum(u, n), 0, sum(w, n), ib * k);
    assert(eqm(ib * k, 0));
    lemma_cancel(ib, k);
}


/// A combination of the columns of a Cauchy matrix with distinct parameters
/// that vanishes in every row has only zero coefficients.
pub proof fn lemma_cauchy_kernel(x: Seq<int>, y: Seq<int>, c: Seq<int>, n: nat)
    requires
        cauchy_params_ok(x, y, n),
        c.len() >= n,
        forall|i: int| 0 <= i < n ==> eqm(#[trigger] combination(x, y, c, i, n), 0),
    ensures
        forall|j: int| 0 <= j < n ==> eqm(#[trigger] c[j], 0),
    decreases n,
{
    if n > 0 {
        let p = P as int;
        let m = (n - 1) as nat;
        let c1 = row_scaled(x, y, c, n);
        assert(eqm(combination(x, y, c, m as int, n), 0));
        lemma_sum_ext(|j: int| c[j] * inv(x[m as int] + y[j]), |j: int| c1[j], n);
        assert(eqm(sum(|j: int| c1[j], n), 0));
        let c2 = column_weighted(y, c1, n);
        assert forall|i: int| 0 <= i < m implies eqm(#[trigger] combination(x, y, c2, i, m), 0) by {
            assert(eqm(combination(x, y, c, i, n), 0));
            lemma_eliminate_row(x, y, c, n, i);
            lemma_eliminate_column(x, y, c1, n, i);
        }
        lemma_cauchy_kernel(x, y, c2, m);
        assert forall|j: int| 0 <= j < m implies eqm(#[trigger] c1[j], 0) by {
            assert(eqm(c2[j], 0));
            let dy = y[m as int] - y[j];
            assert(dy % p != 0);
            lemma_mul_is_commutative(c1[j], dy);
            lemma_cancel(dy, c1[j]);
        }
        let zeros = |j: int| 0int;
        let cs = |j: int| c1[j];
        assert forall|j: int| 0 <= j < m implies eqm(#[trigger] cs(j), zeros(j)) by {
            assert(eqm(c1[j], 0));
        }
        lemma_sum_eqm(cs, zeros, m);
        lemma_sum_zero(zeros, m);
        assert(sum(|j: int| c1[j], n) == sum(|j: int| c1[j], m) + c1[m as int]);
        lemma_eqm_sub(sum(|j: int| c1[j], n), 0, sum(|j: int| c1[j], m), 0);
        assert(eqm(c1[m as int], 0));
        assert forall|j: int| 0 <= j < n implies eqm(#[trigger] c[j], 0) by {
            let b = x[m as int] + y[j];
            assert(b % p != 0);
            lemma_inv(b);
            lemma_eqm_mul(c1[j], 0, b, b);
            lemma_eqm_mul(c[j], c[j], b * inv(b), 1);
            let (cj, ib) = (c[j], inv(b));
            assert(cj * ib * b == cj * (b * ib)) by (nonlinear_arith);
            assert(c1[j] == cj * ib);
        }
    }
}


/// An integer strictly between `-P` and `P` is a multiple of `P` only when it is zero.
pub proof fn lemma_small_nonzero(d: int)
    requires
        -(P as int) < d < P as int,
        d != 0,
    ensures
        d % (P as int) != 0,
{
    let p = P as int;
    lemma_fundamental_div_mod(d, p);
    let q = d / p;
    if d % p == 0 {
        assert(d == p * q);
        assert(false) by (nonlinear_arith)
            requires
                d == p * q,
                -p < d < p,
                d != 0,
                p > 0,
        ;
    }
}

/// The parameters of a Cauchy matrix as integers: `x[i]` is the low 22 bits
/// of `ys[i]`, `y[j]` is `ys[j]`.
pub open spec fn cauchy_x(ys: Seq<u32>) -> Seq<int> {
    Seq::new(ys.len(), |i: int| (ys[i] & X_MASK) as int)
}

/// See `cauchy_x`.
pub open spec fn cauchy_y(ys: Seq<u32>) -> Seq<int> {
    Seq::new(ys.len(), |j: int| ys[j] as int)
}

/// Parameters of 29 bits whose low 22 bits are distinct and whose
/// denominators are nonzero meet the conditions of the kernel lemma.
proof fn lemma_params_ok(ys: Seq<u32>)
    requires
        forall|k: int| 0 <= k < ys.len() ==> #[trigger] ys[k] <= Y_MASK,
        forall|i: int, j: int| 0 <= i < j < ys.len() ==> #[trigger] ys[i] & X_MASK != #[trigger] ys[j] & X_MASK,
        forall|i: int, j: int|
            0 <= i < ys.len() && 0 <= j < ys.len() ==> #[trigger] cauchy_denominator(ys, i, j) != 0,
    ensures
        cauchy_params_ok(cauchy_x(ys), cauchy_y(ys), ys.len()),
{
    let (x, y, n) = (cauchy_x(ys), cauchy_y(ys), ys.len());
    assert forall|i: int, k: int| 0 <= i < n && 0 <= k < n && i != k implies #[trigger] ((x[i] - x[k]) % (P as int)) != 0 by {
        lemma_cauchy_denominator(ys, i, k);
        lemma_cauchy_denominator(ys, k, i);
        if i < k {
            assert(ys[i] & X_MASK != ys[k] & X_MASK);
        } else {
            assert(ys[k] & X_MASK != ys[i] & X_MASK);
        }
        lemma_small_nonzero(x[i] - x[k]);
    }
    assert forall|i: int, k: int| 0 <= i < n && 0 <= k < n && i != k implies #[trigger] ((y[i] - y[k]) % (P as int)) != 0 by {
        if i < k {
            assert(ys[i] & X_MASK != ys[k] & X_MASK);
        } else {
            assert(ys[k] & X_MASK != ys[i] & X_MASK);
        }
        assert(ys[i] <= Y_MASK && ys[k] <= Y_MASK);
        lemma_small_nonzero(y[i] - y[k]);
    }
    assert forall|i: int, j: int| 0 <= i < n && 0 <= j < n implies #[trigger] ((x[i] + y[j]) % (P as int)) != 0 by {
        lemma_cauchy_denominator(ys, i, j);
        assert(cauchy_denominator(ys, i, j) != 0);
        lemma_small_nonzero(x[i] + y[j]);
    }
}

/// Multiplication by a Cauchy matrix whose parameters fit in 29 bits, have
/// distinct low 22 bits and nonzero denominators is injective on canonical vectors.
pub proof fn lemma_cauchy_injective(ys: Seq<u32>, s: Seq<nat>, t: Seq<nat>)
    requires
        forall|k: int| 0 <= k < ys.len() ==> #[trigger] ys[k] <= Y_MASK,
        forall|i: int, j: int| 0 <= i < j < ys.len() ==> #[trigger] ys[i] & X_MASK != #[trigger] ys[j] & X_MASK,
        forall|i: int, j: int|
            0 <= i < ys.len() && 0 <= j < ys.len() ==> #[trigger] cauchy_denominator(ys, i, j) != 0,
        s.len() == ys.len(),
        t.len() == ys.len(),
        canonical(s),
        canonical(t),
        mat_vec(cauchy_matrix(ys), s) == mat_vec(cauchy_matrix(ys), t),
    ensures
        s == t,
{
    let p = P as int;
    let n = ys.len();
    let (x, y) = (cauchy_x(ys), cauchy_y(ys));
    let m = cauchy_matrix(ys);
    let c = Seq::new(n, |j: int| s[j] as int - t[j] as int);
    lemma_params_ok(ys);
    assert forall|i: int| 0 <= i < n implies eqm(#[trigger] combination(x, y, c, i, n), 0) by {
        assert(mat_vec(m, s)[i] == mat_vec(m, t)[i]);
        lemma_dot_as_sum(m[i], s, n);
        lemma_dot_as_sum(m[i], t, n);
        let fs = |j: int| (m[i][j] * s[j]) as int;
        let ft = |j: int| (m[i][j] * t[j]) as int;
        lemma_sum_sub(fs, ft, n);
        lemma_eqm_sub(sum(fs, n), sum(ft, n), sum(ft, n), sum(ft, n));
        let df = |j: int| fs(j) - ft(j);
        assert forall|j: int| 0 <= j < n implies #[trigger] df(j) == c[j] * inv(x[i] + y[j]) by {
            lemma_cauchy_denominator(ys, i, j);
            let d = cauchy_denominator(ys, i, j);
            lemma_small_mod(d, P as nat);
            assert(x[i] + y[j] == d as int);
            assert(m[i][j] == field_inv(d));
            let (mij, sj, tj) = (m[i][j] as int, s[j] as int, t[j] as int);
            assert(mij * sj - mij * tj == (sj - tj) * mij) by (nonlinear_arith);
        }
        lemma_sum_ext(df, |j: int| c[j] * inv(x[i] + y[j]), n);
    }
    lemma_cauchy_kernel(x, y, c, n);
    assert forall|j: int| 0 <= j < n implies s[j] == t[j] by {
        assert(eqm(c[j], 0));
        assert(s[j] < P && t[j] < P);
        if s[j] != t[j] {
            lemma_small_nonzero(c[j]);
        }
    }
    assert(s =~= t);
}

} // verus!
