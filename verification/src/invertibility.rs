//! The Monolith-31 permutation is a permutation of canonical states: every
//! layer is injective, the width-16 circulant matrix by an explicit inverse
//! and the Cauchy matrices of the other widths by the kernel argument.
use vstd::prelude::*;
use vstd::arithmetic::div_mod::{
    lemma_add_mod_noop, lemma_mod_bound, lemma_mul_mod_noop_right, lemma_small_mod,
};
use vstd::arithmetic::mul::{lemma_mul_is_associative, lemma_mul_is_commutative, lemma_mul_is_distributive_add};
use crate::field::P;
use crate::layers::{
    add_round_constants_spec, bars_spec, bricks_spec, canonical, dot, lemma_add_mod_cancel,
    lemma_bars_injective, lemma_bricks_injective, mat_vec, permutation_spec, round_spec,
    rounds_spec, NUM_BARS,
};
use crate::sbox::lemma_bar_canonical;
use crate::cauchy::lemma_cauchy_injective;
use crate::mds::{
    cauchy_params, lemma_cauchy_params_bounded, lemma_cauchy_params_distinct, mds_derivable,
    mds_matrix,
};
use crate::xof::{Sampler, lemma_first_sampled, mds_seed, sampled};
use crate::mds::{MDS16_ROW, circulant16};
use vstd::arithmetic::div_mod::lemma_mul_mod_noop_left;

verus! {

/// `f(0) + ... + f(n - 1)`.
pub open spec fn sum(f: spec_fn(int) -> int, n: nat) -> int
    decreases n,
{
    if n == 0 {
        0
    } else {
        sum(f, (n - 1) as nat) + f(n - 1)
    }
}

/// Sums of functions that agree below `n` agree.
pub proof fn lemma_sum_ext(f: spec_fn(int) -> int, g: spec_fn(int) -> int, n: nat)
    requires
        forall|j: int| 0 <= j < n ==> #[trigger] f(j) == g(j),
    ensures
        sum(f, n) == sum(g, n),
    decreases n,
{
    if n > 0 {
        lemma_sum_ext(f, g, (n - 1) as nat);
    }
}

/// A sum of terms congruent modulo `P` is congruent modulo `P`.
pub proof fn lemma_sum_congruent(f: spec_fn(int) -> int, g: spec_fn(int) -> int, n: nat)
    requires
        forall|j: int| 0 <= j < n ==> #[trigger] f(j) % (P as int) == g(j) % (P as int),
    ensures
        sum(f, n) % (P as int) == sum(g, n) % (P as int),
    decreases n,
{
    if n > 0 {
        let p = P as int;
        lemma_sum_congruent(f, g, (n - 1) as nat);
        lemma_add_mod_noop(sum(f, (n - 1) as nat), f(n - 1), p);
        lemma_add_mod_noop(sum(g, (n - 1) as nat), g(n - 1), p);
    }
}

/// Multiplying a sum multiplies each term.
pub proof fn lemma_sum_scale(c: int, f: spec_fn(int) -> int, n: nat)
    ensures
        c * sum(f, n) == sum(|j: int| c * f(j), n),
    decreases n,
{
    if n > 0 {
        lemma_sum_scale(c, f, (n - 1) as nat);
        lemma_mul_is_distributive_add(c, sum(f, (n - 1) as nat), f(n - 1));
    }
}

/// The sum of two sums is the sum of the pointwise sums.
pub proof fn lemma_sum_add(f: spec_fn(int) -> int, g: spec_fn(int) -> int, n: nat)
    ensures
        sum(f, n) + sum(g, n) == sum(|j: int| f(j) + g(j), n),
    decreases n,
{
    if n > 0 {
        lemma_sum_add(f, g, (n - 1) as nat);
    }
}

/// The order of summation in a double sum does not matter.
pub proof fn lemma_sum_exchange(f: spec_fn(int, int) -> int, a: nat, b: nat)
    ensures
        sum(|j: int| sum(|k: int| f(j, k), b), a) == sum(|k: int| sum(|j: int| f(j, k), a), b),
    decreases a,
{
    if a > 0 {
        let am = (a - 1) as nat;
        lemma_sum_exchange(f, am, b);
        let rows = |j: int| sum(|k: int| f(j, k), b);
        let left = |k: int| sum(|j: int| f(j, k), am);
        let last = |k: int| f(a - 1, k);
        let cols = |k: int| sum(|j: int| f(j, k), a);
        assert(sum(rows, a) == sum(rows, am) + rows(a - 1));
        assert(rows(a - 1) == sum(last, b)) by {
            lemma_sum_ext(|k: int| f(a - 1, k), last, b);
        }
        assert(sum(rows, am) == sum(left, b));
        lemma_sum_add(left, last, b);
        let both = |k: int| left(k) + last(k);
        assert forall|k: int| 0 <= k < b implies #[trigger] both(k) == cols(k) by {
        }
        lemma_sum_ext(both, cols, b);
        assert(rows =~= (|j: int| sum(|k: int| f(j, k), b)));
        assert(cols =~= (|k: int| sum(|j: int| f(j, k), a)));
    } else {
        lemma_sum_zero(|k: int| sum(|j: int| f(j, k), a), b);
    }
}

/// A sum of zeros is zero.
pub proof fn lemma_sum_zero(f: spec_fn(int) -> int, n: nat)
    requires
        forall|j: int| 0 <= j < n ==> #[trigger] f(j) == 0,
    ensures
        sum(f, n) == 0,
    decreases n,
{
    if n > 0 {
        lemma_sum_zero(f, (n - 1) as nat);
    }
}

/// A dot product is a sum of products.
pub proof fn lemma_dot_as_sum(x: Seq<nat>, y: Seq<nat>, n: nat)
    ensures
        dot(x, y, n) as int == sum(|j: int| (x[j] * y[j]) as int, n),
    decreases n,
{
    if n > 0 {
        lemma_dot_as_sum(x, y, (n - 1) as nat);
    }
}


/// Shifting the summation index by one drops the first term and adds the next.
pub proof fn lemma_sum_shift(g: spec_fn(int) -> int, n: nat)
    ensures
        sum(|j: int| g(j + 1), n) == sum(g, n) - g(0) + g(n as int),
    decreases n,
{
    if n > 0 {
        lemma_sum_shift(g, (n - 1) as nat);
    }
}

/// Over a full period, a sum does not depend on where it starts.
pub proof fn lemma_sum_rotate(f: spec_fn(int) -> int, n: nat, i: nat)
    requires
        n > 0,
        forall|j: int| #[trigger] f(j + n) == f(j),
    ensures
        sum(|j: int| f(j + i), n) == sum(f, n),
    decreases i,
{
    if i == 0 {
        lemma_sum_ext(|j: int| f(j + i), f, n);
    } else {
        let im = (i - 1) as nat;
        lemma_sum_rotate(f, n, im);
        let g = |j: int| f(j + im);
        lemma_sum_shift(g, n);
        assert(f((im + n) as int) == f(im as int));
        lemma_sum_ext(|j: int| g(j + 1), |j: int| f(j + i), n);
    }
}


/// The first row of the inverse of the circulant MDS matrix of width 16.
pub open spec fn inverse_row16() -> Seq<int> {
    seq![
        1325460196int, 123350314int, 1124192176int, 122549823int, 16225590int, 1769133998int,
        1596704794int, 1757886559int, 1616238592int, 214937165int, 1824003953int, 2109236387int,
        383889434int, 1415320228int, 1467424601int, 877575281int,
    ]
}

/// Coefficient `d` of the cyclic convolution of the inverse row with the MDS row.
pub open spec fn conv16(d: int) -> int {
    sum(|t: int| inverse_row16()[t] * (MDS16_ROW@[(d - t + 16) % 16] as int), 16)
}

/// The cyclic convolution of the two rows is one at zero and zero elsewhere,
/// modulo `P`.
pub proof fn lemma_conv16()
    ensures
        forall|d: int| 0 <= d < 16 ==> #[trigger] conv16(d) % (P as int) == if d == 0 {
            1int
        } else {
            0int
        },
{
    reveal_with_fuel(sum, 17);
    assert(conv16(0) % (P as int) == 1);
    assert(conv16(1) % (P as int) == 0);
    assert(conv16(2) % (P as int) == 0);
    assert(conv16(3) % (P as int) == 0);
    assert(conv16(4) % (P as int) == 0);
    assert(conv16(5) % (P as int) == 0);
    assert(conv16(6) % (P as int) == 0);
    assert(conv16(7) % (P as int) == 0);
    assert(conv16(8) % (P as int) == 0);
    assert(conv16(9) % (P as int) == 0);
    assert(conv16(10) % (P as int) == 0);
    assert(conv16(11) % (P as int) == 0);
    assert(conv16(12) % (P as int) == 0);
    assert(conv16(13) % (P as int) == 0);
    assert(conv16(14) % (P as int) == 0);
    assert(conv16(15) % (P as int) == 0);
}


/// The inverse of the circulant MDS matrix of width 16: the circulant matrix
/// of `inverse_row16`.
pub open spec fn circulant16_inverse() -> Seq<Seq<nat>> {
    Seq::new(16, |i: int| Seq::new(16, |j: int| inverse_row16()[(j - i + 16) % 16] as nat))
}

/// Entry `(i, k)` of the product of the inverse and the circulant matrix, over the integers.
pub open spec fn product16(i: int, k: int) -> int {
    sum(|j: int| (circulant16_inverse()[i][j] * circulant16()[j][k]) as int, 16)
}

/// Adding a multiple of 16 does not change a residue modulo 16.
proof fn lemma_mod16(a: int, q: int)
    ensures
        (a + 16 * q) % 16 == a % 16,
{
    vstd::arithmetic::div_mod::lemma_mod_multiples_vanish(q, a, 16);
}

/// The term of the cyclic convolution at position `t`, for any integer `t`.
spec fn conv_term(d: int, t: int) -> int {
    inverse_row16()[t % 16] * (MDS16_ROW@[(d - t) % 16] as int)
}

/// Term `j` of `product16(i, k)` is the convolution term at `j - i`, shifted by a period.
proof fn lemma_product_term(i: int, k: int, j: int)
    requires
        0 <= i < 16,
        0 <= k < 16,
        0 <= j < 16,
    ensures
        (circulant16_inverse()[i][j] * circulant16()[j][k]) as int == conv_term(
            (k - i + 16) % 16,
            j + (16 - i),
        ),
{
    let d = (k - i + 16) % 16;
    if k >= i {
        lemma_mod16(k - i, 1);
        lemma_small_mod((k - i) as nat, 16);
        assert(d == k - i);
    } else {
        lemma_small_mod((k - i + 16) as nat, 16);
    }
    lemma_mod16(j - i, 1);
    assert((j + (16 - i)) % 16 == (j - i + 16) % 16);
    lemma_mod16(k - j - 16, 2);
    lemma_mod16(k - j - 32, 3);
    assert((d - (j + (16 - i))) % 16 == (k - j + 16) % 16);
}

/// The convolution terms repeat with period 16.
proof fn lemma_conv_term_periodic(d: int)
    ensures
        forall|t: int| #[trigger] conv_term(d, t + 16) == conv_term(d, t),
{
    assert forall|t: int| #[trigger] conv_term(d, t + 16) == conv_term(d, t) by {
        lemma_mod16(t, 1);
        lemma_mod16(d - t - 16, 1);
    }
}

/// The inverse times the circulant matrix is the identity modulo `P`.
pub proof fn lemma_product16(i: int, k: int)
    requires
        0 <= i < 16,
        0 <= k < 16,
    ensures
        product16(i, k) % (P as int) == if i == k {
            1int
        } else {
            0int
        },
{
    let d = (k - i + 16) % 16;
    let f = |t: int| conv_term(d, t);
    lemma_conv_term_periodic(d);
    assert forall|t: int| #[trigger] f(t + 16) == f(t) by {
    }
    lemma_sum_rotate(f, 16, (16 - i) as nat);
    let entry = |j: int| (circulant16_inverse()[i][j] * circulant16()[j][k]) as int;
    assert forall|j: int| 0 <= j < 16 implies #[trigger] entry(j) == f(j + (16 - i)) by {
        lemma_product_term(i, k, j);
    }
    lemma_sum_ext(entry, |j: int| f(j + (16 - i)), 16);
    let g = |t: int| inverse_row16()[t] * (MDS16_ROW@[(d - t + 16) % 16] as int);
    assert forall|t: int| 0 <= t < 16 implies #[trigger] f(t) == g(t) by {
        lemma_small_mod(t as nat, 16);
        lemma_mod16(d - t, 1);
    }
    lemma_sum_ext(f, g, 16);
    assert(product16(i, k) == conv16(d));
    lemma_conv16();
    if k >= i {
        lemma_small_mod((k - i) as nat, 16);
        lemma_mod16(k - i, 1);
    } else {
        lemma_small_mod((k - i + 16) as nat, 16);
    }
}


/// A sum of a function that is zero except at `i` is its value at `i`.
proof fn lemma_sum_indicator(i: int, v: int, n: nat)
    requires
        0 <= i,
    ensures
        sum(|k: int| if k == i { v } else { 0int }, n) == if i < n { v } else { 0int },
    decreases n,
{
    if n > 0 {
        lemma_sum_indicator(i, v, (n - 1) as nat);
    }
}

/// Row `i` of the inverse applied to the circulant product recovers `x[i]`.
proof fn lemma_left_inverse_row(x: Seq<nat>, i: int)
    requires
        x.len() == 16,
        canonical(x),
        0 <= i < 16,
    ensures
        dot(circulant16_inverse()[i], mat_vec(circulant16(), x), 16) % (P as nat) == x[i],
{
    let p = P as int;
    let n = circulant16_inverse();
    let m = circulant16();
    let y = mat_vec(m, x);
    lemma_dot_as_sum(n[i], y, 16);
    let t1 = |j: int| (n[i][j] * y[j]) as int;
    let t2 = |j: int| (n[i][j] as int) * (dot(m[j], x, 16) as int);
    assert forall|j: int| 0 <= j < 16 implies #[trigger] t1(j) % p == t2(j) % p by {
        lemma_mul_mod_noop_right(n[i][j] as int, dot(m[j], x, 16) as int, p);
    }
    lemma_sum_congruent(t1, t2, 16);
    let f = |j: int, k: int| (n[i][j] as int) * ((m[j][k] * x[k]) as int);
    assert forall|j: int| 0 <= j < 16 implies #[trigger] t2(j) == sum(|k: int| f(j, k), 16) by {
        lemma_dot_as_sum(m[j], x, 16);
        lemma_sum_scale(n[i][j] as int, |k: int| (m[j][k] * x[k]) as int, 16);
        lemma_sum_ext(
            |k: int| (n[i][j] as int) * (|k: int| (m[j][k] * x[k]) as int)(k),
            |k: int| f(j, k),
            16,
        );
    }
    lemma_sum_ext(t2, |j: int| sum(|k: int| f(j, k), 16), 16);
    lemma_sum_exchange(f, 16, 16);
    let t3 = |k: int| product16(i, k) * (x[k] as int);
    let cols = |k: int| sum(|j: int| f(j, k), 16);
    assert forall|k: int| 0 <= k < 16 implies #[trigger] cols(k) == t3(k) by {
        let e = |j: int| (n[i][j] * m[j][k]) as int;
        lemma_sum_scale(x[k] as int, e, 16);
        assert forall|j: int| 0 <= j < 16 implies #[trigger] f(j, k) == (x[k] as int) * e(j) by {
            lemma_mul_is_associative(n[i][j] as int, m[j][k] as int, x[k] as int);
            lemma_mul_is_commutative((n[i][j] * m[j][k]) as int, x[k] as int);
        }
        lemma_sum_ext(|j: int| f(j, k), |j: int| (x[k] as int) * e(j), 16);
        lemma_mul_is_commutative(x[k] as int, product16(i, k));
    }
    lemma_sum_ext(cols, t3, 16);
    let t4 = |k: int| if k == i { x[i] as int } else { 0int };
    assert forall|k: int| 0 <= k < 16 implies #[trigger] t3(k) % p == t4(k) % p by {
        lemma_product16(i, k);
        lemma_mul_mod_noop_left(product16(i, k), x[k] as int, p);
    }
    lemma_sum_congruent(t3, t4, 16);
    lemma_sum_indicator(i, x[i] as int, 16);
    lemma_small_mod(x[i], P as nat);
}

/// Multiplying a canonical vector by the circulant MDS matrix and then by its
/// inverse gives the vector back: the Concrete layer of width 16 is invertible.
pub proof fn lemma_circulant16_left_inverse(x: Seq<nat>)
    requires
        x.len() == 16,
        canonical(x),
    ensures
        mat_vec(circulant16_inverse(), mat_vec(circulant16(), x)) == x,
{
    let y = mat_vec(circulant16(), x);
    assert forall|i: int| 0 <= i < 16 implies #[trigger] mat_vec(circulant16_inverse(), y)[i]
        == x[i] by {
        lemma_left_inverse_row(x, i);
    }
    assert(mat_vec(circulant16_inverse(), y) =~= x);
}


/// The product of any matrix and a vector has canonical entries.
pub proof fn lemma_mat_vec_canonical(m: Seq<Seq<nat>>, x: Seq<nat>)
    ensures
        mat_vec(m, x).len() == m.len(),
        canonical(mat_vec(m, x)),
{
}

/// The Bars and Bricks layers keep canonical states canonical.
pub proof fn lemma_bars_bricks_canonical(s: Seq<nat>)
    requires
        canonical(s),
    ensures
        canonical(bars_spec(s)),
        canonical(bricks_spec(s)),
{
    assert forall|i: int| 0 <= i < s.len() implies #[trigger] bars_spec(s)[i] < P by {
        if i < NUM_BARS {
            lemma_bar_canonical(s[i] as u32);
        }
    }
}

/// Adding the same constants to two canonical states gives the same result
/// only when the states are equal.
pub proof fn lemma_add_round_constants_injective(x: Seq<nat>, y: Seq<nat>, rc: Seq<nat>)
    requires
        x.len() == y.len(),
        canonical(x),
        canonical(y),
        add_round_constants_spec(x, rc) == add_round_constants_spec(y, rc),
    ensures
        x == y,
{
    assert forall|i: int| 0 <= i < x.len() implies x[i] == y[i] by {
        assert(add_round_constants_spec(x, rc)[i] == add_round_constants_spec(y, rc)[i]);
        assert(add_round_constants_spec(x, rc)[i] == crate::field::add_mod(x[i], rc[i]));
        assert(add_round_constants_spec(y, rc)[i] == crate::field::add_mod(y[i], rc[i]));
        assert(x[i] < P && y[i] < P);
        lemma_add_mod_cancel(x[i], y[i], rc[i]);
    }
    assert(x =~= y);
}

/// Two canonical vectors with the same product by the circulant matrix are equal.
pub proof fn lemma_circulant16_injective(x: Seq<nat>, y: Seq<nat>)
    requires
        x.len() == 16,
        y.len() == 16,
        canonical(x),
        canonical(y),
        mat_vec(circulant16(), x) == mat_vec(circulant16(), y),
    ensures
        x == y,
{
    lemma_circulant16_left_inverse(x);
    lemma_circulant16_left_inverse(y);
}

/// Whether multiplication by `m` is injective on canonical vectors of length `w`.
pub open spec fn mat_vec_injective(m: Seq<Seq<nat>>, w: nat) -> bool {
    forall|x: Seq<nat>, y: Seq<nat>|
        x.len() == w && y.len() == w && canonical(x) && canonical(y) && #[trigger] mat_vec(m, x)
            == #[trigger] mat_vec(m, y) ==> x == y
}

/// The MDS matrix of every width for which it can be built is injective on
/// canonical states: the circulant matrix by its explicit inverse, a Cauchy
/// matrix by the kernel argument.
pub proof fn lemma_mds_injective(w: nat, r: nat)
    requires
        mds_derivable(w, r),
    ensures
        mds_matrix(w, r).len() == w,
        mat_vec_injective(mds_matrix(w, r), w),
{
    if w == 16 {
        assert forall|x: Seq<nat>, y: Seq<nat>|
            x.len() == w && y.len() == w && canonical(x) && canonical(y) && #[trigger] mat_vec(
                mds_matrix(w, r),
                x,
            ) == #[trigger] mat_vec(mds_matrix(w, r), y) implies x == y by {
            lemma_circulant16_injective(x, y);
        }
    } else {
        let seed = mds_seed(w, r);
        lemma_first_sampled(Sampler::Cauchy, seed, w);
        let n = choose|n: nat| sampled(Sampler::Cauchy, seed, n).len() == w;
        lemma_cauchy_params_bounded(seed, n);
        lemma_cauchy_params_distinct(seed, n);
        let ys = cauchy_params(w, r);
        assert(ys == sampled(Sampler::Cauchy, seed, n));
        assert forall|x: Seq<nat>, y: Seq<nat>|
            x.len() == w && y.len() == w && canonical(x) && canonical(y) && #[trigger] mat_vec(
                mds_matrix(w, r),
                x,
            ) == #[trigger] mat_vec(mds_matrix(w, r), y) implies x == y by {
            lemma_cauchy_injective(ys, x, y);
        }
    }
}

/// One full round is injective on canonical states when the Concrete layer is.
pub proof fn lemma_round_injective(m: Seq<Seq<nat>>, w: nat, s: Seq<nat>, t: Seq<nat>, rc: Seq<nat>)
    requires
        m.len() == w,
        mat_vec_injective(m, w),
        s.len() == w,
        t.len() == w,
        canonical(s),
        canonical(t),
        round_spec(m, s, rc) == round_spec(m, t, rc),
    ensures
        s == t,
{
    lemma_bars_bricks_canonical(s);
    lemma_bars_bricks_canonical(t);
    let (bs, bt) = (bars_spec(s), bars_spec(t));
    lemma_bars_bricks_canonical(bs);
    lemma_bars_bricks_canonical(bt);
    let (ks, kt) = (bricks_spec(bs), bricks_spec(bt));
    lemma_mat_vec_canonical(m, ks);
    lemma_mat_vec_canonical(m, kt);
    lemma_add_round_constants_injective(mat_vec(m, ks), mat_vec(m, kt), rc);
    assert(ks == kt);
    lemma_bricks_injective(bs, bt);
    lemma_bars_injective(s, t);
}

/// The state after any number of rounds is canonical and keeps the matrix's size.
proof fn lemma_rounds_canonical(m: Seq<Seq<nat>>, s: Seq<nat>, rcs: Seq<Seq<nat>>, n: nat)
    ensures
        rounds_spec(m, s, rcs, n).len() == m.len(),
        canonical(rounds_spec(m, s, rcs, n)),
    decreases n,
{
    if n == 0 {
        lemma_mat_vec_canonical(m, s);
    } else {
        lemma_rounds_canonical(m, s, rcs, (n - 1) as nat);
        let prev = rounds_spec(m, s, rcs, (n - 1) as nat);
        let mid = mat_vec(m, bricks_spec(bars_spec(prev)));
        lemma_mat_vec_canonical(m, bricks_spec(bars_spec(prev)));
        let out = add_round_constants_spec(mid, rcs[n - 1]);
        assert forall|i: int| 0 <= i < out.len() implies #[trigger] out[i] < P by {
        }
    }
}

/// Rounds are injective on canonical states when the Concrete layer is.
proof fn lemma_rounds_injective(
    m: Seq<Seq<nat>>,
    w: nat,
    s: Seq<nat>,
    t: Seq<nat>,
    rcs: Seq<Seq<nat>>,
    n: nat,
)
    requires
        m.len() == w,
        mat_vec_injective(m, w),
        s.len() == w,
        t.len() == w,
        canonical(s),
        canonical(t),
        rounds_spec(m, s, rcs, n) == rounds_spec(m, t, rcs, n),
    ensures
        s == t,
    decreases n,
{
    if n == 0 {
        assert(mat_vec(m, s) == mat_vec(m, t));
    } else {
        lemma_rounds_canonical(m, s, rcs, (n - 1) as nat);
        lemma_rounds_canonical(m, t, rcs, (n - 1) as nat);
        lemma_round_injective(
            m,
            w,
            rounds_spec(m, s, rcs, (n - 1) as nat),
            rounds_spec(m, t, rcs, (n - 1) as nat),
            rcs[n - 1],
        );
        lemma_rounds_injective(m, w, s, t, rcs, (n - 1) as nat);
    }
}

/// The Monolith permutation is a permutation of canonical states for every
/// width whose MDS matrix can be built: whatever the round constants, two
/// states with the same image are equal.
pub proof fn lemma_permutation_injective(
    w: nat,
    r: nat,
    s: Seq<nat>,
    t: Seq<nat>,
    rcs: Seq<Seq<nat>>,
)
    requires
        mds_derivable(w, r),
        s.len() == w,
        t.len() == w,
        canonical(s),
        canonical(t),
        permutation_spec(mds_matrix(w, r), s, rcs) == permutation_spec(mds_matrix(w, r), t, rcs),
    ensures
        s == t,
{
    lemma_mds_injective(w, r);
    lemma_rounds_injective(mds_matrix(w, r), w, s, t, rcs, rcs.len());
}

} // verus!
