//! The round layers of Monolith-31 and the whole permutation, as functions on
//! sequences of canonical field values.
use vstd::prelude::*;
use crate::field::{Mersenne31, P, add_mod, mul_mod};
use crate::sbox::{bar_spec, lemma_bar_injective};
use vstd::arithmetic::div_mod::{
    lemma_add_mod_noop, lemma_add_mod_noop_right, lemma_mod_add_multiples_vanish, lemma_mod_bound,
    lemma_mul_mod_noop_right, lemma_small_mod, lemma_sub_mod_noop,
};
use vstd::arithmetic::mul::lemma_mul_is_distributive_add;

verus! {

/// The number of leading state elements that the Bars layer touches.
pub const NUM_BARS: usize = 8;

/// The canonical values of a sequence of field elements.
pub open spec fn values(s: Seq<Mersenne31>) -> Seq<nat> {
    s.map_values(|x: Mersenne31| x@)
}

/// The rows of a matrix of field elements, as sequences of canonical values.
pub open spec fn matrix_values(m: Seq<Vec<Mersenne31>>) -> Seq<Seq<nat>> {
    m.map_values(|row: Vec<Mersenne31>| values(row@))
}

/// Bars: the Bars map on the first `NUM_BARS` elements, the rest unchanged.
pub open spec fn bars_spec(s: Seq<nat>) -> Seq<nat> {
    Seq::new(s.len(), |i: int| if i < NUM_BARS { bar_spec(s[i] as u32) as nat } else { s[i] })
}

/// Bricks (a type-3 Feistel layer): every element but the first gains the
/// square of its predecessor, both taken from the input.
pub open spec fn bricks_spec(s: Seq<nat>) -> Seq<nat> {
    Seq::new(
        s.len(),
        |i: int| if i == 0 { s[0] } else { add_mod(s[i], mul_mod(s[i - 1], s[i - 1])) },
    )
}

/// Elementwise field addition of a vector of round constants.
pub open spec fn add_round_constants_spec(s: Seq<nat>, rc: Seq<nat>) -> Seq<nat> {
    Seq::new(s.len(), |i: int| add_mod(s[i], rc[i]))
}

/// `a[0] * b[0] + ... + a[n-1] * b[n-1]`, over the integers.
pub open spec fn dot(a: Seq<nat>, b: Seq<nat>, n: nat) -> nat
    decreases n,
{
    if n == 0 {
        0
    } else {
        dot(a, b, (n - 1) as nat) + a[n - 1] * b[n - 1]
    }
}

/// The product of a matrix and a vector over the field.
pub open spec fn mat_vec(m: Seq<Seq<nat>>, x: Seq<nat>) -> Seq<nat> {
    Seq::new(m.len(), |i: int| dot(m[i], x, x.len()) % (P as nat))
}

/// One full round: Bars, Bricks, Concrete (the matrix `m`), then the round constants.
pub open spec fn round_spec(m: Seq<Seq<nat>>, s: Seq<nat>, rc: Seq<nat>) -> Seq<nat> {
    add_round_constants_spec(mat_vec(m, bricks_spec(bars_spec(s))), rc)
}

/// The state after the initial Concrete layer and the first `n` full rounds.
pub open spec fn rounds_spec(m: Seq<Seq<nat>>, s: Seq<nat>, rcs: Seq<Seq<nat>>, n: nat) -> Seq<
    nat,
>
    decreases n,
{
    if n == 0 {
        mat_vec(m, s)
    } else {
        round_spec(m, rounds_spec(m, s, rcs, (n - 1) as nat), rcs[n - 1])
    }
}

/// The Monolith permutation: the initial Concrete layer followed by one full
/// round for each vector of round constants, in order.
pub open spec fn permutation_spec(m: Seq<Seq<nat>>, s: Seq<nat>, rcs: Seq<Seq<nat>>) -> Seq<nat> {
    rounds_spec(m, s, rcs, rcs.len())
}


/// Whether every value of `s` is a canonical field value.
pub open spec fn canonical(s: Seq<nat>) -> bool {
    forall|i: int| 0 <= i < s.len() ==> #[trigger] s[i] < P
}

/// Adding the same field element to two canonical values gives the same
/// result only when the values are equal.
pub proof fn lemma_add_mod_cancel(a: nat, b: nat, q: nat)
    requires
        a < P,
        b < P,
        add_mod(a, q) == add_mod(b, q),
    ensures
        a == b,
{
    let p = P as int;
    let r = q as int % p;
    lemma_mod_bound(q as int, p);
    lemma_add_mod_noop_right(a as int, q as int, p);
    lemma_add_mod_noop_right(b as int, q as int, p);
    if a + r < p {
        lemma_small_mod((a + r) as nat, P as nat);
    } else {
        lemma_mod_add_multiples_vanish(a + r - p, p);
        lemma_small_mod((a + r - p) as nat, P as nat);
    }
    if b + r < p {
        lemma_small_mod((b + r) as nat, P as nat);
    } else {
        lemma_mod_add_multiples_vanish(b + r - p, p);
        lemma_small_mod((b + r - p) as nat, P as nat);
    }
}

/// The Bars layer is injective on canonical states.
pub proof fn lemma_bars_injective(s: Seq<nat>, t: Seq<nat>)
    requires
        s.len() == t.len(),
        canonical(s),
        canonical(t),
        bars_spec(s) == bars_spec(t),
    ensures
        s == t,
{
    assert forall|i: int| 0 <= i < s.len() implies s[i] == t[i] by {
        assert(bars_spec(s)[i] == bars_spec(t)[i]);
        if i < NUM_BARS {
            assert(bars_spec(s)[i] == bar_spec(s[i] as u32) as nat);
            assert(bars_spec(t)[i] == bar_spec(t[i] as u32) as nat);
            assert(s[i] < P && t[i] < P);
            lemma_bar_injective(s[i] as u32, t[i] as u32);
        } else {
            assert(bars_spec(s)[i] == s[i]);
            assert(bars_spec(t)[i] == t[i]);
        }
    }
    assert(s =~= t);
}

/// The Bricks layer is injective on canonical states: each element is
/// recovered from its image and its already recovered predecessor.
pub proof fn lemma_bricks_injective(s: Seq<nat>, t: Seq<nat>)
    requires
        s.len() == t.len(),
        canonical(s),
        canonical(t),
        bricks_spec(s) == bricks_spec(t),
    ensures
        s == t,
{
    lemma_bricks_prefix(s, t, s.len());
    assert(s =~= t);
}

/// The first `i` elements of two canonical states with the same Bricks image agree.
proof fn lemma_bricks_prefix(s: Seq<nat>, t: Seq<nat>, i: nat)
    requires
        i <= s.len(),
        s.len() == t.len(),
        canonical(s),
        canonical(t),
        bricks_spec(s) == bricks_spec(t),
    ensures
        forall|k: int| 0 <= k < i ==> s[k] == t[k],
    decreases i,
{
    if i > 0 {
        lemma_bricks_prefix(s, t, (i - 1) as nat);
        let j = i - 1;
        assert(bricks_spec(s)[j] == bricks_spec(t)[j]);
        if j > 0 {
            assert(s[j - 1] == t[j - 1]);
            assert(bricks_spec(s)[j] == add_mod(s[j], mul_mod(s[j - 1], s[j - 1])));
            assert(bricks_spec(t)[j] == add_mod(t[j], mul_mod(t[j - 1], t[j - 1])));
            assert(s[j] < P && t[j] < P);
            lemma_add_mod_cancel(s[j], t[j], mul_mod(s[j - 1], s[j - 1]));
        } else {
            assert(bricks_spec(s)[0] == s[0]);
            assert(bricks_spec(t)[0] == t[0]);
        }
    }
}

/// The unit vector of length `n` with a one at position `k`.
pub open spec fn unit(n: nat, k: int) -> Seq<nat> {
    Seq::new(n, |i: int| if i == k { 1nat } else { 0nat })
}

/// A dot product with a unit vector picks one entry.
pub proof fn lemma_dot_unit(a: Seq<nat>, n: nat, k: int, m: nat)
    requires
        0 <= k < n,
        m <= n,
    ensures
        dot(a, unit(n, k), m) == if k < m { a[k] } else { 0 },
    decreases m,
{
    if m > 0 {
        lemma_dot_unit(a, n, k, (m - 1) as nat);
    }
}

/// Multiplying a matrix of canonical entries by the unit vector `k` gives its column `k`.
pub proof fn lemma_mat_vec_unit(m: Seq<Seq<nat>>, n: nat, k: int)
    requires
        0 <= k < n,
        forall|i: int| 0 <= i < m.len() ==> (#[trigger] m[i]).len() == n && canonical(m[i]),
    ensures
        mat_vec(m, unit(n, k)) == Seq::new(m.len(), |i: int| m[i][k]),
{
    assert forall|i: int| 0 <= i < m.len() implies #[trigger] mat_vec(m, unit(n, k))[i] == m[i][k] by {
        lemma_dot_unit(m[i], n, k, n);
        assert(m[i][k] < P);
        lemma_small_mod(m[i][k], P as nat);
    }
    assert(mat_vec(m, unit(n, k)) =~= Seq::new(m.len(), |i: int| m[i][k]));
}


/// A dot product with a field sum of two vectors, reduced, is the reduced sum
/// of the two dot products.
pub proof fn lemma_dot_add(a: Seq<nat>, x: Seq<nat>, y: Seq<nat>, n: nat)
    requires
        n <= x.len(),
        x.len() == y.len(),
    ensures
        dot(a, add_round_constants_spec(x, y), n) % (P as nat) == (dot(a, x, n) + dot(a, y, n)) % (
        P as nat),
    decreases n,
{
    if n > 0 {
        let p = P as int;
        let k = n - 1;
        let z = add_round_constants_spec(x, y);
        lemma_dot_add(a, x, y, (n - 1) as nat);
        let d = dot(a, z, (n - 1) as nat) as int;
        let dx = dot(a, x, (n - 1) as nat) as int;
        let dy = dot(a, y, (n - 1) as nat) as int;
        let (ak, xk, yk) = (a[k] as int, x[k] as int, y[k] as int);
        assert(z[k] == (xk + yk) % p);
        lemma_add_mod_noop(d, ak * z[k], p);
        lemma_mul_mod_noop_right(ak, xk + yk, p);
        lemma_mul_is_distributive_add(ak, xk, yk);
        lemma_add_mod_noop(dx + dy, ak * xk + ak * yk, p);
        assert((d + ak * z[k]) % p == (dx + dy + ak * xk + ak * yk) % p);
    }
}

/// The Concrete layer is linear: multiplying the field sum of two vectors
/// gives the field sum of the two products.
pub proof fn lemma_mat_vec_linear(m: Seq<Seq<nat>>, x: Seq<nat>, y: Seq<nat>)
    requires
        x.len() == y.len(),
    ensures
        mat_vec(m, add_round_constants_spec(x, y)) == add_round_constants_spec(
            mat_vec(m, x),
            mat_vec(m, y),
        ),
{
    let p = P as int;
    assert forall|i: int| 0 <= i < m.len() implies #[trigger] mat_vec(
        m,
        add_round_constants_spec(x, y),
    )[i] == add_round_constants_spec(mat_vec(m, x), mat_vec(m, y))[i] by {
        lemma_dot_add(m[i], x, y, x.len());
        lemma_add_mod_noop(dot(m[i], x, x.len()) as int, dot(m[i], y, x.len()) as int, p);
    }
    assert(mat_vec(m, add_round_constants_spec(x, y)) =~= add_round_constants_spec(
        mat_vec(m, x),
        mat_vec(m, y),
    ));
}


/// The inverse of Bricks on the first `n` elements: the first element is kept
/// and each later one loses the square of its already recovered predecessor.
pub open spec fn unbricks_spec(t: Seq<nat>, n: nat) -> Seq<nat>
    decreases n,
{
    if n == 0 {
        Seq::empty()
    } else if n == 1 {
        seq![t[0]]
    } else {
        let prev = unbricks_spec(t, (n - 1) as nat);
        let q = mul_mod(prev[n - 2], prev[n - 2]);
        prev.push(((t[n - 1] as int - q as int) % (P as int)) as nat)
    }
}

/// Undoing Bricks recovers every canonical state: Bricks is invertible.
pub proof fn lemma_bricks_inverse(s: Seq<nat>)
    requires
        canonical(s),
    ensures
        unbricks_spec(bricks_spec(s), s.len()) == s,
{
    lemma_unbricks_prefix(s, s.len());
    assert(s.take(s.len() as int) =~= s);
}

/// Undoing Bricks on the first `n` elements recovers the first `n` elements.
proof fn lemma_unbricks_prefix(s: Seq<nat>, n: nat)
    requires
        canonical(s),
        n <= s.len(),
    ensures
        unbricks_spec(bricks_spec(s), n) == s.take(n as int),
    decreases n,
{
    let t = bricks_spec(s);
    if n == 1 {
        assert(t[0] == s[0]);
        assert(unbricks_spec(t, 1) =~= s.take(1));
    } else if n > 1 {
        lemma_unbricks_prefix(s, (n - 1) as nat);
        let p = P as int;
        let k = n - 1;
        let q = mul_mod(s[k - 1], s[k - 1]);
        assert(unbricks_spec(t, (n - 1) as nat)[n - 2] == s[k - 1]);
        assert(t[k] == add_mod(s[k], q));
        let (sk, qi) = (s[k] as int, q as int);
        lemma_sub_mod_noop(sk + qi, qi, p);
        lemma_mod_bound(qi, p);
        lemma_small_mod(q, P as nat);
        lemma_small_mod(s[k], P as nat);
        assert(((sk + qi) % p - qi) % p == sk);
        assert(unbricks_spec(t, n) =~= s.take(n as int));
    } else {
        assert(unbricks_spec(t, 0) =~= s.take(0));
    }
}

} // verus!
