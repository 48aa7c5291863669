//! The Concrete layer: multiplication by an MDS matrix, which is a fixed
//! circulant matrix for width 16 and a Cauchy matrix drawn from SHAKE-128
//! for every other width.
use vstd::prelude::*;
use crate::field::{Mersenne31, P, field_inv};
use crate::layers::{dot, mat_vec, matrix_values, values};
use crate::xof::{
    Sampler, X_MASK, Y_MASK, first_sampled, mds_seed, mds_seed_bytes, sample_stream, sampled,
    stream_yields,
};

verus! {

/// The first row of the 16 x 16 circulant MDS matrix of Monolith-31.
pub const MDS16_ROW: [u32; 16] = [
    61402, 17845, 26798, 59689, 12021, 40901, 41351, 27521, 56951, 12034, 53865, 43244, 7454,
    33823, 28750, 1108,
];

/// The 16 x 16 circulant matrix whose row `i` is the first row rotated right by `i`.
pub open spec fn circulant16() -> Seq<Seq<nat>> {
    Seq::new(16, |i: int| Seq::new(16, |j: int| MDS16_ROW@[(j - i + 16) % 16] as nat))
}

/// The denominator of entry `(i, j)` of the Cauchy matrix with parameters `ys`:
/// the low 22 bits of `ys[i]` plus `ys[j]`.
pub open spec fn cauchy_denominator(ys: Seq<u32>, i: int, j: int) -> nat {
    ((ys[i] & X_MASK) + ys[j]) as nat
}

/// The Cauchy matrix with parameters `ys`: entry `(i, j)` is the inverse of its denominator.
pub open spec fn cauchy_matrix(ys: Seq<u32>) -> Seq<Seq<nat>> {
    Seq::new(
        ys.len(),
        |i: int| Seq::new(ys.len(), |j: int| field_inv(cauchy_denominator(ys, i, j))),
    )
}

/// The Cauchy parameters for a width and a number of full rounds.
pub open spec fn cauchy_params(width: nat, rounds: nat) -> Seq<u32> {
    first_sampled(Sampler::Cauchy, mds_seed(width, rounds), width)
}

/// Whether the MDS matrix of this width can be built: always for width 16;
/// otherwise when the stream yields the Cauchy parameters and no denominator is zero.
pub open spec fn mds_derivable(width: nat, rounds: nat) -> bool {
    width == 16 || (stream_yields(Sampler::Cauchy, mds_seed(width, rounds), width) && forall|
        i: int,
        j: int,
    |
        0 <= i < width && 0 <= j < width ==> cauchy_denominator(cauchy_params(width, rounds), i, j)
            != 0)
}

/// The MDS matrix of the Concrete layer for a width and a number of full rounds.
pub open spec fn mds_matrix(width: nat, rounds: nat) -> Seq<Seq<nat>> {
    if width == 16 {
        circulant16()
    } else {
        cauchy_matrix(cauchy_params(width, rounds))
    }
}

/// Whether `m` is a `width` x `width` matrix.
pub open spec fn is_square(m: Seq<Vec<Mersenne31>>, width: nat) -> bool {
    m.len() == width && forall|i: int| 0 <= i < width ==> (#[trigger] m[i])@.len() == width
}

/// Every value that the Cauchy sampler keeps fits in 29 bits.
pub proof fn lemma_cauchy_params_bounded(seed: Seq<u8>, n: nat)
    ensures
        forall|k: int|
            0 <= k < sampled(Sampler::Cauchy, seed, n).len() ==> #[trigger] sampled(
                Sampler::Cauchy,
                seed,
                n,
            )[k] <= Y_MASK,
    decreases n,
{
    if n > 0 {
        lemma_cauchy_params_bounded(seed, (n - 1) as nat);
        let w = crate::xof::stream_word(seed, (n - 1) as nat);
        assert(w & Y_MASK <= Y_MASK) by (bit_vector);
        let kept = sampled(Sampler::Cauchy, seed, (n - 1) as nat);
        assert forall|k: int|
            0 <= k < sampled(Sampler::Cauchy, seed, n).len() implies #[trigger] sampled(
            Sampler::Cauchy,
            seed,
            n,
        )[k] <= Y_MASK by {
            if k < kept.len() {
                assert(kept[k] <= Y_MASK);
            }
        }
    }
}

/// The Cauchy parameters that the sampler keeps have pairwise distinct low 22 bits.
pub proof fn lemma_cauchy_params_distinct(seed: Seq<u8>, n: nat)
    ensures
        forall|i: int, j: int|
            0 <= i < j < sampled(Sampler::Cauchy, seed, n).len() ==> #[trigger] sampled(
                Sampler::Cauchy,
                seed,
                n,
            )[i] & X_MASK != #[trigger] sampled(Sampler::Cauchy, seed, n)[j] & X_MASK,
    decreases n,
{
    if n > 0 {
        lemma_cauchy_params_distinct(seed, (n - 1) as nat);
        let kept = sampled(Sampler::Cauchy, seed, (n - 1) as nat);
        let cur = sampled(Sampler::Cauchy, seed, n);
        assert forall|i: int, j: int| 0 <= i < j < cur.len() implies #[trigger] cur[i] & X_MASK
            != #[trigger] cur[j] & X_MASK by {
            assert(cur[i] == kept[i]);
            if j < kept.len() {
                assert(cur[j] == kept[j]);
            }
        }
    }
}

/// Every denominator of a Cauchy matrix whose parameters fit in 29 bits is
/// below `P`, and off the diagonal it is nonzero when the parameters have
/// distinct low 22 bits.
pub proof fn lemma_cauchy_denominator(ys: Seq<u32>, i: int, j: int)
    requires
        0 <= i < ys.len(),
        0 <= j < ys.len(),
        ys[i] <= Y_MASK,
        ys[j] <= Y_MASK,
    ensures
        cauchy_denominator(ys, i, j) < P,
        i != j && ys[i] & X_MASK != ys[j] & X_MASK ==> cauchy_denominator(ys, i, j) != 0,
{
    let yi = ys[i];
    let yj = ys[j];
    assert(yi & X_MASK <= X_MASK) by (bit_vector);
    assert(yj == 0u32 ==> yj & X_MASK == 0u32) by (bit_vector);
}

/// The Concrete layer of Monolith-31 for an instance of `NUM_ROUNDS` rounds
/// (the seed of its Cauchy matrix names that number).
#[derive(Clone, Copy, Debug)]
pub struct MonolithMdsMatrixMersenne31<const NUM_ROUNDS: usize>;

/// The circulant matrix of width 16.
fn circulant_matrix() -> (m: Vec<Vec<Mersenne31>>)
    ensures
        is_square(m@, 16),
        matrix_values(m@) == circulant16(),
{
    let mut m: Vec<Vec<Mersenne31>> = Vec::new();
    let mut i: usize = 0;
    while i < 16
        invariant
            i <= 16,
            m@.len() == i,
            forall|k: int| 0 <= k < i ==> (#[trigger] m@[k])@.len() == 16,
            forall|k: int, j: int|
                0 <= k < i && 0 <= j < 16 ==> (#[trigger] m@[k]@[j])@ == MDS16_ROW@[(j - k + 16)
                    % 16] as nat,
        decreases 16 - i,
    {
        let mut row: Vec<Mersenne31> = Vec::new();
        let mut j: usize = 0;
        while j < 16
            invariant
                i < 16,
                j <= 16,
                row@.len() == j,
                forall|jj: int|
                    0 <= jj < j ==> (#[trigger] row@[jj])@ == MDS16_ROW@[(jj - i + 16) % 16] as nat,
            decreases 16 - j,
        {
            let c = MDS16_ROW[(j + 16 - i) % 16];
            assert(c < P);
            row.push(Mersenne31::from_u32(c));
            j += 1;
        }
        m.push(row);
        i += 1;
    }
    assert forall|k: int| 0 <= k < 16 implies #[trigger] matrix_values(m@)[k] =~= circulant16()[k] by {
        assert(matrix_values(m@)[k] == values(m@[k]@));
    }
    assert(matrix_values(m@) =~= circulant16());
    m
}

impl<const NUM_ROUNDS: usize> MonolithMdsMatrixMersenne31<NUM_ROUNDS> {
    /// The matrix of the Concrete layer for states of `WIDTH` elements: the
    /// circulant matrix for width 16, else the Cauchy matrix drawn from the
    /// SHAKE-128 stream; `None` when that matrix cannot be built.
    pub fn derive_matrix<const WIDTH: usize>(&self) -> (r: Option<Vec<Vec<Mersenne31>>>)
        ensures
            r is Some <==> mds_derivable(WIDTH as nat, NUM_ROUNDS as nat),
            r matches Some(m) ==> is_square(m@, WIDTH as nat) && matrix_values(m@) == mds_matrix(
                WIDTH as nat,
                NUM_ROUNDS as nat,
            ),
    {
        if WIDTH == 16 {
            return Some(circulant_matrix());
        }
        let seed = mds_seed_bytes(WIDTH, NUM_ROUNDS);
        let ys = match sample_stream(Sampler::Cauchy, &seed, WIDTH) {
            Some(v) => v,
            None => {
                return None;
            },
        };
        let ghost params = cauchy_params(WIDTH as nat, NUM_ROUNDS as nat);
        proof {
            crate::xof::lemma_first_sampled(Sampler::Cauchy, seed@, WIDTH as nat);
            let n = choose|n: nat| sampled(Sampler::Cauchy, seed@, n).len() == WIDTH as nat;
            lemma_cauchy_params_bounded(seed@, n);
        }
        assert(ys@ == params);
        let mut m: Vec<Vec<Mersenne31>> = Vec::new();
        let mut i: usize = 0;
        while i < WIDTH
            invariant
                WIDTH != 16,
                i <= WIDTH,
                params == cauchy_params(WIDTH as nat, NUM_ROUNDS as nat),
                ys@ == params,
                ys@.len() == WIDTH,
                stream_yields(Sampler::Cauchy, mds_seed(WIDTH as nat, NUM_ROUNDS as nat), WIDTH as nat),
                forall|k: int| 0 <= k < WIDTH ==> #[trigger] ys@[k] <= Y_MASK,
                m@.len() == i,
                forall|k: int| 0 <= k < i ==> (#[trigger] m@[k])@.len() == WIDTH,
                forall|k: int, j: int|
                    0 <= k < i && 0 <= j < WIDTH ==> #[trigger] cauchy_denominator(params, k, j)
                        != 0,
                forall|k: int, j: int|
                    0 <= k < i && 0 <= j < WIDTH ==> (#[trigger] m@[k]@[j])@ == field_inv(
                        cauchy_denominator(params, k, j),
                    ),
            decreases WIDTH - i,
        {
            let mut row: Vec<Mersenne31> = Vec::new();
            let yi = ys[i];
            let xi = yi & X_MASK;
            proof {
                lemma_cauchy_denominator(ys@, i as int, i as int);
            }
            let mut j: usize = 0;
            while j < WIDTH
                invariant
                    i < WIDTH,
                    j <= WIDTH,
                    ys@ == params,
                    ys@.len() == WIDTH,
                    xi == ys@[i as int] & X_MASK,
                    forall|k: int| 0 <= k < WIDTH ==> #[trigger] ys@[k] <= Y_MASK,
                    row@.len() == j,
                    WIDTH != 16,
                    params == cauchy_params(WIDTH as nat, NUM_ROUNDS as nat),
                    forall|k: int, jj: int|
                        0 <= k < i && 0 <= jj < WIDTH ==> #[trigger] cauchy_denominator(params, k, jj)
                            != 0,
                    forall|jj: int|
                        0 <= jj < j ==> #[trigger] cauchy_denominator(params, i as int, jj) != 0,
                    forall|jj: int|
                        0 <= jj < j ==> (#[trigger] row@[jj])@ == field_inv(
                            cauchy_denominator(params, i as int, jj),
                        ),
                decreases WIDTH - j,
            {
                proof {
                    lemma_cauchy_denominator(ys@, i as int, j as int);
                }
                let d = xi + ys[j];
                assert(d == cauchy_denominator(params, i as int, j as int));
                if d == 0 {
                    assert(!mds_derivable(WIDTH as nat, NUM_ROUNDS as nat));
                    return None;
                }
                let e = Mersenne31::from_canonical_unchecked(d);
                row.push(e.inverse());
                j += 1;
            }
            m.push(row);
            i += 1;
        }
        assert forall|k: int| 0 <= k < WIDTH implies #[trigger] matrix_values(m@)[k] =~= mds_matrix(
            WIDTH as nat,
            NUM_ROUNDS as nat,
        )[k] by {
            assert(matrix_values(m@)[k] == values(m@[k]@));
        }
        assert(matrix_values(m@) =~= mds_matrix(WIDTH as nat, NUM_ROUNDS as nat));
        Some(m)
    }

    /// Multiplies the state by a square matrix over the field.
    pub fn apply_matrix<const WIDTH: usize>(
        &self,
        matrix: &Vec<Vec<Mersenne31>>,
        state: &mut [Mersenne31; WIDTH],
    )
        requires
            is_square(matrix@, WIDTH as nat),
        ensures
            values(final(state)@) == mat_vec(matrix_values(matrix@), values(old(state)@)),
    {
        let input = *state;
        let ghost x = values(input@);
        let ghost mv = matrix_values(matrix@);
        let mut i: usize = 0;
        while i < WIDTH
            invariant
                is_square(matrix@, WIDTH as nat),
                x == values(input@),
                mv == matrix_values(matrix@),
                x.len() == WIDTH,
                i <= WIDTH,
                forall|k: int| 0 <= k < i ==> (#[trigger] state@[k])@ == dot(mv[k], x, WIDTH as nat) % (P as nat),
            decreases WIDTH - i,
        {
            let row = &matrix[i];
            let mut acc: u128 = 0;
            let mut j: usize = 0;
            while j < WIDTH
                invariant
                    i < WIDTH,
                    j <= WIDTH,
                    row@.len() == WIDTH,
                    x == values(input@),
                    mv[i as int] == values(row@),
                    acc == dot(mv[i as int], x, j as nat),
                    acc <= j * 0x4000_0000_0000_0000,
                decreases WIDTH - j,
            {
                let a = row[j].as_canonical_u32();
                let e = input[j];
                let b = e.as_canonical_u32();
                assert((a as u128) * (b as u128) <= 0x4000_0000_0000_0000) by (nonlinear_arith)
                    requires
                        a < P,
                        b < P,
                ;
                acc = acc + (a as u128) * (b as u128);
                j += 1;
            }
            let red = (acc % (P as u128)) as u32;
            state[i] = Mersenne31::from_canonical_unchecked(red);
            i += 1;
        }
        assert(values(state@) =~= mat_vec(mv, x));
    }
}

} // verus!
