//! The Monolith-31 permutation: its constants and its layers on a state of
//! `WIDTH` field elements.
use vstd::prelude::*;
use crate::field::{Mersenne31, P};
use crate::layers::{
    NUM_BARS, add_round_constants_spec, bars_spec, bricks_spec, mat_vec, matrix_values,
    permutation_spec, rounds_spec, values,
};
use crate::mds::{MonolithMdsMatrixMersenne31, is_square, mds_derivable, mds_matrix};
use crate::sbox::{
    bar_spec, bit, final_s_box_spec, lemma_bar_bytes, lemma_bar_canonical, lemma_bar_from_tables,
    lemma_final_s_box_bits, lemma_s_box_bits, lookup1_entry, lookup2_entry, s_box_spec,
};
use crate::xof::{
    Sampler, first_sampled, lemma_canonical_samples_bounded, lemma_first_sampled,
    round_constants_seed, round_constants_seed_bytes, sample_stream, sampled, stream_yields,
};

verus! {

/// The values of the round constants, one sequence per full round.
pub open spec fn round_constant_values<const WIDTH: usize, const NUM_FULL_ROUNDS: usize>(
    rcs: [[Mersenne31; WIDTH]; NUM_FULL_ROUNDS],
) -> Seq<Seq<nat>> {
    rcs@.map_values(|row: [Mersenne31; WIDTH]| values(row@))
}

/// The number of rounds whose constants are drawn from the stream: all but
/// the last, which adds no constants.
pub open spec fn drawn_rounds(rounds: nat) -> nat {
    if rounds == 0 {
        0
    } else {
        (rounds - 1) as nat
    }
}

/// The round constants for a width and a number of rounds: the first
/// `width * (rounds - 1)` canonical words of the stream, row by row, then a
/// row of zeros for the last round.
pub open spec fn expected_round_constants(width: nat, rounds: nat) -> Seq<Seq<nat>> {
    let flat = first_sampled(
        Sampler::Canonical,
        round_constants_seed(width, rounds),
        width * drawn_rounds(rounds),
    );
    Seq::new(
        rounds,
        |r: int|
            Seq::new(
                width,
                |i: int|
                    if r < drawn_rounds(rounds) {
                        flat[r * width + i] as nat
                    } else {
                        0
                    },
            ),
    )
}

/// Whether the constants of an instance can be drawn: the stream words that
/// this machine can address yield the round constants and the Cauchy
/// parameters, and no Cauchy denominator is zero (where the inversion would
/// panic).
pub open spec fn constants_derivable(width: nat, rounds: nat) -> bool {
    &&& stream_yields(
        Sampler::Canonical,
        round_constants_seed(width, rounds),
        width * drawn_rounds(rounds),
    )
    &&& mds_derivable(width, rounds)
}

/// The widths that Monolith-31 accepts: multiples of 4 from 8 to 24.
pub open spec fn valid_width(width: nat) -> bool {
    8 <= width <= 24 && width % 4 == 0
}

/// The Monolith-31 permutation over Mersenne31, on states of `WIDTH`
/// elements, with `NUM_FULL_ROUNDS` rounds after an initial Concrete layer;
/// the last round adds no constants (its row of constants is zero).
#[derive(Clone, Debug)]
pub struct MonolithMersenne31<const WIDTH: usize, const NUM_FULL_ROUNDS: usize> {
    pub round_constants: [[Mersenne31; WIDTH]; NUM_FULL_ROUNDS],
    pub lookup1: Vec<u16>,
    pub lookup2: Vec<u16>,
    pub mds: MonolithMdsMatrixMersenne31<NUM_FULL_ROUNDS>,
    pub mds_matrix: Vec<Vec<Mersenne31>>,
}

impl<const WIDTH: usize, const NUM_FULL_ROUNDS: usize> MonolithMersenne31<WIDTH, NUM_FULL_ROUNDS> {
    /// Both lookup tables hold the packed S-boxes of their indices.
    pub open spec fn tables_hold_s_boxes(&self) -> bool {
        &&& self.lookup1@.len() == 0x10000
        &&& forall|i: int| 0 <= i < 0x10000 ==> #[trigger] self.lookup1@[i] == lookup1_entry(i as u16)
        &&& self.lookup2@.len() == 0x8000
        &&& forall|i: int| 0 <= i < 0x8000 ==> #[trigger] self.lookup2@[i] == lookup2_entry(i as u16)
    }

    /// The instance is well formed: its tables hold the S-boxes and its
    /// Concrete matrix is the `WIDTH` x `WIDTH` MDS matrix of its width and
    /// number of rounds.
    pub open spec fn wf(&self) -> bool {
        &&& self.tables_hold_s_boxes()
        &&& is_square(self.mds_matrix@, WIDTH as nat)
        &&& self.concrete_matrix() == mds_matrix(WIDTH as nat, NUM_FULL_ROUNDS as nat)
    }

    /// The matrix of the Concrete layer of this instance.
    pub open spec fn concrete_matrix(&self) -> Seq<Seq<nat>> {
        matrix_values(self.mds_matrix@)
    }

    /// A new instance: draws the round constants and the MDS matrix and
    /// fills both lookup tables.
    pub fn new(mds: MonolithMdsMatrixMersenne31<NUM_FULL_ROUNDS>) -> (r: Self)
        requires
            valid_width(WIDTH as nat),
            WIDTH * NUM_FULL_ROUNDS <= usize::MAX,
            constants_derivable(WIDTH as nat, NUM_FULL_ROUNDS as nat),
        ensures
            r.wf(),
            r.concrete_matrix() == mds_matrix(WIDTH as nat, NUM_FULL_ROUNDS as nat),
            round_constant_values(r.round_constants) == expected_round_constants(
                WIDTH as nat,
                NUM_FULL_ROUNDS as nat,
            ),
    {
        Self::try_new(mds).unwrap()
    }

    /// A new instance, or `None` when its constants cannot be drawn.
    pub fn try_new(mds: MonolithMdsMatrixMersenne31<NUM_FULL_ROUNDS>) -> (r: Option<Self>)
        requires
            valid_width(WIDTH as nat),
            WIDTH * NUM_FULL_ROUNDS <= usize::MAX,
        ensures
            r is Some <==> constants_derivable(WIDTH as nat, NUM_FULL_ROUNDS as nat),
            r matches Some(m) ==> {
                &&& m.wf()
                &&& m.concrete_matrix() == mds_matrix(WIDTH as nat, NUM_FULL_ROUNDS as nat)
                &&& round_constant_values(m.round_constants) == expected_round_constants(
                    WIDTH as nat,
                    NUM_FULL_ROUNDS as nat,
                )
            },
    {
        let round_constants = match Self::instantiate_round_constants() {
            Some(rc) => rc,
            None => {
                return None;
            },
        };
        let mds_matrix = match mds.derive_matrix::<WIDTH>() {
            Some(m) => m,
            None => {
                return None;
            },
        };
        let lookup1 = Self::instantiate_lookup1();
        let lookup2 = Self::instantiate_lookup2();
        Some(Self { round_constants, lookup1, lookup2, mds, mds_matrix })
    }

    /// The bytes absorbed into SHAKE-128 to draw the round constants.
    fn init_shake() -> (r: Vec<u8>)
        ensures
            r@ == round_constants_seed(WIDTH as nat, NUM_FULL_ROUNDS as nat),
    {
        round_constants_seed_bytes(WIDTH, NUM_FULL_ROUNDS)
    }

    /// The round constants: canonical words of the stream, row by row, and a
    /// row of zeros for the last round; `None` when the stream does not yield
    /// enough words.
    fn instantiate_round_constants() -> (r: Option<[[Mersenne31; WIDTH]; NUM_FULL_ROUNDS]>)
        requires
            WIDTH * NUM_FULL_ROUNDS <= usize::MAX,
        ensures
            r is Some <==> stream_yields(
                Sampler::Canonical,
                round_constants_seed(WIDTH as nat, NUM_FULL_ROUNDS as nat),
                WIDTH as nat * drawn_rounds(NUM_FULL_ROUNDS as nat),
            ),
            r matches Some(rc) ==> round_constant_values(rc) == expected_round_constants(
                WIDTH as nat,
                NUM_FULL_ROUNDS as nat,
            ),
    {
        let seed = Self::init_shake();
        let drawn = if NUM_FULL_ROUNDS == 0 { 0 } else { NUM_FULL_ROUNDS - 1 };
        assert(WIDTH * drawn <= WIDTH * NUM_FULL_ROUNDS) by (nonlinear_arith)
            requires
                drawn <= NUM_FULL_ROUNDS,
        ;
        let count = WIDTH * drawn;
        let flat = match sample_stream(Sampler::Canonical, &seed, count) {
            Some(v) => v,
            None => {
                return None;
            },
        };
        let ghost expected = expected_round_constants(WIDTH as nat, NUM_FULL_ROUNDS as nat);
        proof {
            lemma_first_sampled(Sampler::Canonical, seed@, count as nat);
            let n = choose|n: nat| sampled(Sampler::Canonical, seed@, n).len() == count as nat;
            lemma_canonical_samples_bounded(seed@, n);
        }
        let zero = Mersenne31::zero();
        let zero_row = [zero; WIDTH];
        assert(values(zero_row@) =~= Seq::new(WIDTH as nat, |i: int| 0nat));
        let mut rcs = [zero_row; NUM_FULL_ROUNDS];
        let mut r: usize = 0;
        while r < drawn
            invariant
                r <= drawn,
                drawn == drawn_rounds(NUM_FULL_ROUNDS as nat),
                drawn <= NUM_FULL_ROUNDS,
                count == WIDTH * drawn,
                flat@.len() == count,
                forall|k: int| 0 <= k < count ==> #[trigger] flat@[k] < P,
                expected == expected_round_constants(WIDTH as nat, NUM_FULL_ROUNDS as nat),
                flat@ == first_sampled(
                    Sampler::Canonical,
                    round_constants_seed(WIDTH as nat, NUM_FULL_ROUNDS as nat),
                    WIDTH as nat * drawn_rounds(NUM_FULL_ROUNDS as nat),
                ),
                values(zero_row@) == Seq::new(WIDTH as nat, |i: int| 0nat),
                forall|k: int| 0 <= k < r ==> #[trigger] values(rcs@[k]@) == expected[k],
                forall|k: int| r <= k < NUM_FULL_ROUNDS ==> #[trigger] rcs@[k] == zero_row,
            decreases drawn - r,
        {
            let mut row = [zero; WIDTH];
            let mut i: usize = 0;
            while i < WIDTH
                invariant
                    r < drawn,
                    i <= WIDTH,
                    count == WIDTH * drawn,
                    flat@.len() == count,
                    forall|k: int| 0 <= k < count ==> #[trigger] flat@[k] < P,
                    forall|k: int| 0 <= k < i ==> (#[trigger] row@[k])@ == flat@[r * WIDTH + k],
                decreases WIDTH - i,
            {
                assert(r * WIDTH + i < WIDTH * drawn) by (nonlinear_arith)
                    requires
                        r < drawn,
                        i < WIDTH,
                ;
                let v = flat[r * WIDTH + i];
                row[i] = Mersenne31::from_canonical_unchecked(v);
                i += 1;
            }
            assert(values(row@) =~= expected[r as int]);
            rcs[r] = row;
            r += 1;
        }
        assert forall|k: int| 0 <= k < NUM_FULL_ROUNDS implies #[trigger] values(rcs@[k]@)
            == expected[k] by {
            if k >= drawn {
                assert(expected[k] =~= Seq::new(WIDTH as nat, |i: int| 0nat));
            }
        }
        assert(round_constant_values(rcs) =~= expected);
        Some(rcs)
    }

    /// The Concrete layer: multiplies the state by the MDS matrix.
    pub fn concrete(&self, state: &mut [Mersenne31; WIDTH])
        requires
            self.wf(),
        ensures
            values(final(state)@) == mat_vec(
                mds_matrix(WIDTH as nat, NUM_FULL_ROUNDS as nat),
                values(old(state)@),
            ),
    {
        self.mds.apply_matrix(&self.mds_matrix, state);
    }

    /// Adds a vector of round constants to the state, element by element.
    pub fn add_round_constants(
        &self,
        state: &mut [Mersenne31; WIDTH],
        round_constants: &[Mersenne31; WIDTH],
    )
        ensures
            values(final(state)@) == add_round_constants_spec(
                values(old(state)@),
                values(round_constants@),
            ),
    {
        let ghost s0 = values(state@);
        let mut i: usize = 0;
        while i < WIDTH
            invariant
                i <= WIDTH,
                s0 == values(old(state)@),
                forall|k: int| i <= k < WIDTH ==> #[trigger] state@[k] == old(state)@[k],
                forall|k: int|
                    0 <= k < i ==> (#[trigger] state@[k])@ == crate::field::add_mod(
                        s0[k],
                        round_constants@[k]@,
                    ),
            decreases WIDTH - i,
        {
            let x = state[i];
            state[i] = x.plus(round_constants[i]);
            i += 1;
        }
        assert(values(state@) =~= add_round_constants_spec(s0, values(round_constants@)));
    }

    /// The Bricks layer: every element but the first gains the square of its
    /// predecessor, both taken from the state before the layer.
    pub fn bricks(state: &mut [Mersenne31; WIDTH])
        ensures
            values(final(state)@) == bricks_spec(values(old(state)@)),
    {
        let input = *state;
        let ghost s0 = values(input@);
        let mut i: usize = 1;
        while i < WIDTH
            invariant
                1 <= i,
                i <= WIDTH || WIDTH == 0,
                s0 == values(input@),
                input == *old(state),
                forall|k: int| (i <= k < WIDTH || k == 0) ==> #[trigger] state@[k] == input@[k],
                forall|k: int|
                    1 <= k < i && k < WIDTH ==> (#[trigger] state@[k])@ == crate::field::add_mod(
                        s0[k],
                        crate::field::mul_mod(s0[k - 1], s0[k - 1]),
                    ),
            decreases WIDTH - i,
        {
            let prev = input[i - 1];
            let x = state[i];
            state[i] = x.plus(prev.square());
            i += 1;
        }
        assert(values(state@) =~= bricks_spec(s0));
    }

    /// The Bars map on one element, read from the two lookup tables.
    pub fn bar(&self, el: Mersenne31) -> (r: Mersenne31)
        requires
            self.wf(),
        ensures
            r@ == bar_spec(el@ as u32),
            r@ as u32 as u8 == s_box_spec(el@ as u32 as u8),
            (r@ as u32 >> 8u32) as u8 == s_box_spec((el@ as u32 >> 8u32) as u8),
            (r@ as u32 >> 16u32) as u8 == s_box_spec((el@ as u32 >> 16u32) as u8),
            r@ as u32 >> 24u32 == final_s_box_spec((el@ as u32 >> 24u32) as u8) as u32,
    {
        let val = el.as_canonical_u32();
        let i1 = (val as u16) as usize;
        let hi = val >> 16u32;
        assert(hi < 0x8000) by (bit_vector)
            requires
                val < 0x7fff_ffffu32,
                hi == val >> 16u32,
        ;
        let i2 = (hi as u16) as usize;
        let low = self.lookup1[i1];
        let high = self.lookup2[i2];
        let result = ((high as u32) << 16u32) | (low as u32);
        proof {
            lemma_bar_from_tables(val);
            lemma_bar_canonical(val);
            lemma_bar_bytes(val);
        }
        Mersenne31::from_canonical_unchecked(result)
    }

    /// The Bars layer: the Bars map on the first `NUM_BARS` elements.
    pub fn bars(&self, state: &mut [Mersenne31; WIDTH])
        requires
            self.wf(),
        ensures
            values(final(state)@) == bars_spec(values(old(state)@)),
    {
        let ghost s0 = values(state@);
        let n = if WIDTH < NUM_BARS { WIDTH } else { NUM_BARS };
        let mut i: usize = 0;
        while i < n
            invariant
                self.wf(),
                n <= WIDTH,
                n == NUM_BARS || n == WIDTH,
                i <= n,
                s0 == values(old(state)@),
                forall|k: int| i <= k < WIDTH ==> #[trigger] state@[k] == old(state)@[k],
                forall|k: int|
                    0 <= k < i ==> (#[trigger] state@[k])@ == bar_spec(s0[k] as u32) as nat,
            decreases n - i,
        {
            let x = state[i];
            state[i] = self.bar(x);
            i += 1;
        }
        assert(values(state@) =~= bars_spec(s0));
    }

    /// The Monolith permutation: the Concrete layer, then for each vector of
    /// round constants in order the Bars, Bricks and Concrete layers and the
    /// addition of those constants.
    pub fn permutation(&self, state: &mut [Mersenne31; WIDTH])
        requires
            self.wf(),
        ensures
            values(final(state)@) == permutation_spec(
                mds_matrix(WIDTH as nat, NUM_FULL_ROUNDS as nat),
                values(old(state)@),
                round_constant_values(self.round_constants),
            ),
    {
        let ghost s0 = values(state@);
        let ghost m = self.concrete_matrix();
        let ghost rcs = round_constant_values(self.round_constants);
        self.concrete(state);
        let mut r: usize = 0;
        while r < NUM_FULL_ROUNDS
            invariant
                self.wf(),
                m == self.concrete_matrix(),
                rcs == round_constant_values(self.round_constants),
                r <= NUM_FULL_ROUNDS,
                values(state@) == rounds_spec(m, s0, rcs, r as nat),
            decreases NUM_FULL_ROUNDS - r,
        {
            let rc = self.round_constants[r];
            self.bars(state);
            Self::bricks(state);
            self.concrete(state);
            self.add_round_constants(state, &rc);
            r += 1;
        }
    }

    /// Applies the permutation to the state in place.
    pub fn permute_mut(&self, input: &mut [Mersenne31; WIDTH])
        requires
            self.wf(),
        ensures
            values(final(input)@) == permutation_spec(
                mds_matrix(WIDTH as nat, NUM_FULL_ROUNDS as nat),
                values(old(input)@),
                round_constant_values(self.round_constants),
            ),
    {
        self.permutation(input);
    }

    /// The 8-bit S-box.
    fn s_box(y: u8) -> (r: u8)
        ensures
            r == s_box_spec(y),
            forall|i: u8|
                i < 8 ==> #[trigger] bit(r, i) == (bit(y, ((i + 7) % 8) as u8) != (!bit(
                    y,
                    ((i + 6) % 8) as u8,
                ) && bit(y, ((i + 5) % 8) as u8) && bit(y, ((i + 4) % 8) as u8))),
    {
        let r1 = (y << 1u8) | (y >> 7u8);
        let r2 = (y << 2u8) | (y >> 6u8);
        let r3 = (y << 3u8) | (y >> 5u8);
        let tmp = y ^ (!r1 & r2 & r3);
        let r = (tmp << 1u8) | (tmp >> 7u8);
        proof {
            assert(r == s_box_spec(y));
            lemma_s_box_bits(y);
        }
        r
    }

    /// The 7-bit S-box, on a value below 128.
    pub fn final_s_box(y: u8) -> (r: u8)
        requires
            y >> 7u8 == 0,
        ensures
            r == final_s_box_spec(y),
            r < 128,
            forall|i: u8|
                i < 7 ==> #[trigger] bit(r, i) == (bit(y, ((i + 6) % 7) as u8) != (!bit(
                    y,
                    ((i + 5) % 7) as u8,
                ) && bit(y, ((i + 4) % 7) as u8))),
    {
        let y_rot_1 = (y >> 6u8) | (y << 1u8);
        let y_rot_2 = (y >> 5u8) | (y << 2u8);
        let tmp = (y ^ (!y_rot_1 & y_rot_2)) & 0x7fu8;
        let r = ((tmp >> 6u8) | (tmp << 1u8)) & 0x7fu8;
        proof {
            assert(r == final_s_box_spec(y));
            assert(y < 128) by (bit_vector)
                requires
                    y >> 7u8 == 0,
            ;
            lemma_final_s_box_bits(y);
        }
        r
    }

    /// The first lookup table: for each 16-bit index, the S-box of its high
    /// byte above the S-box of its low byte.
    fn instantiate_lookup1() -> (r: Vec<u16>)
        ensures
            r@.len() == 0x10000,
            forall|i: int| 0 <= i < 0x10000 ==> #[trigger] r@[i] == lookup1_entry(i as u16),
    {
        let mut table: Vec<u16> = Vec::new();
        let mut i: u32 = 0;
        while i < 0x10000
            invariant
                i <= 0x10000,
                table@.len() == i,
                forall|k: int| 0 <= k < i ==> #[trigger] table@[k] == lookup1_entry(k as u16),
            decreases 0x10000 - i,
        {
            let iu = i as u16;
            let hi = Self::s_box((iu >> 8u16) as u8) as u16;
            let lo = Self::s_box(iu as u8) as u16;
            table.push((hi << 8u16) | lo);
            i += 1;
        }
        table
    }

    /// The second lookup table: for each 15-bit index, the 7-bit S-box of its
    /// high bits above the 8-bit S-box of its low byte.
    fn instantiate_lookup2() -> (r: Vec<u16>)
        ensures
            r@.len() == 0x8000,
            forall|i: int| 0 <= i < 0x8000 ==> #[trigger] r@[i] == lookup2_entry(i as u16),
    {
        let mut table: Vec<u16> = Vec::new();
        let mut i: u32 = 0;
        while i < 0x8000
            invariant
                i <= 0x8000,
                table@.len() == i,
                forall|k: int| 0 <= k < i ==> #[trigger] table@[k] == lookup2_entry(k as u16),
            decreases 0x8000 - i,
        {
            let iu = i as u16;
            let h = (iu >> 8u16) as u8;
            assert(h >> 7u8 == 0) by (bit_vector)
                requires
                    iu < 0x8000u16,
                    h == (iu >> 8u16) as u8,
            ;
            let hi = Self::final_s_box(h) as u16;
            let lo = Self::s_box(iu as u8) as u16;
            table.push((hi << 8u16) | lo);
            i += 1;
        }
        table
    }
}

} // verus!
