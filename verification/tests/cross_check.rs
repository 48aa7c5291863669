use monolith::{Mersenne31, MonolithMdsMatrixMersenne31, MonolithMersenne31};
use p3_field::{PrimeCharacteristicRing, PrimeField32};
use p3_symmetric::Permutation;

fn reference_24(input: [u32; 24]) -> [u32; 24] {
    let mds = p3_monolith::MonolithMdsMatrixMersenne31::<24, 5>::new();
    let perm: p3_monolith::MonolithMersenne31<_, 24, 5> =
        p3_monolith::MonolithMersenne31::new(p3_monolith::MonolithBarsM31, mds);
    let mut state = input.map(p3_mersenne_31::Mersenne31::from_u32);
    perm.permute_mut(&mut state);
    state.map(|x| x.as_canonical_u32())
}

fn reference_16(input: [u32; 16]) -> [u32; 16] {
    let mds = p3_monolith::MonolithMdsMatrixMersenne31::<16, 5>::new();
    let perm: p3_monolith::MonolithMersenne31<_, 16, 5> =
        p3_monolith::MonolithMersenne31::new(p3_monolith::MonolithBarsM31, mds);
    let mut state = input.map(p3_mersenne_31::Mersenne31::from_u32);
    perm.permute_mut(&mut state);
    state.map(|x| x.as_canonical_u32())
}

#[test]
fn width_24_matches_reference() {
    let input: [u32; 24] = core::array::from_fn(|i| (i as u32) * 7919 + 3);
    let expected = reference_24(input);
    let monolith: MonolithMersenne31<24, 6> = MonolithMersenne31::new(MonolithMdsMatrixMersenne31::<6>);
    let mut state = input.map(Mersenne31::from_u32);
    monolith.permutation(&mut state);
    assert_eq!(state.map(|x| x.as_canonical_u32()), expected);
}

#[test]
fn width_16_matches_reference() {
    let input: [u32; 16] = core::array::from_fn(|i| (i as u32) * 104729 + 11);
    let expected = reference_16(input);
    let monolith: MonolithMersenne31<16, 6> = MonolithMersenne31::new(MonolithMdsMatrixMersenne31::<6>);
    let mut state = input.map(Mersenne31::from_u32);
    monolith.permutation(&mut state);
    assert_eq!(state.map(|x| x.as_canonical_u32()), expected);
}
