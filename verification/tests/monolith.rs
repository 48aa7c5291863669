use monolith::{Mersenne31, MonolithMdsMatrixMersenne31, MonolithMersenne31};

#[test]
fn test_monolith_31() {
    let mds = MonolithMdsMatrixMersenne31::<6>;
    let monolith: MonolithMersenne31<16, 6> = MonolithMersenne31::new(mds);

    let mut input: [Mersenne31; 16] = core::array::from_fn(Mersenne31::from_usize);

    let expected = [
        609156607, 290107110, 1900746598, 1734707571, 2050994835, 1648553244, 1307647296,
        1941164548, 1707113065, 1477714255, 1170160793, 93800695, 769879348, 375548503,
        1989726444, 1349325635,
    ]
    .map(Mersenne31::from_u32);

    monolith.permutation(&mut input);

    assert_eq!(input, expected);
}
