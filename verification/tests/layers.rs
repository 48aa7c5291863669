use monolith::{Mersenne31, MonolithMdsMatrixMersenne31, MonolithMersenne31};

const P: u32 = 0x7fff_ffff;

fn instance16() -> MonolithMersenne31<16, 6> {
    MonolithMersenne31::new(MonolithMdsMatrixMersenne31::<6>)
}

#[test]
fn final_s_box_values() {
    assert_eq!(MonolithMersenne31::<16, 6>::final_s_box(0), 0);
    assert_eq!(MonolithMersenne31::<16, 6>::final_s_box(0x7f), 0x7f);
    assert_eq!(MonolithMersenne31::<16, 6>::final_s_box(1), 10);
    assert_eq!(MonolithMersenne31::<16, 6>::final_s_box(2), 20);
    assert_eq!(MonolithMersenne31::<16, 6>::final_s_box(0x40), 5);
}

#[test]
fn lookup_tables_hold_the_s_boxes() {
    let m = instance16();
    assert_eq!(m.lookup1.len(), 1 << 16);
    assert_eq!(m.lookup2.len(), 1 << 15);
    assert_eq!(m.lookup1[0], 0);
    assert_eq!(m.lookup1[1], 2);
    assert_eq!(m.lookup1[0x1234], 9321);
    assert_eq!(m.lookup1[0xffff], 0xffff);
    assert_eq!(m.lookup2[0], 0);
    assert_eq!(m.lookup2[1], 2);
    assert_eq!(m.lookup2[0x1234], 13673);
    assert_eq!(m.lookup2[0x7fff], 0x7fff);
}

#[test]
fn bar_values() {
    let m = instance16();
    let bar = |v: u32| m.bar(Mersenne31::from_u32(v)).as_canonical_u32();
    assert_eq!(bar(0), 0);
    assert_eq!(bar(1), 2);
    assert_eq!(bar(0x1234_5678), 896_109_810);
    assert_eq!(bar(P - 1), 2_147_483_641);
}

#[test]
fn bars_touch_only_the_first_eight_elements() {
    let m = instance16();
    let mut state: [Mersenne31; 16] = core::array::from_fn(|_| Mersenne31::from_u32(1));
    m.bars(&mut state);
    for (i, x) in state.iter().enumerate() {
        let expected = if i < 8 { 2 } else { 1 };
        assert_eq!(x.as_canonical_u32(), expected);
    }
}

#[test]
fn test_bricks_first_element_unchanged() {
    let mut state: [Mersenne31; 16] = core::array::from_fn(Mersenne31::from_usize);
    let original = state[0];
    MonolithMersenne31::<16, 6>::bricks(&mut state);
    assert_eq!(state[0], original);
}

#[test]
fn test_bricks_second_element() {
    let mut state: [Mersenne31; 16] = core::array::from_fn(Mersenne31::from_usize);
    let expected_1 = state[1].plus(state[0].times(state[0]));
    MonolithMersenne31::<16, 6>::bricks(&mut state);
    assert_eq!(state[1], expected_1);
}

#[test]
fn bricks_use_the_predecessors_before_the_layer() {
    let mut state: [Mersenne31; 16] = core::array::from_fn(Mersenne31::from_usize);
    MonolithMersenne31::<16, 6>::bricks(&mut state);
    // 2 + 1^2, 3 + 2^2, 16 + ... uses the old values, not the updated ones.
    assert_eq!(state[2].as_canonical_u32(), 3);
    assert_eq!(state[3].as_canonical_u32(), 7);
    assert_eq!(state[15].as_canonical_u32(), 15 + 14 * 14);
}

#[test]
fn add_round_constants_adds_elementwise() {
    let m = instance16();
    let mut state: [Mersenne31; 16] = core::array::from_fn(|_| Mersenne31::from_u32(P - 1));
    let rc: [Mersenne31; 16] = core::array::from_fn(Mersenne31::from_usize);
    m.add_round_constants(&mut state, &rc);
    assert_eq!(state[0].as_canonical_u32(), P - 1);
    assert_eq!(state[1].as_canonical_u32(), 0);
    assert_eq!(state[5].as_canonical_u32(), 4);
}

#[test]
fn concrete_of_a_unit_vector_is_a_circulant_column() {
    let m = instance16();
    let row: [u32; 16] = [
        61402, 17845, 26798, 59689, 12021, 40901, 41351, 27521, 56951, 12034, 53865, 43244,
        7454, 33823, 28750, 1108,
    ];
    let mut state = [Mersenne31::zero(); 16];
    state[3] = Mersenne31::from_u32(1);
    m.concrete(&mut state);
    for i in 0..16 {
        assert_eq!(state[i].as_canonical_u32(), row[(3 + 16 - i) % 16]);
    }
}

#[test]
fn concrete_is_linear() {
    let m = instance16();
    let x: [Mersenne31; 16] = core::array::from_fn(|i| Mersenne31::from_u32(P - 1 - i as u32));
    let y: [Mersenne31; 16] = core::array::from_fn(|i| Mersenne31::from_u32(7 * i as u32 + 1));
    let mut sum: [Mersenne31; 16] = core::array::from_fn(|i| x[i].plus(y[i]));
    let (mut mx, mut my) = (x, y);
    m.concrete(&mut sum);
    m.concrete(&mut mx);
    m.concrete(&mut my);
    for i in 0..16 {
        assert_eq!(sum[i], mx[i].plus(my[i]));
    }
}

#[test]
fn round_constants_come_from_the_stream_and_the_last_row_is_zero() {
    let m = instance16();
    let first: [u32; 16] = [
        1033436816, 348863691, 2081103763, 994924237, 64925253, 677331122, 1735246508, 26616398,
        1538025930, 1710098735, 995978747, 1336376181, 2051827886, 447361871, 1829769948,
        718914942,
    ];
    assert_eq!(m.round_constants[0].map(|x| x.as_canonical_u32()), first);
    assert!(m.round_constants[5].iter().all(|x| x.as_canonical_u32() == 0));
}

#[test]
fn instances_are_deterministic() {
    let a: MonolithMersenne31<24, 6> = MonolithMersenne31::new(MonolithMdsMatrixMersenne31::<6>);
    let b: MonolithMersenne31<24, 6> = MonolithMersenne31::new(MonolithMdsMatrixMersenne31::<6>);
    assert_eq!(a.round_constants, b.round_constants);
    assert_eq!(a.mds_matrix, b.mds_matrix);
    let input: [Mersenne31; 24] = core::array::from_fn(Mersenne31::from_usize);
    let (mut s, mut t) = (input, input);
    a.permutation(&mut s);
    b.permute_mut(&mut t);
    assert_eq!(s, t);
}

#[test]
fn cauchy_matrix_entries_invert_their_denominators() {
    let m: MonolithMersenne31<8, 6> = MonolithMersenne31::try_new(MonolithMdsMatrixMersenne31::<6>).unwrap();
    assert_eq!(m.mds_matrix.len(), 8);
    for row in &m.mds_matrix {
        assert_eq!(row.len(), 8);
        for e in row {
            assert_ne!(e.as_canonical_u32(), 0);
        }
    }
}

#[test]
fn width_16_matrix_is_the_circulant_one() {
    let m = instance16();
    let row: [u32; 16] = [
        61402, 17845, 26798, 59689, 12021, 40901, 41351, 27521, 56951, 12034, 53865, 43244,
        7454, 33823, 28750, 1108,
    ];
    for i in 0..16 {
        for j in 0..16 {
            assert_eq!(m.mds_matrix[i][j].as_canonical_u32(), row[(j + 16 - i) % 16]);
        }
    }
}

#[test]
fn the_byte_s_box_is_a_permutation() {
    let m = instance16();
    let mut seen = vec![false; 1 << 16];
    for e in &m.lookup1 {
        assert!(!seen[*e as usize]);
        seen[*e as usize] = true;
    }
    let mut seen2 = vec![false; 1 << 15];
    for e in &m.lookup2 {
        assert!((*e as usize) < (1 << 15));
        assert!(!seen2[*e as usize]);
        seen2[*e as usize] = true;
    }
}

#[test]
fn bar_keeps_values_canonical() {
    let m = instance16();
    for v in (P - 1000)..P {
        assert!(m.bar(Mersenne31::from_u32(v)).as_canonical_u32() < P);
    }
    for v in [0x7fff_0000u32, 0x7f00_ffff, 0x00ff_ffff, 0x7fff_fffe] {
        assert!(m.bar(Mersenne31::from_u32(v)).as_canonical_u32() < P);
    }
}

#[test]
fn concrete_is_undone_by_the_inverse_circulant() {
    let m = instance16();
    let inverse_row: [u64; 16] = [
        1325460196, 123350314, 1124192176, 122549823, 16225590, 1769133998, 1596704794,
        1757886559, 1616238592, 214937165, 1824003953, 2109236387, 383889434, 1415320228,
        1467424601, 877575281,
    ];
    let x: [Mersenne31; 16] = core::array::from_fn(|i| Mersenne31::from_u32(0x1234_5678 * i as u32 + 9));
    let mut y = x;
    m.concrete(&mut y);
    for i in 0..16 {
        let mut acc: u128 = 0;
        for j in 0..16 {
            acc += inverse_row[(j + 16 - i) % 16] as u128 * y[j].as_canonical_u32() as u128;
        }
        assert_eq!((acc % P as u128) as u32, x[i].as_canonical_u32());
    }
}

#[test]
fn distinct_inputs_give_distinct_outputs() {
    let m = instance16();
    let mut a: [Mersenne31; 16] = core::array::from_fn(Mersenne31::from_usize);
    let mut b = a;
    b[15] = Mersenne31::from_u32(16);
    m.permutation(&mut a);
    m.permutation(&mut b);
    assert_ne!(a, b);
}

#[test]
fn bricks_is_undone_by_subtracting_recovered_squares() {
    let original: [Mersenne31; 16] = core::array::from_fn(|i| Mersenne31::from_u32(P - 3 - 1000 * i as u32));
    let mut state = original;
    MonolithMersenne31::<16, 6>::bricks(&mut state);
    let mut recovered = [Mersenne31::zero(); 16];
    recovered[0] = state[0];
    for i in 1..16 {
        let sq = recovered[i - 1].square().as_canonical_u32();
        let minus_sq = Mersenne31::from_u32((P - sq) % P);
        recovered[i] = state[i].plus(minus_sq);
    }
    assert_eq!(recovered, original);
}

#[test]
fn distinct_inputs_give_distinct_outputs_for_a_cauchy_width() {
    let m: MonolithMersenne31<24, 6> = MonolithMersenne31::new(MonolithMdsMatrixMersenne31::<6>);
    let mut a: [Mersenne31; 24] = core::array::from_fn(Mersenne31::from_usize);
    let mut b = a;
    b[23] = Mersenne31::from_u32(7);
    m.permutation(&mut a);
    m.permutation(&mut b);
    assert_ne!(a, b);
}
