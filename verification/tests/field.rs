use monolith::Mersenne31;

const P: u32 = 0x7fff_ffff;

#[test]
fn from_u32_reduces_modulo_p() {
    assert_eq!(Mersenne31::from_u32(P).as_canonical_u32(), 0);
    assert_eq!(Mersenne31::from_u32(u32::MAX).as_canonical_u32(), 1);
    assert_eq!(Mersenne31::from_u32(12345).as_canonical_u32(), 12345);
    assert_eq!(Mersenne31::from_usize(P as usize + 5).as_canonical_u32(), 5);
}

#[test]
fn new_checked_accepts_only_canonical_values() {
    assert!(Mersenne31::new_checked(P).is_none());
    assert!(Mersenne31::new_checked(u32::MAX).is_none());
    assert_eq!(Mersenne31::new_checked(P - 1).unwrap().as_canonical_u32(), P - 1);
}

#[test]
fn addition_wraps_around_p() {
    let a = Mersenne31::from_u32(P - 1);
    let one = Mersenne31::from_u32(1);
    assert_eq!(a.plus(one), Mersenne31::zero());
    assert_eq!(a.plus(a).as_canonical_u32(), P - 2);
}

#[test]
fn multiplication_and_squaring() {
    let minus_one = Mersenne31::from_u32(P - 1);
    assert_eq!(minus_one.times(minus_one).as_canonical_u32(), 1);
    assert_eq!(Mersenne31::from_u32(1 << 16).square().as_canonical_u32(), 2);
    assert_eq!(Mersenne31::from_u32(3).times(Mersenne31::from_u32(5)).as_canonical_u32(), 15);
}

#[test]
fn inverse_is_the_multiplicative_inverse() {
    let two = Mersenne31::from_u32(2);
    assert_eq!(two.inverse().as_canonical_u32(), 1 << 30);
    let x = Mersenne31::from_u32(123_456_789);
    assert_eq!(x.times(x.inverse()).as_canonical_u32(), 1);
    assert_eq!(Mersenne31::from_u32(P - 1).inverse().as_canonical_u32(), P - 1);
}
