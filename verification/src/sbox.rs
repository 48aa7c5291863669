//! The chi-like S-boxes of the Bars layer, the lookup tables packing them,
//! and the Bars map on one field element, as specifications with their laws.
use vstd::prelude::*;
use vstd::set_lib::{lemma_int_range, lemma_map_size, lemma_subset_equality, set_int_range};

verus! {

/// The 8-bit S-box: `y XOR (NOT rot1(y) AND rot2(y) AND rot3(y))`, rotated left by one.
pub open spec fn s_box_spec(y: u8) -> u8 {
    let r1 = (y << 1u8) | (y >> 7u8);
    let r2 = (y << 2u8) | (y >> 6u8);
    let r3 = (y << 3u8) | (y >> 5u8);
    let tmp = y ^ (!r1 & r2 & r3);
    (tmp << 1u8) | (tmp >> 7u8)
}

/// The 7-bit S-box: `y XOR (NOT rot1(y) AND rot2(y))` on seven bits, rotated left by one.
pub open spec fn final_s_box_spec(y: u8) -> u8 {
    let y_rot_1 = (y >> 6u8) | (y << 1u8);
    let y_rot_2 = (y >> 5u8) | (y << 2u8);
    let tmp = (y ^ (!y_rot_1 & y_rot_2)) & 0x7fu8;
    ((tmp >> 6u8) | (tmp << 1u8)) & 0x7fu8
}

/// Entry `i` of the first lookup table: the S-box of both bytes of `i`.
pub open spec fn lookup1_entry(i: u16) -> u16 {
    ((s_box_spec((i >> 8u16) as u8) as u16) << 8u16) | (s_box_spec(i as u8) as u16)
}

/// Entry `i` of the second lookup table: the 7-bit S-box of the high bits
/// of `i` and the 8-bit S-box of its low byte.
pub open spec fn lookup2_entry(i: u16) -> u16 {
    ((final_s_box_spec((i >> 8u16) as u8) as u16) << 8u16) | (s_box_spec(i as u8) as u16)
}

/// The Bars map on a 31-bit value: the 8-bit S-box on each of the three low
/// bytes and the 7-bit S-box on the top seven bits.
pub open spec fn bar_spec(v: u32) -> u32 {
    let b0 = s_box_spec(v as u8) as u32;
    let b1 = s_box_spec((v >> 8u32) as u8) as u32;
    let b2 = s_box_spec((v >> 16u32) as u8) as u32;
    let b3 = final_s_box_spec(((v >> 24u32) & 0x7fu32) as u8) as u32;
    (b3 << 24u32) | (b2 << 16u32) | (b1 << 8u32) | b0
}

/// Bit `i` of a byte, counted from the least significant.
pub open spec fn bit(v: u8, i: u8) -> bool {
    (v >> i) & 1u8 == 1u8
}

/// Bit by bit, the 8-bit S-box: bit `i` of the result is bit `i - 1` of the
/// argument, flipped exactly where bit `i - 2` is clear and bits `i - 3` and
/// `i - 4` are set, the indices taken modulo 8.
pub proof fn lemma_s_box_bits(y: u8)
    ensures
        forall|i: u8|
            i < 8 ==> #[trigger] bit(s_box_spec(y), i) == (bit(y, ((i + 7) % 8) as u8) != (!bit(
                y,
                ((i + 6) % 8) as u8,
            ) && bit(y, ((i + 5) % 8) as u8) && bit(y, ((i + 4) % 8) as u8))),
{
    assert(forall|i: u8|
        i < 8 ==> #[trigger] bit(s_box_spec(y), i) == (bit(y, ((i + 7) % 8) as u8) != (!bit(
            y,
            ((i + 6) % 8) as u8,
        ) && bit(y, ((i + 5) % 8) as u8) && bit(y, ((i + 4) % 8) as u8)))) by (bit_vector);
}

/// Bit by bit, the 7-bit S-box on a value below 128: the result is below 128,
/// and its bit `i` is bit `i - 1` of the argument, flipped exactly where bit
/// `i - 2` is clear and bit `i - 3` is set, the indices taken modulo 7.
pub proof fn lemma_final_s_box_bits(y: u8)
    requires
        y < 128,
    ensures
        final_s_box_spec(y) < 128,
        forall|i: u8|
            i < 7 ==> #[trigger] bit(final_s_box_spec(y), i) == (bit(y, ((i + 6) % 7) as u8) != (
            !bit(y, ((i + 5) % 7) as u8) && bit(y, ((i + 4) % 7) as u8))),
{
    assert(final_s_box_spec(y) < 128) by (bit_vector);
    assert(forall|i: u8|
        i < 7 ==> #[trigger] bit(final_s_box_spec(y), i) == (bit(y, ((i + 6) % 7) as u8) != (!bit(
            y,
            ((i + 5) % 7) as u8,
        ) && bit(y, ((i + 4) % 7) as u8)))) by (bit_vector)
        requires
            y < 128u8,
    ;
}

/// Both S-boxes fix the all-zero and the all-one bucket.
pub proof fn lemma_s_box_fixed_points()
    ensures
        s_box_spec(0) == 0,
        s_box_spec(0xff) == 0xff,
        final_s_box_spec(0) == 0,
        final_s_box_spec(0x7f) == 0x7f,
{
    assert(s_box_spec(0) == 0) by (bit_vector);
    assert(s_box_spec(0xff) == 0xff) by (bit_vector);
    assert(final_s_box_spec(0) == 0) by (bit_vector);
    assert(final_s_box_spec(0x7f) == 0x7f) by (bit_vector);
}

/// The 8-bit S-box is injective, hence a permutation of the bytes.
pub proof fn lemma_s_box_injective(a: u8, b: u8)
    ensures
        s_box_spec(a) == s_box_spec(b) ==> a == b,
{
    assert(s_box_spec(a) == s_box_spec(b) ==> a == b) by (bit_vector);
}

/// The 7-bit S-box maps into seven bits and is injective on them.
pub proof fn lemma_final_s_box_injective(a: u8, b: u8)
    requires
        a < 128,
        b < 128,
    ensures
        final_s_box_spec(a) < 128,
        final_s_box_spec(a) == final_s_box_spec(b) ==> a == b,
{
    assert(final_s_box_spec(a) < 128) by (bit_vector);
    assert(final_s_box_spec(a) == final_s_box_spec(b) ==> a == b) by (bit_vector)
        requires
            a < 128u8,
            b < 128u8,
    ;
}


/// The Bars map computed from the two lookup tables: the low half of the value
/// indexes the first table, the high half the second.
pub proof fn lemma_bar_from_tables(v: u32)
    requires
        v < 0x8000_0000,
    ensures
        ((lookup2_entry((v >> 16u32) as u16) as u32) << 16u32) | (lookup1_entry(v as u16) as u32)
            == bar_spec(v),
{
    let hi = (v >> 24u32) as u8;
    assert(hi < 128) by (bit_vector)
        requires
            v < 0x8000_0000u32,
            hi == (v >> 24u32) as u8,
    ;
    lemma_final_s_box_injective(hi, hi);
    let f = final_s_box_spec(hi);
    let s0 = s_box_spec(v as u8);
    let s1 = s_box_spec((v >> 8u32) as u8);
    let s2 = s_box_spec((v >> 16u32) as u8);
    assert((((v >> 16u32) as u16) >> 8u16) as u8 == hi && ((v >> 16u32) as u16) as u8 == (v
        >> 16u32) as u8 && ((v as u16) >> 8u16) as u8 == (v >> 8u32) as u8 && (v as u16) as u8
        == v as u8 && ((v >> 24u32) & 0x7fu32) as u8 == hi) by (bit_vector)
        requires
            hi == (v >> 24u32) as u8,
            v < 0x8000_0000u32,
    ;
    assert(((((((f as u16) << 8u16) | (s2 as u16)) as u32) << 16u32) | ((((s1 as u16) << 8u16)
        | (s0 as u16)) as u32)) == (((f as u32) << 24u32) | ((s2 as u32) << 16u32) | ((s1 as u32)
        << 8u32) | (s0 as u32))) by (bit_vector)
        requires
            f < 128u8,
    ;
}

/// Byte by byte, the two lookup tables: entry `i` of the first holds the
/// 8-bit S-box of each byte of `i` in the same byte; entry `i` of the second,
/// for `i` below `0x8000`, holds the 7-bit S-box of `i >> 8` in its high byte
/// and the 8-bit S-box of the low byte of `i` in its low byte.
pub proof fn lemma_lookup_entry_bytes(i: u16)
    ensures
        (lookup1_entry(i) >> 8u16) as u8 == s_box_spec((i >> 8u16) as u8),
        lookup1_entry(i) as u8 == s_box_spec(i as u8),
        i < 0x8000 ==> (lookup2_entry(i) >> 8u16) as u8 == final_s_box_spec((i >> 8u16) as u8),
        lookup2_entry(i) as u8 == s_box_spec(i as u8),
{
    let h = s_box_spec((i >> 8u16) as u8);
    let f = final_s_box_spec((i >> 8u16) as u8);
    let l = s_box_spec(i as u8);
    assert((((h as u16) << 8u16) | (l as u16)) >> 8u16 == h as u16 && ((((h as u16) << 8u16) | (
    l as u16)) as u8) == l) by (bit_vector);
    assert((((f as u16) << 8u16) | (l as u16)) >> 8u16 == f as u16 && ((((f as u16) << 8u16) | (
    l as u16)) as u8) == l) by (bit_vector);
}

/// Byte by byte, the Bars map on a 31-bit value: each of the three low bytes
/// of the result is the 8-bit S-box of the matching byte of the argument, and
/// the top seven bits are the 7-bit S-box of the argument's top seven bits.
pub proof fn lemma_bar_bytes(v: u32)
    requires
        v < 0x8000_0000,
    ensures
        bar_spec(v) as u8 == s_box_spec(v as u8),
        (bar_spec(v) >> 8u32) as u8 == s_box_spec((v >> 8u32) as u8),
        (bar_spec(v) >> 16u32) as u8 == s_box_spec((v >> 16u32) as u8),
        bar_spec(v) >> 24u32 == final_s_box_spec((v >> 24u32) as u8) as u32,
{
    let hi = (v >> 24u32) as u8;
    assert(hi < 128 && ((v >> 24u32) & 0x7fu32) as u8 == hi) by (bit_vector)
        requires
            v < 0x8000_0000u32,
            hi == (v >> 24u32) as u8,
    ;
    lemma_final_s_box_bits(hi);
    let f = final_s_box_spec(hi);
    let s0 = s_box_spec(v as u8);
    let s1 = s_box_spec((v >> 8u32) as u8);
    let s2 = s_box_spec((v >> 16u32) as u8);
    let r = ((f as u32) << 24u32) | ((s2 as u32) << 16u32) | ((s1 as u32) << 8u32) | (s0 as u32);
    assert(r as u8 == s0 && (r >> 8u32) as u8 == s1 && (r >> 16u32) as u8 == s2 && r >> 24u32
        == f as u32) by (bit_vector)
        requires
            f < 128u8,
            r == ((f as u32) << 24u32) | ((s2 as u32) << 16u32) | ((s1 as u32) << 8u32) | (
            s0 as u32),
    ;
}

/// The Bars map keeps every canonical field element canonical: its result is
/// below `P` whenever its argument is.
pub proof fn lemma_bar_canonical(v: u32)
    requires
        v < 0x7fff_ffff,
    ensures
        bar_spec(v) < 0x7fff_ffff,
{
    let hi = ((v >> 24u32) & 0x7fu32) as u8;
    let b0 = v as u8;
    let b1 = (v >> 8u32) as u8;
    let b2 = (v >> 16u32) as u8;
    assert(hi < 128) by (bit_vector)
        requires
            hi == ((v >> 24u32) & 0x7fu32) as u8,
    ;
    lemma_final_s_box_injective(hi, 0x7f);
    lemma_s_box_injective(b0, 0xff);
    lemma_s_box_injective(b1, 0xff);
    lemma_s_box_injective(b2, 0xff);
    lemma_s_box_fixed_points();
    let f = final_s_box_spec(hi);
    let s0 = s_box_spec(b0);
    let s1 = s_box_spec(b1);
    let s2 = s_box_spec(b2);
    assert(!(hi == 0x7fu8 && b0 == 0xffu8 && b1 == 0xffu8 && b2 == 0xffu8)) by (bit_vector)
        requires
            v < 0x7fff_ffffu32,
            hi == ((v >> 24u32) & 0x7fu32) as u8,
            b0 == v as u8,
            b1 == (v >> 8u32) as u8,
            b2 == (v >> 16u32) as u8,
    ;
    assert((((f as u32) << 24u32) | ((s2 as u32) << 16u32) | ((s1 as u32) << 8u32) | (s0 as u32))
        < 0x7fff_ffffu32) by (bit_vector)
        requires
            f < 128u8,
            !(f == 0x7fu8 && s0 == 0xffu8 && s1 == 0xffu8 && s2 == 0xffu8),
    ;
}

/// The Bars map is injective on 31-bit values, hence a permutation of the field.
pub proof fn lemma_bar_injective(a: u32, b: u32)
    requires
        a < 0x8000_0000,
        b < 0x8000_0000,
        bar_spec(a) == bar_spec(b),
    ensures
        a == b,
{
    let ha = ((a >> 24u32) & 0x7fu32) as u8;
    let hb = ((b >> 24u32) & 0x7fu32) as u8;
    assert(ha < 128 && hb < 128) by (bit_vector)
        requires
            ha == ((a >> 24u32) & 0x7fu32) as u8,
            hb == ((b >> 24u32) & 0x7fu32) as u8,
    ;
    lemma_final_s_box_injective(ha, hb);
    lemma_final_s_box_injective(hb, ha);
    lemma_s_box_injective(a as u8, b as u8);
    lemma_s_box_injective((a >> 8u32) as u8, (b >> 8u32) as u8);
    lemma_s_box_injective((a >> 16u32) as u8, (b >> 16u32) as u8);
    let fa = final_s_box_spec(ha);
    let fb = final_s_box_spec(hb);
    let a0 = s_box_spec(a as u8);
    let a1 = s_box_spec((a >> 8u32) as u8);
    let a2 = s_box_spec((a >> 16u32) as u8);
    let b0 = s_box_spec(b as u8);
    let b1 = s_box_spec((b >> 8u32) as u8);
    let b2 = s_box_spec((b >> 16u32) as u8);
    assert(fa == fb && a0 == b0 && a1 == b1 && a2 == b2) by (bit_vector)
        requires
            fa < 128u8,
            fb < 128u8,
            (((fa as u32) << 24u32) | ((a2 as u32) << 16u32) | ((a1 as u32) << 8u32) | (a0 as u32))
                == (((fb as u32) << 24u32) | ((b2 as u32) << 16u32) | ((b1 as u32) << 8u32) | (
            b0 as u32)),
    ;
    assert(a == b) by (bit_vector)
        requires
            a < 0x8000_0000u32,
            b < 0x8000_0000u32,
            ((a >> 24u32) & 0x7fu32) as u8 == ((b >> 24u32) & 0x7fu32) as u8,
            a as u8 == b as u8,
            (a >> 8u32) as u8 == (b >> 8u32) as u8,
            (a >> 16u32) as u8 == (b >> 16u32) as u8,
    ;
}


/// A map on `0 .. k` that is injective there and stays there is onto it.
proof fn lemma_injective_onto(f: spec_fn(int) -> int, k: int, y: int)
    requires
        0 <= y < k,
        forall|a: int| 0 <= a < k ==> 0 <= #[trigger] f(a) < k,
        forall|a: int, b: int| 0 <= a < k && 0 <= b < k && #[trigger] f(a) == #[trigger] f(b) ==> a == b,
    ensures
        exists|x: int| 0 <= x < k && #[trigger] f(x) == y,
{
    let dom = set_int_range(0, k);
    lemma_int_range(0, k);
    let img = dom.map(f);
    assert(vstd::relations::injective_on(f, dom));
    lemma_map_size(dom, img, f);
    assert(img.subset_of(dom));
    lemma_subset_equality(img, dom);
    assert(dom.contains(y));
    assert(img.contains(y));
}

/// The 8-bit S-box is a bijection of the bytes: every byte is the image of one.
pub proof fn lemma_s_box_bijective(y: u8)
    ensures
        exists|x: u8| s_box_spec(x) == y,
{
    let f = |a: int| s_box_spec(a as u8) as int;
    assert forall|a: int, b: int| 0 <= a < 256 && 0 <= b < 256 && #[trigger] f(a) == #[trigger] f(b) implies a == b by {
        lemma_s_box_injective(a as u8, b as u8);
    }
    lemma_injective_onto(f, 256, y as int);
    let x = choose|x: int| 0 <= x < 256 && #[trigger] f(x) == y as int;
    assert(s_box_spec(x as u8) == y);
}

/// The 7-bit S-box is a bijection of the 7-bit values.
pub proof fn lemma_final_s_box_bijective(y: u8)
    requires
        y < 128,
    ensures
        exists|x: u8| x < 128 && final_s_box_spec(x) == y,
{
    let f = |a: int| final_s_box_spec(a as u8) as int;
    assert forall|a: int| 0 <= a < 128 implies 0 <= #[trigger] f(a) < 128 by {
        lemma_final_s_box_injective(a as u8, a as u8);
    }
    assert forall|a: int, b: int| 0 <= a < 128 && 0 <= b < 128 && #[trigger] f(a) == #[trigger] f(b) implies a == b by {
        lemma_final_s_box_injective(a as u8, b as u8);
    }
    lemma_injective_onto(f, 128, y as int);
    let x = choose|x: int| 0 <= x < 128 && #[trigger] f(x) == y as int;
    assert(final_s_box_spec(x as u8) == y);
}

} // verus!
