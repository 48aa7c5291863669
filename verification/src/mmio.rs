//! 32-bit register access at byte offsets of a memory mapping, and the
//! request/response protocol of the memory-mapped Monolith accelerator.
use vstd::prelude::*;

verus! {

#[verifier::external_type_specification]
#[verifier::external_body]
pub struct ExMmapMut(memmap2::MmapMut);

/// The length in bytes of a mapping (fixed when it is created).
pub uninterp spec fn mmap_len(m: memmap2::MmapMut) -> nat;

/// The bytes of `v`, least significant first.
pub open spec fn le_bytes(v: u32) -> Seq<u8> {
    seq![v as u8, (v >> 8u32) as u8, (v >> 16u32) as u8, (v >> 24u32) as u8]
}

/// The bytes of `v`, most significant first.
pub open spec fn be_bytes(v: u32) -> Seq<u8> {
    seq![(v >> 24u32) as u8, (v >> 16u32) as u8, (v >> 8u32) as u8, v as u8]
}

/// Whether `b` encodes `v` in one of the two byte orders a machine may use.
pub open spec fn native_encoding(v: u32, b: Seq<u8>) -> bool {
    b == le_bytes(v) || b == be_bytes(v)
}

/// Calls `u32::to_ne_bytes`. Trusted to return the bytes of `v` in the
/// machine's byte order, which is little- or big-endian; which of the two is
/// left unsaid, as it depends on the machine.
#[verifier::external_body]
fn u32_to_ne_bytes(v: u32) -> (r: [u8; 4])
    ensures
        native_encoding(v, r@),
{
    v.to_ne_bytes()
}

/// Calls `u32::from_ne_bytes`. Trusted to return the value whose encoding in
/// the machine's byte order (little- or big-endian, which is left unsaid) is `b`.
#[verifier::external_body]
fn u32_from_ne_bytes(b: [u8; 4]) -> (r: u32)
    ensures
        native_encoding(r, b@),
{
    u32::from_ne_bytes(b)
}

/// Calls `Deref::deref` on a mapping: its bytes, as many as its length.
/// Their contents are left unsaid: a mapping of device memory may change
/// under the program.
#[verifier::external_body]
fn mmap_bytes(m: &memmap2::MmapMut) -> (r: &[u8])
    ensures
        r@.len() == mmap_len(*m),
{
    &m[..]
}

/// Calls `DerefMut::deref_mut` on a mapping: its bytes, as many as its
/// length, which no write changes. Their contents are left unsaid.
#[verifier::external_body]
fn mmap_bytes_mut(m: &mut memmap2::MmapMut) -> (r: &mut [u8])
    ensures
        r@.len() == mmap_len(*old(m)),
        mmap_len(*final(m)) == mmap_len(*old(m)),
{
    &mut m[..]
}

/// Writes `value` in the machine's byte order at byte offset `index` of
/// `buf`; `None`, with `buf` unchanged, when the four bytes do not fit.
pub fn write_u32_at(buf: &mut [u8], index: usize, value: u32) -> (r: Option<()>)
    ensures
        old(buf)@.len() <= usize::MAX,
        r is Some <==> index + 4 <= old(buf)@.len(),
        final(buf)@.len() == old(buf)@.len(),
        r is None ==> final(buf)@ == old(buf)@,
        r is Some ==> {
            &&& native_encoding(value, final(buf)@.subrange(index as int, index + 4))
            &&& forall|k: int|
                0 <= k < old(buf)@.len() && !(index <= k < index + 4) ==> #[trigger] final(buf)@[k]
                    == old(buf)@[k]
        },
{
    let bytes = u32_to_ne_bytes(value);
    let len = buf.len();
    let end = match index.checked_add(4) {
        Some(e) => e,
        None => {
            return None;
        },
    };
    if end > buf.len() {
        return None;
    }
    buf[index] = bytes[0];
    buf[index + 1] = bytes[1];
    buf[index + 2] = bytes[2];
    buf[index + 3] = bytes[3];
    assert(buf@.subrange(index as int, index + 4) =~= bytes@);
    Some(())
}

/// Reads a value in the machine's byte order at byte offset `index` of
/// `buf`; `None` when the four bytes do not fit.
pub fn read_u32_at(buf: &[u8], index: usize) -> (r: Option<u32>)
    ensures
        buf@.len() <= usize::MAX,
        r is Some <==> index + 4 <= buf@.len(),
        r matches Some(v) ==> native_encoding(v, buf@.subrange(index as int, index + 4)),
{
    let len = buf.len();
    let end = match index.checked_add(4) {
        Some(e) => e,
        None => {
            return None;
        },
    };
    if end > buf.len() {
        return None;
    }
    let bytes: [u8; 4] = [buf[index], buf[index + 1], buf[index + 2], buf[index + 3]];
    assert(bytes@ =~= buf@.subrange(index as int, index + 4));
    Some(u32_from_ne_bytes(bytes))
}

/// Reading and writing 32-bit values at byte offsets.
pub trait OffsetAddrRW {
    /// The number of addressable bytes.
    spec fn byte_len(&self) -> nat;

    /// Writes `value` at byte offset `index`; `None` when it does not fit.
    fn write_u32(&mut self, index: usize, value: u32) -> (r: Option<()>)
        ensures
            old(self).byte_len() <= usize::MAX,
            r is Some <==> index + 4 <= old(self).byte_len(),
            final(self).byte_len() == old(self).byte_len(),
    ;

    /// Reads the value at byte offset `index`; `None` when it does not fit.
    fn read_u32(&self, index: usize) -> (r: Option<u32>)
        ensures
            self.byte_len() <= usize::MAX,
            r is Some <==> index + 4 <= self.byte_len(),
    ;
}

impl OffsetAddrRW for memmap2::MmapMut {
    open spec fn byte_len(&self) -> nat {
        mmap_len(*self)
    }

    fn write_u32(&mut self, index: usize, value: u32) -> (r: Option<()>) {
        write_u32_at(mmap_bytes_mut(self), index, value)
    }

    fn read_u32(&self, index: usize) -> (r: Option<u32>) {
        read_u32_at(mmap_bytes(self), index)
    }
}

/// The request word that starts a hash on the accelerator: the input shifted
/// left by one (its top bit dropped), with the start bit set.
pub fn hash_request(input: u32) -> (r: u32)
    ensures
        r == (2 * input) % 0x1_0000_0000 + 1,
{
    let r = (input << 1u32) | 1u32;
    assert(r == (2 * input) % 0x1_0000_0000 + 1) by (bit_vector)
        requires
            r == (input << 1u32) | 1u32,
    ;
    r
}

/// The hash in a response word of the accelerator: the word shifted right by
/// one when its ready bit (the lowest) is set, `None` while it is clear.
pub fn hash_response(out: u32) -> (r: Option<u32>)
    ensures
        r is Some <==> out % 2 == 1,
        r matches Some(h) ==> h == out / 2,
{
    assert((out & 1u32 == 1u32) == (out % 2 == 1) && out >> 1u32 == out / 2) by (bit_vector);
    if (out & 1u32) == 1u32 {
        Some(out >> 1u32)
    } else {
        None
    }
}

} // verus!
