//! Constants drawn from the SHAKE-128 output stream: the byte framing of the
//! seeds, the words read from the stream, and the rejection samplers that
//! turn those words into round constants and Cauchy-matrix parameters.
use vstd::prelude::*;
use crate::field::P;
use sha3::digest::ExtendableOutput;

verus! {

/// Byte `i` of the SHAKE-128 output stream on `input`.
pub uninterp spec fn shake128_byte(input: Seq<u8>, i: nat) -> u8;

/// The first `len` bytes of the SHAKE-128 output stream on `input`.
pub open spec fn shake128_prefix(input: Seq<u8>, len: nat) -> Seq<u8> {
    Seq::new(len, |i: int| shake128_byte(input, i as nat))
}

/// Calls `sha3::Shake128::digest_xof`: absorbs `input` and squeezes `len`
/// bytes. Trusted to return the first `len` bytes of one fixed output stream
/// per input (SHAKE-128 is a deterministic extendable-output function, so a
/// shorter output is a prefix of a longer one); what that stream holds is
/// left to the name `shake128_byte`.
#[verifier::external_body]
fn shake128(input: &[u8], len: usize) -> (out: Vec<u8>)
    ensures
        out@ == Seq::new(len as nat, |i: int| shake128_byte(input@, i as nat)),
{
    let mut out = vec![0u8; len];
    <sha3::Shake128 as ExtendableOutput>::digest_xof(input, &mut out);
    out
}

/// The bytes that both seeds start with: `"Monolith"`, the state width and the
/// number of rounds (each as one byte), and the prime `P` in little-endian order.
pub open spec fn domain_prefix(width: nat, rounds: nat) -> Seq<u8> {
    seq![
        0x4du8, 0x6fu8, 0x6eu8, 0x6fu8, 0x6cu8, 0x69u8, 0x74u8, 0x68u8,
        width as u8, rounds as u8,
        0xffu8, 0xffu8, 0xffu8, 0x7fu8,
    ]
}

/// The seed of the round constants: the domain prefix, then the bit sizes
/// `8, 8, 8, 7` of the Bars buckets.
pub open spec fn round_constants_seed(width: nat, rounds: nat) -> Seq<u8> {
    domain_prefix(width, rounds) + seq![8u8, 8u8, 8u8, 7u8]
}

/// The seed of the Cauchy matrix: the domain prefix, then the parameter bit
/// sizes `16, 15` and `"MDS"`.
pub open spec fn mds_seed(width: nat, rounds: nat) -> Seq<u8> {
    domain_prefix(width, rounds) + seq![16u8, 15u8, 0x4du8, 0x44u8, 0x53u8]
}

/// Appends the domain prefix to `out`.
fn push_domain_prefix(out: &mut Vec<u8>, width: usize, rounds: usize)
    ensures
        final(out)@ == old(out)@ + domain_prefix(width as nat, rounds as nat),
{
    let bytes: [u8; 8] = [0x4d, 0x6f, 0x6e, 0x6f, 0x6c, 0x69, 0x74, 0x68];
    let mut i: usize = 0;
    while i < 8
        invariant
            0 <= i <= 8,
            out@ == old(out)@ + bytes@.subrange(0, i as int),
        decreases 8 - i,
    {
        out.push(bytes[i]);
        i += 1;
    }
    out.push(#[verifier::truncate] (width as u8));
    out.push(#[verifier::truncate] (rounds as u8));
    out.push(0xff);
    out.push(0xff);
    out.push(0xff);
    out.push(0x7f);
    assert(out@ == old(out)@ + domain_prefix(width as nat, rounds as nat));
}

/// The bytes absorbed to draw the round constants.
pub fn round_constants_seed_bytes(width: usize, rounds: usize) -> (r: Vec<u8>)
    ensures
        r@ == round_constants_seed(width as nat, rounds as nat),
{
    let mut out: Vec<u8> = Vec::new();
    push_domain_prefix(&mut out, width, rounds);
    out.push(8);
    out.push(8);
    out.push(8);
    out.push(7);
    assert(out@ == round_constants_seed(width as nat, rounds as nat));
    out
}

/// The bytes absorbed to draw the Cauchy matrix.
pub fn mds_seed_bytes(width: usize, rounds: usize) -> (r: Vec<u8>)
    ensures
        r@ == mds_seed(width as nat, rounds as nat),
{
    let mut out: Vec<u8> = Vec::new();
    push_domain_prefix(&mut out, width, rounds);
    out.push(16);
    out.push(15);
    out.push(0x4d);
    out.push(0x44);
    out.push(0x53);
    assert(out@ == mds_seed(width as nat, rounds as nat));
    out
}

/// The little-endian `u32` made of four bytes.
pub open spec fn le_word(b0: u8, b1: u8, b2: u8, b3: u8) -> u32 {
    (b0 as nat + 256 * (b1 as nat) + 65536 * (b2 as nat) + 16777216 * (b3 as nat)) as u32
}

/// Word `k` of the stream: bytes `4k .. 4k + 4`, read as a little-endian `u32`.
pub open spec fn stream_word(input: Seq<u8>, k: nat) -> u32 {
    le_word(
        shake128_byte(input, 4 * k),
        shake128_byte(input, 4 * k + 1),
        shake128_byte(input, 4 * k + 2),
        shake128_byte(input, 4 * k + 3),
    )
}

/// The mask that keeps the low 22 bits: the `x`-component of a Cauchy parameter.
pub const X_MASK: u32 = 0x3f_ffff;

/// The mask that keeps the low 29 bits: a Cauchy parameter `y`.
pub const Y_MASK: u32 = 0x1fff_ffff;

/// The number of stream words whose bytes a `usize` can address: the most
/// that a sampler can read on this machine.
pub const STREAM_WORD_LIMIT: usize = usize::MAX / 4;

/// The two ways in which stream words become values.
#[derive(Clone, Copy)]
pub enum Sampler {
    /// A word is kept if it is a canonical field value (below `P`).
    Canonical,
    /// A word is masked to 29 bits and kept if its low 22 bits differ from
    /// those of every value kept before it.
    Cauchy,
}

/// The value that a sampler draws from a word.
pub open spec fn candidate(kind: Sampler, w: u32) -> u32 {
    match kind {
        Sampler::Canonical => w,
        Sampler::Cauchy => w & Y_MASK,
    }
}

/// Whether a sampler keeps the value `c`, given the values kept so far.
pub open spec fn accepts(kind: Sampler, kept: Seq<u32>, c: u32) -> bool {
    match kind {
        Sampler::Canonical => c < P,
        Sampler::Cauchy => forall|j: int| 0 <= j < kept.len() ==> kept[j] & X_MASK != c & X_MASK,
    }
}

/// The values that a sampler keeps from the first `n` words of the stream on `seed`.
pub open spec fn sampled(kind: Sampler, seed: Seq<u8>, n: nat) -> Seq<u32>
    decreases n,
{
    if n == 0 {
        Seq::empty()
    } else {
        let kept = sampled(kind, seed, (n - 1) as nat);
        let c = candidate(kind, stream_word(seed, (n - 1) as nat));
        if accepts(kind, kept, c) {
            kept.push(c)
        } else {
            kept
        }
    }
}

/// The first `count` values that a sampler keeps from the stream on `seed`
/// (meaningful when the stream yields that many).
pub open spec fn first_sampled(kind: Sampler, seed: Seq<u8>, count: nat) -> Seq<u32> {
    sampled(kind, seed, choose|n: nat| sampled(kind, seed, n).len() == count)
}

/// Whether the stream words that this machine can address yield `count` values.
pub open spec fn stream_yields(kind: Sampler, seed: Seq<u8>, count: nat) -> bool {
    sampled(kind, seed, STREAM_WORD_LIMIT as nat).len() >= count
}

/// Reading more words only appends to what a sampler has kept, one value at most per word.
pub proof fn lemma_sampled_prefix(kind: Sampler, seed: Seq<u8>, n1: nat, n2: nat)
    requires
        n1 <= n2,
    ensures
        sampled(kind, seed, n1).len() <= sampled(kind, seed, n2).len() <= sampled(kind, seed, n1).len()
            + (n2 - n1),
        sampled(kind, seed, n2).subrange(0, sampled(kind, seed, n1).len() as int) == sampled(
            kind,
            seed,
            n1,
        ),
    decreases n2,
{
    if n1 < n2 {
        lemma_sampled_prefix(kind, seed, n1, (n2 - 1) as nat);
        let prev = sampled(kind, seed, (n2 - 1) as nat);
        let len1 = sampled(kind, seed, n1).len() as int;
        assert(sampled(kind, seed, n2).subrange(0, len1) == prev.subrange(0, len1));
    } else {
        assert(sampled(kind, seed, n2).subrange(0, sampled(kind, seed, n2).len() as int)
            == sampled(kind, seed, n2));
    }
}

/// Any two stream prefixes from which a sampler keeps the same number of values keep the same values.
pub proof fn lemma_sampled_same_length(kind: Sampler, seed: Seq<u8>, n1: nat, n2: nat)
    requires
        sampled(kind, seed, n1).len() == sampled(kind, seed, n2).len(),
    ensures
        sampled(kind, seed, n1) == sampled(kind, seed, n2),
{
    if n1 <= n2 {
        lemma_sampled_prefix(kind, seed, n1, n2);
        assert(sampled(kind, seed, n2) == sampled(kind, seed, n2).subrange(
            0,
            sampled(kind, seed, n1).len() as int,
        ));
    } else {
        lemma_sampled_prefix(kind, seed, n2, n1);
        assert(sampled(kind, seed, n1) == sampled(kind, seed, n1).subrange(
            0,
            sampled(kind, seed, n2).len() as int,
        ));
    }
}

/// Every value that the canonical sampler keeps is below `P`.
pub proof fn lemma_canonical_samples_bounded(seed: Seq<u8>, n: nat)
    ensures
        forall|k: int|
            0 <= k < sampled(Sampler::Canonical, seed, n).len() ==> #[trigger] sampled(
                Sampler::Canonical,
                seed,
                n,
            )[k] < P,
    decreases n,
{
    if n > 0 {
        lemma_canonical_samples_bounded(seed, (n - 1) as nat);
        let kept = sampled(Sampler::Canonical, seed, (n - 1) as nat);
        assert forall|k: int|
            0 <= k < sampled(Sampler::Canonical, seed, n).len() implies #[trigger] sampled(
            Sampler::Canonical,
            seed,
            n,
        )[k] < P by {
            if k < kept.len() {
                assert(kept[k] < P);
            }
        }
    }
}

/// When the stream yields `count` values, some prefix of it yields exactly
/// `count`, and the first `count` values are those that any such prefix yields.
pub proof fn lemma_first_sampled(kind: Sampler, seed: Seq<u8>, count: nat)
    requires
        stream_yields(kind, seed, count),
    ensures
        first_sampled(kind, seed, count).len() == count,
        exists|n: nat| sampled(kind, seed, n).len() == count,
        sampled(kind, seed, choose|n: nat| sampled(kind, seed, n).len() == count).len() == count,
{
    lemma_sampled_reaches(kind, seed, STREAM_WORD_LIMIT as nat, count);
}

/// A prefix that yields at least `count` values has a prefix that yields exactly `count`.
pub proof fn lemma_sampled_reaches(kind: Sampler, seed: Seq<u8>, n: nat, count: nat)
    requires
        sampled(kind, seed, n).len() >= count,
    ensures
        exists|m: nat| m <= n && sampled(kind, seed, m).len() == count,
    decreases n,
{
    if sampled(kind, seed, n).len() == count {
        assert(sampled(kind, seed, n).len() == count);
    } else {
        lemma_sampled_prefix(kind, seed, (n - 1) as nat, n);
        lemma_sampled_reaches(kind, seed, (n - 1) as nat, count);
    }
}

/// Whether a sampler keeps `c`, given the values `kept` before it.
fn accepts_exec(kind: Sampler, kept: &Vec<u32>, c: u32) -> (b: bool)
    ensures
        b == accepts(kind, kept@, c),
{
    match kind {
        Sampler::Canonical => c < P,
        Sampler::Cauchy => {
            let cx = c & X_MASK;
            let mut j: usize = 0;
            while j < kept.len()
                invariant
                    kind is Cauchy,
                    j <= kept.len(),
                    cx == c & X_MASK,
                    forall|jj: int| 0 <= jj < j ==> kept@[jj] & X_MASK != c & X_MASK,
                decreases kept.len() - j,
            {
                if kept[j] & X_MASK == cx {
                    assert(kept@[j as int] & X_MASK == c & X_MASK);
                    return false;
                }
                j += 1;
            }
            true
        },
    }
}

/// Draws `count` values from the SHAKE-128 stream on `seed` with the given
/// sampler, reading the stream word by word until `count` values are kept;
/// `None` only when the stream words that a `usize` can address
/// (`STREAM_WORD_LIMIT`) do not yield them.
pub fn sample_stream(kind: Sampler, seed: &Vec<u8>, count: usize) -> (r: Option<Vec<u32>>)
    ensures
        r is Some <==> stream_yields(kind, seed@, count as nat),
        r matches Some(v) ==> v@ == first_sampled(kind, seed@, count as nat),
{
    let mut buf_len: usize = 64;
    let mut buf = shake128(seed.as_slice(), buf_len);
    let mut k: usize = 0;
    let mut out: Vec<u32> = Vec::new();
    while out.len() < count
        invariant
            k <= STREAM_WORD_LIMIT,
            64 <= buf_len <= 4 * STREAM_WORD_LIMIT,
            buf_len % 4 == 0,
            4 * k <= buf_len,
            buf@ == shake128_prefix(seed@, buf_len as nat),
            out@ == sampled(kind, seed@, k as nat),
            out@.len() <= count,
        decreases STREAM_WORD_LIMIT - k,
    {
        if k == STREAM_WORD_LIMIT {
            proof {
                lemma_sampled_prefix(kind, seed@, k as nat, STREAM_WORD_LIMIT as nat);
            }
            return None;
        }
        if 4 * k + 4 > buf_len {
            buf_len = if buf_len <= 2 * STREAM_WORD_LIMIT {
                2 * buf_len
            } else {
                4 * STREAM_WORD_LIMIT
            };
            buf = shake128(seed.as_slice(), buf_len);
        }
        let b0 = buf[4 * k];
        let b1 = buf[4 * k + 1];
        let b2 = buf[4 * k + 2];
        let b3 = buf[4 * k + 3];
        let w: u32 = (b0 as u32) + (b1 as u32) * 256 + (b2 as u32) * 65536 + (b3 as u32) * 16777216;
        assert(w == stream_word(seed@, k as nat));
        let c = match kind {
            Sampler::Canonical => w,
            Sampler::Cauchy => w & Y_MASK,
        };
        k += 1;
        if accepts_exec(kind, &out, c) {
            out.push(c);
        }
    }
    proof {
        lemma_sampled_prefix(kind, seed@, k as nat, STREAM_WORD_LIMIT as nat);
        let n = choose|n: nat| sampled(kind, seed@, n).len() == count as nat;
        lemma_sampled_same_length(kind, seed@, k as nat, n);
    }
    Some(out)
}

} // verus!
