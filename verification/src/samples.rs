//! The little-endian 16-bit sample layout of an L16 buffer: how two bytes
//! make one sample and one sample makes two bytes, and the laws that tie the
//! two directions together.
use vstd::prelude::*;

verus! {

/// The value of the two's-complement 16-bit integer whose low byte is `lo`
/// and whose high byte is `hi`.
pub open spec fn le_value(lo: u8, hi: u8) -> int {
    if hi < 128 {
        lo + 256 * hi
    } else {
        lo + 256 * hi - 65536
    }
}

/// The samples that a byte sequence holds: one sample for every complete
/// pair of bytes, read little-endian; a trailing odd byte holds no sample.
pub open spec fn le_samples(bytes: Seq<u8>) -> Seq<i16> {
    Seq::new(bytes.len() / 2, |k: int| le_value(bytes[2 * k], bytes[2 * k + 1]) as i16)
}

/// The sample as an unsigned 16-bit pattern (two's complement).
pub open spec fn bit_pattern(s: i16) -> int {
    if s < 0 {
        s + 65536
    } else {
        s as int
    }
}

/// The low byte of a sample's little-endian encoding.
pub open spec fn low_byte(s: i16) -> u8 {
    (bit_pattern(s) % 256) as u8
}

/// The high byte of a sample's little-endian encoding.
pub open spec fn high_byte(s: i16) -> u8 {
    (bit_pattern(s) / 256) as u8
}

/// The bytes of a sequence of samples, each written as two little-endian bytes.
pub open spec fn le_bytes(samples: Seq<i16>) -> Seq<u8> {
    Seq::new(
        samples.len() * 2,
        |j: int|
            if j % 2 == 0 {
                low_byte(samples[j / 2])
            } else {
                high_byte(samples[j / 2])
            },
    )
}

/// Reads the sample held by the byte pair (`lo`, `hi`).
pub fn decode_sample(lo: u8, hi: u8) -> (s: i16)
    ensures
        s as int == le_value(lo, hi),
        s == le_value(lo, hi) as i16,
        s as int == lo + 256 * hi - (if hi >= 128 { 65536int } else { 0int }),
{
    if hi < 128 {
        (hi as i16) * 256 + (lo as i16)
    } else {
        ((hi as i16) - 256) * 256 + (lo as i16)
    }
}

/// Splits a sample into its little-endian byte pair (low byte first).
pub fn encode_sample(s: i16) -> (pair: (u8, u8))
    ensures
        pair.0 == low_byte(s),
        pair.1 == high_byte(s),
        pair.0 + 256 * pair.1 == s + (if s < 0 { 65536int } else { 0int }),
{
    if s >= 0 {
        ((s % 256) as u8, (s / 256) as u8)
    } else {
        let u: i32 = (s as i32) + 65536;
        ((u % 256) as u8, (u / 256) as u8)
    }
}

/// Sample `k` of a byte sequence is the two's-complement value of bytes
/// `2k` (low) and `2k + 1` (high), in that order, for every complete pair.
pub proof fn lemma_sample_positions(bytes: Seq<u8>, k: int)
    requires
        0 <= k < bytes.len() / 2,
    ensures
        le_samples(bytes).len() == bytes.len() / 2,
        2 * k + 1 < bytes.len(),
        le_samples(bytes)[k] as int == bytes[2 * k] + 256 * bytes[2 * k + 1] - (if bytes[2 * k
            + 1] >= 128 {
            65536int
        } else {
            0int
        }),
{
}

/// The bytes written for sample `k` sit at positions `2k` (low) and `2k + 1`
/// (high), and together they are the sample's 16-bit two's-complement pattern:
/// low + 256 * high equals the sample, plus 65536 when it is negative.
pub proof fn lemma_byte_positions(samples: Seq<i16>, k: int)
    requires
        0 <= k < samples.len(),
    ensures
        le_bytes(samples).len() == 2 * samples.len(),
        le_bytes(samples)[2 * k] + 256 * le_bytes(samples)[2 * k + 1] == samples[k] + (if samples[k]
            < 0 {
            65536int
        } else {
            0int
        }),
{
    assert((2 * k) % 2 == 0 && (2 * k) / 2 == k);
    assert((2 * k + 1) % 2 == 1 && (2 * k + 1) / 2 == k);
    lemma_split_pattern(bit_pattern(samples[k]));
}

proof fn lemma_split_pattern(u: int)
    requires
        0 <= u < 65536,
    ensures
        u == u % 256 + 256 * (u / 256),
        0 <= u % 256 < 256,
        0 <= u / 256 < 256,
        u < 32768 <==> u / 256 < 128,
{
    assert(u == u % 256 + 256 * (u / 256) && 0 <= u % 256 < 256 && 0 <= u / 256 < 256) by (nonlinear_arith)
        requires
            0 <= u < 65536,
    ;
}

proof fn lemma_join_bytes(lo: u8, hi: u8)
    ensures
        (lo + 256 * hi) % 256 == lo,
        (lo + 256 * hi) / 256 == hi,
{
    let u: int = lo + 256 * hi;
    assert(u % 256 == lo && u / 256 == hi) by (nonlinear_arith)
        requires
            u == lo + 256 * hi,
            0 <= lo < 256,
            0 <= hi < 256,
    ;
}

/// Writing a sample as two bytes and reading the pair back gives the sample.
pub proof fn lemma_sample_roundtrip(s: i16)
    ensures
        le_value(low_byte(s), high_byte(s)) == s as int,
{
    lemma_split_pattern(bit_pattern(s));
}

/// Reading a byte pair as a sample and writing the sample gives the pair back.
pub proof fn lemma_byte_pair_roundtrip(lo: u8, hi: u8)
    ensures
        low_byte(le_value(lo, hi) as i16) == lo,
        high_byte(le_value(lo, hi) as i16) == hi,
{
    lemma_join_bytes(lo, hi);
}

/// Encoding samples and decoding the bytes gives the same samples back.
pub proof fn lemma_decode_encode(samples: Seq<i16>)
    ensures
        le_samples(le_bytes(samples)) == samples,
{
    let bytes = le_bytes(samples);
    assert(bytes.len() / 2 == samples.len());
    assert forall|k: int| 0 <= k < samples.len() implies #[trigger] le_samples(bytes)[k]
        == samples[k] by {
        assert((2 * k) % 2 == 0 && (2 * k) / 2 == k);
        assert((2 * k + 1) % 2 == 1 && (2 * k + 1) / 2 == k);
        lemma_sample_roundtrip(samples[k]);
    }
    assert(le_samples(bytes) =~= samples);
}

/// A buffer of even length is the encoding of the samples it holds.
pub proof fn lemma_encode_decode(bytes: Seq<u8>)
    requires
        bytes.len() % 2 == 0,
    ensures
        le_bytes(le_samples(bytes)) == bytes,
{
    let samples = le_samples(bytes);
    assert(samples.len() * 2 == bytes.len());
    assert forall|j: int| 0 <= j < bytes.len() implies #[trigger] le_bytes(samples)[j]
        == bytes[j] by {
        let k = j / 2;
        assert(0 <= k < samples.len());
        assert(j == 2 * k || j == 2 * k + 1);
        lemma_byte_pair_roundtrip(bytes[2 * k], bytes[2 * k + 1]);
    }
    assert(le_bytes(samples) =~= bytes);
}

/// Every sample of an all-zero buffer is zero.
pub proof fn lemma_silent_bytes(bytes: Seq<u8>)
    requires
        forall|i: int| 0 <= i < bytes.len() ==> bytes[i] == 0,
    ensures
        forall|k: int| 0 <= k < le_samples(bytes).len() ==> le_samples(bytes)[k] == 0,
{
    assert forall|k: int| 0 <= k < le_samples(bytes).len() implies le_samples(bytes)[k]
        == 0 by {
        assert(bytes[2 * k] == 0 && bytes[2 * k + 1] == 0);
    }
}

/// Every byte of the encoding of all-zero samples is zero.
pub proof fn lemma_silent_samples(samples: Seq<i16>)
    requires
        forall|k: int| 0 <= k < samples.len() ==> samples[k] == 0,
    ensures
        forall|j: int| 0 <= j < le_bytes(samples).len() ==> le_bytes(samples)[j] == 0,
{
    assert forall|j: int| 0 <= j < le_bytes(samples).len() implies le_bytes(samples)[j]
        == 0 by {
        assert(samples[j / 2] == 0);
    }
}

/// The encoding of `n` samples has `2 * n` bytes, an even number.
pub proof fn lemma_encoding_even(samples: Seq<i16>)
    ensures
        le_bytes(samples).len() == 2 * samples.len(),
        le_bytes(samples).len() % 2 == 0,
{
}

} // verus!
