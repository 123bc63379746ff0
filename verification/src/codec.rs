//! The base64 text form of a buffer (STANDARD alphabet, with padding), as the
//! `base64` crate computes it.
use vstd::prelude::*;

use base64::engine::general_purpose::STANDARD;
use base64::{DecodeError, Engine};

verus! {

#[verifier::external_type_specification]
#[verifier::external_body]
pub struct ExDecodeError(DecodeError);

/// The character that the STANDARD alphabet (RFC 4648, table 1) gives the
/// 6-bit value `v`: `A`-`Z` for 0-25, `a`-`z` for 26-51, `0`-`9` for 52-61,
/// `+` for 62 and `/` for 63.
pub open spec fn standard_symbol(v: int) -> char {
    if v < 26 {
        (v + 65) as char
    } else if v < 52 {
        (v + 71) as char
    } else if v < 62 {
        (v - 4) as char
    } else if v == 62 {
        '+'
    } else {
        '/'
    }
}

/// The four characters for one group of `count` (1 to 3) bytes `b0 b1 b2`,
/// missing bytes being zero: the group's 24 bits cut into four 6-bit values,
/// most significant first, with `=` in place of each value that holds no
/// input bit.
pub open spec fn standard_quad(b0: u8, b1: u8, b2: u8, count: int) -> Seq<char> {
    seq![
        standard_symbol(b0 as int / 4),
        standard_symbol((b0 as int % 4) * 16 + b1 as int / 16),
        if count >= 2 {
            standard_symbol((b1 as int % 16) * 4 + b2 as int / 64)
        } else {
            '='
        },
        if count >= 3 {
            standard_symbol(b2 as int % 64)
        } else {
            '='
        },
    ]
}

/// Base64 with the STANDARD alphabet and `=` padding (RFC 4648, section 4):
/// each group of three bytes, the last one possibly shorter, becomes four
/// characters.
pub open spec fn standard_base64(bytes: Seq<u8>) -> Seq<char>
    decreases bytes.len(),
{
    if bytes.len() == 0 {
        seq![]
    } else if bytes.len() == 1 {
        standard_quad(bytes[0], 0, 0, 1)
    } else if bytes.len() == 2 {
        standard_quad(bytes[0], bytes[1], 0, 2)
    } else {
        standard_quad(bytes[0], bytes[1], bytes[2], 3) + standard_base64(bytes.skip(3))
    }
}

/// The texts that are the padded STANDARD base64 of some bytes.
pub open spec fn is_standard_base64(text: Seq<char>) -> bool {
    exists|bytes: Seq<u8>| standard_base64(bytes) == text
}

/// The text that `base64`'s STANDARD engine writes for `bytes`.
pub uninterp spec fn base64_standard_encoding(bytes: Seq<u8>) -> Seq<char>;

/// The bytes that `base64`'s STANDARD engine reads from `text`, or `None`
/// where it reports a `DecodeError`.
pub uninterp spec fn base64_standard_decoding(text: Seq<char>) -> Option<Seq<u8>>;

/// Calls `Engine::encode` on the STANDARD engine.
/// Trusted: the text is the one named `base64_standard_encoding(bytes)`; its
/// length is four characters for each started group of three bytes (the
/// engine pads the last group with `=`), as `base64::encoded_len` computes it;
/// and the same engine decodes it back to `bytes` (STANDARD writes canonical
/// padding and requires it on decoding, so its own output is accepted). The
/// text is the RFC 4648 padded encoding with the standard alphabet, which is
/// what `STANDARD` is documented to be (`alphabet::STANDARD`, `PAD`).
/// `encode` panics when that length overflows `usize`, which `requires` rules out.
#[verifier::external_body]
pub(crate) fn standard_encode(bytes: &[u8]) -> (text: String)
    requires
        4 * ((bytes@.len() + 2) / 3) <= usize::MAX,
    ensures
        text@ == base64_standard_encoding(bytes@),
        text@ == standard_base64(bytes@),
        text@.len() == 4 * ((bytes@.len() + 2) / 3),
        base64_standard_decoding(text@) == Some(bytes@),
{
    STANDARD.encode(bytes)
}

/// Calls `Engine::decode` on the STANDARD engine.
/// Trusted: it succeeds exactly where `base64_standard_decoding(text)` is
/// `Some`, with those bytes; and, since STANDARD accepts only canonical
/// padding and no stray trailing bits, a text it accepts is exactly the text
/// it writes for the decoded bytes, four characters for each started group of
/// three bytes. So it accepts exactly the RFC 4648 padded standard-alphabet
/// texts, each as the bytes it encodes. Which `DecodeError` variant a refused
/// text gets is left unsaid.
#[verifier::external_body]
pub(crate) fn standard_decode(text: &str) -> (res: Result<Vec<u8>, DecodeError>)
    ensures
        res is Ok <==> base64_standard_decoding(text@) is Some,
        res matches Ok(bytes) ==> base64_standard_decoding(text@) == Some(bytes@),
        res matches Ok(bytes) ==> text@ == base64_standard_encoding(bytes@),
        res matches Ok(bytes) ==> text@ == standard_base64(bytes@),
        res is Ok <==> is_standard_base64(text@),
        res matches Ok(bytes) ==> text@.len() == 4 * ((bytes@.len() + 2) / 3),
{
    STANDARD.decode(text)
}

proof fn lemma_symbol_injective(v: int, w: int)
    requires
        0 <= v < 64,
        0 <= w < 64,
        standard_symbol(v) == standard_symbol(w),
    ensures
        v == w,
{
}

/// Every 6-bit value gets a character of the STANDARD alphabet, never the
/// padding character, and distinct values get distinct characters.
pub proof fn lemma_standard_alphabet(v: int, w: int)
    requires
        0 <= v < 64,
        0 <= w < 64,
    ensures
        standard_symbol(v) != '=',
        ('A' <= standard_symbol(v) <= 'Z') || ('a' <= standard_symbol(v) <= 'z') || ('0'
            <= standard_symbol(v) <= '9') || standard_symbol(v) == '+' || standard_symbol(v)
            == '/',
        v != w ==> standard_symbol(v) != standard_symbol(w),
{
}

proof fn lemma_sextets_recover(a0: u8, a1: u8, b0: u8, b1: u8)
    requires
        a0 as int / 4 == b0 as int / 4,
        (a0 as int % 4) * 16 + a1 as int / 16 == (b0 as int % 4) * 16 + b1 as int / 16,
    ensures
        a0 == b0,
        a1 as int / 16 == b1 as int / 16,
{
    assert(a0 as int % 4 == b0 as int % 4 && a1 as int / 16 == b1 as int / 16) by (nonlinear_arith)
        requires
            (a0 as int % 4) * 16 + a1 as int / 16 == (b0 as int % 4) * 16 + b1 as int / 16,
            0 <= a0 as int % 4 < 4,
            0 <= b0 as int % 4 < 4,
            0 <= a1 as int / 16 < 16,
            0 <= b1 as int / 16 < 16,
    ;
    assert(a0 == b0) by (nonlinear_arith)
        requires
            a0 as int / 4 == b0 as int / 4,
            a0 as int % 4 == b0 as int % 4,
    ;
}

proof fn lemma_sextets_recover_middle(a1: u8, a2: u8, b1: u8, b2: u8)
    requires
        a1 as int / 16 == b1 as int / 16,
        (a1 as int % 16) * 4 + a2 as int / 64 == (b1 as int % 16) * 4 + b2 as int / 64,
    ensures
        a1 == b1,
        a2 as int / 64 == b2 as int / 64,
{
    assert(a1 as int % 16 == b1 as int % 16 && a2 as int / 64 == b2 as int / 64) by (nonlinear_arith)
        requires
            (a1 as int % 16) * 4 + a2 as int / 64 == (b1 as int % 16) * 4 + b2 as int / 64,
            0 <= a1 as int % 16 < 16,
            0 <= b1 as int % 16 < 16,
            0 <= a2 as int / 64 < 4,
            0 <= b2 as int / 64 < 4,
    ;
    assert(a1 == b1) by (nonlinear_arith)
        requires
            a1 as int / 16 == b1 as int / 16,
            a1 as int % 16 == b1 as int % 16,
    ;
}

proof fn lemma_last_byte_recover(a2: u8, b2: u8)
    requires
        a2 as int / 64 == b2 as int / 64,
        a2 as int % 64 == b2 as int % 64,
    ensures
        a2 == b2,
{
    assert(a2 == b2) by (nonlinear_arith)
        requires
            a2 as int / 64 == b2 as int / 64,
            a2 as int % 64 == b2 as int % 64,
    ;
}

/// The padded base64 of `n` bytes has four characters for each started group
/// of three bytes.
pub proof fn lemma_standard_base64_length(bytes: Seq<u8>)
    ensures
        standard_base64(bytes).len() == 4 * ((bytes.len() + 2) / 3),
    decreases bytes.len(),
{
    if bytes.len() > 2 {
        lemma_standard_base64_length(bytes.skip(3));
    }
}

/// Characters `4i` to `4i + 3` of the text encode bytes `3i`, `3i + 1` and
/// `3i + 2`: the first character holds the top six bits of byte `3i`, the
/// second its low two bits and the top four of byte `3i + 1`, the third the
/// low four bits of byte `3i + 1` and the top two of byte `3i + 2` (or `=`
/// when byte `3i + 1` is past the end), the fourth the low six bits of byte
/// `3i + 2` (or `=` when it is past the end).
pub proof fn lemma_standard_base64_positions(bytes: Seq<u8>, i: int)
    requires
        0 <= i,
        3 * i < bytes.len(),
    ensures
        4 * i + 3 < standard_base64(bytes).len(),
        standard_base64(bytes)[4 * i] == standard_symbol(bytes[3 * i] as int / 4),
        standard_base64(bytes)[4 * i + 1] == standard_symbol(
            (bytes[3 * i] as int % 4) * 16 + (if 3 * i + 1 < bytes.len() {
                bytes[3 * i + 1] as int
            } else {
                0
            }) / 16,
        ),
        standard_base64(bytes)[4 * i + 2] == (if 3 * i + 1 < bytes.len() {
            standard_symbol(
                (bytes[3 * i + 1] as int % 16) * 4 + (if 3 * i + 2 < bytes.len() {
                    bytes[3 * i + 2] as int
                } else {
                    0
                }) / 64,
            )
        } else {
            '='
        }),
        standard_base64(bytes)[4 * i + 3] == (if 3 * i + 2 < bytes.len() {
            standard_symbol(bytes[3 * i + 2] as int % 64)
        } else {
            '='
        }),
    decreases i,
{
    lemma_standard_base64_length(bytes);
    if i > 0 {
        let rest = bytes.skip(3);
        lemma_standard_base64_positions(rest, i - 1);
        lemma_standard_base64_length(rest);
        let q = standard_quad(bytes[0], bytes[1], bytes[2], 3);
        assert(standard_base64(bytes) == q + standard_base64(rest));
        assert(standard_base64(bytes)[4 * i] == standard_base64(rest)[4 * (i - 1)]);
        assert(standard_base64(bytes)[4 * i + 1] == standard_base64(rest)[4 * (i - 1) + 1]);
        assert(standard_base64(bytes)[4 * i + 2] == standard_base64(rest)[4 * (i - 1) + 2]);
        assert(standard_base64(bytes)[4 * i + 3] == standard_base64(rest)[4 * (i - 1) + 3]);
        assert(rest[3 * (i - 1)] == bytes[3 * i]);
        if 3 * i + 1 < bytes.len() {
            assert(rest[3 * (i - 1) + 1] == bytes[3 * i + 1]);
        }
        if 3 * i + 2 < bytes.len() {
            assert(rest[3 * (i - 1) + 2] == bytes[3 * i + 2]);
        }
    }
}

/// Distinct byte sequences have distinct padded base64 texts, so a text
/// decodes to at most one byte sequence.
pub proof fn lemma_standard_base64_injective(a: Seq<u8>, b: Seq<u8>)
    requires
        standard_base64(a) == standard_base64(b),
    ensures
        a == b,
    decreases a.len(),
{
    let t = standard_base64(a);
    lemma_standard_base64_length(a);
    lemma_standard_base64_length(b);
    if a.len() == 0 || b.len() == 0 {
        assert(a.len() == 0 && b.len() == 0);
        assert(a =~= b);
        return;
    }
    lemma_standard_base64_positions(a, 0);
    lemma_standard_base64_positions(b, 0);
    lemma_symbol_injective(a[0] as int / 4, b[0] as int / 4);
    let a1: u8 = if a.len() > 1 { a[1] } else { 0 };
    let b1: u8 = if b.len() > 1 { b[1] } else { 0 };
    let a2: u8 = if a.len() > 2 { a[2] } else { 0 };
    let b2: u8 = if b.len() > 2 { b[2] } else { 0 };
    lemma_symbol_injective(
        (a[0] as int % 4) * 16 + a1 as int / 16,
        (b[0] as int % 4) * 16 + b1 as int / 16,
    );
    lemma_sextets_recover(a[0], a1, b[0], b1);
    assert((a.len() > 1) == (b.len() > 1)) by {
        lemma_standard_alphabet((a1 as int % 16) * 4 + a2 as int / 64, 0);
        lemma_standard_alphabet((b1 as int % 16) * 4 + b2 as int / 64, 0);
    }
    assert((a.len() > 2) == (b.len() > 2)) by {
        lemma_standard_alphabet(a2 as int % 64, 0);
        lemma_standard_alphabet(b2 as int % 64, 0);
    }
    if a.len() > 1 {
        lemma_symbol_injective(
            (a1 as int % 16) * 4 + a2 as int / 64,
            (b1 as int % 16) * 4 + b2 as int / 64,
        );
        lemma_sextets_recover_middle(a1, a2, b1, b2);
    }
    if a.len() > 2 {
        lemma_symbol_injective(a2 as int % 64, b2 as int % 64);
        lemma_last_byte_recover(a2, b2);
        let ra = a.skip(3);
        let rb = b.skip(3);
        assert(standard_base64(a) == standard_quad(a[0], a[1], a[2], 3) + standard_base64(ra));
        assert(standard_base64(b) == standard_quad(b[0], b[1], b[2], 3) + standard_base64(rb));
        assert(standard_base64(ra) =~= t.skip(4));
        assert(standard_base64(rb) =~= t.skip(4));
        lemma_standard_base64_injective(ra, rb);
        assert(a =~= seq![a[0], a[1], a[2]] + ra);
        assert(b =~= seq![b[0], b[1], b[2]] + rb);
    }
    assert(a =~= b);
}

} // verus!
