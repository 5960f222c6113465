use vstd::prelude::*;
use vstd::string::StringSliceAdditionalSpecFns;
use vstd::utf8::encode_utf8;

use crate::textenc::{all_ascii, ascii_chars_of, ascii_to_string, lemma_ascii_decodes};

verus! {

/// The ASCII code of the lowercase hex digit for a value below 16.
pub open spec fn hex_digit_byte(n: u8) -> u8 {
    if n < 10 {
        (48 + n) as u8
    } else {
        (87 + n) as u8
    }
}

/// The ASCII codes of the hex notation of a byte sequence, two digits per
/// byte, high nibble first.
pub open spec fn spec_hex_bytes(b: Seq<u8>) -> Seq<u8> {
    Seq::new(
        2 * b.len(),
        |i: int|
            if i % 2 == 0 {
                hex_digit_byte((b[i / 2] / 16) as u8)
            } else {
                hex_digit_byte((b[i / 2] % 16) as u8)
            },
    )
}

/// The hex notation of a byte sequence as characters.
pub open spec fn spec_hex_chars(b: Seq<u8>) -> Seq<char> {
    ascii_chars_of(spec_hex_bytes(b))
}

/// True for the ASCII code of a hex digit, either case.
pub open spec fn is_hex_digit(c: u8) -> bool {
    (48 <= c <= 57) || (65 <= c <= 70) || (97 <= c <= 102)
}

/// The value of a hex digit given by its ASCII code.
pub open spec fn hex_val(c: u8) -> u8 {
    if c <= 57 {
        (c - 48) as u8
    } else if c <= 70 {
        (c - 55) as u8
    } else {
        (c - 87) as u8
    }
}

/// True when a byte sequence is a well-formed hex notation: even length, hex
/// digits throughout.
pub open spec fn spec_is_hex(bs: Seq<u8>) -> bool {
    bs.len() % 2 == 0 && (forall|i: int| 0 <= i < bs.len() ==> is_hex_digit(#[trigger] bs[i]))
}

/// The bytes that a well-formed hex notation stands for.
pub open spec fn spec_hex_decode(bs: Seq<u8>) -> Seq<u8> {
    Seq::new(
        bs.len() / 2,
        |i: int| (hex_val(bs[2 * i]) * 16 + hex_val(bs[2 * i + 1])) as u8,
    )
}

/// Computes the ASCII code of the lowercase hex digit for a value below 16.
fn hex_digit(n: u8) -> (r: u8)
    requires
        n < 16,
    ensures
        r == hex_digit_byte(n),
{
    if n < 10 {
        48 + n
    } else {
        87 + n
    }
}

/// Encodes bytes as a lowercase hex string.
pub fn hex_encode(bytes: &[u8]) -> (r: String)
    ensures
        r@ == spec_hex_chars(bytes@),
{
    let mut out: Vec<u8> = Vec::new();
    let n = bytes.len();
    for i in 0..n
        invariant
            n == bytes@.len(),
            out@ =~= spec_hex_bytes(bytes@.take(i as int)),
    {
        let b = bytes[i];
        out.push(hex_digit(b / 16));
        out.push(hex_digit(b % 16));
        proof {
            assert(out@ =~= spec_hex_bytes(bytes@.take(i + 1)));
        }
    }
    proof {
        assert(bytes@.take(n as int) =~= bytes@);
        assert(all_ascii(out@)) by {
            assert forall|i: int| 0 <= i < out@.len() implies #[trigger] out@[i] < 128 by {
                assert(out@[i] == spec_hex_bytes(bytes@)[i]);
            }
        }
    }
    ascii_to_string(out)
}

/// Computes the value of one hex digit, or nothing when the byte is not a
/// hex digit.
fn hex_val_of(c: u8) -> (r: Option<u8>)
    ensures
        r is Some <==> is_hex_digit(c),
        r is Some ==> r->0 == hex_val(c) && r->0 < 16,
{
    if 48 <= c && c <= 57 {
        Some(c - 48)
    } else if 65 <= c && c <= 70 {
        Some(c - 55)
    } else if 97 <= c && c <= 102 {
        Some(c - 87)
    } else {
        None
    }
}

/// Decodes a hex string into the bytes it stands for; yields nothing when
/// the string is not well-formed hex.
pub fn hex_decode(s: &str) -> (r: Option<Vec<u8>>)
    ensures
        r is Some <==> spec_is_hex(s.spec_bytes()),
        r is Some ==> r->0@ == spec_hex_decode(s.spec_bytes()),
{
    let bs = s.as_bytes();
    let n = bs.len();
    if n % 2 != 0 {
        return None;
    }
    let mut out: Vec<u8> = Vec::new();
    let half = n / 2;
    for i in 0..half
        invariant
            n == bs@.len(),
            n % 2 == 0,
            half == n / 2,
            bs@ == s.spec_bytes(),
            out@.len() == i,
            forall|j: int| 0 <= j < 2 * i ==> is_hex_digit(#[trigger] bs@[j]),
            forall|j: int|
                0 <= j < i ==> #[trigger] out@[j] == (hex_val(bs@[2 * j]) * 16 + hex_val(
                    bs@[2 * j + 1],
                )) as u8,
    {
        let hi = match hex_val_of(bs[2 * i]) {
            Some(v) => v,
            None => {
                return None;
            },
        };
        let lo = match hex_val_of(bs[2 * i + 1]) {
            Some(v) => v,
            None => {
                return None;
            },
        };
        out.push(hi * 16 + lo);
    }
    proof {
        assert(spec_is_hex(bs@));
        assert(out@ =~= spec_hex_decode(bs@));
    }
    Some(out)
}

/// Hex decoding inverts hex encoding: the notation written for any byte
/// sequence is well-formed and reads back as that sequence.
pub proof fn lemma_hex_round_trip(b: Seq<u8>)
    ensures
        spec_is_hex(encode_utf8(spec_hex_chars(b))),
        spec_hex_decode(encode_utf8(spec_hex_chars(b))) == b,
{
    let codes = spec_hex_bytes(b);
    assert(all_ascii(codes)) by {
        assert forall|i: int| 0 <= i < codes.len() implies #[trigger] codes[i] < 128 by {}
    }
    lemma_ascii_decodes(codes);
    assert(encode_utf8(spec_hex_chars(b)) == codes);
    assert(spec_is_hex(codes));
    assert forall|i: int| 0 <= i < b.len() implies #[trigger] spec_hex_decode(codes)[i]
        == b[i] by {
        assert(codes[2 * i] == hex_digit_byte((b[i] / 16) as u8));
        assert(codes[2 * i + 1] == hex_digit_byte((b[i] % 16) as u8));
        assert(hex_val(codes[2 * i]) == b[i] / 16);
        assert(hex_val(codes[2 * i + 1]) == b[i] % 16);
        assert((b[i] / 16) * 16 + b[i] % 16 == b[i]) by (nonlinear_arith);
    }
    assert(spec_hex_decode(codes) =~= b);
}

} // verus!
