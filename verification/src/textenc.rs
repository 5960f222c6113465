use vstd::prelude::*;
use vstd::utf8::{
    decode_utf8, encode_utf8, encode_utf8_decode_utf8, encode_utf8_valid_utf8, is_ascii_chars,
    is_ascii_chars_encode_utf8, valid_utf8,
};

verus! {

/// The characters that a sequence of ASCII bytes stands for, one per byte.
pub open spec fn ascii_chars_of(bytes: Seq<u8>) -> Seq<char> {
    Seq::new(bytes.len(), |i: int| bytes[i] as char)
}

/// True when every byte is in the ASCII range.
pub open spec fn all_ascii(bytes: Seq<u8>) -> bool {
    forall|i: int| 0 <= i < bytes.len() ==> bytes[i] < 128
}

/// ASCII bytes are valid UTF-8 and decode to themselves, character for
/// character.
pub proof fn lemma_ascii_decodes(bytes: Seq<u8>)
    requires
        all_ascii(bytes),
    ensures
        valid_utf8(bytes),
        decode_utf8(bytes) == ascii_chars_of(bytes),
        encode_utf8(ascii_chars_of(bytes)) == bytes,
{
    let chars = ascii_chars_of(bytes);
    assert(is_ascii_chars(chars)) by {
        assert forall|i: int| 0 <= i < chars.len() implies '\0' <= #[trigger] chars[i]
            <= '\u{7f}' by {
            assert(chars[i] == bytes[i] as char);
        }
    }
    is_ascii_chars_encode_utf8(chars);
    assert(encode_utf8(chars) =~= bytes);
    encode_utf8_valid_utf8(chars);
    encode_utf8_decode_utf8(chars);
}

/// Relies on String::from_utf8: it succeeds exactly on valid UTF-8 input and
/// yields the characters that input encodes.
#[verifier::external_body]
pub(crate) fn string_from_utf8(bytes: Vec<u8>) -> (r: Option<String>)
    ensures
        r is Some <==> valid_utf8(bytes@),
        r is Some ==> r->0@ == decode_utf8(bytes@),
{
    String::from_utf8(bytes).ok()
}

/// Turns a buffer of ASCII bytes into the string of the same characters.
pub fn ascii_to_string(bytes: Vec<u8>) -> (r: String)
    requires
        all_ascii(bytes@),
    ensures
        r@ == ascii_chars_of(bytes@),
{
    proof {
        lemma_ascii_decodes(bytes@);
    }
    let r = string_from_utf8(bytes);
    r.unwrap()
}

/// The character of a single decimal digit.
pub open spec fn digit_char(d: u64) -> char {
    ((48 + d % 10) as u8) as char
}

/// The decimal notation of `n`, most significant digit first.
pub open spec fn spec_u64_string(n: u64) -> Seq<char>
    decreases n,
{
    if n < 10 {
        seq![digit_char(n)]
    } else {
        spec_u64_string((n / 10) as u64).push(digit_char(n % 10))
    }
}

/// Appends the decimal digits of `n`, as ASCII bytes, to `out`.
fn push_u64_digits(n: u64, out: &mut Vec<u8>)
    ensures
        all_ascii(old(out)@) ==> all_ascii(final(out)@),
        ascii_chars_of(final(out)@) == ascii_chars_of(old(out)@) + spec_u64_string(n),
    decreases n,
{
    if n >= 10 {
        proof {
            assert(n / 10 < n) by (nonlinear_arith)
                requires
                    n >= 10,
            ;
        }
        push_u64_digits(n / 10, out);
    }
    let ghost mid = out@;
    let ghost head: Seq<char> = if n >= 10 {
        spec_u64_string((n / 10) as u64)
    } else {
        Seq::empty()
    };
    let d: u8 = 48 + (n % 10) as u8;
    out.push(d);
    proof {
        assert(ascii_chars_of(mid) == ascii_chars_of(old(out)@) + head);
        assert(spec_u64_string(n) == head.push(digit_char(n % 10)));
        assert(d as char == digit_char(n % 10));
        assert forall|i: int|
            0 <= i < out@.len() implies #[trigger] ascii_chars_of(out@)[i] == (ascii_chars_of(
            old(out)@,
        ) + spec_u64_string(n))[i] by {
            if i < mid.len() {
                assert(ascii_chars_of(out@)[i] == mid[i] as char);
                assert(ascii_chars_of(mid)[i] == mid[i] as char);
            } else {
                assert(out@[i] == d);
            }
        }
        assert(ascii_chars_of(out@) =~= ascii_chars_of(old(out)@) + spec_u64_string(n));
    }
}

/// The decimal notation of `n` as a string.
pub fn u64_to_string(n: u64) -> (r: String)
    ensures
        r@ == spec_u64_string(n),
        r@.len() >= 1,
{
    let mut digits: Vec<u8> = Vec::new();
    push_u64_digits(n, &mut digits);
    proof {
        assert(ascii_chars_of(digits@) =~= spec_u64_string(n));
    }
    ascii_to_string(digits)
}

} // verus!
