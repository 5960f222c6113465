use aes::Aes256;
use cipher::{BlockDecrypt, BlockEncrypt, KeyInit};
use generic_array::typenum::U16;
use generic_array::GenericArray;
use vstd::prelude::*;
use vstd::string::StrSliceExecFns;
use vstd::string::StringSliceAdditionalSpecFns;
use vstd::utf8::{
    decode_utf8, encode_utf8, encode_utf8_decode_utf8, encode_utf8_valid_utf8, valid_utf8,
};

use crate::errors::CipherError;
use crate::hexcodec::{hex_decode, hex_encode, lemma_hex_round_trip, spec_hex_chars, spec_is_hex,
    spec_hex_decode};
use crate::textenc::string_from_utf8;

verus! {

/// What one 16-byte block encrypts to under a 32-byte key: a function of key
/// and block alone.
pub uninterp spec fn aes256_encrypt_block(key: Seq<u8>, block: Seq<u8>) -> Seq<u8>;

/// What one 16-byte block decrypts to under a 32-byte key: a function of key
/// and block alone.
pub uninterp spec fn aes256_decrypt_block(key: Seq<u8>, block: Seq<u8>) -> Seq<u8>;

/// Relies on aes::Aes256 through cipher::BlockEncrypt: encrypts one 16-byte
/// block under a 32-byte key into a 16-byte block that cipher::BlockDecrypt
/// maps back to the input block.
#[verifier::external_body]
fn encrypt_block(key: &[u8], block: &[u8]) -> (r: Vec<u8>)
    requires
        key@.len() == 32,
        block@.len() == 16,
    ensures
        r@ == aes256_encrypt_block(key@, block@),
        r@.len() == 16,
        aes256_decrypt_block(key@, r@) == block@,
{
    let cipher = Aes256::new_from_slice(key).unwrap();
    let mut b: GenericArray<u8, U16> = GenericArray::clone_from_slice(block);
    cipher.encrypt_block(&mut b);
    b.to_vec()
}

/// Relies on aes::Aes256 through cipher::BlockDecrypt: decrypts one 16-byte
/// block under a 32-byte key into a 16-byte block.
#[verifier::external_body]
fn decrypt_block(key: &[u8], block: &[u8]) -> (r: Vec<u8>)
    requires
        key@.len() == 32,
        block@.len() == 16,
    ensures
        r@ == aes256_decrypt_block(key@, block@),
        r@.len() == 16,
{
    let cipher = Aes256::new_from_slice(key).unwrap();
    let mut b: GenericArray<u8, U16> = GenericArray::clone_from_slice(block);
    cipher.decrypt_block(&mut b);
    b.to_vec()
}

/// Relies on rand::random: 16 bytes from the thread-local generator; nothing
/// is assumed of their values.
#[verifier::external_body]
pub(crate) fn random_bytes_16() -> (r: Vec<u8>)
    ensures
        r@.len() == 16,
{
    rand::random::<[u8; 16]>().to_vec()
}

/// Total length of the padding that brings `len` up to the next multiple of
/// 16: always between 1 and 16, so at least one pad byte records the length.
pub open spec fn spec_pad_len(len: nat) -> nat {
    (16 - len % 16) as nat
}

/// The padded buffer: the data followed by pad bytes, each holding the pad
/// length.
pub open spec fn spec_pad(data: Seq<u8>) -> Seq<u8> {
    data + Seq::new(spec_pad_len(data.len()), |i: int| spec_pad_len(data.len()) as u8)
}

/// Removal of trailing padding: reads the last byte and, when it is a
/// plausible pad length, drops that many bytes; otherwise leaves the buffer
/// unchanged.
pub open spec fn spec_depad(data: Seq<u8>) -> Seq<u8> {
    if data.len() == 0 {
        data
    } else {
        let p = data.last();
        if 1 <= p <= 16 && p <= data.len() {
            data.take(data.len() - p)
        } else {
            data
        }
    }
}

/// Depadding inverts padding, and padding always yields whole blocks.
pub proof fn lemma_pad_round_trip(data: Seq<u8>)
    ensures
        spec_pad(data).len() == data.len() + spec_pad_len(data.len()),
        spec_pad(data).len() % 16 == 0,
        16 <= spec_pad(data).len(),
        spec_depad(spec_pad(data)) == data,
{
    let p = spec_pad_len(data.len());
    assert(1 <= p <= 16);
    assert((data.len() + (16 - data.len() % 16)) % 16 == 0) by (nonlinear_arith);
    assert(spec_pad(data).last() == p as u8);
    assert(spec_depad(spec_pad(data)) =~= data);
}

/// The concatenation of the encryptions of each 16-byte block, in order,
/// each under the same key.
pub open spec fn spec_encrypt_blocks(key: Seq<u8>, data: Seq<u8>) -> Seq<u8>
    decreases data.len(),
{
    if data.len() < 16 {
        Seq::empty()
    } else {
        aes256_encrypt_block(key, data.take(16)) + spec_encrypt_blocks(key, data.skip(16))
    }
}

/// The concatenation of the decryptions of each 16-byte block, in order,
/// each under the same key.
pub open spec fn spec_decrypt_blocks(key: Seq<u8>, data: Seq<u8>) -> Seq<u8>
    decreases data.len(),
{
    if data.len() < 16 {
        Seq::empty()
    } else {
        aes256_decrypt_block(key, data.take(16)) + spec_decrypt_blocks(key, data.skip(16))
    }
}

/// Encrypting whole blocks followed by one more block appends that block's
/// encryption.
pub proof fn lemma_encrypt_blocks_append(key: Seq<u8>, a: Seq<u8>, b: Seq<u8>)
    requires
        a.len() % 16 == 0,
        b.len() == 16,
    ensures
        spec_encrypt_blocks(key, a + b) == spec_encrypt_blocks(key, a) + aes256_encrypt_block(
            key,
            b,
        ),
    decreases a.len(),
{
    if a.len() == 0 {
        assert(a + b =~= b);
        assert(b.take(16) =~= b);
        assert(b.skip(16) =~= Seq::<u8>::empty());
        assert(spec_encrypt_blocks(key, a) =~= Seq::<u8>::empty());
        assert(spec_encrypt_blocks(key, b.skip(16)) =~= Seq::<u8>::empty());
        assert(spec_encrypt_blocks(key, b) =~= aes256_encrypt_block(key, b));
    } else {
        assert(a.len() >= 16);
        assert((a + b).take(16) =~= a.take(16));
        assert((a + b).skip(16) =~= a.skip(16) + b);
        assert(a.skip(16).len() % 16 == 0);
        lemma_encrypt_blocks_append(key, a.skip(16), b);
    }
}

/// Decrypting whole blocks followed by one more block appends that block's
/// decryption.
pub proof fn lemma_decrypt_blocks_append(key: Seq<u8>, a: Seq<u8>, b: Seq<u8>)
    requires
        a.len() % 16 == 0,
        b.len() == 16,
    ensures
        spec_decrypt_blocks(key, a + b) == spec_decrypt_blocks(key, a) + aes256_decrypt_block(
            key,
            b,
        ),
    decreases a.len(),
{
    if a.len() == 0 {
        assert(a + b =~= b);
        assert(b.take(16) =~= b);
        assert(b.skip(16) =~= Seq::<u8>::empty());
        assert(spec_decrypt_blocks(key, a) =~= Seq::<u8>::empty());
        assert(spec_decrypt_blocks(key, b.skip(16)) =~= Seq::<u8>::empty());
        assert(spec_decrypt_blocks(key, b) =~= aes256_decrypt_block(key, b));
    } else {
        assert(a.len() >= 16);
        assert((a + b).take(16) =~= a.take(16));
        assert((a + b).skip(16) =~= a.skip(16) + b);
        assert(a.skip(16).len() % 16 == 0);
        lemma_decrypt_blocks_append(key, a.skip(16), b);
    }
}

/// What decrypting a ciphertext string with a key yields: hex-decode, check
/// that a 16-byte random prefix plus whole blocks are present, decrypt each
/// block, remove the padding, and read the bytes as text.
pub open spec fn spec_decrypt_data(s: Seq<char>, key: Seq<u8>) -> Result<Seq<char>, CipherError> {
    let bs = encode_utf8(s);
    if !spec_is_hex(bs) {
        Err(CipherError::InvalidCiphertext)
    } else {
        let raw = spec_hex_decode(bs);
        if raw.len() < 16 || (raw.len() - 16) % 16 != 0 {
            Err(CipherError::InvalidCiphertext)
        } else if key.len() != 32 {
            Err(CipherError::KeyError)
        } else {
            let pt = spec_depad(spec_decrypt_blocks(key, raw.skip(16)));
            if !valid_utf8(pt) {
                Err(CipherError::InvalidUtf8)
            } else {
                Ok(decode_utf8(pt))
            }
        }
    }
}

/// Encrypts a string under a 32-byte key: pads its bytes to whole blocks,
/// encrypts each block independently, prepends a fresh 16-byte random value,
/// and writes the result in hex. The random prefix is stored positionally
/// and is not mixed into the ciphertext computation, so equal plaintext
/// blocks under one key give equal ciphertext blocks; the output also
/// carries what is needed to decrypt it back to the input.
pub fn encrypt_data(data: &str, key: &[u8]) -> (r: Result<String, CipherError>)
    ensures
        r is Err <==> key@.len() != 32,
        r is Err ==> r->Err_0 == CipherError::KeyError,
        r is Ok ==> exists|iv: Seq<u8>|
            iv.len() == 16 && r->Ok_0@ == #[trigger] spec_hex_chars(
                iv + spec_encrypt_blocks(key@, spec_pad(data.spec_bytes())),
            ),
        r is Ok ==> spec_encrypt_blocks(key@, spec_pad(data.spec_bytes())).len() == spec_pad(
            data.spec_bytes(),
        ).len(),
        r is Ok ==> spec_decrypt_blocks(
            key@,
            spec_encrypt_blocks(key@, spec_pad(data.spec_bytes())),
        ) == spec_pad(data.spec_bytes()),
        r is Ok ==> ({
            let padded = spec_pad(data.spec_bytes());
            let raw = spec_hex_decode(encode_utf8(r->Ok_0@));
            &&& spec_is_hex(encode_utf8(r->Ok_0@))
            &&& raw.len() == 16 + padded.len()
            &&& (forall|k: int|
                0 <= k < padded.len() / 16 ==> #[trigger] raw.subrange(16 + 16 * k, 32 + 16 * k)
                    == aes256_encrypt_block(key@, padded.subrange(16 * k, 16 * k + 16)))
        }),
{
    if key.len() != 32 {
        return Err(CipherError::KeyError);
    }
    let mut buffer = data.as_bytes_vec();
    let ghost plain = buffer@;
    let pad: usize = 16 - buffer.len() % 16;
    let pad_byte: u8 = pad as u8;
    let mut k: usize = 0;
    while k < pad
        invariant
            pad == spec_pad_len(plain.len()),
            pad_byte == pad as u8,
            k <= pad,
            buffer@ == plain + Seq::new(k as nat, |i: int| pad_byte),
        decreases pad - k,
    {
        buffer.push(pad_byte);
        proof {
            assert(buffer@ =~= plain + Seq::new((k + 1) as nat, |i: int| pad_byte));
        }
        k = k + 1;
    }
    proof {
        assert(buffer@ =~= spec_pad(plain));
        lemma_pad_round_trip(plain);
    }
    let ghost padded = buffer@;
    let blen = buffer.len();
    let nblocks = blen / 16;
    proof {
        assert(padded.len() <= usize::MAX);
        assert(16 * (padded.len() as int / 16) == padded.len() as int);
    }
    let mut out = random_bytes_16();
    let ghost iv = out@;
    let mut i: usize = 0;
    while i < nblocks
        invariant
            key@.len() == 32,
            padded.len() % 16 == 0,
            nblocks == padded.len() / 16,
            padded.len() == 16 * nblocks,
            padded.len() <= usize::MAX,
            buffer@ == padded,
            i <= nblocks,
            iv.len() == 16,
            out@ == iv + spec_encrypt_blocks(key@, padded.take(16 * i as int)),
            out@.len() == 16 + 16 * i,
            spec_encrypt_blocks(key@, padded.take(16 * i as int)).len() == 16 * i,
            spec_decrypt_blocks(key@, spec_encrypt_blocks(key@, padded.take(16 * i as int)))
                == padded.take(16 * i as int),
            forall|k: int|
                0 <= k < i ==> #[trigger] out@.subrange(16 + 16 * k, 32 + 16 * k)
                    == aes256_encrypt_block(key@, padded.subrange(16 * k, 16 * k + 16)),
        decreases nblocks - i,
    {
        let mut block: Vec<u8> = Vec::new();
        let mut j: usize = 0;
        while j < 16
            invariant
                buffer@ == padded,
                i < nblocks,
                padded.len() == 16 * nblocks,
                padded.len() <= usize::MAX,
                j <= 16,
                block@ == padded.subrange(16 * i as int, 16 * i + j as int),
            decreases 16 - j,
        {
            proof {
                assert(16 * i as int + j < 16 * nblocks);
            }
            block.push(buffer[16 * i + j]);
            j = j + 1;
        }
        let eb = encrypt_block(key, block.as_slice());
        let ghost prev = padded.take(16 * i as int);
        let ghost prev_ct = spec_encrypt_blocks(key@, prev);
        let ghost out_before = out@;
        out.extend_from_slice(eb.as_slice());
        i = i + 1;
        proof {
            let oldi = i as int - 1;
            assert(padded.take(16 * i as int) =~= prev + block@);
            lemma_encrypt_blocks_append(key@, prev, block@);
            lemma_decrypt_blocks_append(key@, prev_ct, eb@);
            assert(out@ == iv + spec_encrypt_blocks(key@, padded.take(16 * i as int)));
            assert forall|k: int|
                0 <= k < i implies #[trigger] out@.subrange(16 + 16 * k, 32 + 16 * k)
                == aes256_encrypt_block(key@, padded.subrange(16 * k, 16 * k + 16)) by {
                if k < oldi {
                    assert(out@.subrange(16 + 16 * k, 32 + 16 * k) =~= out_before.subrange(
                        16 + 16 * k,
                        32 + 16 * k,
                    ));
                } else {
                    assert(out@.subrange(16 + 16 * k, 32 + 16 * k) =~= eb@);
                    assert(block@ == padded.subrange(16 * k, 16 * k + 16));
                }
            }
        }
    }
    proof {
        assert(padded.take(16 * nblocks as int) =~= padded);
    }
    let encoded = hex_encode(out.as_slice());
    proof {
        assert(encoded@ == spec_hex_chars(iv + spec_encrypt_blocks(key@, spec_pad(plain))));
        lemma_hex_round_trip(out@);
        assert(spec_hex_decode(encode_utf8(encoded@)) == out@);
    }
    Ok(encoded)
}

/// Equal plaintext blocks land as equal ciphertext blocks: the mode
/// encrypts every 16-byte block independently under the same key, so the
/// per-block clause of `encrypt_data` forces byte-identical padded blocks
/// to byte-identical slices of the decoded output. This weakness of the
/// stored format is preserved deliberately, not repaired.
pub proof fn lemma_equal_blocks_equal_ciphertext(
    raw: Seq<u8>,
    padded: Seq<u8>,
    key: Seq<u8>,
    i: int,
    j: int,
)
    requires
        forall|k: int|
            0 <= k < padded.len() / 16 ==> #[trigger] raw.subrange(16 + 16 * k, 32 + 16 * k)
                == aes256_encrypt_block(key, padded.subrange(16 * k, 16 * k + 16)),
        0 <= i < padded.len() / 16,
        0 <= j < padded.len() / 16,
        padded.subrange(16 * i, 16 * i + 16) == padded.subrange(16 * j, 16 * j + 16),
    ensures
        raw.subrange(16 + 16 * i, 32 + 16 * i) == raw.subrange(16 + 16 * j, 32 + 16 * j),
{
}

/// Decrypts a ciphertext string produced by `encrypt_data` under a 32-byte
/// key, mirroring `spec_decrypt_data` exactly: the hex notation must decode
/// to a 16-byte prefix plus whole blocks, the blocks are decrypted
/// independently, the padding is removed, and the bytes must read as text.
pub fn decrypt_data(encrypted: &str, key: &[u8]) -> (r: Result<String, CipherError>)
    ensures
        r is Ok <==> spec_decrypt_data(encrypted@, key@) is Ok,
        r is Ok ==> r->Ok_0@ == spec_decrypt_data(encrypted@, key@)->Ok_0,
        r is Err ==> r->Err_0 == spec_decrypt_data(encrypted@, key@)->Err_0,
{
    let raw = match hex_decode(encrypted) {
        Some(v) => v,
        None => {
            return Err(CipherError::InvalidCiphertext);
        },
    };
    if raw.len() < 16 || (raw.len() - 16) % 16 != 0 {
        return Err(CipherError::InvalidCiphertext);
    }
    if key.len() != 32 {
        return Err(CipherError::KeyError);
    }
    let ghost ct = raw@.skip(16);
    let rlen = raw.len();
    let nblocks = (rlen - 16) / 16;
    proof {
        assert(raw@.len() <= usize::MAX);
        assert(ct.len() == 16 * nblocks) by {
            assert(16 * ((raw@.len() - 16) / 16) == raw@.len() - 16);
        }
    }
    let mut buf: Vec<u8> = Vec::new();
    let mut i: usize = 0;
    while i < nblocks
        invariant
            key@.len() == 32,
            raw@.len() >= 16,
            raw@.len() <= usize::MAX,
            ct == raw@.skip(16),
            ct.len() == 16 * nblocks,
            i <= nblocks,
            buf@ == spec_decrypt_blocks(key@, ct.take(16 * i as int)),
            buf@.len() == 16 * i,
        decreases nblocks - i,
    {
        let mut block: Vec<u8> = Vec::new();
        let mut j: usize = 0;
        while j < 16
            invariant
                i < nblocks,
                raw@.len() == 16 + 16 * nblocks,
                raw@.len() <= usize::MAX,
                ct == raw@.skip(16),
                j <= 16,
                block@ == ct.subrange(16 * i as int, 16 * i + j as int),
            decreases 16 - j,
        {
            proof {
                assert(16 + 16 * i as int + j < raw@.len());
                assert(ct[16 * i + j as int] == raw@[16 + 16 * i + j as int]);
            }
            block.push(raw[16 + 16 * i + j]);
            j = j + 1;
        }
        let db = decrypt_block(key, block.as_slice());
        let ghost prev = ct.take(16 * i as int);
        buf.extend_from_slice(db.as_slice());
        i = i + 1;
        proof {
            assert(ct.take(16 * i as int) =~= prev + block@);
            lemma_decrypt_blocks_append(key@, prev, block@);
        }
    }
    proof {
        assert(ct.take(16 * nblocks as int) =~= ct);
    }
    let ghost predepad = buf@;
    let m = buf.len();
    if m > 0 {
        let p = buf[m - 1];
        if 1 <= p && p <= 16 && (p as usize) <= m {
            buf.truncate(m - p as usize);
        }
    }
    proof {
        assert(buf@ =~= spec_depad(predepad));
    }
    match string_from_utf8(buf) {
        Some(s) => Ok(s),
        None => Err(CipherError::InvalidUtf8),
    }
}

/// Round trip: a ciphertext written by `encrypt_data` under a 32-byte key
/// decrypts back to the plaintext under the same key. The two block-level
/// hypotheses are exactly what `encrypt_data` ensures of its own output.
pub proof fn lemma_cipher_round_trip(p: Seq<char>, key: Seq<u8>, iv: Seq<u8>)
    requires
        key.len() == 32,
        iv.len() == 16,
        spec_encrypt_blocks(key, spec_pad(encode_utf8(p))).len() == spec_pad(encode_utf8(p)).len(),
        spec_decrypt_blocks(key, spec_encrypt_blocks(key, spec_pad(encode_utf8(p)))) == spec_pad(
            encode_utf8(p),
        ),
    ensures
        spec_decrypt_data(
            spec_hex_chars(iv + spec_encrypt_blocks(key, spec_pad(encode_utf8(p)))),
            key,
        ) == Ok::<Seq<char>, CipherError>(p),
{
    let m = spec_pad(encode_utf8(p));
    let ct = spec_encrypt_blocks(key, m);
    let whole = iv + ct;
    lemma_hex_round_trip(whole);
    lemma_pad_round_trip(encode_utf8(p));
    assert(whole.skip(16) =~= ct);
    encode_utf8_valid_utf8(p);
    encode_utf8_decode_utf8(p);
}

} // verus!
