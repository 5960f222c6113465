use password_vault::blockcipher::{decrypt_data, encrypt_data};
use password_vault::errors::CipherError;
use password_vault::hexcodec::{hex_decode, hex_encode};
use password_vault::kdf::derive_key;
use password_vault::textenc::u64_to_string;
use sha2::Digest;

fn key32() -> Vec<u8> {
    (0u8..32).collect()
}

#[test]
fn hex_encode_matches_reference() {
    let data: Vec<u8> = vec![0x00, 0x01, 0x7f, 0x80, 0xab, 0xcd, 0xef, 0xff];
    assert_eq!(hex_encode(&data), hex::encode(&data));
    assert_eq!(hex_encode(&[]), "");
}

#[test]
fn hex_decode_matches_reference() {
    let s = "00017f80abcdefff";
    assert_eq!(hex_decode(s).unwrap(), hex::decode(s).unwrap());
    let upper = "ABCDEF";
    assert_eq!(hex_decode(upper).unwrap(), hex::decode(upper).unwrap());
}

#[test]
fn hex_decode_rejects_bad_input() {
    assert!(hex_decode("abc").is_none());
    assert!(hex_decode("zz").is_none());
    assert!(hex_decode("0g").is_none());
    assert_eq!(hex_decode("").unwrap(), Vec::<u8>::new());
}

#[test]
fn hex_round_trip() {
    let data: Vec<u8> = (0u8..=255).collect();
    assert_eq!(hex_decode(&hex_encode(&data)).unwrap(), data);
}

#[test]
fn encrypt_decrypt_round_trip() {
    let key = key32();
    for p in ["", "p@ss", "hello world", "密码保险箱", "0123456789abcdef"] {
        let ct = encrypt_data(p, &key).unwrap();
        assert_eq!(decrypt_data(&ct, &key).unwrap(), p);
    }
}

#[test]
fn ciphertext_shape() {
    let key = key32();
    // one block of padded plaintext plus the 16-byte random prefix, in hex
    let ct = encrypt_data("p@ss", &key).unwrap();
    assert_eq!(ct.len(), 2 * (16 + 16));
    assert!(ct.bytes().all(|b| b.is_ascii_hexdigit()));
}

#[test]
fn encrypt_rejects_bad_key() {
    assert_eq!(encrypt_data("x", &[0u8; 16]), Err(CipherError::KeyError));
    assert_eq!(decrypt_data("00", &[0u8; 16]), Err(CipherError::InvalidCiphertext));
}

#[test]
fn decrypt_rejects_bad_input() {
    let key = key32();
    assert_eq!(decrypt_data("zz", &key), Err(CipherError::InvalidCiphertext));
    assert_eq!(decrypt_data("", &key), Err(CipherError::InvalidCiphertext));
    // decodes, but shorter than the 16-byte prefix
    assert_eq!(decrypt_data("00112233", &key), Err(CipherError::InvalidCiphertext));
    let ct = encrypt_data("p@ss", &key).unwrap();
    assert_eq!(decrypt_data(&ct, &[0u8; 31]), Err(CipherError::KeyError));
}

#[test]
fn tampering_does_not_reproduce_plaintext() {
    let key = key32();
    let plain = "a secret phrase!";
    let ct = encrypt_data(plain, &key).unwrap();
    // flip every hex digit of the ciphertext body (past the 32-digit prefix)
    // in turn; none may silently decrypt back to the original
    let bytes: Vec<char> = ct.chars().collect();
    for i in 32..bytes.len() {
        let mut tampered: Vec<char> = bytes.clone();
        tampered[i] = if tampered[i] == '0' { '1' } else { '0' };
        if tampered[i] == bytes[i] {
            continue;
        }
        let t: String = tampered.into_iter().collect();
        match decrypt_data(&t, &key) {
            Ok(p) => assert_ne!(p, plain),
            Err(_) => {},
        }
    }
}

#[test]
fn wrong_key_does_not_reproduce_plaintext() {
    let key = key32();
    let mut other = key32();
    other[0] ^= 1;
    let plain = "a secret phrase!";
    let ct = encrypt_data(plain, &key).unwrap();
    match decrypt_data(&ct, &other) {
        Ok(p) => assert_ne!(p, plain),
        Err(_) => {},
    }
}

#[test]
fn encryption_transforms_the_blocks() {
    let key = key32();
    let plain = "0123456789abcdef"; // exactly one block before padding
    let ct = encrypt_data(plain, &key).unwrap();
    let body = hex_decode(&ct[32..]).unwrap();
    // two blocks: the plaintext block and one full block of padding; neither
    // may pass through the cipher unchanged
    assert_eq!(body.len(), 32);
    assert_ne!(&body[..16], plain.as_bytes());
    assert_ne!(&body[16..], &[16u8; 16]);
}

#[test]
fn random_prefix_differs_but_blocks_agree() {
    let key = key32();
    let c1 = encrypt_data("p@ss", &key).unwrap();
    let c2 = encrypt_data("p@ss", &key).unwrap();
    // a fresh 16-byte random value is drawn per encryption
    assert_ne!(&c1[..32], &c2[..32]);
    // the prefix is not mixed into the block computation, so the encrypted
    // blocks agree
    assert_eq!(&c1[32..], &c2[32..]);
}

#[test]
fn equal_plaintext_blocks_give_equal_ciphertext_blocks() {
    let key = key32();
    // 32 identical bytes: two identical plaintext blocks
    let plain = "aaaaaaaaaaaaaaaaaaaaaaaaaaaaaaaa";
    let ct = encrypt_data(plain, &key).unwrap();
    let body = hex_decode(&ct[32..]).unwrap();
    assert_eq!(&body[..16], &body[16..32]);
}

#[test]
fn derive_key_is_deterministic_and_matches_reference() {
    let salt: Vec<u8> = (0u8..16).collect();
    let k1 = derive_key("Secret123", &salt);
    let k2 = derive_key("Secret123", &salt);
    assert_eq!(k1, k2);
    assert_eq!(k1.len(), 32);
    let mut h = sha2::Sha256::new();
    h.update("Secret123".as_bytes());
    h.update(&salt);
    assert_eq!(k1, h.finalize().to_vec());
    let k3 = derive_key("Secret124", &salt);
    assert_ne!(k1, k3);
}

#[test]
fn u64_to_string_writes_decimal() {
    assert_eq!(u64_to_string(0), "0");
    assert_eq!(u64_to_string(7), "7");
    assert_eq!(u64_to_string(1234567890), "1234567890");
    assert_eq!(u64_to_string(u64::MAX), "18446744073709551615");
}
