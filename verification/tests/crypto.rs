use loc_share::crypto::{
    aes128_decrypt, aes128_decrypt_checked, aes128_encrypt, aes128_encrypt_checked, compute_mac,
    compute_mac_checked, decrypt_msg, decrypt_sym_key, encrypt_msg, encrypt_sym_key,
    random_bytes, CIPHER_LEN,
};
use loc_share::error::LocShareError;
use openssl::aes::AesKey;
use openssl::hash::MessageDigest;
use openssl::symm::Cipher;

#[test]
fn test_aes128_encrypt_decrypt() {
    let key = b"\x00\x01\x02\x03\x04\x05\x06\x07\x08\x09\x0A\x0B\x0C\x0D\x0E\x0F";

    let input = b"hello world";
    println!("input: {:?}", input);

    let encrypted = aes128_encrypt(&input.to_vec(), key);
    println!("encrypted: {:?}", encrypted);

    let decrypted = aes128_decrypt(&encrypted, key);
    println!("unencrypted ({}), {:?}", decrypted.len(), decrypted);
    assert_eq!(input, &decrypted[..]);
}

#[test]
fn test_aes_encrypt_decrypt2() {
    let key_hex = "12345678901234561234567890123456";
    let key = hex::decode(key_hex).unwrap();
    let iv = *b"\x00\x01\x02\x03\x04\x05\x06\x07\x00\x01\x02\x03\x04\x05\x06\x07\x00\x01\x02\x03\x04\x05\x06\x07\x00\x01\x02\x03\x04\x05\x06\x07";
    let _iv2 = iv.clone();
    let _aes_enc_key = AesKey::new_encrypt(&key).unwrap();
    let _aes_dec_key = AesKey::new_decrypt(&key).unwrap();
}

#[test]
fn aes128_encrypt_matches_openssl_with_key_as_iv() {
    let key = b"\x00\x01\x02\x03\x04\x05\x06\x07\x08\x09\x0A\x0B\x0C\x0D\x0E\x0F";
    let input = b"some plaintext of more than one block";
    let expected =
        openssl::symm::encrypt(Cipher::aes_128_cbc(), key, Some(key), input).unwrap();
    let encrypted = aes128_encrypt(input, key);
    assert_eq!(encrypted, expected);
    assert_ne!(&encrypted[..], &input[..]);
    assert_eq!(encrypted.len(), 48);
}

#[test]
fn aes128_checked_refuses_bad_key_and_bad_ciphertext() {
    let short_key = b"\x00\x01\x02\x03\x04";
    assert!(aes128_encrypt_checked(b"abc", short_key).is_none());
    let key = b"\x00\x01\x02\x03\x04\x05\x06\x07\x08\x09\x0A\x0B\x0C\x0D\x0E\x0F";
    let garbage = vec![1u8; 15];
    assert!(aes128_decrypt_checked(&garbage, key).is_none());
    let c = aes128_encrypt_checked(b"abc", key).unwrap();
    assert_eq!(aes128_decrypt_checked(&c, key).unwrap(), b"abc".to_vec());
}

#[test]
fn sym_key_wrap_roundtrip() {
    let sym_key: Vec<u8> = (0u8..32).collect();
    let wrapped = encrypt_sym_key("1234", &sym_key).unwrap();
    assert_eq!(wrapped.len(), 40);
    assert_ne!(&wrapped[..32], &sym_key[..]);
    let unwrapped = decrypt_sym_key("1234", &wrapped).unwrap();
    assert_eq!(unwrapped.to_vec(), sym_key);
}

#[test]
fn sym_key_wrap_matches_openssl() {
    let sym_key = [0x5au8; 32];
    let iv = [7u8; 8];
    let mut kek = [0u8; 32];
    openssl::pkcs5::pbkdf2_hmac(b"pin", &iv, 1024, MessageDigest::sha256(), &mut kek).unwrap();
    let ak = AesKey::new_encrypt(&kek).unwrap();
    let mut expected = [0u8; 40];
    openssl::aes::wrap_key(&ak, Some(iv), &mut expected, &sym_key).unwrap();
    assert_eq!(encrypt_sym_key("pin", &sym_key).unwrap(), expected);
}

#[test]
fn sym_key_wrong_pin_is_refused() {
    let sym_key = [3u8; 32];
    let wrapped = encrypt_sym_key("right", &sym_key).unwrap();
    assert_eq!(decrypt_sym_key("wrong", &wrapped), Err(LocShareError::KeyUnwrap));
}

#[test]
fn sym_key_too_short_to_wrap() {
    // RFC 3394 wraps at least two 64-bit blocks.
    assert_eq!(encrypt_sym_key("pin", &[1u8; 8]), Err(LocShareError::KeyWrap));
}

#[test]
fn sym_key_shorter_key_is_padded() {
    let sym_key = [9u8; 16];
    let wrapped = encrypt_sym_key("pin", &sym_key).unwrap();
    assert_eq!(&wrapped[24..], &[0u8; 16]);
    let unwrapped = decrypt_sym_key("pin", &wrapped[..24]).unwrap();
    assert_eq!(&unwrapped[..16], &sym_key[..]);
    assert_eq!(&unwrapped[16..], &[0u8; 16]);
}

#[test]
fn mac_is_pbkdf2_of_the_key() {
    let eph = [42u8; 32];
    let mut expected = [0u8; 32];
    openssl::pkcs5::pbkdf2_hmac(&eph, &[7u8; 8], 1024, MessageDigest::sha256(), &mut expected)
        .unwrap();
    let mac = compute_mac(&eph);
    assert_eq!(mac, expected.to_vec());
    assert_eq!(mac.len(), CIPHER_LEN);
    assert_eq!(compute_mac_checked(&eph), Some(mac));
    assert_ne!(compute_mac(&[43u8; 32]), expected.to_vec());
}

#[test]
fn msg_encryption_roundtrip() {
    let msg = b"a connect request".to_vec();
    let key = [1u8, 2, 3, 4];
    let c = encrypt_msg(&msg, &key).unwrap();
    assert_ne!(c, msg);
    assert_eq!(c.len(), 32);
    assert_eq!(decrypt_msg(&c, &key).unwrap(), msg);
}

#[test]
fn msg_encryption_matches_openssl_with_zero_iv() {
    let msg = b"hello".to_vec();
    let key = b"12345678";
    let h = openssl::hash::hash(MessageDigest::sha256(), key).unwrap();
    let expected =
        openssl::symm::encrypt(Cipher::aes_256_cbc(), &h, Some(&[0u8; 16]), &msg).unwrap();
    assert_eq!(encrypt_msg(&msg, key).unwrap(), expected);
}

#[test]
fn msg_decryption_of_garbage_fails() {
    let garbage = vec![0u8; 7];
    assert_eq!(decrypt_msg(&garbage, &[1u8]), Err(LocShareError::Decryption));
}

#[test]
fn random_bytes_length() {
    assert_eq!(random_bytes(0).len(), 0);
    assert_eq!(random_bytes(17).len(), 17);
}

#[test]
fn rewrapping_an_unwrapped_key_gives_the_same_bytes() {
    let wrapped = encrypt_sym_key("pin", &[0x77u8; 32]).unwrap();
    let key = decrypt_sym_key("pin", &wrapped).unwrap();
    assert_eq!(encrypt_sym_key("pin", &key).unwrap(), wrapped);
}

#[test]
fn aes128_checked_wrong_key_length() {
    assert!(aes128_decrypt_checked(&vec![0u8; 16], &[1u8; 32]).is_none());
}
