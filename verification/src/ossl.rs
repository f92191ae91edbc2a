//! The OpenSSL primitives this library runs: symmetric ciphers, digests,
//! PBKDF2, AES key wrapping (RFC 3394) and the random number generator.
//!
//! Each primitive's output is named by a spec function of its inputs; the
//! wrappers below tie the calls to those names and state the facts about
//! them that the library's proofs need.

use vstd::prelude::*;

verus! {

/// The error stack that OpenSSL calls report.
#[verifier::external_type_specification]
#[verifier::external_body]
pub struct ExErrorStack(openssl::error::ErrorStack);

/// The error that the low-level AES key functions report.
#[verifier::external_type_specification]
#[verifier::external_body]
pub struct ExKeyError(openssl::aes::KeyError);

/// The block ciphers this library encrypts with.
#[derive(Clone, Copy, PartialEq, Eq, Structural, Debug)]
pub enum SymmCipher {
    Aes128Cbc,
    Aes256Cbc,
}

/// The message digests this library hashes with.
#[derive(Clone, Copy, PartialEq, Eq, Structural, Debug)]
pub enum DigestKind {
    Sha256,
}

/// What `openssl::symm::encrypt` returns for a cipher, key, IV and plaintext
/// (`None` where it fails).
pub uninterp spec fn symm_encrypt_result(
    cipher: SymmCipher,
    key: Seq<u8>,
    iv: Seq<u8>,
    data: Seq<u8>,
) -> Option<Seq<u8>>;

/// What `openssl::symm::decrypt` returns for a cipher, key, IV and ciphertext
/// (`None` where it fails).
pub uninterp spec fn symm_decrypt_result(
    cipher: SymmCipher,
    key: Seq<u8>,
    iv: Seq<u8>,
    data: Seq<u8>,
) -> Option<Seq<u8>>;

/// What `openssl::hash::hash` returns for a digest and input (`None` where it
/// fails).
pub uninterp spec fn hash_result(digest: DigestKind, data: Seq<u8>) -> Option<Seq<u8>>;

/// The key that `openssl::pkcs5::pbkdf2_hmac` derives from a password, salt,
/// iteration count and digest into a buffer of `key_len` bytes (`None` where
/// it fails).
pub uninterp spec fn pbkdf2_hmac_result(
    pass: Seq<u8>,
    salt: Seq<u8>,
    iter: nat,
    digest: DigestKind,
    key_len: nat,
) -> Option<Seq<u8>>;

/// The RFC 3394 wrapping of `plain` under the key-encrypting key `kek` with
/// initial value `iv`, as `openssl::aes::wrap_key` writes it (`None` where it
/// fails).
pub uninterp spec fn aes_wrap_key_result(kek: Seq<u8>, iv: Seq<u8>, plain: Seq<u8>) -> Option<
    Seq<u8>,
>;

/// The RFC 3394 unwrapping of `wrapped` under `kek` and `iv`, as
/// `openssl::aes::unwrap_key` writes it (`None` where it fails).
pub uninterp spec fn aes_unwrap_key_result(kek: Seq<u8>, iv: Seq<u8>, wrapped: Seq<u8>) -> Option<
    Seq<u8>,
>;

/// Key sizes that `AesKey::new_encrypt` and `AesKey::new_decrypt` accept:
/// 128, 192 or 256 bits.
pub open spec fn aes_key_len_ok(len: nat) -> bool {
    len == 16 || len == 24 || len == 32
}

/// The key length of a cipher in bytes (AES-128: 16, AES-256: 32). Both
/// ciphers are CBC with 16-byte blocks and a 16-byte IV.
pub open spec fn cipher_key_len(cipher: SymmCipher) -> nat {
    match cipher {
        SymmCipher::Aes128Cbc => 16,
        SymmCipher::Aes256Cbc => 32,
    }
}

/// The largest `c_int`, the bound that OpenSSL's length arguments must meet.
pub open spec fn c_int_max() -> int {
    0x7fff_ffff
}

/// Calls `openssl::symm::encrypt` with the cipher, `key` and `Some(iv)`, for
/// a key of the cipher's length and a 16-byte IV. Those lengths meet the
/// length assertions of `Crypter::new` and `CipherCtxRef::cipher_init`
/// whatever OpenSSL's C code does with them; the library needs no others.
/// The result is the one named by `symm_encrypt_result`; when it succeeds,
/// and the ciphertext's length, are decided in OpenSSL's C code and are not
/// stated.
#[verifier::external_body]
pub(crate) fn symm_encrypt(cipher: SymmCipher, key: &[u8], iv: &[u8], data: &[u8]) -> (res: Result<
    Vec<u8>,
    openssl::error::ErrorStack,
>)
    requires
        key@.len() == cipher_key_len(cipher),
        iv@.len() == 16,
        data@.len() <= c_int_max(),
    ensures
        match res {
            Ok(out) => symm_encrypt_result(cipher, key@, iv@, data@) == Some(out@),
            Err(_) => symm_encrypt_result(cipher, key@, iv@, data@) is None,
        },
{
    let t = match cipher {
        SymmCipher::Aes128Cbc => openssl::symm::Cipher::aes_128_cbc(),
        SymmCipher::Aes256Cbc => openssl::symm::Cipher::aes_256_cbc(),
    };
    openssl::symm::encrypt(t, key, Some(iv), data)
}

/// Calls `openssl::symm::decrypt` with the cipher, `key` and `Some(iv)`, for
/// a key of the cipher's length and a 16-byte IV. The result is the one
/// named by `symm_decrypt_result`; when it fails is not stated. Decrypting, with
/// the same cipher, key and IV, what `openssl::symm::encrypt` made of a
/// plaintext succeeds and gives that plaintext back.
#[verifier::external_body]
pub(crate) fn symm_decrypt(cipher: SymmCipher, key: &[u8], iv: &[u8], data: &[u8]) -> (res: Result<
    Vec<u8>,
    openssl::error::ErrorStack,
>)
    requires
        key@.len() == cipher_key_len(cipher),
        iv@.len() == 16,
        data@.len() <= c_int_max(),
    ensures
        match res {
            Ok(out) => symm_decrypt_result(cipher, key@, iv@, data@) == Some(out@),
            Err(_) => symm_decrypt_result(cipher, key@, iv@, data@) is None,
        },
        match res {
            Ok(out) => forall|plain: Seq<u8>|
                #[trigger] symm_encrypt_result(cipher, key@, iv@, plain) == Some(data@) ==> out@
                    == plain,
            Err(_) => forall|plain: Seq<u8>|
                #[trigger] symm_encrypt_result(cipher, key@, iv@, plain) != Some(data@),
        },
{
    let t = match cipher {
        SymmCipher::Aes128Cbc => openssl::symm::Cipher::aes_128_cbc(),
        SymmCipher::Aes256Cbc => openssl::symm::Cipher::aes_256_cbc(),
    };
    openssl::symm::decrypt(t, key, Some(iv), data)
}

/// Calls `openssl::hash::hash`; the digest bytes are the ones named by
/// `hash_result`, at most `EVP_MAX_MD_SIZE` (64) of them.
#[verifier::external_body]
pub(crate) fn hash(digest: DigestKind, data: &[u8]) -> (res: Result<
    Vec<u8>,
    openssl::error::ErrorStack,
>)
    ensures
        match res {
            Ok(out) => hash_result(digest, data@) == Some(out@) && out@.len() <= 64,
            Err(_) => hash_result(digest, data@) is None,
        },
{
    let t = match digest {
        DigestKind::Sha256 => openssl::hash::MessageDigest::sha256(),
    };
    openssl::hash::hash(t, data).map(|d| d.to_vec())
}

/// Calls `openssl::pkcs5::pbkdf2_hmac`, which fills `key` with the key named
/// by `pbkdf2_hmac_result` for the buffer's length.
#[verifier::external_body]
pub(crate) fn pbkdf2_hmac<const N: usize>(
    pass: &[u8],
    salt: &[u8],
    iter: usize,
    digest: DigestKind,
    key: &mut [u8; N],
) -> (res: Result<(), openssl::error::ErrorStack>)
    requires
        pass@.len() <= c_int_max(),
        salt@.len() <= c_int_max(),
        iter <= c_int_max(),
        N <= c_int_max(),
    ensures
        match res {
            Ok(_) => pbkdf2_hmac_result(pass@, salt@, iter as nat, digest, N as nat) == Some(
                final(key)@,
            ),
            Err(_) => pbkdf2_hmac_result(pass@, salt@, iter as nat, digest, N as nat) is None,
        },
{
    let t = match digest {
        DigestKind::Sha256 => openssl::hash::MessageDigest::sha256(),
    };
    openssl::pkcs5::pbkdf2_hmac(pass, salt, iter, t, key)
}

/// Calls `AesKey::new_encrypt` on `kek` and `openssl::aes::wrap_key` with the
/// key it makes. The key fails exactly when `kek` is not 16, 24 or 32 bytes
/// long. The wrapping, named by `aes_wrap_key_result`, is 8 bytes longer than
/// `plain` and is written to the front of `out`; the rest of `out` is left as
/// it was. What `out` holds after a failure is not stated. RFC 3394 wrapping
/// is deterministic and unwrapping inverts it, so a key that some wrapped
/// bytes unwrap to (under a valid key and the same IV) wraps to those bytes;
/// when else wrapping succeeds is not stated.
#[verifier::external_body]
pub(crate) fn aes_wrap_key<const N: usize>(
    kek: &[u8],
    iv: [u8; 8],
    out: &mut [u8; N],
    plain: &[u8],
) -> (res: Result<usize, openssl::aes::KeyError>)
    requires
        kek@.len() <= c_int_max() / 8,
        plain@.len() + 8 <= N,
    ensures
        res is Ok <==> (aes_key_len_ok(kek@.len()) && aes_wrap_key_result(kek@, iv@, plain@) is Some),
        res matches Ok(n) ==> {
            let w = aes_wrap_key_result(kek@, iv@, plain@).unwrap();
            &&& n == w.len()
            &&& w.len() == plain@.len() + 8
            &&& final(out)@ == w + old(out)@.skip(w.len() as int)
        },
        match res {
            Ok(_) => forall|wrapped: Seq<u8>|
                #[trigger] aes_unwrap_key_result(kek@, iv@, wrapped) == Some(plain@)
                    ==> aes_wrap_key_result(kek@, iv@, plain@) == Some(wrapped),
            Err(_) => forall|wrapped: Seq<u8>|
                aes_key_len_ok(kek@.len()) ==> #[trigger] aes_unwrap_key_result(kek@, iv@, wrapped)
                    != Some(plain@),
        },
{
    match openssl::aes::AesKey::new_encrypt(kek) {
        Ok(key) => openssl::aes::wrap_key(&key, Some(iv), out, plain),
        Err(e) => Err(e),
    }
}

/// Calls `AesKey::new_decrypt` on `kek` and `openssl::aes::unwrap_key` with
/// the key it makes. The key fails exactly when `kek` is not 16, 24 or 32
/// bytes long. The unwrapped key, named by `aes_unwrap_key_result`, is 8 bytes
/// shorter than `wrapped` and is written to the front of `out`; the rest of
/// `out` is left as it was. Unwrapping, under a valid key and the same IV,
/// what `wrap_key` made of a key succeeds and gives that key back (RFC 3394).
#[verifier::external_body]
pub(crate) fn aes_unwrap_key<const N: usize>(
    kek: &[u8],
    iv: [u8; 8],
    out: &mut [u8; N],
    wrapped: &[u8],
) -> (res: Result<usize, openssl::aes::KeyError>)
    requires
        kek@.len() <= c_int_max() / 8,
        wrapped@.len() <= N + 8,
    ensures
        res is Ok <==> (aes_key_len_ok(kek@.len()) && aes_unwrap_key_result(kek@, iv@, wrapped@)
            is Some),
        res matches Ok(n) ==> {
            let p = aes_unwrap_key_result(kek@, iv@, wrapped@).unwrap();
            &&& n == p.len()
            &&& p.len() + 8 == wrapped@.len()
            &&& final(out)@ == p + old(out)@.skip(p.len() as int)
        },
        match res {
            Ok(_) => forall|plain: Seq<u8>|
                #[trigger] aes_wrap_key_result(kek@, iv@, plain) == Some(wrapped@)
                    ==> aes_unwrap_key_result(kek@, iv@, wrapped@) == Some(plain),
            Err(_) => forall|plain: Seq<u8>|
                aes_key_len_ok(kek@.len()) ==> #[trigger] aes_wrap_key_result(kek@, iv@, plain)
                    != Some(wrapped@),
        },
{
    match openssl::aes::AesKey::new_decrypt(kek) {
        Ok(key) => openssl::aes::unwrap_key(&key, Some(iv), out, wrapped),
        Err(e) => Err(e),
    }
}

/// Calls `openssl::rand::rand_bytes`, which fills `buf` with random bytes.
/// Nothing is stated of the bytes.
#[verifier::external_body]
pub(crate) fn rand_bytes<const N: usize>(buf: &mut [u8; N]) -> (res: Result<
    (),
    openssl::error::ErrorStack,
>)
    requires
        N <= c_int_max(),
{
    openssl::rand::rand_bytes(buf)
}

} // verus!
