//! Key and message cryptography of a node: AES-128 helpers, wrapping the
//! group's symmetric key under a PIN, the invitation-code MAC, and message
//! encryption under a shared key.

use vstd::prelude::*;
use crate::error::LocShareError;
use vstd::string::StringSliceAdditionalSpecFns;
use crate::ossl::{
    aes_key_len_ok, aes_unwrap_key, aes_unwrap_key_result, aes_wrap_key, aes_wrap_key_result,
    c_int_max, cipher_key_len, hash, hash_result, pbkdf2_hmac, pbkdf2_hmac_result, symm_decrypt,
    symm_decrypt_result, symm_encrypt, symm_encrypt_result, DigestKind, SymmCipher,
};

verus! {

/// Length in bytes of the symmetric key and of the derived keys.
pub const CIPHER_LEN: usize = 32;

/// PBKDF2 iteration count.
pub const HMAC_ITER: usize = 1024;

/// The salt of every PBKDF2 derivation, which is also the RFC 3394 initial
/// value of the key wrap: eight bytes of 7.
pub open spec fn kdf_salt() -> Seq<u8> {
    seq![7u8, 7u8, 7u8, 7u8, 7u8, 7u8, 7u8, 7u8]
}

/// `n` zero bytes.
pub open spec fn zeros(n: nat) -> Seq<u8> {
    Seq::new(n, |i: int| 0u8)
}

/// The IV of message encryption: sixteen zero bytes.
pub open spec fn msg_iv() -> Seq<u8> {
    zeros(16)
}

// ---------------------------------------------------------------------------
// AES-128-CBC with the key as IV

/// Whether `aes128_decrypt` can decrypt `input` under `key`: OpenSSL accepts
/// it, or it is what `aes128_encrypt` made of some plaintext under `key`.
pub open spec fn aes128_decryptable(input: Seq<u8>, key: Seq<u8>) -> bool {
    ||| symm_decrypt_result(SymmCipher::Aes128Cbc, key, key, input) is Some
    ||| exists|p: Seq<u8>| #[trigger]
        symm_encrypt_result(SymmCipher::Aes128Cbc, key, key, p) == Some(input)
}

/// Encrypts `input` with AES-128-CBC under `key`, with `key` also as the IV.
pub fn aes128_encrypt(input: &[u8], key: &[u8]) -> (res: Vec<u8>)
    requires
        input@.len() <= c_int_max(),
        key@.len() == 16,
        symm_encrypt_result(SymmCipher::Aes128Cbc, key@, key@, input@) is Some,
    ensures
        Some(res@) == symm_encrypt_result(SymmCipher::Aes128Cbc, key@, key@, input@),
{
    match symm_encrypt(SymmCipher::Aes128Cbc, key, key, input) {
        Ok(encrypted) => encrypted,
        Err(_) => {
            assert(false);
            Vec::new()
        },
    }
}

/// `aes128_encrypt` where the key is 16 bytes long and OpenSSL accepts the
/// input, `None` elsewhere.
pub fn aes128_encrypt_checked(input: &[u8], key: &[u8]) -> (res: Option<Vec<u8>>)
    requires
        input@.len() <= c_int_max(),
    ensures
        res matches Some(c) ==> Some(c@) == symm_encrypt_result(SymmCipher::Aes128Cbc, key@, key@, input@),
        res is None <==> (key@.len() != 16 || symm_encrypt_result(SymmCipher::Aes128Cbc, key@, key@, input@) is None),
{
    if key.len() != 16 {
        return None;
    }
    match symm_encrypt(SymmCipher::Aes128Cbc, key, key, input) {
        Ok(_) => Some(aes128_encrypt(input, key)),
        Err(_) => None,
    }
}

/// Decrypts `input` with AES-128-CBC under `key`, with `key` also as the IV.
/// What `aes128_encrypt` made of a plaintext decrypts to that plaintext.
pub fn aes128_decrypt(input: &Vec<u8>, key: &[u8]) -> (res: Vec<u8>)
    requires
        input@.len() <= c_int_max(),
        key@.len() == 16,
        aes128_decryptable(input@, key@),
    ensures
        Some(res@) == symm_decrypt_result(SymmCipher::Aes128Cbc, key@, key@, input@),
        forall|p: Seq<u8>| #[trigger]
            symm_encrypt_result(SymmCipher::Aes128Cbc, key@, key@, p) == Some(input@) ==> res@ == p,
{
    match symm_decrypt(SymmCipher::Aes128Cbc, key, key, input.as_slice()) {
        Ok(decrypted) => decrypted,
        Err(_) => {
            assert(false);
            Vec::new()
        },
    }
}

/// `aes128_decrypt` where the key is 16 bytes long and OpenSSL accepts the
/// input, `None` elsewhere.
pub fn aes128_decrypt_checked(input: &Vec<u8>, key: &[u8]) -> (res: Option<Vec<u8>>)
    requires
        input@.len() <= c_int_max(),
    ensures
        res matches Some(p) ==> Some(p@) == symm_decrypt_result(SymmCipher::Aes128Cbc, key@, key@, input@),
        res is None <==> (key@.len() != 16 || symm_decrypt_result(SymmCipher::Aes128Cbc, key@, key@, input@) is None),
{
    if key.len() != 16 {
        return None;
    }
    match symm_decrypt(SymmCipher::Aes128Cbc, key, key, input.as_slice()) {
        Ok(_) => Some(aes128_decrypt(input, key)),
        Err(_) => None,
    }
}

// ---------------------------------------------------------------------------
// The group's symmetric key, wrapped under a key derived from a PIN

/// The 32-byte key that PBKDF2-HMAC-SHA256 derives from a secret (a PIN's
/// bytes, or an ephemeral key) with the fixed salt and iteration count.
pub open spec fn derived_key(pin: Seq<u8>) -> Option<Seq<u8>> {
    pbkdf2_hmac_result(pin, kdf_salt(), HMAC_ITER as nat, DigestKind::Sha256, CIPHER_LEN as nat)
}

/// What `encrypt_sym_key` returns: the RFC 3394 wrapping of `sym_key` under
/// the PIN's key (8 bytes longer than `sym_key`), zero-padded to 40 bytes.
pub open spec fn spec_encrypt_sym_key(pin: Seq<u8>, sym_key: Seq<u8>) -> Result<Seq<u8>, LocShareError> {
    match derived_key(pin) {
        None => Err(LocShareError::KeyDerivation),
        Some(k) => if !aes_key_len_ok(k.len()) {
            Err(LocShareError::KeyWrap)
        } else {
            match aes_wrap_key_result(k, kdf_salt(), sym_key) {
                None => Err(LocShareError::KeyWrap),
                Some(w) => Ok(w + zeros((CIPHER_LEN - sym_key.len()) as nat)),
            }
        },
    }
}

/// What `decrypt_sym_key` returns: the RFC 3394 unwrapping of `wrapped`
/// under the PIN's key (8 bytes shorter than `wrapped`), zero-padded to 32
/// bytes.
pub open spec fn spec_decrypt_sym_key(pin: Seq<u8>, wrapped: Seq<u8>) -> Result<Seq<u8>, LocShareError> {
    match derived_key(pin) {
        None => Err(LocShareError::KeyDerivation),
        Some(k) => if !aes_key_len_ok(k.len()) {
            Err(LocShareError::KeyUnwrap)
        } else {
            match aes_unwrap_key_result(k, kdf_salt(), wrapped) {
                None => Err(LocShareError::KeyUnwrap),
                Some(p) => Ok(p + zeros((CIPHER_LEN + 8 - wrapped.len()) as nat)),
            }
        },
    }
}

/// Wraps `sym_key` (RFC 3394) under the key that PBKDF2-HMAC-SHA256 derives
/// from the PIN, in a 40-byte buffer. Re-wrapping a key that 40 stored bytes
/// unwrap to under the same PIN gives those bytes back.
pub fn encrypt_sym_key(pin: &str, sym_key: &[u8]) -> (res: Result<[u8; 40], LocShareError>)
    requires
        pin.spec_bytes().len() <= c_int_max(),
        sym_key@.len() <= CIPHER_LEN,
    ensures
        match res {
            Ok(buf) => spec_encrypt_sym_key(pin.spec_bytes(), sym_key@) == Ok::<Seq<u8>, LocShareError>(buf@),
            Err(e) => spec_encrypt_sym_key(pin.spec_bytes(), sym_key@) == Err::<Seq<u8>, LocShareError>(e),
        },
        forall|wrapped: Seq<u8>|
            wrapped.len() == CIPHER_LEN + 8 && #[trigger] spec_decrypt_sym_key(pin.spec_bytes(), wrapped)
                == Ok::<Seq<u8>, LocShareError>(sym_key@) ==> (res matches Ok(buf) && buf@ == wrapped),
{
    let iv: [u8; 8] = [7u8; 8];
    assert(iv@ == kdf_salt());
    let mut key = [0u8; 32];
    if pbkdf2_hmac(pin.as_bytes(), iv.as_slice(), HMAC_ITER, DigestKind::Sha256, &mut key).is_err() {
        return Err(LocShareError::KeyDerivation);
    }
    let mut enc_buf = [0u8; 40];
    let ghost before = enc_buf@;
    let r = aes_wrap_key(key.as_slice(), iv, &mut enc_buf, sym_key);
    proof {
        assert forall|wrapped: Seq<u8>|
            wrapped.len() == CIPHER_LEN + 8 && #[trigger] spec_decrypt_sym_key(pin.spec_bytes(), wrapped)
                == Ok::<Seq<u8>, LocShareError>(sym_key@)
            implies (r is Ok && aes_wrap_key_result(key@, iv@, sym_key@) == Some(wrapped)) by {
            let p = aes_unwrap_key_result(key@, kdf_salt(), wrapped).unwrap();
            assert(p + zeros(0) =~= p);
            assert(aes_unwrap_key_result(key@, iv@, wrapped) == Some(sym_key@));
        }
    }
    match r {
        Ok(_) => {
            proof {
                let w = aes_wrap_key_result(key@, iv@, sym_key@).unwrap();
                assert(before.skip(w.len() as int) =~= zeros((40 - w.len()) as nat));
                assert forall|wrapped: Seq<u8>|
                    wrapped.len() == CIPHER_LEN + 8 && #[trigger] spec_decrypt_sym_key(pin.spec_bytes(), wrapped)
                        == Ok::<Seq<u8>, LocShareError>(sym_key@)
                    implies enc_buf@ == wrapped by {
                    assert(w == wrapped);
                    assert(w + zeros(0) =~= w);
                }
            }
            Ok(enc_buf)
        },
        Err(_) => Err(LocShareError::KeyWrap),
    }
}

/// Unwraps a key wrapped by `encrypt_sym_key` under the same PIN, into a
/// 32-byte buffer. Unwrapping the 40 bytes that `encrypt_sym_key` made of a
/// 32-byte key gives that key back.
pub fn decrypt_sym_key(pin: &str, sym_key: &[u8]) -> (res: Result<[u8; 32], LocShareError>)
    requires
        pin.spec_bytes().len() <= c_int_max(),
        sym_key@.len() <= CIPHER_LEN + 8,
    ensures
        match res {
            Ok(buf) => spec_decrypt_sym_key(pin.spec_bytes(), sym_key@) == Ok::<Seq<u8>, LocShareError>(buf@),
            Err(e) => spec_decrypt_sym_key(pin.spec_bytes(), sym_key@) == Err::<Seq<u8>, LocShareError>(e),
        },
        forall|k: Seq<u8>|
            k.len() == CIPHER_LEN && #[trigger] spec_encrypt_sym_key(pin.spec_bytes(), k) == Ok::<Seq<u8>, LocShareError>(sym_key@)
            ==> (res matches Ok(buf) && buf@ == k),
{
    let iv: [u8; 8] = [7u8; 8];
    assert(iv@ == kdf_salt());
    let mut key = [0u8; 32];
    if pbkdf2_hmac(pin.as_bytes(), iv.as_slice(), HMAC_ITER, DigestKind::Sha256, &mut key).is_err() {
        return Err(LocShareError::KeyDerivation);
    }
    let mut dec_buf = [0u8; 32];
    let ghost before = dec_buf@;
    let r = aes_unwrap_key(key.as_slice(), iv, &mut dec_buf, sym_key);
    proof {
        assert forall|k: Seq<u8>|
            k.len() == CIPHER_LEN && #[trigger] spec_encrypt_sym_key(pin.spec_bytes(), k) == Ok::<Seq<u8>, LocShareError>(sym_key@)
            implies (r is Ok && aes_unwrap_key_result(key@, iv@, sym_key@) == Some(k)) by {
            let w = aes_wrap_key_result(key@, kdf_salt(), k).unwrap();
            assert(w + zeros(0) =~= w);
            assert(aes_wrap_key_result(key@, iv@, k) == Some(sym_key@));
        }
    }
    match r {
        Ok(_) => {
            proof {
                let p = aes_unwrap_key_result(key@, iv@, sym_key@).unwrap();
                assert(before.skip(p.len() as int) =~= zeros((32 - p.len()) as nat));
                assert forall|k: Seq<u8>|
                    k.len() == CIPHER_LEN && #[trigger] spec_encrypt_sym_key(pin.spec_bytes(), k) == Ok::<Seq<u8>, LocShareError>(sym_key@)
                    implies dec_buf@ == k by {
                    assert(p == k);
                    assert(k + zeros(0) =~= k);
                }
            }
            Ok(dec_buf)
        },
        Err(_) => Err(LocShareError::KeyUnwrap),
    }
}

// ---------------------------------------------------------------------------
// The invitation-code MAC of an ephemeral key

/// Derives the invitation-code MAC of an ephemeral key.
pub fn compute_mac(eph_key: &[u8]) -> (res: Vec<u8>)
    requires
        eph_key@.len() <= c_int_max(),
        derived_key(eph_key@) is Some,
    ensures
        Some(res@) == derived_key(eph_key@),
        res@.len() == CIPHER_LEN,
{
    let iv: [u8; 8] = [7u8; 8];
    assert(iv@ == kdf_salt());
    let mut mac = [0u8; 32];
    match pbkdf2_hmac(eph_key, iv.as_slice(), HMAC_ITER, DigestKind::Sha256, &mut mac) {
        Ok(_) => vstd::slice::slice_to_vec(mac.as_slice()),
        Err(_) => {
            assert(false);
            Vec::new()
        },
    }
}

/// `compute_mac` where the derivation succeeds, `None` elsewhere.
pub fn compute_mac_checked(eph_key: &[u8]) -> (res: Option<Vec<u8>>)
    requires
        eph_key@.len() <= c_int_max(),
    ensures
        match res {
            Some(mac) => Some(mac@) == derived_key(eph_key@) && mac@.len() == CIPHER_LEN,
            None => derived_key(eph_key@) is None,
        },
{
    let iv: [u8; 8] = [7u8; 8];
    assert(iv@ == kdf_salt());
    let mut mac = [0u8; 32];
    match pbkdf2_hmac(eph_key, iv.as_slice(), HMAC_ITER, DigestKind::Sha256, &mut mac) {
        Ok(_) => Some(vstd::slice::slice_to_vec(mac.as_slice())),
        Err(_) => None,
    }
}

// ---------------------------------------------------------------------------
// Messages encrypted under a shared key

/// The AES-256 key of messages under `key`: its SHA-256 digest.
pub open spec fn msg_key(key: Seq<u8>) -> Option<Seq<u8>> {
    hash_result(DigestKind::Sha256, key)
}

/// What `encrypt_msg` returns.
pub open spec fn spec_encrypt_msg(msg: Seq<u8>, key: Seq<u8>) -> Result<Seq<u8>, LocShareError> {
    match msg_key(key) {
        None => Err(LocShareError::Digest),
        Some(h) => if h.len() != 32 {
            Err(LocShareError::Encryption)
        } else {
            match symm_encrypt_result(SymmCipher::Aes256Cbc, h, msg_iv(), msg) {
                Some(c) => Ok(c),
                None => Err(LocShareError::Encryption),
            }
        },
    }
}

/// What `decrypt_msg` returns.
pub open spec fn spec_decrypt_msg(msg: Seq<u8>, key: Seq<u8>) -> Result<Seq<u8>, LocShareError> {
    match msg_key(key) {
        None => Err(LocShareError::Digest),
        Some(h) => if h.len() != 32 {
            Err(LocShareError::Decryption)
        } else {
            match symm_decrypt_result(SymmCipher::Aes256Cbc, h, msg_iv(), msg) {
                Some(p) => Ok(p),
                None => Err(LocShareError::Decryption),
            }
        },
    }
}

/// A `Result` of bytes, seen as a `Result` of byte sequences.
pub open spec fn bytes_result(r: Result<Vec<u8>, LocShareError>) -> Result<Seq<u8>, LocShareError> {
    match r {
        Ok(v) => Ok(v@),
        Err(e) => Err(e),
    }
}

/// Encrypts `msg` with AES-256-CBC under the SHA-256 digest of `key`. No IV
/// is chosen: the cipher runs with the all-zero IV. A failure of the digest
/// is reported as `Digest`; a digest that is not an AES-256 key (32 bytes),
/// and a failure of the cipher, as `Encryption`.
pub fn encrypt_msg(msg: &Vec<u8>, key: &[u8]) -> (res: Result<Vec<u8>, LocShareError>)
    requires
        msg@.len() <= c_int_max(),
    ensures
        bytes_result(res) == spec_encrypt_msg(msg@, key@),
{
    let key_hash = match hash(DigestKind::Sha256, key) {
        Ok(h) => h,
        Err(_) => return Err(LocShareError::Digest),
    };
    if key_hash.len() != 32 {
        return Err(LocShareError::Encryption);
    }
    let iv = [0u8; 16];
    assert(iv@ =~= msg_iv());
    match symm_encrypt(SymmCipher::Aes256Cbc, key_hash.as_slice(), iv.as_slice(), msg.as_slice()) {
        Ok(e) => Ok(e),
        Err(_) => Err(LocShareError::Encryption),
    }
}

/// Decrypts `msg` with AES-256-CBC under the SHA-256 digest of `key` and the
/// all-zero IV. What `encrypt_msg` made of a message under the same key
/// decrypts to that message.
pub fn decrypt_msg(msg: &Vec<u8>, key: &[u8]) -> (res: Result<Vec<u8>, LocShareError>)
    requires
        msg@.len() <= c_int_max(),
    ensures
        bytes_result(res) == spec_decrypt_msg(msg@, key@),
        forall|p: Seq<u8>| #[trigger] spec_encrypt_msg(p, key@) == Ok::<Seq<u8>, LocShareError>(msg@)
            ==> bytes_result(res) == Ok::<Seq<u8>, LocShareError>(p),
{
    let key_hash = match hash(DigestKind::Sha256, key) {
        Ok(h) => h,
        Err(_) => return Err(LocShareError::Digest),
    };
    if key_hash.len() != 32 {
        return Err(LocShareError::Decryption);
    }
    let iv = [0u8; 16];
    assert(iv@ =~= msg_iv());
    let r = symm_decrypt(SymmCipher::Aes256Cbc, key_hash.as_slice(), iv.as_slice(), msg.as_slice());
    proof {
        assert forall|p: Seq<u8>| #[trigger] spec_encrypt_msg(p, key@) == Ok::<Seq<u8>, LocShareError>(msg@)
            implies (r matches Ok(v) && v@ == p) by {
            assert(symm_encrypt_result(SymmCipher::Aes256Cbc, key_hash@, iv@, p) == Some(msg@));
        }
    }
    match r {
        Ok(d) => Ok(d),
        Err(_) => Err(LocShareError::Decryption),
    }
}

// ---------------------------------------------------------------------------
// Random bytes

/// Calls `rand::random::<u8>()`, a byte from the thread-local generator.
/// Nothing is stated of it.
#[verifier::external_body]
fn random_byte() -> (b: u8) {
    rand::random::<u8>()
}

/// `n` random bytes.
pub fn random_bytes(n: u16) -> (res: Vec<u8>)
    ensures
        res@.len() == n,
{
    let mut out: Vec<u8> = Vec::new();
    let mut i: u16 = 0;
    while i < n
        invariant
            i <= n,
            out@.len() == i,
        decreases n - i,
    {
        out.push(random_byte());
        i = i + 1;
    }
    out
}

} // verus!
