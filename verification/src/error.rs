//! The errors that the library's operations report.

use vstd::prelude::*;

verus! {

/// Why an operation of the library failed.
#[derive(Clone, Copy, PartialEq, Eq, Structural, Debug)]
pub enum LocShareError {
    /// Deriving a key from a PIN or an ephemeral key failed.
    KeyDerivation,
    /// The symmetric key could not be wrapped.
    KeyWrap,
    /// The stored symmetric key could not be unwrapped (wrong PIN or damaged data).
    KeyUnwrap,
    /// Hashing a message key failed.
    Digest,
    /// Encrypting a message failed.
    Encryption,
    /// Decrypting a message failed.
    Decryption,
    /// An invitation code is not hex text.
    InvalidHex,
    /// A stored configuration does not parse.
    ConfigParse,
    /// A connect request does not parse.
    MessageParse,
    /// The random number generator failed.
    Random,
}

} // verus!
