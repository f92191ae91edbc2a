//! The state of a connection being set up with a new node.

use vstd::prelude::*;
use crate::crypto_node::BigInt;

verus! {

/// What a node keeps while a new node joins: the invitation code, the new
/// node's encrypted public key, and the encrypted group element.
pub struct ConnectionProcess {
    pub invitation_code: Vec<u8>,
    pub enc_pub_key: Vec<u8>,
    pub enc_g: BigInt,
}

impl ConnectionProcess {
    /// A connection process with nothing received yet.
    pub fn new() -> (res: ConnectionProcess)
        ensures
            res.invitation_code@.len() == 0,
            res.enc_pub_key@.len() == 0,
            res.enc_g == 0,
    {
        ConnectionProcess { invitation_code: Vec::new(), enc_pub_key: Vec::new(), enc_g: 0 }
    }
}

} // verus!
