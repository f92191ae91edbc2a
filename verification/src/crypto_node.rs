//! A node's cryptographic state and the protocol steps built on it: creating
//! and reloading the stored key, and making and checking connect requests.
//!
//! The file and socket work around these steps is the caller's; the
//! functions here take and give the bytes that go to and from disc and net.

use vstd::prelude::*;
use vstd::string::StringSliceAdditionalSpecFns;
use crate::crypto::{
    compute_mac, compute_mac_checked, decrypt_msg, decrypt_sym_key, derived_key, encrypt_msg,
    encrypt_sym_key, random_bytes, spec_decrypt_msg, spec_decrypt_sym_key, spec_encrypt_msg,
    spec_encrypt_sym_key, bytes_result, CIPHER_LEN,
};
use crate::error::LocShareError;
use crate::hex_codec::{
    hex_decode, hex_encode, lemma_hex_roundtrip, spec_hex_decode, spec_hex_encode, spec_hex_valid,
};
use crate::ossl::{c_int_max, rand_bytes};
use crate::proto::{
    lemma_config_roundtrip, lemma_connect_request_roundtrip, spec_config_bytes,
    spec_connect_request_bytes, spec_parse_config, spec_parse_connect_request, Config, ConfigView,
    ConnectRequest, ConnectRequestView,
};

verus! {

/// The integer type of a Diffie-Hellman group element.
pub type BigInt = u128;

/// The port a node listens on.
pub const NODE_PORT: u32 = 5522;

/// A node's cryptographic state.
pub struct CryptoNode {
    /// The group's symmetric key (as created, the key wrapped under the PIN).
    pub sym_key: Vec<u8>,
    /// The invitation code, as hex text.
    pub invitation_code: String,
    /// The ephemeral key of a connection in progress.
    pub eph: Vec<u8>,
    pub port: u32,
}

/// Whether two byte strings are equal.
pub fn bytes_equal(a: &[u8], b: &[u8]) -> (res: bool)
    ensures
        res == (a@ == b@),
{
    if a.len() != b.len() {
        return false;
    }
    let mut i: usize = 0;
    while i < a.len()
        invariant
            a@.len() == b@.len(),
            i <= a@.len(),
            forall|j: int| 0 <= j < i ==> a@[j] == b@[j],
        decreases a@.len() - i,
    {
        if a[i] != b[i] {
            return false;
        }
        i = i + 1;
    }
    assert(a@ =~= b@);
    true
}

/// The connect request for an ephemeral key: the key and its 32-byte MAC.
pub open spec fn spec_connect_request(eph_key: Seq<u8>) -> Option<ConnectRequestView> {
    match derived_key(eph_key) {
        Some(mac) => if mac.len() == CIPHER_LEN {
            Some(ConnectRequestView { eph_key, inv_code_mac: mac })
        } else {
            None
        },
        None => None,
    }
}

/// The message a new node broadcasts for an ephemeral key and an invitation
/// code: the encoded connect request, encrypted under the code's bytes.
pub open spec fn spec_connect_message(eph_key: Seq<u8>, inv_code_hex: Seq<char>) -> Result<
    Seq<u8>,
    LocShareError,
> {
    if !spec_hex_valid(inv_code_hex) {
        Err(LocShareError::InvalidHex)
    } else {
        match spec_connect_request(eph_key) {
            None => Err(LocShareError::KeyDerivation),
            Some(r) => spec_encrypt_msg(spec_connect_request_bytes(r), spec_hex_decode(inv_code_hex)),
        }
    }
}

/// The connect request that a node with invitation code `inv_code_hex`
/// reads from a received message: decrypted under the code's bytes and
/// parsed. A message longer than OpenSSL's length limit (`c_int`) is refused
/// as undecryptable, and a request whose ephemeral key exceeds that limit as
/// unparsable.
pub open spec fn spec_received_request(inv_code_hex: Seq<char>, msg: Seq<u8>) -> Result<
    ConnectRequestView,
    LocShareError,
> {
    if !spec_hex_valid(inv_code_hex) {
        Err(LocShareError::InvalidHex)
    } else if msg.len() > c_int_max() {
        Err(LocShareError::Decryption)
    } else {
        match spec_decrypt_msg(msg, spec_hex_decode(inv_code_hex)) {
            Err(e) => Err(e),
            Ok(plain) => match spec_parse_connect_request(plain) {
                None => Err(LocShareError::MessageParse),
                Some(r) => if r.eph_key.len() > c_int_max() {
                    Err(LocShareError::MessageParse)
                } else {
                    Ok(r)
                },
            },
        }
    }
}

/// What a node with invitation code `inv_code_hex` makes of a received
/// message: whether it holds a connect request whose MAC matches its key.
pub open spec fn spec_check_connect_message(inv_code_hex: Seq<char>, msg: Seq<u8>) -> Result<
    bool,
    LocShareError,
> {
    match spec_received_request(inv_code_hex, msg) {
        Err(e) => Err(e),
        Ok(r) => match derived_key(r.eph_key) {
            None => Err(LocShareError::KeyDerivation),
            Some(mac) => Ok(r.inv_code_mac == mac),
        },
    }
}

/// What a node with invitation code `inv_code_hex` and group key `sym_key`
/// answers to a received message: nothing where the MAC does not match, and
/// otherwise the group key encrypted under the request's ephemeral key.
pub open spec fn spec_answer_connect_message(
    inv_code_hex: Seq<char>,
    sym_key: Seq<u8>,
    msg: Seq<u8>,
) -> Result<Option<Seq<u8>>, LocShareError> {
    match spec_received_request(inv_code_hex, msg) {
        Err(e) => Err(e),
        Ok(r) => match derived_key(r.eph_key) {
            None => Err(LocShareError::KeyDerivation),
            Some(mac) => if r.inv_code_mac != mac {
                Ok(None)
            } else {
                match spec_encrypt_msg(sym_key, r.eph_key) {
                    Ok(x2) => Ok(Some(x2)),
                    Err(e) => Err(e),
                }
            },
        },
    }
}

/// What a joining node with ephemeral key `eph` reads from an answer: the
/// group key, decrypted under `eph`.
pub open spec fn spec_accept_answer(eph: Seq<u8>, answer: Seq<u8>) -> Result<Seq<u8>, LocShareError> {
    if answer.len() > c_int_max() {
        Err(LocShareError::Decryption)
    } else {
        spec_decrypt_msg(answer, eph)
    }
}

/// What `load_from_disc` makes of a stored configuration and a PIN: the
/// unwrapped symmetric key.
pub open spec fn spec_load_sym_key(config: Seq<u8>, pin: Seq<u8>) -> Result<Seq<u8>, LocShareError> {
    match spec_parse_config(config) {
        None => Err(LocShareError::ConfigParse),
        Some(c) => spec_decrypt_sym_key(pin, c.sym_key),
    }
}

impl CryptoNode {
    /// Whether the stored configuration (`None` where the file could not be
    /// read) is one.
    pub fn has_config(config: &Option<Vec<u8>>) -> (res: bool)
        ensures
            res == (config matches Some(bytes) && spec_parse_config(bytes@) is Some),
    {
        match config {
            Some(bytes) => Config::parse_from_bytes(bytes.as_slice()).is_ok(),
            None => false,
        }
    }

    /// Makes a node from its stored configuration: unwraps the stored key
    /// under the PIN. A configuration stored by a node that `create_new` made
    /// under the same PIN gives back the key that it drew.
    pub fn load_from_disc(config: &[u8], pin: &str, inv_code: String) -> (res: Result<
        CryptoNode,
        LocShareError,
    >)
        requires
            spec_parse_config(config@) matches Some(c) ==> pin.spec_bytes().len() <= c_int_max()
                && c.sym_key.len() <= CIPHER_LEN + 8,
        ensures
            match res {
                Ok(node) => spec_load_sym_key(config@, pin.spec_bytes()) == Ok::<
                    Seq<u8>,
                    LocShareError,
                >(node.sym_key@) && node.invitation_code@ == inv_code@ && node.eph@.len() == 0
                    && node.port == NODE_PORT,
                Err(e) => spec_load_sym_key(config@, pin.spec_bytes()) == Err::<
                    Seq<u8>,
                    LocShareError,
                >(e),
            },
            forall|k: Seq<u8>|
                k.len() == CIPHER_LEN && (#[trigger] spec_encrypt_sym_key(pin.spec_bytes(), k)
                    matches Ok(w) && config@ == spec_config_bytes(
                    ConfigView { sym_key: w, generated: 0 },
                )) ==> (res matches Ok(node) && node.sym_key@ == k),
    {
        let config_len: usize = config.len();
        proof {
            assert forall|k: Seq<u8>|
                k.len() == CIPHER_LEN && (#[trigger] spec_encrypt_sym_key(pin.spec_bytes(), k)
                    matches Ok(w) && config@ == spec_config_bytes(
                    ConfigView { sym_key: w, generated: 0 },
                )) implies spec_parse_config(config@) == Some(
                ConfigView { sym_key: spec_encrypt_sym_key(pin.spec_bytes(), k)->Ok_0, generated: 0 },
            ) by {
                let w = spec_encrypt_sym_key(pin.spec_bytes(), k)->Ok_0;
                let c = ConfigView { sym_key: w, generated: 0 };
                assert(spec_config_bytes(c).len() >= w.len());
                lemma_config_roundtrip(c);
            }
        }
        let config = match Config::parse_from_bytes(config) {
            Ok(c) => c,
            Err(e) => return Err(e),
        };
        let dec_buf = match decrypt_sym_key(pin, config.sym_key.as_slice()) {
            Ok(b) => b,
            Err(e) => return Err(e),
        };
        Ok(CryptoNode {
            sym_key: vstd::slice::slice_to_vec(dec_buf.as_slice()),
            invitation_code: inv_code,
            eph: Vec::new(),
            port: NODE_PORT,
        })
    }

    /// Makes a new node around the symmetric key `sym_key`, wrapped under the
    /// PIN.
    pub fn create_with_key(pin: &str, inv_code: String, sym_key: &[u8]) -> (res: Result<
        CryptoNode,
        LocShareError,
    >)
        requires
            pin.spec_bytes().len() <= c_int_max(),
            sym_key@.len() <= CIPHER_LEN,
        ensures
            match res {
                Ok(node) => spec_encrypt_sym_key(pin.spec_bytes(), sym_key@) == Ok::<
                    Seq<u8>,
                    LocShareError,
                >(node.sym_key@) && node.sym_key@.len() == CIPHER_LEN + 8
                    && node.invitation_code@ == inv_code@ && node.eph@.len() == 0
                    && node.port == NODE_PORT,
                Err(e) => spec_encrypt_sym_key(pin.spec_bytes(), sym_key@) == Err::<
                    Seq<u8>,
                    LocShareError,
                >(e),
            },
    {
        let enc_sym_key = match encrypt_sym_key(pin, sym_key) {
            Ok(k) => k,
            Err(e) => return Err(e),
        };
        Ok(CryptoNode {
            sym_key: vstd::slice::slice_to_vec(enc_sym_key.as_slice()),
            invitation_code: inv_code,
            eph: Vec::new(),
            port: NODE_PORT,
        })
    }

    /// Makes a new node around a freshly drawn 32-byte symmetric key, wrapped
    /// under the PIN.
    pub fn create_new(pin: &str, inv_code: String) -> (res: Result<CryptoNode, LocShareError>)
        requires
            pin.spec_bytes().len() <= c_int_max(),
        ensures
            res matches Ok(node) ==> exists|k: Seq<u8>|
                k.len() == CIPHER_LEN && #[trigger] spec_encrypt_sym_key(pin.spec_bytes(), k)
                    == Ok::<Seq<u8>, LocShareError>(node.sym_key@),
            res matches Ok(node) ==> node.sym_key@.len() == CIPHER_LEN + 8
                && node.invitation_code@ == inv_code@ && node.eph@.len() == 0
                && node.port == NODE_PORT,
            res matches Err(e) ==> e == LocShareError::Random || exists|k: Seq<u8>|
                k.len() == CIPHER_LEN && #[trigger] spec_encrypt_sym_key(pin.spec_bytes(), k)
                    == Err::<Seq<u8>, LocShareError>(e),
    {
        let mut sym_key = [0u8; 32];
        if rand_bytes(&mut sym_key).is_err() {
            return Err(LocShareError::Random);
        }
        let res = Self::create_with_key(pin, inv_code, sym_key.as_slice());
        assert(res matches Ok(node) ==> spec_encrypt_sym_key(pin.spec_bytes(), sym_key@) == Ok::<
            Seq<u8>,
            LocShareError,
        >(node.sym_key@));
        assert(res matches Err(e) ==> spec_encrypt_sym_key(pin.spec_bytes(), sym_key@) == Err::<
            Seq<u8>,
            LocShareError,
        >(e));
        res
    }

    /// The stored configuration of the node: its symmetric key, generated at
    /// time 0. It parses back to that configuration, so `has_config` holds of
    /// it.
    pub fn config_bytes(&self) -> (res: Vec<u8>)
        ensures
            res@ == spec_config_bytes(ConfigView { sym_key: self.sym_key@, generated: 0 }),
            spec_parse_config(res@) == Some(ConfigView { sym_key: self.sym_key@, generated: 0 }),
    {
        let key_len: usize = self.sym_key.len();
        let conf = Config { sym_key: self.sym_key.clone(), generated: 0 };
        let mut v: Vec<u8> = Vec::new();
        conf.write_to_vec(&mut v);
        assert(v@ =~= spec_config_bytes(ConfigView { sym_key: self.sym_key@, generated: 0 }));
        proof {
            lemma_config_roundtrip(ConfigView { sym_key: self.sym_key@, generated: 0 });
        }
        v
    }

    /// Draws a random 32-byte ephemeral key.
    pub fn draw_ephemeral_key() -> (res: Result<Vec<u8>, LocShareError>)
        ensures
            res matches Ok(k) ==> k@.len() == CIPHER_LEN,
            res matches Err(e) ==> e == LocShareError::Random,
    {
        let mut eph_key = [0u8; 32];
        if rand_bytes(&mut eph_key).is_err() {
            return Err(LocShareError::Random);
        }
        Ok(vstd::slice::slice_to_vec(eph_key.as_slice()))
    }

    /// A random invitation code: 8 random bytes as 16 lower-case hex digits.
    pub fn generate_random_invitation_code() -> (res: String)
        ensures
            exists|b: Seq<u8>| b.len() == 8 && res@ == #[trigger] spec_hex_encode(b),
            res@.len() == 16,
            spec_hex_valid(res@),
    {
        let bytes = random_bytes(8);
        proof {
            lemma_hex_roundtrip(bytes@);
        }
        hex_encode(bytes.as_slice())
    }

    /// The connect request for an ephemeral key: the key and its MAC.
    pub fn create_connect_request(eph_key: Vec<u8>) -> (res: ConnectRequest)
        requires
            eph_key@.len() <= c_int_max(),
            derived_key(eph_key@) is Some,
        ensures
            spec_connect_request(eph_key@) == Some(res@),
            res.inv_code_mac@.len() == CIPHER_LEN,
    {
        let mac = compute_mac(eph_key.as_slice());
        ConnectRequest { eph_key, inv_code_mac: mac }
    }

    /// Encodes a connect request and encrypts it under the bytes of the
    /// invitation code.
    pub fn encrypt_connect_request(msg: &ConnectRequest, inv_code_hex: String) -> (res: Result<
        Vec<u8>,
        LocShareError,
    >)
        requires
            spec_hex_valid(inv_code_hex@),
            spec_connect_request_bytes(msg@).len() <= c_int_max(),
        ensures
            bytes_result(res) == spec_encrypt_msg(
                spec_connect_request_bytes(msg@),
                spec_hex_decode(inv_code_hex@),
            ),
    {
        let mut v: Vec<u8> = Vec::new();
        msg.write_to_vec(&mut v);
        assert(v@ =~= spec_connect_request_bytes(msg@));
        let k = match hex_decode(inv_code_hex.as_str()) {
            Ok(k) => k,
            Err(_) => {
                assert(false);
                return Err(LocShareError::InvalidHex);
            },
        };
        encrypt_msg(&v, k.as_slice())
    }

    /// The message a new node broadcasts to join with the ephemeral key
    /// `eph_key`: the key and its MAC, encrypted under the invitation code.
    pub fn encrypted_connect_request_for(eph_key: Vec<u8>, inv_code_hex: String) -> (res: Result<
        Vec<u8>,
        LocShareError,
    >)
        requires
            spec_hex_valid(inv_code_hex@),
            eph_key@.len() == CIPHER_LEN,
        ensures
            bytes_result(res) == spec_connect_message(eph_key@, inv_code_hex@),
    {
        if compute_mac_checked(eph_key.as_slice()).is_none() {
            return Err(LocShareError::KeyDerivation);
        }
        let con_req = Self::create_connect_request(eph_key);
        proof {
            lemma_connect_request_len(con_req@);
        }
        Self::encrypt_connect_request(&con_req, inv_code_hex)
    }

    /// The message a new node broadcasts to join: a fresh ephemeral key and
    /// its MAC, encrypted under the invitation code.
    pub fn create_encrypted_connect_request(inv_code_hex: String) -> (res: Result<
        Vec<u8>,
        LocShareError,
    >)
        requires
            spec_hex_valid(inv_code_hex@),
        ensures
            res matches Ok(c) ==> exists|eph: Seq<u8>|
                eph.len() == CIPHER_LEN && #[trigger] spec_connect_message(eph, inv_code_hex@)
                    == Ok::<Seq<u8>, LocShareError>(c@),
            res matches Err(e) ==> e == LocShareError::Random || exists|eph: Seq<u8>|
                eph.len() == CIPHER_LEN && #[trigger] spec_connect_message(eph, inv_code_hex@)
                    == Err::<Seq<u8>, LocShareError>(e),
    {
        let eph_key = match Self::draw_ephemeral_key() {
            Ok(k) => k,
            Err(e) => return Err(e),
        };
        let ghost eph = eph_key@;
        let res = Self::encrypted_connect_request_for(eph_key, inv_code_hex);
        assert(bytes_result(res) == spec_connect_message(eph, inv_code_hex@));
        res
    }

    /// Starts joining a network with an invitation code: keeps the code,
    /// draws and keeps a fresh ephemeral key, and gives the message to
    /// broadcast. The node's key and port are left as they were.
    pub fn start_connecting(&mut self, inv_code_hex: String) -> (res: Result<Vec<u8>, LocShareError>)
        requires
            spec_hex_valid(inv_code_hex@),
        ensures
            final(self).invitation_code@ == inv_code_hex@,
            final(self).sym_key@ == old(self).sym_key@,
            final(self).port == old(self).port,
            res matches Ok(_) ==> final(self).eph@.len() == CIPHER_LEN,
            res matches Ok(c) ==> spec_connect_message(final(self).eph@, inv_code_hex@) == Ok::<
                Seq<u8>,
                LocShareError,
            >(c@),
            res matches Err(e) ==> e == LocShareError::Random || (final(self).eph@.len()
                == CIPHER_LEN && spec_connect_message(final(self).eph@, inv_code_hex@) == Err::<
                Seq<u8>,
                LocShareError,
            >(e)),
    {
        self.invitation_code = inv_code_hex.clone();
        let eph_key = match Self::draw_ephemeral_key() {
            Ok(k) => k,
            Err(e) => return Err(e),
        };
        self.eph = eph_key.clone();
        Self::encrypted_connect_request_for(eph_key, inv_code_hex)
    }

    /// Reads the connect request from a received message.
    fn receive_connect_request(&self, enc_connect_msg: &Vec<u8>) -> (res: Result<
        ConnectRequest,
        LocShareError,
    >)
        ensures
            match spec_received_request(self.invitation_code@, enc_connect_msg@) {
                Ok(r) => res matches Ok(req) && req@ == r,
                Err(e) => res == Err::<ConnectRequest, LocShareError>(e),
            },
            forall|eph: Seq<u8>|
                eph.len() == CIPHER_LEN && enc_connect_msg@.len() <= c_int_max()
                    && #[trigger] spec_connect_message(
                    eph,
                    self.invitation_code@,
                ) == Ok::<Seq<u8>, LocShareError>(enc_connect_msg@) ==> spec_received_request(
                    self.invitation_code@,
                    enc_connect_msg@,
                ) == Ok::<ConnectRequestView, LocShareError>(spec_connect_request(eph).unwrap()),
    {
        let inv_code = match hex_decode(self.invitation_code.as_str()) {
            Ok(k) => k,
            Err(_) => return Err(LocShareError::InvalidHex),
        };
        if enc_connect_msg.len() > 0x7fff_ffff {
            return Err(LocShareError::Decryption);
        }
        let connect_msg = decrypt_msg(enc_connect_msg, inv_code.as_slice());
        proof {
            assert forall|eph: Seq<u8>|
                eph.len() == CIPHER_LEN && #[trigger] spec_connect_message(
                    eph,
                    self.invitation_code@,
                ) == Ok::<Seq<u8>, LocShareError>(enc_connect_msg@) implies (connect_msg matches Ok(
                p,
            ) && spec_parse_connect_request(p@) == spec_connect_request(eph)) by {
                let r = spec_connect_request(eph).unwrap();
                lemma_connect_request_roundtrip(r);
            }
        }
        let connect_msg = match connect_msg {
            Ok(m) => m,
            Err(e) => return Err(e),
        };
        let request = match ConnectRequest::parse_from_bytes(connect_msg.as_slice()) {
            Ok(r) => r,
            Err(e) => return Err(e),
        };
        if request.eph_key.len() > 0x7fff_ffff {
            return Err(LocShareError::MessageParse);
        }
        Ok(request)
    }

    /// Checks a received connect message against the node's invitation code:
    /// decrypts it under the code's bytes, parses the connect request, and
    /// tells whether its MAC is the one its ephemeral key derives. A message
    /// made by `create_encrypted_connect_request` with the same invitation
    /// code passes (within OpenSSL's `c_int` length limit).
    pub fn check_connect_message(&self, enc_connect_msg: &Vec<u8>) -> (res: Result<
        bool,
        LocShareError,
    >)
        ensures
            res == spec_check_connect_message(self.invitation_code@, enc_connect_msg@),
            forall|eph: Seq<u8>|
                eph.len() == CIPHER_LEN && enc_connect_msg@.len() <= c_int_max()
                    && #[trigger] spec_connect_message(
                    eph,
                    self.invitation_code@,
                ) == Ok::<Seq<u8>, LocShareError>(enc_connect_msg@) ==> res == Ok::<
                    bool,
                    LocShareError,
                >(true),
    {
        let request = match self.receive_connect_request(enc_connect_msg) {
            Ok(r) => r,
            Err(e) => return Err(e),
        };
        let mac = match compute_mac_checked(request.eph_key.as_slice()) {
            Some(m) => m,
            None => return Err(LocShareError::KeyDerivation),
        };
        Ok(bytes_equal(request.inv_code_mac.as_slice(), mac.as_slice()))
    }

    /// The answer to a connect request: the node's group key, encrypted under
    /// the request's ephemeral key.
    pub fn answer_connect(&self, request: &ConnectRequest) -> (res: Result<Vec<u8>, LocShareError>)
        requires
            self.sym_key@.len() <= c_int_max(),
        ensures
            bytes_result(res) == spec_encrypt_msg(self.sym_key@, request.eph_key@),
    {
        encrypt_msg(&self.sym_key, request.eph_key.as_slice())
    }

    /// Handles a received connect message: where it holds a connect request
    /// whose MAC matches, the answer that carries the group key to the new
    /// node (`answer_connect`); `None` where the MAC does not match. A message
    /// made by `create_encrypted_connect_request` with the same invitation
    /// code is answered with the group key encrypted under its ephemeral key.
    pub fn answer_connect_message(&self, enc_connect_msg: &Vec<u8>) -> (res: Result<
        Option<Vec<u8>>,
        LocShareError,
    >)
        requires
            self.sym_key@.len() <= c_int_max(),
        ensures
            match spec_answer_connect_message(
                self.invitation_code@,
                self.sym_key@,
                enc_connect_msg@,
            ) {
                Ok(None) => res matches Ok(None),
                Ok(Some(x2)) => res matches Ok(Some(a)) && a@ == x2,
                Err(e) => res == Err::<Option<Vec<u8>>, LocShareError>(e),
            },
            forall|eph: Seq<u8>|
                eph.len() == CIPHER_LEN && enc_connect_msg@.len() <= c_int_max()
                    && #[trigger] spec_connect_message(
                    eph,
                    self.invitation_code@,
                ) == Ok::<Seq<u8>, LocShareError>(enc_connect_msg@) ==> spec_answer_connect_message(
                    self.invitation_code@,
                    self.sym_key@,
                    enc_connect_msg@,
                ) == match spec_encrypt_msg(self.sym_key@, eph) {
                    Ok(x2) => Ok::<Option<Seq<u8>>, LocShareError>(Some(x2)),
                    Err(e) => Err(e),
                },
    {
        let request = match self.receive_connect_request(enc_connect_msg) {
            Ok(r) => r,
            Err(e) => return Err(e),
        };
        let mac = match compute_mac_checked(request.eph_key.as_slice()) {
            Some(m) => m,
            None => return Err(LocShareError::KeyDerivation),
        };
        if !bytes_equal(request.inv_code_mac.as_slice(), mac.as_slice()) {
            return Ok(None);
        }
        match self.answer_connect(&request) {
            Ok(x2) => Ok(Some(x2)),
            Err(e) => Err(e),
        }
    }

    /// Takes the group key from the answer to this node's connect request:
    /// decrypts it under the node's ephemeral key and keeps it as the node's
    /// key; the node is unchanged where that fails. An answer made by
    /// `answer_connect` for the request of this node's ephemeral key gives
    /// this node the answering node's key.
    pub fn accept_answer(&mut self, answer: &Vec<u8>) -> (res: Result<(), LocShareError>)
        ensures
            match spec_accept_answer(old(self).eph@, answer@) {
                Ok(k) => res is Ok && final(self).sym_key@ == k,
                Err(e) => res == Err::<(), LocShareError>(e) && final(self).sym_key@ == old(
                    self,
                ).sym_key@,
            },
            final(self).eph@ == old(self).eph@,
            final(self).invitation_code@ == old(self).invitation_code@,
            final(self).port == old(self).port,
            forall|k: Seq<u8>|
                answer@.len() <= c_int_max() && #[trigger] spec_encrypt_msg(k, old(self).eph@)
                    == Ok::<Seq<u8>, LocShareError>(answer@) ==> (res is Ok && final(self).sym_key@
                    == k),
    {
        if answer.len() > 0x7fff_ffff {
            return Err(LocShareError::Decryption);
        }
        match decrypt_msg(answer, self.eph.as_slice()) {
            Ok(k) => {
                self.sym_key = k;
                Ok(())
            },
            Err(e) => Err(e),
        }
    }
}

/// The encoding of a connect request of two 32-byte keys is short.
proof fn lemma_connect_request_len(m: ConnectRequestView)
    requires
        m.eph_key.len() == CIPHER_LEN,
        m.inv_code_mac.len() == CIPHER_LEN,
    ensures
        spec_connect_request_bytes(m).len() <= c_int_max(),
{
    crate::wire::lemma_varint_roundtrip(10, seq![]);
    crate::wire::lemma_varint_roundtrip(18, seq![]);
    crate::wire::lemma_varint_roundtrip(32, seq![]);
}

} // verus!
