//! The node's two protocol-buffer messages: the connect request that a new
//! node broadcasts, and the configuration it stores.
//!
//! ```text
//! message ConnectRequest { bytes eph_key = 1; bytes inv_code_mac = 2; }
//! message Config         { bytes sym_key = 1; uint64 generated = 2; }
//! ```
//!
//! Fields holding their default value (empty bytes, zero) are not written.
//! A reader takes fields in any order, keeps the last value of a field that
//! occurs twice, and skips fields it does not know, as well as a known field
//! number that comes with another wire type. Groups (wire types 3 and 4) are
//! refused.

use vstd::prelude::*;
use crate::error::LocShareError;
use crate::wire::{
    copy_range, field_value_is, lemma_fixed32_field_read, lemma_fixed64_field_read,
    lemma_len_field_roundtrip, lemma_varint_field_roundtrip, read_field, spec_fixed32_field,
    spec_fixed64_field, spec_len_field, spec_read_field, spec_varint_field, u64_max,
    write_len_field, write_varint_field, FieldValue, WireValue,
};

verus! {

// ---------------------------------------------------------------------------
// ConnectRequest

/// A new node's request to join: its ephemeral key, and the MAC that proves
/// knowledge of the invitation code.
pub struct ConnectRequest {
    pub eph_key: Vec<u8>,
    pub inv_code_mac: Vec<u8>,
}

/// The contents of a `ConnectRequest`.
#[verifier::ext_equal]
pub struct ConnectRequestView {
    pub eph_key: Seq<u8>,
    pub inv_code_mac: Seq<u8>,
}

impl View for ConnectRequest {
    type V = ConnectRequestView;

    open spec fn view(&self) -> ConnectRequestView {
        ConnectRequestView { eph_key: self.eph_key@, inv_code_mac: self.inv_code_mac@ }
    }
}

/// A bytes field, or nothing where the bytes are empty.
pub open spec fn spec_bytes_field(field: nat, bytes: Seq<u8>) -> Seq<u8> {
    if bytes.len() == 0 {
        seq![]
    } else {
        spec_len_field(field, bytes)
    }
}

/// The encoding of a connect request.
pub open spec fn spec_connect_request_bytes(m: ConnectRequestView) -> Seq<u8> {
    spec_bytes_field(1, m.eph_key) + spec_bytes_field(2, m.inv_code_mac)
}

/// Reads the fields of `s` into `acc`.
pub open spec fn parse_connect_request_fields(s: Seq<u8>, acc: ConnectRequestView) -> Option<
    ConnectRequestView,
>
    decreases s.len(),
{
    if s.len() == 0 {
        Some(acc)
    } else {
        match spec_read_field(s) {
            None => None,
            Some((f, v, n)) => if n == 0 || n > s.len() {
                None
            } else if f == 1 {
                match v {
                    WireValue::LenDelim(b) => parse_connect_request_fields(
                        s.skip(n as int),
                        ConnectRequestView { eph_key: b, inv_code_mac: acc.inv_code_mac },
                    ),
                    _ => parse_connect_request_fields(s.skip(n as int), acc),
                }
            } else if f == 2 {
                match v {
                    WireValue::LenDelim(b) => parse_connect_request_fields(
                        s.skip(n as int),
                        ConnectRequestView { eph_key: acc.eph_key, inv_code_mac: b },
                    ),
                    _ => parse_connect_request_fields(s.skip(n as int), acc),
                }
            } else {
                parse_connect_request_fields(s.skip(n as int), acc)
            },
        }
    }
}

/// The connect request that `s` encodes, if any.
pub open spec fn spec_parse_connect_request(s: Seq<u8>) -> Option<ConnectRequestView> {
    parse_connect_request_fields(s, ConnectRequestView { eph_key: seq![], inv_code_mac: seq![] })
}

impl ConnectRequest {
    /// Appends the encoding of the request to `v`.
    pub fn write_to_vec(&self, v: &mut Vec<u8>)
        ensures
            final(v)@ == old(v)@ + spec_connect_request_bytes(self@),
    {
        if self.eph_key.len() > 0 {
            write_len_field(v, 1, self.eph_key.as_slice());
        }
        if self.inv_code_mac.len() > 0 {
            write_len_field(v, 2, self.inv_code_mac.as_slice());
        }
        assert(final(v)@ =~= old(v)@ + spec_connect_request_bytes(self@));
    }

    /// Parses a request; `MessageParse` where `bytes` is not one.
    pub fn parse_from_bytes(bytes: &[u8]) -> (res: Result<ConnectRequest, LocShareError>)
        ensures
            match spec_parse_connect_request(bytes@) {
                Some(m) => res matches Ok(r) && r@ == m,
                None => res == Err::<ConnectRequest, LocShareError>(LocShareError::MessageParse),
            },
    {
        let mut eph_key: Vec<u8> = Vec::new();
        let mut inv_code_mac: Vec<u8> = Vec::new();
        let mut pos: usize = 0;
        assert(bytes@.skip(0) =~= bytes@);
        while pos < bytes.len()
            invariant
                pos <= bytes@.len(),
                spec_parse_connect_request(bytes@) == parse_connect_request_fields(
                    bytes@.skip(pos as int),
                    ConnectRequestView { eph_key: eph_key@, inv_code_mac: inv_code_mac@ },
                ),
            decreases bytes@.len() - pos,
        {
            let ghost s = bytes@.skip(pos as int);
            match read_field(bytes, pos) {
                None => return Err(LocShareError::MessageParse),
                Some((field, value, next)) => {
                    assert(s.skip(next - pos) =~= bytes@.skip(next as int));
                    if field == 1 {
                        match value {
                            FieldValue::Bytes(start, end) => {
                                eph_key = copy_range(bytes, start, end);
                            },
                            _ => {},
                        }
                    } else if field == 2 {
                        match value {
                            FieldValue::Bytes(start, end) => {
                                inv_code_mac = copy_range(bytes, start, end);
                            },
                            _ => {},
                        }
                    }
                    pos = next;
                },
            }
        }
        Ok(ConnectRequest { eph_key, inv_code_mac })
    }
}

/// Parsing the encoding of a connect request gives that request back.
pub proof fn lemma_connect_request_roundtrip(m: ConnectRequestView)
    requires
        m.eph_key.len() <= u64_max(),
        m.inv_code_mac.len() <= u64_max(),
    ensures
        spec_parse_connect_request(spec_connect_request_bytes(m)) == Some(m),
{
    let a = spec_bytes_field(1, m.eph_key);
    let b = spec_bytes_field(2, m.inv_code_mac);
    let empty = ConnectRequestView { eph_key: seq![], inv_code_mac: seq![] };
    let acc1 = ConnectRequestView { eph_key: m.eph_key, inv_code_mac: seq![] };
    assert(parse_connect_request_fields(b, acc1) == Some(m)) by {
        if m.inv_code_mac.len() == 0 {
            assert(acc1 =~= m);
        } else {
            lemma_len_field_roundtrip(2, m.inv_code_mac, seq![]);
            assert(b + seq![] =~= b);
            assert(b.skip(b.len() as int) =~= Seq::<u8>::empty());
            assert(ConnectRequestView { eph_key: acc1.eph_key, inv_code_mac: m.inv_code_mac } =~= m);
            assert(parse_connect_request_fields(Seq::<u8>::empty(), m) == Some(m));
        }
    }
    if m.eph_key.len() == 0 {
        assert(a + b =~= b);
        assert(empty =~= acc1);
    } else {
        lemma_len_field_roundtrip(1, m.eph_key, b);
        assert((a + b).skip(a.len() as int) =~= b);
    }
}

// ---------------------------------------------------------------------------
// Config

/// A node's stored configuration: its symmetric key (wrapped under the
/// PIN), and when it was generated.
pub struct Config {
    pub sym_key: Vec<u8>,
    pub generated: u64,
}

/// The contents of a `Config`.
#[verifier::ext_equal]
pub struct ConfigView {
    pub sym_key: Seq<u8>,
    pub generated: u64,
}

impl View for Config {
    type V = ConfigView;

    open spec fn view(&self) -> ConfigView {
        ConfigView { sym_key: self.sym_key@, generated: self.generated }
    }
}

/// A uint64 field, or nothing where the value is zero.
pub open spec fn spec_u64_field(field: nat, v: u64) -> Seq<u8> {
    if v == 0 {
        seq![]
    } else {
        spec_varint_field(field, v as nat)
    }
}

/// The encoding of a configuration.
pub open spec fn spec_config_bytes(c: ConfigView) -> Seq<u8> {
    spec_bytes_field(1, c.sym_key) + spec_u64_field(2, c.generated)
}

/// Reads the fields of `s` into `acc`.
pub open spec fn parse_config_fields(s: Seq<u8>, acc: ConfigView) -> Option<ConfigView>
    decreases s.len(),
{
    if s.len() == 0 {
        Some(acc)
    } else {
        match spec_read_field(s) {
            None => None,
            Some((f, v, n)) => if n == 0 || n > s.len() {
                None
            } else if f == 1 {
                match v {
                    WireValue::LenDelim(b) => parse_config_fields(
                        s.skip(n as int),
                        ConfigView { sym_key: b, generated: acc.generated },
                    ),
                    _ => parse_config_fields(s.skip(n as int), acc),
                }
            } else if f == 2 {
                match v {
                    WireValue::Varint(x) => parse_config_fields(
                        s.skip(n as int),
                        ConfigView { sym_key: acc.sym_key, generated: x as u64 },
                    ),
                    _ => parse_config_fields(s.skip(n as int), acc),
                }
            } else {
                parse_config_fields(s.skip(n as int), acc)
            },
        }
    }
}

/// The configuration that `s` encodes, if any.
pub open spec fn spec_parse_config(s: Seq<u8>) -> Option<ConfigView> {
    parse_config_fields(s, ConfigView { sym_key: seq![], generated: 0 })
}

impl Config {
    /// Appends the encoding of the configuration to `v`.
    pub fn write_to_vec(&self, v: &mut Vec<u8>)
        ensures
            final(v)@ == old(v)@ + spec_config_bytes(self@),
    {
        if self.sym_key.len() > 0 {
            write_len_field(v, 1, self.sym_key.as_slice());
        }
        if self.generated != 0 {
            write_varint_field(v, 2, self.generated);
        }
        assert(final(v)@ =~= old(v)@ + spec_config_bytes(self@));
    }

    /// Parses a configuration; `ConfigParse` where `bytes` is not one.
    pub fn parse_from_bytes(bytes: &[u8]) -> (res: Result<Config, LocShareError>)
        ensures
            match spec_parse_config(bytes@) {
                Some(c) => res matches Ok(r) && r@ == c,
                None => res == Err::<Config, LocShareError>(LocShareError::ConfigParse),
            },
    {
        let mut sym_key: Vec<u8> = Vec::new();
        let mut generated: u64 = 0;
        let mut pos: usize = 0;
        assert(bytes@.skip(0) =~= bytes@);
        while pos < bytes.len()
            invariant
                pos <= bytes@.len(),
                spec_parse_config(bytes@) == parse_config_fields(
                    bytes@.skip(pos as int),
                    ConfigView { sym_key: sym_key@, generated },
                ),
            decreases bytes@.len() - pos,
        {
            let ghost s = bytes@.skip(pos as int);
            match read_field(bytes, pos) {
                None => return Err(LocShareError::ConfigParse),
                Some((field, value, next)) => {
                    assert(s.skip(next - pos) =~= bytes@.skip(next as int));
                    if field == 1 {
                        match value {
                            FieldValue::Bytes(start, end) => {
                                sym_key = copy_range(bytes, start, end);
                            },
                            _ => {},
                        }
                    } else if field == 2 {
                        match value {
                            FieldValue::Varint(x) => {
                                generated = x;
                            },
                            _ => {},
                        }
                    }
                    pos = next;
                },
            }
        }
        Ok(Config { sym_key, generated })
    }
}

/// Parsing the encoding of a configuration gives that configuration back.
pub proof fn lemma_config_roundtrip(c: ConfigView)
    requires
        c.sym_key.len() <= u64_max(),
    ensures
        spec_parse_config(spec_config_bytes(c)) == Some(c),
{
    let a = spec_bytes_field(1, c.sym_key);
    let b = spec_u64_field(2, c.generated);
    let empty = ConfigView { sym_key: seq![], generated: 0 };
    let acc1 = ConfigView { sym_key: c.sym_key, generated: 0 };
    assert(parse_config_fields(b, acc1) == Some(c)) by {
        if c.generated == 0 {
            assert(acc1 =~= c);
        } else {
            lemma_varint_field_roundtrip(2, c.generated as nat, seq![]);
            assert(b + seq![] =~= b);
            assert(b.skip(b.len() as int) =~= Seq::<u8>::empty());
            assert(ConfigView { sym_key: acc1.sym_key, generated: c.generated } =~= c);
            assert(parse_config_fields(Seq::<u8>::empty(), c) == Some(c));
        }
    }
    if c.sym_key.len() == 0 {
        assert(a + b =~= b);
        assert(empty =~= acc1);
    } else {
        lemma_len_field_roundtrip(1, c.sym_key, b);
        assert((a + b).skip(a.len() as int) =~= b);
    }
}

// ---------------------------------------------------------------------------
// Unknown fields

/// An unknown field of any of the four wire types, each with its own payload.
pub open spec fn spec_unknown_field(field: nat, wire_type: nat, v: nat, bytes: Seq<u8>) -> Seq<u8> {
    if wire_type == 0 {
        spec_varint_field(field, v)
    } else if wire_type == 1 {
        spec_fixed64_field(field, bytes.take(8))
    } else if wire_type == 2 {
        spec_len_field(field, bytes)
    } else {
        spec_fixed32_field(field, bytes.take(4))
    }
}

/// The conditions under which `spec_unknown_field` is a well-formed field
/// with a field number that neither message knows.
pub open spec fn unknown_field_ok(field: nat, wire_type: nat, v: nat, bytes: Seq<u8>) -> bool {
    &&& 3 <= field
    &&& field * 8 + 5 <= u64_max()
    &&& wire_type <= 3
    &&& v <= u64_max()
    &&& bytes.len() <= u64_max()
    &&& (wire_type == 1 ==> bytes.len() >= 8)
    &&& (wire_type == 3 ==> bytes.len() >= 4)
}

/// An unknown field reads as a field of its number that takes all its bytes.
proof fn lemma_unknown_field_read(field: nat, wire_type: nat, v: nat, bytes: Seq<u8>, rest: Seq<u8>)
    requires
        unknown_field_ok(field, wire_type, v, bytes),
    ensures
        spec_read_field(spec_unknown_field(field, wire_type, v, bytes) + rest) matches Some(
            (f, _, n),
        ) && f == field && n == spec_unknown_field(field, wire_type, v, bytes).len(),
{
    if wire_type == 0 {
        lemma_varint_field_roundtrip(field, v, rest);
    } else if wire_type == 1 {
        lemma_fixed64_field_read(field, bytes.take(8), rest);
    } else if wire_type == 2 {
        lemma_len_field_roundtrip(field, bytes, rest);
    } else {
        lemma_fixed32_field_read(field, bytes.take(4), rest);
    }
}

/// A connect request reads the same with an unknown field of any wire type
/// put in front of it: the whole field is skipped.
pub proof fn lemma_connect_request_skips_unknown_field(
    field: nat,
    wire_type: nat,
    v: nat,
    bytes: Seq<u8>,
    s: Seq<u8>,
)
    requires
        unknown_field_ok(field, wire_type, v, bytes),
    ensures
        spec_parse_connect_request(spec_unknown_field(field, wire_type, v, bytes) + s)
            == spec_parse_connect_request(s),
{
    let u = spec_unknown_field(field, wire_type, v, bytes);
    lemma_unknown_field_read(field, wire_type, v, bytes, s);
    assert((u + s).skip(u.len() as int) =~= s);
}

/// A configuration reads the same with an unknown field of any wire type put
/// in front of it: the whole field is skipped.
pub proof fn lemma_config_skips_unknown_field(
    field: nat,
    wire_type: nat,
    v: nat,
    bytes: Seq<u8>,
    s: Seq<u8>,
)
    requires
        unknown_field_ok(field, wire_type, v, bytes),
    ensures
        spec_parse_config(spec_unknown_field(field, wire_type, v, bytes) + s) == spec_parse_config(s),
{
    let u = spec_unknown_field(field, wire_type, v, bytes);
    lemma_unknown_field_read(field, wire_type, v, bytes, s);
    assert((u + s).skip(u.len() as int) =~= s);
}

} // verus!
