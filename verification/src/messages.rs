//! Messages that nodes broadcast.
//!
//! A broadcast message is the encrypted message followed by its CRC-32, the
//! checksum in big-endian (network) byte order.

use vstd::prelude::*;
use crate::crc32::{
    be_u32, crc32, lemma_be_bytes_of_be_u32, lemma_be_u32_roundtrip, push_u32_be, read_u32_be, spec_crc32, u32_be_bytes,
};
use crate::wire::copy_range;
use crate::wire::push_bytes;

verus! {

/// A message that can be put on the wire.
pub trait Message {
    /// The bytes of the message.
    fn serialize(&self) -> Vec<u8>;
}

/// What a received broadcast holds: the message and its checksum, where the
/// bytes are at least 4 long and the checksum (their last 4 bytes,
/// big-endian) is the CRC-32 of the message (the bytes before it).
pub open spec fn spec_parse_broadcast(s: Seq<u8>) -> Option<(Seq<u8>, u32)> {
    if s.len() < 4 {
        None
    } else {
        let n = s.len() - 4;
        let m = s.take(n);
        let c = be_u32(s[n], s[n + 1], s[n + 2], s[n + 3]);
        if c == spec_crc32(m) {
            Some((m, c))
        } else {
            None
        }
    }
}

/// A serialized broadcast reads back as its message and checksum.
pub proof fn lemma_broadcast_roundtrip(m: Seq<u8>)
    ensures
        spec_parse_broadcast(m + u32_be_bytes(spec_crc32(m))) == Some((m, spec_crc32(m))),
{
    let c = spec_crc32(m);
    let s = m + u32_be_bytes(c);
    assert(s.take(m.len() as int) =~= m);
    lemma_be_u32_roundtrip(c);
}

/// A frame of a message and a 32-bit checksum reads back exactly when the
/// checksum is the message's CRC-32, all 32 bits of it; it then reads as that
/// message and checksum.
pub proof fn lemma_broadcast_checksum_decides(m: Seq<u8>, c: u32)
    ensures
        spec_parse_broadcast(m + u32_be_bytes(c)) is Some <==> c == spec_crc32(m),
        spec_parse_broadcast(m + u32_be_bytes(c)) is Some ==> spec_parse_broadcast(
            m + u32_be_bytes(c),
        ) == Some((m, c)),
{
    let s = m + u32_be_bytes(c);
    assert(s.take(m.len() as int) =~= m);
    lemma_be_u32_roundtrip(c);
}

/// A broadcast message: a message encrypted with the invitation code, and
/// its checksum.
pub struct BroadcastCode {
    pub encrypted_msg: Vec<u8>,
    crc: u32,
}

impl BroadcastCode {
    /// A broadcast of a copy of `encrypted_msg`, with its CRC-32.
    pub fn new(encrypted_msg: &Vec<u8>) -> (res: BroadcastCode)
        ensures
            res.message() == encrypted_msg@,
            res.crc() == spec_crc32(encrypted_msg@),
    {
        let crc: u32 = crc32(encrypted_msg.as_slice());
        BroadcastCode { encrypted_msg: encrypted_msg.clone(), crc }
    }

    /// The encrypted message.
    pub closed spec fn message(&self) -> Seq<u8> {
        self.encrypted_msg@
    }

    /// The checksum.
    pub closed spec fn crc(&self) -> u32 {
        self.crc
    }

    /// Reads a received broadcast; `None` where it is shorter than the
    /// checksum or the checksum does not match. A serialized broadcast reads
    /// back as the same message and checksum.
    pub fn from_bytes(bytes: &[u8]) -> (res: Option<BroadcastCode>)
        ensures
            match spec_parse_broadcast(bytes@) {
                Some((m, c)) => res matches Some(b) && b.message() == m && b.crc() == c,
                None => res is None,
            },
            res matches Some(b) ==> bytes@ == b.message() + u32_be_bytes(b.crc()) && b.crc()
                == spec_crc32(b.message()),
    {
        let len: usize = bytes.len();
        if len < 4 {
            return None;
        }
        let n: usize = len - 4;
        let msg = copy_range(bytes, 0, n);
        assert(bytes@.subrange(0, n as int) =~= bytes@.take(n as int));
        let crc: u32 = read_u32_be(bytes, n);
        if crc != crc32(msg.as_slice()) {
            return None;
        }
        proof {
            lemma_be_u32_roundtrip(crc);
            let b = bytes@;
            assert(b[n as int] == (crc >> 24) as u8 && b[n + 1] == (crc >> 16) as u8 && b[n + 2]
                == (crc >> 8) as u8 && b[n + 3] == crc as u8) by {
                lemma_be_bytes_of_be_u32(b[n as int], b[n + 1], b[n + 2], b[n + 3]);
            }
            assert(b =~= msg@ + u32_be_bytes(crc));
        }
        Some(BroadcastCode { encrypted_msg: msg, crc })
    }

    /// The checksum carried with the message.
    pub fn checksum(&self) -> (res: u32)
        ensures
            res == self.crc(),
    {
        self.crc
    }
}

impl Message for BroadcastCode {
    /// The encrypted message, then its checksum in big-endian byte order.
    fn serialize(&self) -> (res: Vec<u8>)
        ensures
            res@ == self.message() + u32_be_bytes(self.crc()),
    {
        let mut out: Vec<u8> = Vec::new();
        push_bytes(&mut out, self.encrypted_msg.as_slice());
        push_u32_be(&mut out, self.crc);
        assert(out@ =~= self.message() + u32_be_bytes(self.crc()));
        out
    }
}

} // verus!
