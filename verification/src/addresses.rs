//! The node's network addresses and their text form.

use vstd::prelude::*;
use vstd::string::StringExecFns;
use crate::decimal::{append_decimal, spec_decimal};

verus! {

/// The node's own IPv4 address (the loopback address for now).
pub fn find_my_ip() -> (res: [u8; 4])
    ensures
        res@ == seq![127u8, 0u8, 0u8, 1u8],
{
    [127, 0, 0, 1]
}

/// A free port to listen on (fixed for now).
pub fn find_free_port() -> (res: u32)
    ensures
        res == 5555,
{
    5555
}

/// The broadcast address of the network of `ip` (the loopback address for
/// now, whatever `ip` is).
pub fn find_broadcast_addr(ip: [u8; 4]) -> (res: [u8; 4])
    ensures
        res@ == seq![127u8, 0u8, 0u8, 1u8],
{
    [127, 0, 0, 1]
}

/// The text `a.b.c.d:port` of an IPv4 address and port.
pub open spec fn spec_ip_addr(ip: Seq<u8>, port: u32) -> Seq<char> {
    spec_decimal(ip[0] as nat) + seq!['.'] + spec_decimal(ip[1] as nat) + seq!['.']
        + spec_decimal(ip[2] as nat) + seq!['.'] + spec_decimal(ip[3] as nat) + seq![':']
        + spec_decimal(port as nat)
}

/// Writes an IPv4 address and port as `a.b.c.d:port`.
pub fn make_ip_addr(ip_addr: [u8; 4], port: u32) -> (res: String)
    ensures
        res@ == spec_ip_addr(ip_addr@, port),
{
    proof {
        reveal_strlit(".");
        reveal_strlit(":");
    }
    let mut s = String::new();
    append_decimal(&mut s, ip_addr[0] as u128);
    s.append(".");
    append_decimal(&mut s, ip_addr[1] as u128);
    s.append(".");
    append_decimal(&mut s, ip_addr[2] as u128);
    s.append(".");
    append_decimal(&mut s, ip_addr[3] as u128);
    s.append(":");
    append_decimal(&mut s, port as u128);
    assert(s@ =~= spec_ip_addr(ip_addr@, port));
    s
}

} // verus!
