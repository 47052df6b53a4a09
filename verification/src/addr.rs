//! The library's model of IP addresses and peer endpoints.
//!
//! Addresses arrive in two families. So that a rule written for one family
//! cannot be evaded by presenting the same host in the other, every address is
//! reduced to a canonical 128-bit form before it is stored or looked up:
//! an IPv6 address is used as it is, and an IPv4 address goes through the
//! standard IPv4-mapped embedding (`a.b.c.d` becomes `::ffff:a.b.c.d`).
//! [`spec_canonical`] is the single definition of that mapping; both the rule
//! insertion path and the query path go through it.

use vstd::prelude::*;

verus! {

/// An IP address in either family: an IPv4 address given by its four octets,
/// or an IPv6 address given as one unsigned 128-bit value in network order
/// (the first group of the textual form is the most significant 16 bits).
#[derive(Clone, Copy, PartialEq, Eq, Structural, Debug)]
pub enum IpAddr {
    V4(u8, u8, u8, u8),
    V6(u128),
}

/// A candidate peer endpoint: an address together with a TCP port.
#[derive(Clone, Copy, PartialEq, Eq, Structural, Debug)]
pub struct SocketAddr {
    pub ip: IpAddr,
    pub port: u16,
}

/// The IPv4-mapped IPv6 embedding of `a.b.c.d`, that is `::ffff:a.b.c.d`:
/// the low 32 bits hold the IPv4 address, the 16 bits above them are all ones,
/// and the high 80 bits are zero.
pub open spec fn spec_ipv4_mapped(a: u8, b: u8, c: u8, d: u8) -> u128 {
    (0xffff_0000_0000u128 + (a as u128) * 0x100_0000 + (b as u128) * 0x1_0000
        + (c as u128) * 0x100 + (d as u128)) as u128
}

/// The canonical 128-bit form of an address: IPv6 as-is, IPv4 through the
/// IPv4-mapped embedding. This is the one place the mapping is defined.
pub open spec fn spec_canonical(ip: IpAddr) -> u128 {
    match ip {
        IpAddr::V4(a, b, c, d) => spec_ipv4_mapped(a, b, c, d),
        IpAddr::V6(v) => v,
    }
}

/// Executable form of [`spec_ipv4_mapped`].
pub fn ipv4_mapped(a: u8, b: u8, c: u8, d: u8) -> (r: u128)
    ensures
        r == spec_ipv4_mapped(a, b, c, d),
{
    0xffff_0000_0000u128 + (a as u128) * 0x100_0000 + (b as u128) * 0x1_0000
        + (c as u128) * 0x100 + (d as u128)
}

impl IpAddr {
    /// The canonical 128-bit form of this address (see [`spec_canonical`]).
    pub fn canonical(self) -> (r: u128)
        ensures
            r == spec_canonical(self),
    {
        match self {
            IpAddr::V4(a, b, c, d) => ipv4_mapped(a, b, c, d),
            IpAddr::V6(v) => v,
        }
    }
}

} // verus!
