//! Parsing of one configuration pattern.
//!
//! A pattern names either a bare IP address — then every port on it is meant —
//! or an address with one port: `a.b.c.d`, an IPv6 form, `a.b.c.d:p`, or
//! `[v6]:p`. The whole string must belong to the grammar: wildcards, CIDR
//! suffixes, out-of-range ports and trailing garbage all reject the pattern.
//! The address part is canonicalized on the spot, so a parsed pattern always
//! carries a canonical 128-bit address.

use vstd::prelude::*;

use crate::grammar::{read_ipv4, read_ipv6, read_number, spec_ipv4, spec_ipv6, spec_number};

verus! {

/// A parsed pattern: a whole address to deny, or one (address, port) pair.
/// The address is always in canonical 128-bit form.
#[derive(Clone, Copy, PartialEq, Eq, Structural, Debug)]
pub enum PatternAddr {
    Ip(u128),
    IpPort(u128, u16),
}

/// The one parse error: the string matches none of the accepted pattern
/// grammars.
#[derive(Clone, Copy, PartialEq, Eq, Structural, Debug)]
pub struct InvalidAddressPattern;

/// A whole string as a bare IP address of either family, canonicalized:
/// an IPv4 address is taken through the IPv4-mapped embedding.
pub open spec fn spec_ipaddr(s: Seq<char>) -> Option<u128> {
    if spec_ipv4(s, 0) is Some && spec_ipv4(s, 0).unwrap().1 == s.len() {
        Some((0xffff_0000_0000 + spec_ipv4(s, 0).unwrap().0) as u128)
    } else if spec_ipv6(s, 0) is Some && spec_ipv6(s, 0).unwrap().1 == s.len() {
        Some(spec_ipv6(s, 0).unwrap().0 as u128)
    } else {
        None
    }
}

/// A whole string as an address with a port: `a.b.c.d:p` or `[v6]:p`, the
/// address canonicalized. The port is decimal, may carry leading zeros, and
/// must fit in 16 bits.
pub open spec fn spec_socket(s: Seq<char>) -> Option<(u128, u16)> {
    if spec_ipv4(s, 0) is Some {
        let (v4, e) = spec_ipv4(s, 0).unwrap();
        if e < s.len() && s[e] as u32 == 58 {
            match spec_number(s, e + 1, false, 0, true, 65535) {
                Option::Some((p, pe)) => if pe == s.len() {
                    Some(((0xffff_0000_0000 + v4) as u128, p as u16))
                } else {
                    None
                },
                Option::None => None,
            }
        } else {
            None
        }
    } else if s.len() > 0 && s[0] as u32 == 91 {
        match spec_ipv6(s, 1) {
            Option::Some((v, e)) => if e + 2 <= s.len() && s[e] as u32 == 93 && s[e + 1] as u32
                == 58 {
                match spec_number(s, e + 2, false, 0, true, 65535) {
                    Option::Some((p, pe)) => if pe == s.len() {
                        Some((v as u128, p as u16))
                    } else {
                        None
                    },
                    Option::None => None,
                }
            } else {
                None
            },
            Option::None => None,
        }
    } else {
        None
    }
}

/// What one pattern string means: a bare IP first, else an address with a
/// port, else nothing. Opaque so that reasoning about pattern lists does not
/// drag the whole grammar along; [`PatternAddr::from_str`] reveals it.
#[verifier::opaque]
pub open spec fn spec_parse_pattern(s: Seq<char>) -> Option<PatternAddr> {
    if spec_ipaddr(s) is Some {
        Some(PatternAddr::Ip(spec_ipaddr(s).unwrap()))
    } else if spec_socket(s) is Some {
        Some(PatternAddr::IpPort(spec_socket(s).unwrap().0, spec_socket(s).unwrap().1))
    } else {
        None
    }
}

/// Executable form of [`spec_ipaddr`].
pub fn read_ipaddr(s: &str) -> (r: Option<u128>)
    ensures
        r == spec_ipaddr(s@),
{
    let len = s.unicode_len();
    match read_ipv4(s, 0, len) {
        Option::Some((v4, e)) => {
            if e == len {
                return Some(0xffff_0000_0000u128 + v4 as u128);
            }
        },
        Option::None => {},
    }
    match read_ipv6(s, 0, len) {
        Option::Some((v, e)) => {
            if e == len {
                return Some(v);
            }
        },
        Option::None => {},
    }
    None
}

/// Executable form of [`spec_socket`].
pub fn read_socket(s: &str) -> (r: Option<(u128, u16)>)
    ensures
        r == spec_socket(s@),
{
    let len = s.unicode_len();
    match read_ipv4(s, 0, len) {
        Option::Some((v4, e)) => {
            if e < len && s.get_char(e) as u32 == 58 {
                match read_number(s, e + 1, len, false, 0, true, 65535) {
                    Option::Some((p, pe)) => {
                        if pe == len {
                            return Some((0xffff_0000_0000u128 + v4 as u128, p as u16));
                        }
                        return None;
                    },
                    Option::None => {
                        return None;
                    },
                }
            }
            return None;
        },
        Option::None => {},
    }
    if len > 0 && s.get_char(0) as u32 == 91 {
        match read_ipv6(s, 1, len) {
            Option::Some((v, e)) => {
                if e < len && e + 1 < len && s.get_char(e) as u32 == 93 && s.get_char(e + 1) as u32
                    == 58 {
                    match read_number(s, e + 2, len, false, 0, true, 65535) {
                        Option::Some((p, pe)) => {
                            if pe == len {
                                return Some((v, p as u16));
                            }
                            return None;
                        },
                        Option::None => {
                            return None;
                        },
                    }
                }
                return None;
            },
            Option::None => {
                return None;
            },
        }
    }
    None
}

impl PatternAddr {
    /// Parses one configuration pattern. Returns `Ok` exactly on the strings
    /// the grammar accepts, with the parse [`spec_parse_pattern`] gives.
    pub fn from_str(s: &str) -> (r: Result<PatternAddr, InvalidAddressPattern>)
        ensures
            (match r {
                Result::Ok(p) => spec_parse_pattern(s@) == Some(p),
                Result::Err(_) => spec_parse_pattern(s@) is None,
            }),
    {
        proof {
            reveal(spec_parse_pattern);
        }
        match read_ipaddr(s) {
            Option::Some(ip) => Result::Ok(PatternAddr::Ip(ip)),
            Option::None => match read_socket(s) {
                Option::Some((ip, port)) => Result::Ok(PatternAddr::IpPort(ip, port)),
                Option::None => Result::Err(InvalidAddressPattern),
            },
        }
    }
}

} // verus!
