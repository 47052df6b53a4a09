//! An address-based deny list for socket addresses.
//!
//! A [`Blacklist`] is built once from a list of textual patterns of the form
//! `IP` (deny every port on that address) or `IP:PORT` (deny one port), with
//! IPv4 and IPv6 treated as one address space: every address is canonicalized
//! to its 128-bit form before it is stored or looked up, so a rule written for
//! an IPv4 address also catches the same peer presenting as an IPv4-mapped
//! IPv6 address.
//!
//! The crate is laid out bottom-up: [`addr`] holds the address model and the
//! one canonicalization function, [`grammar`] the textual grammar of
//! addresses and ports, [`pattern`] the parsing of one configuration pattern,
//! [`ports`] the per-address port set, [`filter`] the deny list itself, and
//! [`laws`] the properties proved of the whole.

pub mod addr;
pub mod filter;
pub mod grammar;
pub mod laws;
pub mod pattern;
pub mod ports;

pub use filter::Blacklist;
