//! The deny list itself.
//!
//! A [`Blacklist`] maps each denied address, in canonical 128-bit form, to
//! the set of ports denied on it. It is built once from a list of textual
//! patterns — entries that do not parse are skipped, never aborting the
//! build — and then queried per connection attempt. The contract of
//! [`Blacklist::from_iter`] pins the whole behaviour down: the built filter
//! denies an endpoint exactly when some pattern of the list says so
//! ([`list_denies`]), whichever order the patterns came in and however often
//! one repeats.

use vstd::prelude::*;

use crate::addr::{spec_canonical, SocketAddr};
use crate::pattern::{spec_parse_pattern, InvalidAddressPattern, PatternAddr};
use crate::ports::PortsSet;
use vstd::pervasive::VecAdditionalExecFns;

verus! {

/// Whether one parsed pattern denies `addr`: a bare-IP pattern denies every
/// port on its address, an IP-with-port pattern denies exactly its port, and
/// a pattern that did not parse denies nothing.
pub open spec fn pattern_denies(p: Option<PatternAddr>, addr: SocketAddr) -> bool {
    match p {
        Option::Some(PatternAddr::Ip(ip)) => ip == spec_canonical(addr.ip),
        Option::Some(PatternAddr::IpPort(ip, port)) => ip == spec_canonical(addr.ip) && port
            == addr.port,
        Option::None => false,
    }
}

/// What a whole pattern list means: `addr` is denied exactly when some
/// pattern of the list denies it.
pub open spec fn list_denies(patterns: Seq<Seq<char>>, addr: SocketAddr) -> bool {
    exists|i: int|
        0 <= i < patterns.len() && pattern_denies(spec_parse_pattern(patterns[i]), addr)
}

/// A blacklist for socket addresses: each denied address, in canonical
/// 128-bit form, with the set of ports denied on it.
#[derive(Debug, Clone)]
pub struct Blacklist {
    entries: Vec<(u128, PortsSet)>,
}

impl Blacklist {
    /// Well-formed: one entry per address, every port set well-formed.
    pub closed spec fn wf(self) -> bool {
        &&& forall|i: int, j: int|
            0 <= i < j < self.entries@.len() ==> self.entries@[i].0 != self.entries@[j].0
        &&& forall|i: int| 0 <= i < self.entries@.len() ==> self.entries@[i].1.wf()
    }

    /// Whether `addr` is denied: some entry holds its canonical address and
    /// denies its port.
    pub closed spec fn spec_contains(self, addr: SocketAddr) -> bool {
        exists|k: int|
            0 <= k < self.entries@.len() && self.entries@[k].0 == spec_canonical(addr.ip)
                && self.entries@[k].1.spec_contains(addr.port)
    }

    /// The index of the entry for `ip`, if there is one.
    fn find(&self, ip: u128) -> (r: Option<usize>)
        ensures
            (match r {
                Option::Some(k) => k < self.entries@.len() && self.entries@[k as int].0 == ip,
                Option::None => forall|k: int|
                    0 <= k < self.entries@.len() ==> self.entries@[k].0 != ip,
            }),
    {
        let n = self.entries.len();
        let mut k: usize = 0;
        while k < n
            invariant
                k <= n,
                n == self.entries@.len(),
                forall|w: int| 0 <= w < k ==> self.entries@[w].0 != ip,
            decreases n - k,
        {
            if self.entries[k].0 == ip {
                return Some(k);
            }
            k = k + 1;
        }
        None
    }

    /// Adds one pattern. `Err` exactly on a string the grammar rejects; then
    /// nothing changed. On either outcome, the new filter denies an endpoint
    /// exactly when the old one did or the pattern does.
    fn add(&mut self, addr: &str) -> (r: Result<(), InvalidAddressPattern>)
        requires
            old(self).wf(),
        ensures
            final(self).wf(),
            (match r {
                Result::Ok(_) => spec_parse_pattern(addr@) is Some,
                Result::Err(_) => spec_parse_pattern(addr@) is None && *final(self) == *old(self),
            }),
            forall|a: SocketAddr| #[trigger]
                final(self).spec_contains(a) <==> old(self).spec_contains(a) || pattern_denies(
                    spec_parse_pattern(addr@),
                    a,
                ),
    {
        let p = match PatternAddr::from_str(addr) {
            Result::Err(e) => {
                return Result::Err(e);
            },
            Result::Ok(p) => p,
        };
        let ghost old_entries = self.entries@;
        match p {
            PatternAddr::Ip(ip) => {
                match self.find(ip) {
                    Option::None => {
                        self.entries.push((ip, PortsSet::All));
                        proof {
                            assert forall|a: SocketAddr| #[trigger]
                                self.spec_contains(a) <==> old(self).spec_contains(a)
                                    || pattern_denies(spec_parse_pattern(addr@), a) by {
                                if self.spec_contains(a) {
                                    let k = choose|k: int|
                                        0 <= k < self.entries@.len() && self.entries@[k].0
                                            == spec_canonical(a.ip)
                                            && self.entries@[k].1.spec_contains(a.port);
                                    if k < old_entries.len() {
                                        assert(old_entries[k] == self.entries@[k]);
                                        assert(old(self).spec_contains(a));
                                    }
                                }
                                if old(self).spec_contains(a) {
                                    let k = choose|k: int|
                                        0 <= k < old_entries.len() && old_entries[k].0
                                            == spec_canonical(a.ip)
                                            && old_entries[k].1.spec_contains(a.port);
                                    assert(self.entries@[k] == old_entries[k]);
                                }
                                if pattern_denies(spec_parse_pattern(addr@), a) {
                                    let k = old_entries.len() as int;
                                    assert(self.entries@[k].0 == spec_canonical(a.ip));
                                    assert(self.entries@[k].1.spec_contains(a.port));
                                }
                            }
                        }
                    },
                    Option::Some(k) => {
                        let mut pair = (0u128, PortsSet::All);
                        self.entries.set_and_swap(k, &mut pair);
                        pair.1.add_all();
                        let ghost mid_pair = pair;
                        self.entries.set(k, pair);
                        proof {
                            assert(self.entries@ =~= old_entries.update(k as int, mid_pair));
                            assert forall|a: SocketAddr| #[trigger]
                                self.spec_contains(a) <==> old(self).spec_contains(a)
                                    || pattern_denies(spec_parse_pattern(addr@), a) by {
                                if self.spec_contains(a) {
                                    let w = choose|w: int|
                                        0 <= w < self.entries@.len() && self.entries@[w].0
                                            == spec_canonical(a.ip)
                                            && self.entries@[w].1.spec_contains(a.port);
                                    if w != k {
                                        assert(old_entries[w] == self.entries@[w]);
                                        assert(old(self).spec_contains(a));
                                    }
                                }
                                if old(self).spec_contains(a) {
                                    let w = choose|w: int|
                                        0 <= w < old_entries.len() && old_entries[w].0
                                            == spec_canonical(a.ip)
                                            && old_entries[w].1.spec_contains(a.port);
                                    if w != k {
                                        assert(self.entries@[w] == old_entries[w]);
                                    } else {
                                        assert(self.entries@[k as int].0 == spec_canonical(a.ip));
                                        assert(self.entries@[k as int].1.spec_contains(a.port));
                                    }
                                }
                                if pattern_denies(spec_parse_pattern(addr@), a) {
                                    assert(self.entries@[k as int].0 == spec_canonical(a.ip));
                                    assert(self.entries@[k as int].1.spec_contains(a.port));
                                }
                            }
                        }
                    },
                }
            },
            PatternAddr::IpPort(ip, port) => {
                match self.find(ip) {
                    Option::None => {
                        self.entries.push((ip, PortsSet::new(port)));
                        proof {
                            assert forall|a: SocketAddr| #[trigger]
                                self.spec_contains(a) <==> old(self).spec_contains(a)
                                    || pattern_denies(spec_parse_pattern(addr@), a) by {
                                if self.spec_contains(a) {
                                    let k = choose|k: int|
                                        0 <= k < self.entries@.len() && self.entries@[k].0
                                            == spec_canonical(a.ip)
                                            && self.entries@[k].1.spec_contains(a.port);
                                    if k < old_entries.len() {
                                        assert(old_entries[k] == self.entries@[k]);
                                        assert(old(self).spec_contains(a));
                                    }
                                }
                                if old(self).spec_contains(a) {
                                    let k = choose|k: int|
                                        0 <= k < old_entries.len() && old_entries[k].0
                                            == spec_canonical(a.ip)
                                            && old_entries[k].1.spec_contains(a.port);
                                    assert(self.entries@[k] == old_entries[k]);
                                }
                                if pattern_denies(spec_parse_pattern(addr@), a) {
                                    let k = old_entries.len() as int;
                                    assert(self.entries@[k].0 == spec_canonical(a.ip));
                                    assert(self.entries@[k].1.spec_contains(a.port));
                                }
                            }
                        }
                    },
                    Option::Some(k) => {
                        let mut pair = (0u128, PortsSet::All);
                        self.entries.set_and_swap(k, &mut pair);
                        pair.1.add_port(port);
                        let ghost mid_pair = pair;
                        self.entries.set(k, pair);
                        proof {
                            assert(self.entries@ =~= old_entries.update(k as int, mid_pair));
                            assert forall|a: SocketAddr| #[trigger]
                                self.spec_contains(a) <==> old(self).spec_contains(a)
                                    || pattern_denies(spec_parse_pattern(addr@), a) by {
                                if self.spec_contains(a) {
                                    let w = choose|w: int|
                                        0 <= w < self.entries@.len() && self.entries@[w].0
                                            == spec_canonical(a.ip)
                                            && self.entries@[w].1.spec_contains(a.port);
                                    if w != k {
                                        assert(old_entries[w] == self.entries@[w]);
                                        assert(old(self).spec_contains(a));
                                    } else {
                                        assert(old_entries[k as int].0 == spec_canonical(a.ip));
                                        if old_entries[k as int].1.spec_contains(a.port) {
                                            assert(old(self).spec_contains(a));
                                        } else {
                                            assert(a.port == port);
                                        }
                                    }
                                }
                                if old(self).spec_contains(a) {
                                    let w = choose|w: int|
                                        0 <= w < old_entries.len() && old_entries[w].0
                                            == spec_canonical(a.ip)
                                            && old_entries[w].1.spec_contains(a.port);
                                    if w != k {
                                        assert(self.entries@[w] == old_entries[w]);
                                    } else {
                                        assert(self.entries@[k as int].0 == spec_canonical(a.ip));
                                        assert(self.entries@[k as int].1.spec_contains(a.port));
                                    }
                                }
                                if pattern_denies(spec_parse_pattern(addr@), a) {
                                    assert(self.entries@[k as int].0 == spec_canonical(a.ip));
                                    assert(self.entries@[k as int].1.spec_contains(a.port));
                                }
                            }
                        }
                    },
                }
            },
        }
        Result::Ok(())
    }

    /// Construct a blacklist from a list of patterns, each `IP` (deny every
    /// port) or `IP:PORT` (deny one port). A pattern that does not parse is
    /// skipped; construction itself never fails. The result denies an
    /// endpoint exactly when some pattern of the list denies it, so the
    /// order of the list and repeats in it make no difference.
    pub fn from_iter(patterns: &Vec<String>) -> (r: Self)
        ensures
            r.wf(),
            forall|a: SocketAddr| #[trigger]
                r.spec_contains(a) <==> list_denies(
                    patterns@.map_values(|p: String| p@),
                    a,
                ),
    {
        let ghost views = patterns@.map_values(|p: String| p@);
        let mut result = Blacklist { entries: Vec::new() };
        let n = patterns.len();
        let mut i: usize = 0;
        while i < n
            invariant
                i <= n,
                n == patterns@.len(),
                views == patterns@.map_values(|p: String| p@),
                result.wf(),
                forall|a: SocketAddr| #[trigger]
                    result.spec_contains(a) <==> list_denies(views.take(i as int), a),
            decreases n - i,
        {
            let _ = result.add(patterns[i].as_str());
            proof {
                assert forall|a: SocketAddr| #[trigger]
                    result.spec_contains(a) <==> list_denies(views.take(i + 1), a) by {
                    lemma_list_denies_take_step(views, i as int, a);
                }
            }
            i = i + 1;
        }
        proof {
            assert(views.take(n as int) =~= views);
        }
        result
    }

    /// Returns whether the given endpoint is denied. The endpoint's address
    /// is canonicalized exactly as rule addresses were, so both families of
    /// one host answer alike. Read-only; a pure function of filter and input.
    pub fn contains(&self, addr: &SocketAddr) -> (r: bool)
        ensures
            r == self.spec_contains(*addr),
    {
        let ip = addr.ip.canonical();
        let n = self.entries.len();
        let mut k: usize = 0;
        while k < n
            invariant
                k <= n,
                n == self.entries@.len(),
                ip == spec_canonical(addr.ip),
                forall|w: int|
                    0 <= w < k ==> !(self.entries@[w].0 == ip
                        && self.entries@[w].1.spec_contains(addr.port)),
            decreases n - k,
        {
            let hit = self.entries[k].0 == ip && self.entries[k].1.contains(addr.port);
            if hit {
                return true;
            }
            k = k + 1;
        }
        false
    }
}

impl Default for Blacklist {
    /// The empty blacklist, denying nothing.
    fn default() -> (r: Blacklist)
        ensures
            r.wf(),
            forall|a: SocketAddr| !r.spec_contains(a),
    {
        Blacklist { entries: Vec::new() }
    }
}

/// Extending a pattern list by one pattern extends what it denies by exactly
/// what that pattern denies.
proof fn lemma_list_denies_take_step(ps: Seq<Seq<char>>, i: int, a: SocketAddr)
    requires
        0 <= i < ps.len(),
    ensures
        list_denies(ps.take(i + 1), a) <==> (list_denies(ps.take(i), a) || pattern_denies(
            spec_parse_pattern(ps[i]),
            a,
        )),
{
    let t1 = ps.take(i + 1);
    let t0 = ps.take(i);
    if list_denies(t1, a) {
        let j = choose|j: int|
            0 <= j < t1.len() && pattern_denies(spec_parse_pattern(t1[j]), a);
        if j < i {
            assert(t0[j] == t1[j]);
            assert(pattern_denies(spec_parse_pattern(t0[j]), a));
        } else {
            assert(t1[j] == ps[i]);
        }
    }
    if list_denies(t0, a) {
        let j = choose|j: int|
            0 <= j < t0.len() && pattern_denies(spec_parse_pattern(t0[j]), a);
        assert(t1[j] == t0[j]);
        assert(pattern_denies(spec_parse_pattern(t1[j]), a));
    }
    if pattern_denies(spec_parse_pattern(ps[i]), a) {
        assert(t1[i] == ps[i]);
        assert(pattern_denies(spec_parse_pattern(t1[i]), a));
    }
}

} // verus!
