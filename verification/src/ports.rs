//! The set of ports denied for one address.
//!
//! A [`PortsSet`] is either `All` — every port is denied — or an explicit
//! list of ports without duplicates. Once a set becomes `All` it stays `All`:
//! adding a single port to it changes nothing, since every port is already
//! denied.

use vstd::prelude::*;

verus! {

/// Set of TCP ports with a special case for "all ports".
#[derive(Clone, Debug)]
pub enum PortsSet {
    All,
    Listed(Vec<u16>),
}

impl PortsSet {
    /// Well-formed: an explicit list holds no port twice.
    pub open spec fn wf(self) -> bool {
        match self {
            PortsSet::All => true,
            PortsSet::Listed(v) => forall|i: int, j: int|
                0 <= i < j < v@.len() ==> v@[i] != v@[j],
        }
    }

    /// Whether this set denies `port`.
    pub open spec fn spec_contains(self, port: u16) -> bool {
        match self {
            PortsSet::All => true,
            PortsSet::Listed(v) => v@.contains(port),
        }
    }

    /// The set denying exactly `port`.
    pub fn new(port: u16) -> (r: Self)
        ensures
            r.wf(),
            !(r is All),
            forall|q: u16| r.spec_contains(q) <==> q == port,
    {
        let mut v: Vec<u16> = Vec::new();
        v.push(port);
        proof {
            assert(v@[0] == port);
        }
        PortsSet::Listed(v)
    }

    /// Denies every port from now on, discarding any explicit list.
    pub fn add_all(&mut self)
        ensures
            (*final(self)) is All,
            final(self).wf(),
            forall|q: u16| final(self).spec_contains(q),
    {
        *self = PortsSet::All;
    }

    /// Denies `port` as well. On `All` this changes nothing — every port,
    /// `port` among them, is already denied — so a set never leaves `All`.
    pub fn add_port(&mut self, port: u16)
        requires
            old(self).wf(),
        ensures
            final(self).wf(),
            (*final(self)) is All <==> (*old(self)) is All,
            forall|q: u16|
                final(self).spec_contains(q) <==> old(self).spec_contains(q) || q == port,
    {
        if self.contains(port) {
            return ;
        }
        match self {
            PortsSet::All => {},
            PortsSet::Listed(v) => {
                v.push(port);
                proof {
                    assert forall|q: u16| #[trigger]
                        v@.contains(q) <==> old(self).spec_contains(q) || q == port by {
                        if old(self).spec_contains(q) {
                            let w = choose|w: int|
                                0 <= w < old(self)->Listed_0@.len() && old(
                                    self,
                                )->Listed_0@[w] == q;
                            assert(v@[w] == q);
                        }
                        if q == port {
                            assert(v@[v@.len() - 1] == q);
                        }
                        if v@.contains(q) {
                            let w = choose|w: int| 0 <= w < v@.len() && v@[w] == q;
                            if w < v@.len() - 1 {
                                assert(old(self)->Listed_0@[w] == q);
                            }
                        }
                    }
                }
            },
        }
    }

    /// Whether `port` is denied: always for `All`, else by membership in the
    /// explicit list.
    pub fn contains(&self, port: u16) -> (r: bool)
        ensures
            r == self.spec_contains(port),
    {
        match self {
            PortsSet::All => true,
            PortsSet::Listed(v) => {
                let n = v.len();
                let mut k: usize = 0;
                while k < n
                    invariant
                        k <= n,
                        n == v@.len(),
                        self.spec_contains(port) == v@.contains(port),
                        forall|w: int| 0 <= w < k ==> v@[w] != port,
                    decreases n - k,
                {
                    if v[k] == port {
                        proof {
                            assert(v@[k as int] == port);
                            assert(v@.contains(port));
                        }
                        return true;
                    }
                    k = k + 1;
                }
                false
            },
        }
    }
}

} // verus!
