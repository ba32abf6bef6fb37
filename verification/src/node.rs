//! Identifiers and addresses of overlay nodes.
//!
//! A node is named by a compact byte tag (`NodeID`), reached through a
//! resolved endpoint (`NodeAddress`) and bootstrapped from a
//! `PeerNodeAddress`, which may still need DNS resolution.

use vstd::prelude::*;

verus! {

broadcast use vstd::array::group_array_axioms;

/// A node identifier: a 4-byte tag or an extended 16-byte tag.
/// Equality is byte-wise; the all-zeros value means "unset", and is used
/// for packets addressed to whoever receives them.
#[derive(Debug, Clone, Copy)]
pub enum NodeID {
    Short([u8; 4]),
    Extended([u8; 16]),
}

impl View for NodeID {
    type V = Seq<u8>;

    open spec fn view(&self) -> Seq<u8> {
        match *self {
            NodeID::Short(b) => b@,
            NodeID::Extended(b) => b@,
        }
    }
}

impl NodeID {
    /// Width of the identifier in bytes.
    pub open spec fn spec_width(self) -> int {
        self@.len() as int
    }

    pub fn width(&self) -> (r: usize)
        ensures
            r == self.spec_width(),
    {
        match self {
            NodeID::Short(_) => 4,
            NodeID::Extended(_) => 16,
        }
    }

    /// The reserved all-zeros identifier.
    pub open spec fn spec_is_unset(self) -> bool {
        forall|i: int| 0 <= i < self@.len() ==> self@[i] == 0
    }

    pub fn is_unset(&self) -> (r: bool)
        ensures
            r == self.spec_is_unset(),
    {
        match self {
            NodeID::Short(b) => {
                let s = b.as_slice();
                let z = all_zero(s);
                assert(s@ == self@);
                z
            },
            NodeID::Extended(b) => {
                let s = b.as_slice();
                let z = all_zero(s);
                assert(s@ == self@);
                z
            },
        }
    }

    /// Two identifiers of different widths never belong to one overlay.
    pub fn same_width(&self, other: &NodeID) -> (r: bool)
        ensures
            r == (self.spec_width() == other.spec_width()),
    {
        self.width() == other.width()
    }
}

impl PartialEq for NodeID {
    fn eq(&self, other: &Self) -> (r: bool) {
        match (self, other) {
            (NodeID::Short(a), NodeID::Short(b)) => {
                let sa = a.as_slice();
                let sb = b.as_slice();
                let r = bytes_eq(sa, sb);
                assert(sa@ == self@ && sb@ == other@);
                r
            },
            (NodeID::Extended(a), NodeID::Extended(b)) => {
                let sa = a.as_slice();
                let sb = b.as_slice();
                let r = bytes_eq(sa, sb);
                assert(sa@ == self@ && sb@ == other@);
                r
            },
            _ => {
                assert(self@.len() != other@.len());
                false
            },
        }
    }
}

impl vstd::std_specs::cmp::PartialEqSpecImpl for NodeID {
    open spec fn obeys_eq_spec() -> bool {
        true
    }

    open spec fn eq_spec(&self, other: &Self) -> bool {
        self@ == other@
    }
}

/// Byte-wise equality of two slices.
pub fn bytes_eq(a: &[u8], b: &[u8]) -> (r: bool)
    ensures
        r == (a@ == b@),
{
    if a.len() != b.len() {
        assert(a@ != b@) by {
            assert(a@.len() != b@.len());
        }
        return false;
    }
    let n = a.len();
    let mut i: usize = 0;
    while i < n
        invariant
            n == a@.len() == b@.len(),
            0 <= i <= n,
            forall|j: int| 0 <= j < i ==> a@[j] == b@[j],
        decreases n - i,
    {
        if a[i] != b[i] {
            return false;
        }
        i += 1;
    }
    assert(a@ =~= b@);
    true
}

/// Whether every byte of a slice is zero.
pub fn all_zero(s: &[u8]) -> (r: bool)
    ensures
        r == (forall|i: int| 0 <= i < s@.len() ==> s@[i] == 0),
{
    let n = s.len();
    let mut i: usize = 0;
    while i < n
        invariant
            n == s@.len(),
            0 <= i <= n,
            forall|j: int| 0 <= j < i ==> s@[j] == 0,
        decreases n - i,
    {
        if s[i] != 0 {
            return false;
        }
        i += 1;
    }
    true
}

/// A socket address the library can reason about: an IPv4 or IPv6
/// endpoint given as raw octets in network order, with a port.
#[derive(Debug, Clone, Copy, PartialEq, Eq)]
pub enum SockAddr {
    V4 { ip: [u8; 4], port: u16 },
    V6 { ip: [u8; 16], port: u16 },
}

impl SockAddr {
    pub open spec fn spec_port(self) -> u16 {
        match self {
            SockAddr::V4 { port, .. } => port,
            SockAddr::V6 { port, .. } => port,
        }
    }

    pub fn port(&self) -> (r: u16)
        ensures
            r == self.spec_port(),
    {
        match self {
            SockAddr::V4 { port, .. } => *port,
            SockAddr::V6 { port, .. } => *port,
        }
    }

    pub fn is_v4(&self) -> (r: bool)
        ensures
            r == (self matches SockAddr::V4 { .. }),
    {
        match self {
            SockAddr::V4 { .. } => true,
            SockAddr::V6 { .. } => false,
        }
    }
}

/// A resolved peer endpoint: a socket address reached over UDP or TCP.
#[derive(Debug, Clone, Copy, PartialEq, Eq)]
pub enum NodeAddress {
    Udp(SockAddr),
    Tcp(SockAddr),
}

impl NodeAddress {
    pub open spec fn spec_sock(self) -> SockAddr {
        match self {
            NodeAddress::Udp(a) => a,
            NodeAddress::Tcp(a) => a,
        }
    }

    pub fn sock(&self) -> (r: SockAddr)
        ensures
            r == self.spec_sock(),
    {
        match self {
            NodeAddress::Udp(a) => *a,
            NodeAddress::Tcp(a) => *a,
        }
    }

    pub fn is_udp(&self) -> (r: bool)
        ensures
            r == (self matches NodeAddress::Udp(_)),
    {
        match self {
            NodeAddress::Udp(_) => true,
            NodeAddress::Tcp(_) => false,
        }
    }
}

/// How to reach a bootstrap peer: a ready socket address, a domain that
/// still needs an A/AAAA lookup, or a name whose TXT records list
/// further peer addresses.
#[derive(Debug, Clone, PartialEq, Eq)]
pub enum PeerNodeAddress {
    Socket(NodeAddress),
    Domain { udp: bool, host: String, port: u16 },
    Txt { domain: String },
}

} // verus!
