//! Network addresses as plain values.

use vstd::prelude::*;

use crate::assoc::Key;

verus! {

/// An IP address; the number is the address in network order.
#[derive(Clone, Copy, Debug, PartialEq, Eq, Hash, Structural)]
pub enum IpAddr {
    V4(u32),
    V6(u128),
}

/// A socket address of either family.
#[derive(Clone, Copy, Debug, PartialEq, Eq, Hash, Structural)]
#[allow(inconsistent_fields)]
pub enum SocketAddr {
    V4 { ip: u32, port: u16 },
    V6 { ip: u128, port: u16, flowinfo: u32, scope_id: u32 },
}

/// The two ends of one RTP flow.
#[derive(Clone, Copy, Debug, PartialEq, Eq, Hash, Structural)]
pub struct SocketAddrPair {
    pub local_addr: SocketAddr,
    pub peer_addr: SocketAddr,
}

impl IpAddr {
    pub fn is_ipv4(&self) -> (r: bool)
        ensures
            r == (*self is V4),
    {
        matches!(self, IpAddr::V4(_))
    }

    pub open spec fn unspecified(&self) -> bool {
        match *self {
            IpAddr::V4(ip) => ip == 0,
            IpAddr::V6(ip) => ip == 0,
        }
    }

    pub fn is_unspecified(&self) -> (r: bool)
        ensures
            r == self.unspecified(),
    {
        match self {
            IpAddr::V4(ip) => *ip == 0,
            IpAddr::V6(ip) => *ip == 0,
        }
    }
}

impl SocketAddr {
    pub open spec fn spec_ip(&self) -> IpAddr {
        match *self {
            SocketAddr::V4 { ip, port } => IpAddr::V4(ip),
            SocketAddr::V6 { ip, port, flowinfo, scope_id } => IpAddr::V6(ip),
        }
    }

    pub open spec fn spec_port(&self) -> u16 {
        match *self {
            SocketAddr::V4 { ip, port } => port,
            SocketAddr::V6 { ip, port, flowinfo, scope_id } => port,
        }
    }

    pub open spec fn spec_with_port(&self, p: u16) -> SocketAddr {
        match *self {
            SocketAddr::V4 { ip, port } => SocketAddr::V4 { ip, port: p },
            SocketAddr::V6 { ip, port, flowinfo, scope_id } => SocketAddr::V6 {
                ip,
                port: p,
                flowinfo,
                scope_id,
            },
        }
    }

    #[verifier::when_used_as_spec(spec_ip)]
    pub fn ip(&self) -> (r: IpAddr)
        ensures
            r == self.spec_ip(),
    {
        match *self {
            SocketAddr::V4 { ip, port: _ } => IpAddr::V4(ip),
            SocketAddr::V6 { ip, port: _, flowinfo: _, scope_id: _ } => IpAddr::V6(ip),
        }
    }

    #[verifier::when_used_as_spec(spec_port)]
    pub fn port(&self) -> (r: u16)
        ensures
            r == self.spec_port(),
    {
        match *self {
            SocketAddr::V4 { ip: _, port } => port,
            SocketAddr::V6 { ip: _, port, flowinfo: _, scope_id: _ } => port,
        }
    }

    /// The same address with another port.
    #[verifier::when_used_as_spec(spec_with_port)]
    pub fn with_port(&self, p: u16) -> (r: SocketAddr)
        ensures
            r == self.spec_with_port(p),
    {
        match *self {
            SocketAddr::V4 { ip, port: _ } => SocketAddr::V4 { ip, port: p },
            SocketAddr::V6 { ip, port: _, flowinfo, scope_id } => SocketAddr::V6 {
                ip,
                port: p,
                flowinfo,
                scope_id,
            },
        }
    }
}

impl Key for IpAddr {
    fn same(&self, other: &Self) -> (r: bool) {
        *self == *other
    }
}

impl Key for SocketAddr {
    fn same(&self, other: &Self) -> (r: bool) {
        *self == *other
    }
}

/// An address with another port is that of the same host, in the same family
/// and scope, and nothing but the port can tell it from the first.
pub proof fn lemma_another_port_is_the_same_host(addr: SocketAddr, p: u16)
    ensures
        addr.with_port(p).ip() == addr.ip(),
        addr.with_port(p).port() == p,
        addr.with_port(addr.port()) == addr,
        addr.with_port(p) is V4 <==> addr is V4,
        addr.with_port(p).with_port(addr.port()) == addr,
{
}

/// A host and a port make an address of the first family; one of the second
/// has a scope besides.
pub proof fn lemma_an_address_is_its_parts(v4: u32, v6: u128, port: u16, flowinfo: u32, scope_id: u32)
    ensures
        (SocketAddr::V4 { ip: v4, port }).ip() == IpAddr::V4(v4),
        (SocketAddr::V4 { ip: v4, port }).port() == port,
        (SocketAddr::V6 { ip: v6, port, flowinfo, scope_id }).ip() == IpAddr::V6(v6),
        (SocketAddr::V6 { ip: v6, port, flowinfo, scope_id }).port() == port,
        IpAddr::V4(v4).unspecified() <==> v4 == 0,
        IpAddr::V6(v6).unspecified() <==> v6 == 0,
{
}

} // verus!
