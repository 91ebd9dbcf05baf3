//! IP and socket addresses as plain numbers.

use vstd::prelude::*;

verus! {

/// An IPv4 address; the first octet is the most significant byte of `bits`.
#[derive(Clone, Copy, Debug, PartialEq, Eq, Structural)]
pub struct Ipv4Addr {
    pub bits: u32,
}

/// An IPv6 address; the first octet is the most significant byte of `bits`.
#[derive(Clone, Copy, Debug, PartialEq, Eq, Structural)]
pub struct Ipv6Addr {
    pub bits: u128,
}

/// An address of either family.
#[derive(Clone, Copy, Debug, PartialEq, Eq, Structural)]
pub enum IpAddr {
    V4(Ipv4Addr),
    V6(Ipv6Addr),
}

/// An IPv4 address and a port.
#[derive(Clone, Copy, Debug, PartialEq, Eq, Structural)]
pub struct SocketAddrV4 {
    pub ip: Ipv4Addr,
    pub port: u16,
}

/// An IPv6 address and a port, with the flow label and the interface scope
/// that a socket address carries beside them.
#[derive(Clone, Copy, Debug, PartialEq, Eq, Structural)]
pub struct SocketAddrV6 {
    pub ip: Ipv6Addr,
    pub port: u16,
    pub flowinfo: u32,
    pub scope_id: u32,
}

/// A socket address of either family.
#[derive(Clone, Copy, Debug, PartialEq, Eq, Structural)]
pub enum SocketAddr {
    V4(SocketAddrV4),
    V6(SocketAddrV6),
}

impl IpAddr {
    /// Whether this is the wildcard address, `0.0.0.0` or `::`.
    pub open spec fn unspecified(self) -> bool {
        match self {
            IpAddr::V4(ip) => ip.bits == 0,
            IpAddr::V6(ip) => ip.bits == 0,
        }
    }

    /// Whether this is the wildcard address.
    pub fn is_unspecified(&self) -> (r: bool)
        ensures
            r == self.unspecified(),
            *self matches IpAddr::V4(ip) ==> r == (ip.bits == 0),
            *self matches IpAddr::V6(ip) ==> r == (ip.bits == 0),
    {
        match self {
            IpAddr::V4(ip) => ip.bits == 0,
            IpAddr::V6(ip) => ip.bits == 0,
        }
    }
}

impl SocketAddr {
    /// The socket address of `ip` and `port`, with no flow label and no scope.
    pub open spec fn of(ip: IpAddr, port: u16) -> SocketAddr {
        match ip {
            IpAddr::V4(ip) => SocketAddr::V4(SocketAddrV4 { ip, port }),
            IpAddr::V6(ip) => SocketAddr::V6(SocketAddrV6 { ip, port, flowinfo: 0, scope_id: 0 }),
        }
    }

    /// The IP address.
    pub open spec fn spec_ip(self) -> IpAddr {
        match self {
            SocketAddr::V4(a) => IpAddr::V4(a.ip),
            SocketAddr::V6(a) => IpAddr::V6(a.ip),
        }
    }

    /// The port.
    pub open spec fn spec_port(self) -> u16 {
        match self {
            SocketAddr::V4(a) => a.port,
            SocketAddr::V6(a) => a.port,
        }
    }

    /// Pairs an IP address with a port; an IPv6 result has flow label and
    /// scope zero.
    pub fn new(ip: IpAddr, port: u16) -> (r: SocketAddr)
        ensures
            r == SocketAddr::of(ip, port),
            ip matches IpAddr::V4(a) ==> r == SocketAddr::V4(SocketAddrV4 { ip: a, port }),
            ip matches IpAddr::V6(a) ==> r == SocketAddr::V6(
                SocketAddrV6 { ip: a, port, flowinfo: 0, scope_id: 0 },
            ),
    {
        match ip {
            IpAddr::V4(ip) => SocketAddr::V4(SocketAddrV4 { ip, port }),
            IpAddr::V6(ip) => SocketAddr::V6(SocketAddrV6 { ip, port, flowinfo: 0, scope_id: 0 }),
        }
    }

    /// Whether the address is of the IPv6 family.
    pub fn is_ipv6(&self) -> (r: bool)
        ensures
            r == (self is V6),
    {
        match self {
            SocketAddr::V4(_) => false,
            SocketAddr::V6(_) => true,
        }
    }

    /// The IP address.
    pub fn ip(&self) -> (r: IpAddr)
        ensures
            r == self.spec_ip(),
            *self matches SocketAddr::V4(a) ==> r == IpAddr::V4(a.ip),
            *self matches SocketAddr::V6(a) ==> r == IpAddr::V6(a.ip),
    {
        match self {
            SocketAddr::V4(a) => IpAddr::V4(a.ip),
            SocketAddr::V6(a) => IpAddr::V6(a.ip),
        }
    }

    /// The port.
    pub fn port(&self) -> (r: u16)
        ensures
            r == self.spec_port(),
            *self matches SocketAddr::V4(a) ==> r == a.port,
            *self matches SocketAddr::V6(a) ==> r == a.port,
    {
        match self {
            SocketAddr::V4(a) => a.port,
            SocketAddr::V6(a) => a.port,
        }
    }
}

/// Pairing an IP address with a port keeps both: they are read back as they
/// were given, and the result carries nothing else.
pub proof fn law_address_keeps_ip_and_port(ip: IpAddr, port: u16)
    ensures
        SocketAddr::of(ip, port).spec_ip() == ip,
        SocketAddr::of(ip, port).spec_port() == port,
        ip matches IpAddr::V4(a) ==> (SocketAddr::of(ip, port) matches SocketAddr::V4(s) && s.ip
            == a && s.port == port),
        ip matches IpAddr::V6(a) ==> (SocketAddr::of(ip, port) matches SocketAddr::V6(s) && s.ip
            == a && s.port == port && s.flowinfo == 0 && s.scope_id == 0),
{
}

/// Reading the IP address and the port of a socket address gives its own, and
/// for IPv4 they are all there is: two such addresses that agree in both are
/// the same.
pub proof fn law_ip_and_port_are_read_unchanged(a: SocketAddr, b: SocketAddr)
    ensures
        a matches SocketAddr::V4(s) ==> a.spec_ip() == IpAddr::V4(s.ip) && a.spec_port() == s.port,
        a matches SocketAddr::V6(s) ==> a.spec_ip() == IpAddr::V6(s.ip) && a.spec_port() == s.port,
        a is V4 ==> (a == b <==> a.spec_ip() == b.spec_ip() && a.spec_port() == b.spec_port()),
{
}

/// Of each family exactly one address is the wildcard: the one whose bits are
/// all zero.
pub proof fn law_one_wildcard_per_family(ip: IpAddr)
    ensures
        ip.unspecified() <==> ip == IpAddr::V4(Ipv4Addr { bits: 0 }) || ip == IpAddr::V6(
            Ipv6Addr { bits: 0 },
        ),
{
}

} // verus!
