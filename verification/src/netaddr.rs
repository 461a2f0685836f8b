//! Network endpoints as the protocol sees them: an IPv4 address with a
//! port, an optional timestamp and a service bitfield.

use vstd::prelude::*;

verus! {

/// An IPv4 address as four octets in display order: `a.b.c.d`.
#[derive(Clone, Copy, Debug, PartialEq, Eq)]
pub struct IpV4 {
    pub a: u8,
    pub b: u8,
    pub c: u8,
    pub d: u8,
}

impl IpV4 {
    /// Build an address from its four octets.
    pub fn new(a: u8, b: u8, c: u8, d: u8) -> (r: IpV4)
        ensures
            r == (IpV4 { a, b, c, d }),
    {
        IpV4 { a, b, c, d }
    }

    /// Field-wise equality test.
    pub fn same(&self, other: &IpV4) -> (r: bool)
        ensures
            r == (*self == *other),
    {
        self.a == other.a && self.b == other.b && self.c == other.c && self.d == other.d
    }

    /// Whether this is the all-zero (unspecified) address.
    pub open spec fn spec_is_zero(&self) -> bool {
        self.a == 0 && self.b == 0 && self.c == 0 && self.d == 0
    }

    /// Whether this is the all-zero (unspecified) address.
    pub fn is_zero(&self) -> (r: bool)
        ensures
            r == self.spec_is_zero(),
    {
        self.a == 0 && self.b == 0 && self.c == 0 && self.d == 0
    }
}

/// An IPv4 socket endpoint.
#[derive(Clone, Copy, Debug, PartialEq, Eq)]
pub struct SockAddr {
    pub ip: IpV4,
    pub port: u16,
}

impl SockAddr {
    /// Build an endpoint from an address and a port.
    pub fn new(ip: IpV4, port: u16) -> (r: SockAddr)
        ensures
            r == (SockAddr { ip, port }),
    {
        SockAddr { ip, port }
    }

    /// Field-wise equality test.
    pub fn same(&self, other: &SockAddr) -> (r: bool)
        ensures
            r == (*self == *other),
    {
        self.ip.same(&other.ip) && self.port == other.port
    }
}

/// A network address record: optional timestamp in seconds, service
/// bitfield, and an optional endpoint.
#[derive(Clone, Copy, Debug, PartialEq, Eq)]
pub struct NetAddr {
    pub time: Option<u32>,
    pub services: u64,
    pub addr: Option<SockAddr>,
}

impl NetAddr {
    /// Build a record from its parts.
    pub fn new(time: Option<u32>, services: u64, addr: Option<SockAddr>) -> (r: NetAddr)
        ensures
            r == (NetAddr { time, services, addr }),
    {
        NetAddr { time, services, addr }
    }

    /// A valid address to store or announce: an IPv4 unicast endpoint with
    /// a non-zero port and a non-zero host.
    pub open spec fn spec_is_valid_addr(&self) -> bool {
        match self.addr {
            Some(sa) => sa.port != 0 && !sa.ip.spec_is_zero(),
            None => false,
        }
    }

    /// A valid address to store or announce: an IPv4 unicast endpoint with
    /// a non-zero port and a non-zero host.
    pub fn is_valid_addr(&self) -> (r: bool)
        ensures
            r == self.spec_is_valid_addr(),
    {
        match self.addr {
            Some(sa) => sa.port != 0 && !sa.ip.is_zero(),
            None => false,
        }
    }
}

} // verus!
