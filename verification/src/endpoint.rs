//! Endpoints: concrete `(IP address, port)` backends of a service, together
//! with the logical service definition they were resolved from.

use vstd::prelude::*;

verus! {

/// An IP address, v4 or v6, held as its numeric value.
#[derive(Clone, Copy, PartialEq, Eq, Structural, Hash, Debug)]
pub enum IpAddress {
    V4(u32),
    V6(u128),
}

/// A resolvable transport address: an IP address combined with a port.
/// Two endpoints are equal iff their `(address, port)` tuple is equal.
#[derive(Clone, Copy, PartialEq, Eq, Structural, Hash, Debug)]
pub struct Endpoint {
    pub address: IpAddress,
    pub port: u16,
}

impl IpAddress {
    /// Build a v4 address from its four octets, most significant first.
    pub fn v4(a: u8, b: u8, c: u8, d: u8) -> (r: IpAddress)
        ensures
            r == IpAddress::V4(
                ((a as u32) * 0x1000000 + (b as u32) * 0x10000 + (c as u32) * 0x100
                    + (d as u32)) as u32,
            ),
    {
        IpAddress::V4(
            (a as u32) * 0x1000000 + (b as u32) * 0x10000 + (c as u32) * 0x100 + (d as u32),
        )
    }
}

impl Endpoint {
    /// Pair an address with a port.
    pub fn new(address: IpAddress, port: u16) -> (r: Endpoint)
        ensures
            r == (Endpoint { address, port }),
    {
        Endpoint { address, port }
    }
}

/// The logical identity of the target service: an immutable
/// `(hostname, port)` pair.
#[derive(Debug)]
pub struct ServiceDefinition {
    pub hostname: String,
    pub port: u16,
}

impl ServiceDefinition {
    pub fn new(hostname: String, port: u16) -> (r: ServiceDefinition)
        ensures
            r.hostname@ == hostname@,
            r.port == port,
    {
        ServiceDefinition { hostname, port }
    }
}

} // verus!
