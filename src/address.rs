//! Network addresses as plain values.
use vstd::prelude::*;

verus! {

/// An IPv4 address, by its four octets in network order.
#[derive(Clone, Copy, Debug, PartialEq, Eq, Structural)]
pub struct Ipv4 {
    pub a: u8,
    pub b: u8,
    pub c: u8,
    pub d: u8,
}

/// An IPv4 address together with a port.
#[derive(Clone, Copy, Debug, PartialEq, Eq, Structural)]
pub struct Endpoint {
    pub ip: Ipv4,
    pub port: u16,
}

impl Ipv4 {
    /// Multicast addresses are those of 224.0.0.0/4.
    pub open spec fn spec_is_multicast(self) -> bool {
        224 <= self.a && self.a <= 239
    }

    pub fn new(a: u8, b: u8, c: u8, d: u8) -> (r: Ipv4)
        ensures
            r == (Ipv4 { a, b, c, d }),
    {
        Ipv4 { a, b, c, d }
    }

    /// The unspecified address 0.0.0.0, which binds on every interface.
    pub fn unspecified() -> (r: Ipv4)
        ensures
            r == (Ipv4 { a: 0, b: 0, c: 0, d: 0 }),
    {
        Ipv4 { a: 0, b: 0, c: 0, d: 0 }
    }

    pub fn octets(&self) -> (r: [u8; 4])
        ensures
            r@ == seq![self.a, self.b, self.c, self.d],
    {
        let r = [self.a, self.b, self.c, self.d];
        assert(r@ =~= seq![self.a, self.b, self.c, self.d]);
        r
    }

    pub fn is_multicast(&self) -> (r: bool)
        ensures
            r == self.spec_is_multicast(),
    {
        224 <= self.a && self.a <= 239
    }
}

impl Endpoint {
    pub fn new(ip: Ipv4, port: u16) -> (r: Endpoint)
        ensures
            r == (Endpoint { ip, port }),
    {
        Endpoint { ip, port }
    }
}

} // verus!
