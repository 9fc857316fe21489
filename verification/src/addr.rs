//! IPv4 addresses of the virtual network.

use vstd::prelude::*;

verus! {

/// An IPv4 address, most significant octet first.
#[derive(Clone, Copy, PartialEq, Eq, Structural, Debug, Hash)]
pub struct Ipv4Addr {
    pub a: u8,
    pub b: u8,
    pub c: u8,
    pub d: u8,
}

impl Ipv4Addr {
    /// The address `a.b.c.d`.
    pub fn new(a: u8, b: u8, c: u8, d: u8) -> (r: Ipv4Addr)
        ensures
            r == (Ipv4Addr { a, b, c, d }),
    {
        Ipv4Addr { a, b, c, d }
    }

    /// The four octets, as a sequence.
    pub open spec fn bytes(self) -> Seq<u8> {
        seq![self.a, self.b, self.c, self.d]
    }

    /// The four octets.
    pub fn octets(&self) -> (r: [u8; 4])
        ensures
            r@ == self.bytes(),
    {
        let r = [self.a, self.b, self.c, self.d];
        assert(r@ =~= self.bytes());
        r
    }

    /// The address as a 32-bit number, most significant octet first.
    pub open spec fn bits(self) -> u32 {
        (self.a * 0x1000000 + self.b * 0x10000 + self.c * 0x100 + self.d) as u32
    }

    /// The address as a 32-bit number, most significant octet first.
    pub fn to_bits(&self) -> (r: u32)
        ensures
            r == self.bits(),
    {
        self.a as u32 * 0x1000000 + self.b as u32 * 0x10000 + self.c as u32 * 0x100 + self.d as u32
    }

    /// Whether two addresses share their first three octets, that is, lie in
    /// one /24.
    pub open spec fn same_subnet(self, other: Ipv4Addr) -> bool {
        self.a == other.a && self.b == other.b && self.c == other.c
    }
}

/// Different addresses have different numbers.
pub proof fn lemma_bits_injective(x: Ipv4Addr, y: Ipv4Addr)
    requires
        x.bits() == y.bits(),
    ensures
        x == y,
{
}

} // verus!
