//! Address values held by DNS records.
use vstd::prelude::*;

verus! {

/// An IPv4 address, held as its 32-bit number (first octet most significant).
#[derive(Clone, Copy, Debug, PartialEq, Eq, Structural, Hash)]
pub struct Ipv4(pub u32);

/// An IPv6 address, held as its 128-bit number (first segment most significant).
#[derive(Clone, Copy, Debug, PartialEq, Eq, Structural, Hash)]
pub struct Ipv6(pub u128);

impl Ipv4 {
    /// The address `a.b.c.d`.
    pub fn new(a: u8, b: u8, c: u8, d: u8) -> (r: Ipv4)
        ensures
            r.0 == a as int * 0x100_0000 + b as int * 0x1_0000 + c as int * 0x100 + d as int,
    {
        Ipv4((a as u32) * 0x100_0000 + (b as u32) * 0x1_0000 + (c as u32) * 0x100 + (d as u32))
    }
}

impl Ipv6 {
    /// The address made of eight 16-bit segments, first segment first.
    pub fn new(s0: u16, s1: u16, s2: u16, s3: u16, s4: u16, s5: u16, s6: u16, s7: u16) -> (r: Ipv6)
        ensures
            r.0 == ((((((s0 as int * 0x1_0000 + s1 as int) * 0x1_0000 + s2 as int) * 0x1_0000
                + s3 as int) * 0x1_0000 + s4 as int) * 0x1_0000 + s5 as int) * 0x1_0000
                + s6 as int) * 0x1_0000 + s7 as int,
    {
        let mut v: u128 = s0 as u128;
        assert(v < 0x1_0000);
        v = v * 0x1_0000 + s1 as u128;
        assert(v < 0x1_0000_0000);
        v = v * 0x1_0000 + s2 as u128;
        assert(v < 0x1_0000_0000_0000);
        v = v * 0x1_0000 + s3 as u128;
        assert(v < 0x1_0000_0000_0000_0000);
        v = v * 0x1_0000 + s4 as u128;
        assert(v < 0x1_0000_0000_0000_0000_0000);
        v = v * 0x1_0000 + s5 as u128;
        assert(v < 0x1_0000_0000_0000_0000_0000_0000);
        v = v * 0x1_0000 + s6 as u128;
        assert(v < 0x1_0000_0000_0000_0000_0000_0000_0000);
        v = v * 0x1_0000 + s7 as u128;
        Ipv6(v)
    }
}

} // verus!
