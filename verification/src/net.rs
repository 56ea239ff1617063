//! Plain-value IP addresses and socket addresses.
//!
//! An IPv4 address is its 32-bit big-endian value and an IPv6 address its
//! 128-bit big-endian value, as in `Ipv4Addr::to_bits` and `Ipv6Addr::to_bits`.

use vstd::prelude::*;

verus! {

#[derive(Debug, Clone, Copy, PartialEq, Eq, Hash, Structural)]
pub enum IpAddress {
    V4(u32),
    V6(u128),
}

#[derive(Debug, Clone, Copy, PartialEq, Eq, Hash, Structural)]
pub struct SocketAddress {
    pub ip: IpAddress,
    pub port: u16,
}

/// The big-endian value of up to four bytes.
pub open spec fn be_u32(bytes: Seq<u8>) -> u32
    decreases bytes.len(),
{
    if bytes.len() == 0 {
        0
    } else {
        (be_u32(bytes.drop_last()) << 8u32) | (bytes.last() as u32)
    }
}

/// The big-endian value of up to sixteen bytes.
pub open spec fn be_u128(bytes: Seq<u8>) -> u128
    decreases bytes.len(),
{
    if bytes.len() == 0 {
        0
    } else {
        (be_u128(bytes.drop_last()) << 8u128) | (bytes.last() as u128)
    }
}

/// Reads the four bytes at `start` as a big-endian IPv4 address.
pub fn read_ipv4(bytes: &[u8], start: usize) -> (address: u32)
    requires
        start + 4 <= bytes@.len(),
    ensures
        address == be_u32(bytes@.subrange(start as int, start + 4)),
{
    let mut value: u32 = 0;
    let mut index: usize = 0;
    while index < 4
        invariant
            start + 4 <= bytes.len(),
            index <= 4,
            value == be_u32(bytes@.subrange(start as int, start + index)),
        decreases 4 - index,
    {
        assert(bytes@.subrange(start as int, start + index + 1).drop_last() =~= bytes@.subrange(
            start as int,
            start + index,
        ));
        value = (value << 8u32) | (bytes[start + index] as u32);
        index = index + 1;
    }
    value
}

/// Reads the sixteen bytes at `start` as a big-endian IPv6 address.
pub fn read_ipv6(bytes: &[u8], start: usize) -> (address: u128)
    requires
        start + 16 <= bytes@.len(),
    ensures
        address == be_u128(bytes@.subrange(start as int, start + 16)),
{
    let mut value: u128 = 0;
    let mut index: usize = 0;
    while index < 16
        invariant
            start + 16 <= bytes.len(),
            index <= 16,
            value == be_u128(bytes@.subrange(start as int, start + index)),
        decreases 16 - index,
    {
        assert(bytes@.subrange(start as int, start + index + 1).drop_last() =~= bytes@.subrange(
            start as int,
            start + index,
        ));
        value = (value << 8u128) | (bytes[start + index] as u128);
        index = index + 1;
    }
    value
}

impl IpAddress {
    pub fn is_ipv4(&self) -> (ipv4: bool)
        ensures
            ipv4 == (*self is V4),
    {
        match self {
            IpAddress::V4(_) => true,
            IpAddress::V6(_) => false,
        }
    }

    pub fn is_ipv6(&self) -> (ipv6: bool)
        ensures
            ipv6 == (*self is V6),
    {
        match self {
            IpAddress::V4(_) => false,
            IpAddress::V6(_) => true,
        }
    }
}

/// The unspecified address: `0.0.0.0` or `::`.
pub open spec fn spec_is_unspecified(ip: IpAddress) -> bool {
    match ip {
        IpAddress::V4(value) => value == 0,
        IpAddress::V6(value) => value == 0,
    }
}

/// A multicast address: `224.0.0.0/4` or `ff00::/8`.
pub open spec fn spec_is_multicast(ip: IpAddress) -> bool {
    match ip {
        IpAddress::V4(value) => 0xe000_0000 <= value && value < 0xf000_0000,
        IpAddress::V6(value) => value >= 0xff00_0000_0000_0000_0000_0000_0000_0000u128,
    }
}

impl IpAddress {
    /// Whether this is the unspecified address of its family.
    pub fn is_unspecified(&self) -> (unspecified: bool)
        ensures
            unspecified == spec_is_unspecified(*self),
    {
        match self {
            IpAddress::V4(value) => *value == 0,
            IpAddress::V6(value) => *value == 0,
        }
    }

    /// Whether this is a multicast address.
    pub fn is_multicast(&self) -> (multicast: bool)
        ensures
            multicast == spec_is_multicast(*self),
    {
        match self {
            IpAddress::V4(value) => 0xe000_0000 <= *value && *value < 0xf000_0000,
            IpAddress::V6(value) => *value >= 0xff00_0000_0000_0000_0000_0000_0000_0000u128,
        }
    }
}

impl SocketAddress {
    pub fn new(ip: IpAddress, port: u16) -> (address: Self)
        ensures
            address.ip == ip,
            address.port == port,
    {
        SocketAddress { ip, port }
    }

    pub fn is_ipv4(&self) -> (ipv4: bool)
        ensures
            ipv4 == (self.ip is V4),
    {
        self.ip.is_ipv4()
    }

    pub fn is_ipv6(&self) -> (ipv6: bool)
        ensures
            ipv6 == (self.ip is V6),
    {
        self.ip.is_ipv6()
    }
}

} // verus!
