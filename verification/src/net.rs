//! Network addresses as plain values.

use vstd::prelude::*;

verus! {

/// An IP address: the four octets of IPv4, or the 128 bits of IPv6 read as
/// one big-endian number.
#[derive(Clone, Copy, Debug, PartialEq, Eq, Structural)]
pub enum IpAddress {
    V4(u8, u8, u8, u8),
    V6(u128),
}

/// An IP address and a port.
#[derive(Clone, Copy, Debug, PartialEq, Eq, Structural)]
pub struct SocketAddress {
    pub ip: IpAddress,
    pub port: u16,
}

impl IpAddress {
    /// Loopback: `127.0.0.0/8`, or `::1`.
    pub open spec fn spec_is_loopback(self) -> bool {
        match self {
            IpAddress::V4(a, _, _, _) => a == 127,
            IpAddress::V6(bits) => bits == 1,
        }
    }

    /// Private IPv4 space: `10.0.0.0/8`, `172.16.0.0/12`, `192.168.0.0/16`.
    /// No IPv6 address counts as private here.
    pub open spec fn spec_is_private(self) -> bool {
        match self {
            IpAddress::V4(a, b, _, _) => a == 10 || (a == 172 && 16 <= b <= 31) || (a == 192 && b
                == 168),
            IpAddress::V6(_) => false,
        }
    }

    pub open spec fn spec_is_v4(self) -> bool {
        self is V4
    }

    pub fn is_loopback(&self) -> (r: bool)
        ensures
            r == self.spec_is_loopback(),
    {
        match *self {
            IpAddress::V4(a, _, _, _) => a == 127,
            IpAddress::V6(bits) => bits == 1,
        }
    }

    pub fn is_private(&self) -> (r: bool)
        ensures
            r == self.spec_is_private(),
    {
        match *self {
            IpAddress::V4(a, b, _, _) => a == 10 || (a == 172 && 16 <= b && b <= 31) || (a == 192
                && b == 168),
            IpAddress::V6(_) => false,
        }
    }

    pub fn is_v4(&self) -> (r: bool)
        ensures
            r == self.spec_is_v4(),
    {
        match *self {
            IpAddress::V4(_, _, _, _) => true,
            IpAddress::V6(_) => false,
        }
    }
}

impl SocketAddress {
    pub fn new(ip: IpAddress, port: u16) -> (addr: Self)
        ensures
            addr == (SocketAddress { ip, port }),
    {
        SocketAddress { ip, port }
    }
}

} // verus!
