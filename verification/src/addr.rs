use vstd::prelude::*;

verus! {

/// An IP address held as plain data: four IPv4 octets or eight IPv6 segments.
/// The binary converts between this representation and its socket addresses.
#[derive(Clone, Copy, PartialEq, Eq, Structural, Debug)]
pub enum IpAddress {
    V4(u8, u8, u8, u8),
    V6(u16, u16, u16, u16, u16, u16, u16, u16),
}

impl IpAddress {
    /// The IPv4 loopback address.
    pub fn loopback() -> (r: IpAddress)
        ensures
            r == IpAddress::V4(127, 0, 0, 1),
    {
        IpAddress::V4(127, 0, 0, 1)
    }
}

} // verus!
