//! Addresses and packets passed between inbounds, the NAT table and outbounds.

use vstd::prelude::*;

verus! {

/// An IP address: four octets, or sixteen.
#[derive(Clone, Copy, Debug, PartialEq, Eq, Hash)]
pub enum IpAddr {
    V4([u8; 4]),
    V6([u8; 16]),
}

/// A destination or source: an IP address or a domain name, with a port.
#[derive(Clone, Debug)]
pub enum SocksAddr {
    Ip(IpAddr, u16),
    Domain(String, u16),
}

impl SocksAddr {
    /// The port of the address.
    pub fn port(&self) -> (p: u16)
        ensures
            p == match self {
                SocksAddr::Ip(_, p) => *p,
                SocksAddr::Domain(_, p) => *p,
            },
    {
        match self {
            SocksAddr::Ip(_, p) => *p,
            SocksAddr::Domain(_, p) => *p,
        }
    }
}

/// A UDP payload with its source and destination.
#[derive(Debug)]
pub struct UdpPacket {
    pub data: Vec<u8>,
    pub src_addr: SocksAddr,
    pub dst_addr: SocksAddr,
}

impl UdpPacket {
    pub fn new(data: Vec<u8>, src_addr: SocksAddr, dst_addr: SocksAddr) -> (p: Self)
        ensures
            p.data == data,
            p.src_addr == src_addr,
            p.dst_addr == dst_addr,
    {
        UdpPacket { data, src_addr, dst_addr }
    }
}

} // verus!
