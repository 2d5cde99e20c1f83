//! The decisions of the TUN inbound: which fake DNS mode its settings ask
//! for, and where connections and datagrams to fake addresses really go.

use vstd::prelude::*;
use crate::dns::{dns_decode, dns_encode};
use crate::fake_dns::{
    be_value, plan_effect, plan_outcome, unchanged, FakeDns, FakeDnsMode, MAX_CURSOR, MIN_CURSOR,
};
use crate::session::{IpAddr, SocksAddr};

verus! {

/// The settings name both domains that get fake answers and domains that do not.
#[derive(Clone, Copy, Debug, PartialEq, Eq, Structural)]
pub struct FakeDnsModeConflict;

/// The fake DNS mode and filters from the TUN settings: `Include` mode with
/// the first list when it is not empty, `Exclude` mode with the second
/// otherwise; two non-empty lists are refused.
pub fn fake_dns_settings(included: Vec<String>, excluded: Vec<String>) -> (r: Result<
    (FakeDnsMode, Vec<String>),
    FakeDnsModeConflict,
>)
    ensures
        included@.len() > 0 && excluded@.len() > 0 ==> r is Err,
        included@.len() > 0 && excluded@.len() == 0 ==> (r matches Ok((m, f)) && m == FakeDnsMode::Include && f == included),
        included@.len() == 0 ==> (r matches Ok((m, f)) && m == FakeDnsMode::Exclude && f == excluded),
{
    if included.len() > 0 && excluded.len() > 0 {
        return Err(FakeDnsModeConflict);
    }
    if included.len() > 0 {
        Ok((FakeDnsMode::Include, included))
    } else {
        Ok((FakeDnsMode::Exclude, excluded))
    }
}

/// How the TUN device is set up.
#[derive(Debug)]
pub enum TunSetup {
    /// Use the already open device behind this file descriptor.
    RawFd(i32),
    /// Use the default name, addresses and netmask with an MTU of 1500, and
    /// bring the device up.
    Auto,
    /// Use the configured name, address, gateway, netmask and MTU, and bring
    /// the device up.
    Manual { name: String, address: String, gateway: String, netmask: String, mtu: u16 },
}

/// The TUN setup the settings ask for: a non-negative file descriptor wins,
/// then automatic setup, then the configured values (the MTU cut to 16
/// bits). Automatic setup with a file descriptor other than -1 is refused
/// (the inbound aborts on it).
pub fn tun_setup(
    fd: i32,
    auto: bool,
    name: String,
    address: String,
    gateway: String,
    netmask: String,
    mtu: i32,
) -> (s: TunSetup)
    requires
        auto ==> fd == -1,
    ensures
        fd >= 0 ==> s == TunSetup::RawFd(fd),
        fd < 0 && auto ==> s == TunSetup::Auto,
        fd < 0 && !auto ==> s == (TunSetup::Manual { name, address, gateway, netmask, mtu: mtu as u16 }),
{
    if fd >= 0 {
        TunSetup::RawFd(fd)
    } else if auto {
        TunSetup::Auto
    } else {
        TunSetup::Manual { name, address, gateway, netmask, mtu: mtu as u16 }
    }
}

/// Whether `ip` is an IPv4 address in the fake range.
pub open spec fn in_fake_range(ip: IpAddr) -> bool {
    ip matches IpAddr::V4(o) && MIN_CURSOR <= be_value(o@) <= MAX_CURSOR
}

/// The domain paired with a fake `ip`, if any.
pub open spec fn paired_domain(f: FakeDns, ip: IpAddr) -> Option<Seq<char>> {
    match ip {
        IpAddr::V4(o) => if f.ip_map().contains_key(be_value(o@) as u32) {
            Some(f.ip_map()[be_value(o@) as u32])
        } else {
            None
        },
        IpAddr::V6(_) => None,
    }
}

/// Where a TCP connection to `ip:port` goes: to the paired domain when `ip`
/// is fake and paired; refused (`None`) when it is fake, unpaired and the
/// port is not 443 (on 443 the domain may still be sniffed from TLS);
/// otherwise to the address itself.
pub fn stream_destination(fakedns: &FakeDns, ip: &IpAddr, port: u16) -> (r: Option<SocksAddr>)
    requires
        fakedns.wf(),
    ensures
        !in_fake_range(*ip) ==> r == Some(SocksAddr::Ip(*ip, port)),
        in_fake_range(*ip) ==> match paired_domain(*fakedns, *ip) {
            Some(d) => (r matches Some(SocksAddr::Domain(s, p)) && s@ == d && p == port),
            None => if port != 443 {
                r is None
            } else {
                r == Some(SocksAddr::Ip(*ip, port))
            },
        },
{
    if fakedns.is_fake_ip(ip) {
        match fakedns.query_domain(ip) {
            Some(domain) => Some(SocksAddr::Domain(domain, port)),
            None => {
                if port != 443 {
                    None
                } else {
                    Some(SocksAddr::Ip(*ip, port))
                }
            },
        }
    } else {
        Some(SocksAddr::Ip(*ip, port))
    }
}

/// Where a datagram to `ip:port` goes: to the paired domain when `ip` is fake
/// and paired; dropped (`None`) when it is fake and unpaired; otherwise to
/// the address itself.
pub fn datagram_destination(fakedns: &FakeDns, ip: &IpAddr, port: u16) -> (r: Option<SocksAddr>)
    requires
        fakedns.wf(),
    ensures
        !in_fake_range(*ip) ==> r == Some(SocksAddr::Ip(*ip, port)),
        in_fake_range(*ip) ==> match paired_domain(*fakedns, *ip) {
            Some(d) => (r matches Some(SocksAddr::Domain(s, p)) && s@ == d && p == port),
            None => r is None,
        },
{
    if fakedns.is_fake_ip(ip) {
        match fakedns.query_domain(ip) {
            Some(domain) => Some(SocksAddr::Domain(domain, port)),
            None => None,
        }
    } else {
        Some(SocksAddr::Ip(*ip, port))
    }
}

/// The fake DNS answer to the request bytes in the state `s`, if one can be
/// given.
pub open spec fn fake_answer(s: FakeDns, request: Seq<u8>) -> Option<Seq<u8>> {
    match dns_decode(request) {
        None => None,
        Some(req) => match plan_outcome(s, req) {
            Err(_) => None,
            Ok(resp) => dns_encode(resp),
        },
    }
}

/// What the TUN inbound does with a datagram read from the network stack.
#[derive(Debug)]
pub enum InboundDatagram {
    /// Send these bytes (a DNS answer) back to the sender, from the address
    /// it wrote to.
    Reply(Vec<u8>),
    /// Hand the datagram to the NAT table, bound for this destination.
    Forward(SocksAddr),
    /// Drop the datagram.
    Drop,
}

/// Decides the fate of a datagram bound for `dst_ip:dst_port`: a datagram to
/// port 53 that fake DNS can answer is answered; any other goes where
/// [`datagram_destination`] says, in the state after the answer was tried.
pub fn inbound_datagram(fakedns: &mut FakeDns, data: &[u8], dst_ip: &IpAddr, dst_port: u16) -> (d: InboundDatagram)
    requires
        old(fakedns).wf(),
    ensures
        final(fakedns).wf(),
        dst_port != 53 || dns_decode(data@) is None ==> unchanged(*old(fakedns), *final(fakedns))
            && final(fakedns).filters() == old(fakedns).filters() && final(fakedns).mode() == old(
            fakedns,
        ).mode() && final(fakedns).ttl() == old(fakedns).ttl(),
        dst_port == 53 ==> (dns_decode(data@) matches Some(req) ==> plan_effect(
            *old(fakedns),
            *final(fakedns),
            req,
        )),
        dst_port == 53 && fake_answer(*old(fakedns), data@) is Some ==> (d matches InboundDatagram::Reply(
            b,
        ) && b@ == fake_answer(*old(fakedns), data@)->Some_0),
        !(dst_port == 53 && fake_answer(*old(fakedns), data@) is Some) ==> {
            &&& !in_fake_range(*dst_ip) ==> d == InboundDatagram::Forward(SocksAddr::Ip(*dst_ip, dst_port))
            &&& in_fake_range(*dst_ip) ==> match paired_domain(*final(fakedns), *dst_ip) {
                Some(dm) => (d matches InboundDatagram::Forward(SocksAddr::Domain(s, p)) && s@ == dm
                    && p == dst_port),
                None => d is Drop,
            }
        },
{
    if dst_port == 53 {
        match fakedns.generate_fake_response(data) {
            Ok(resp) => {
                return InboundDatagram::Reply(resp);
            },
            Err(_) => {},
        }
    }
    match datagram_destination(fakedns, dst_ip, dst_port) {
        Some(a) => InboundDatagram::Forward(a),
        None => InboundDatagram::Drop,
    }
}

/// The source a reply is delivered from: an IP source as is; a domain
/// source as the fake address paired with it, or nothing (dropped).
pub fn downlink_source(fakedns: &FakeDns, src: &SocksAddr) -> (r: Option<(IpAddr, u16)>)
    ensures
        src matches SocksAddr::Ip(ip, p) ==> r == Some((*ip, *p)),
        src matches SocksAddr::Domain(d, p) ==> if fakedns.domain_map().contains_key(d@) {
            (r matches Some((IpAddr::V4(o), q)) && q == p && be_value(o@) == fakedns.domain_map()[d@])
        } else {
            r is None
        },
{
    match src {
        SocksAddr::Ip(ip, p) => Some((*ip, *p)),
        SocksAddr::Domain(d, p) => match fakedns.query_fake_ip(d.as_str()) {
            Some(ip) => Some((ip, *p)),
            None => None,
        },
    }
}

} // verus!
