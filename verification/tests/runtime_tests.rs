use leaf::errors::{result_code, to_errno, ErrEnum, LeafError};
use leaf::fake_dns::{FakeDns, FakeDnsMode};
use leaf::nat_table::{session_for, DatagramSource, NatSessions, UdpSessionInfo, UplinkAction};
use leaf::options::{file_start_options, get_start_options, string_start_options, ConfigSource, RuntimeOption};
use leaf::routing_history::{RoutingHistory, RoutingRecord};
use leaf::session::{IpAddr, SocksAddr, UdpPacket};
use leaf::tun::{datagram_destination, downlink_source, fake_dns_settings, stream_destination, tun_setup, TunSetup};

fn record(n: u64) -> RoutingRecord {
    RoutingRecord {
        network: "tcp".to_string(),
        source: "127.0.0.1:1000".to_string(),
        destination: format!("host{}:443", n),
        inbound_tag: "in".to_string(),
        outbound_tag: "out".to_string(),
        timestamp: n,
    }
}

#[test]
fn routing_history_disabled_records_nothing() {
    let mut h = RoutingHistory::new();
    assert!(!h.is_enabled());
    h.add(record(1));
    assert!(h.get_records().is_empty());
}

#[test]
fn routing_history_keeps_newest() {
    let mut h = RoutingHistory::new();
    h.set_enabled(true, 2);
    assert!(h.is_enabled());
    h.add(record(1));
    h.add(record(2));
    h.add(record(3));
    let r = h.get_records();
    assert_eq!(r.len(), 2);
    assert_eq!(r[0].timestamp, 2);
    assert_eq!(r[1].timestamp, 3);
    assert_eq!(r[1].destination, "host3:443");
    // Switching off drops everything.
    h.set_enabled(false, 2);
    assert!(h.get_records().is_empty());
}

#[test]
fn routing_history_zero_max_keeps_one() {
    let mut h = RoutingHistory::new();
    h.set_enabled(true, 0);
    h.add(record(1));
    h.add(record(2));
    let r = h.get_records();
    assert_eq!(r.len(), 1);
    assert_eq!(r[0].timestamp, 2);
}

#[test]
fn error_codes() {
    assert_eq!(to_errno(&LeafError::Config("x".to_string())), ErrEnum::ErrConfig);
    assert_eq!(to_errno(&LeafError::NoConfigFile), ErrEnum::ErrNoConfigFile);
    assert_eq!(to_errno(&LeafError::Io("x".to_string())), ErrEnum::ErrIo);
    assert_eq!(to_errno(&LeafError::Watcher("x".to_string())), ErrEnum::ErrWatcher);
    assert_eq!(to_errno(&LeafError::AsyncChannelSend("x".to_string())), ErrEnum::ErrAsyncChannelSend);
    assert_eq!(to_errno(&LeafError::SyncChannelRecv("x".to_string())), ErrEnum::ErrSyncChannelRecv);
    assert_eq!(to_errno(&LeafError::RuntimeManager), ErrEnum::ErrRuntimeManager);
    assert_eq!(result_code(&Ok(())), ErrEnum::ErrOk);
    assert_eq!(result_code(&Err(LeafError::NoConfigFile)), ErrEnum::ErrNoConfigFile);
    assert_eq!(ErrEnum::ErrOk.code(), 0);
    assert_eq!(ErrEnum::ErrConfigPath.code(), 1);
    assert_eq!(ErrEnum::ErrConfig.code(), 2);
    assert_eq!(ErrEnum::ErrIo.code(), 3);
    assert_eq!(ErrEnum::ErrNoConfigFile.code(), 8);
    assert_eq!(ErrEnum::ErrUnknown.code(), 9);
}

#[test]
fn start_options() {
    let o = get_start_options("/etc/leaf.json".to_string(), true, false, true, 4, 1024);
    assert!(matches!(o.config, ConfigSource::File(ref p) if p == "/etc/leaf.json"));
    assert!(o.auto_reload);
    assert_eq!(o.runtime_opt, RuntimeOption::SingleThread);
    assert!(!o.routing_history_enabled);
    assert_eq!(o.routing_history_max_records, 0);
    let o = get_start_options("c".to_string(), false, true, true, 4, 1024);
    assert_eq!(o.runtime_opt, RuntimeOption::MultiThreadAuto(1024));
    let o = get_start_options("c".to_string(), false, true, false, 4, 1024);
    assert_eq!(o.runtime_opt, RuntimeOption::MultiThread(4, 1024));
    let o = file_start_options("c".to_string());
    assert_eq!(o.runtime_opt, RuntimeOption::SingleThread);
    let o = string_start_options("{}".to_string(), true, 100);
    assert!(matches!(o.config, ConfigSource::Str(ref s) if s == "{}"));
    assert!(o.routing_history_enabled);
    assert_eq!(o.routing_history_max_records, 100);
}

#[test]
fn tun_fake_dns_settings() {
    let (m, f) = fake_dns_settings(vec!["a".to_string()], vec![]).unwrap();
    assert!(matches!(m, FakeDnsMode::Include));
    assert_eq!(f, vec!["a".to_string()]);
    let (m, f) = fake_dns_settings(vec![], vec!["b".to_string()]).unwrap();
    assert!(matches!(m, FakeDnsMode::Exclude));
    assert_eq!(f, vec!["b".to_string()]);
    let (m, f) = fake_dns_settings(vec![], vec![]).unwrap();
    assert!(matches!(m, FakeDnsMode::Exclude));
    assert!(f.is_empty());
    assert!(fake_dns_settings(vec!["a".to_string()], vec!["b".to_string()]).is_err());
}

#[test]
fn tun_destinations() {
    let mut f = FakeDns::new(FakeDnsMode::Exclude);
    let ip = f.allocate_ip("example.com").unwrap();
    let fake = IpAddr::V4(ip);
    let unpaired = IpAddr::V4([198, 18, 9, 9]);
    let real = IpAddr::V4([1, 1, 1, 1]);
    assert!(matches!(stream_destination(&f, &fake, 80), Some(SocksAddr::Domain(ref d, 80)) if d == "example.com"));
    assert!(stream_destination(&f, &unpaired, 80).is_none());
    assert!(matches!(stream_destination(&f, &unpaired, 443), Some(SocksAddr::Ip(a, 443)) if a == unpaired));
    assert!(matches!(stream_destination(&f, &real, 53), Some(SocksAddr::Ip(a, 53)) if a == real));
    assert!(matches!(datagram_destination(&f, &fake, 53), Some(SocksAddr::Domain(ref d, 53)) if d == "example.com"));
    assert!(datagram_destination(&f, &unpaired, 443).is_none());
    assert!(matches!(datagram_destination(&f, &real, 53), Some(SocksAddr::Ip(a, 53)) if a == real));
    assert_eq!(downlink_source(&f, &SocksAddr::Domain("example.com".to_string(), 80)), Some((fake, 80)));
    assert_eq!(downlink_source(&f, &SocksAddr::Domain("nope.com".to_string(), 80)), None);
    assert_eq!(downlink_source(&f, &SocksAddr::Ip(real, 5)), Some((real, 5)));
}

#[test]
fn udp_packet_and_port() {
    let p = UdpPacket::new(
        vec![1, 2],
        SocksAddr::Ip(IpAddr::V4([10, 0, 0, 1]), 5353),
        SocksAddr::Domain("x.org".to_string(), 53),
    );
    assert_eq!(p.data, vec![1, 2]);
    assert_eq!(p.src_addr.port(), 5353);
    assert_eq!(p.dst_addr.port(), 53);
}

fn src(port: u16) -> DatagramSource {
    DatagramSource { address: IpAddr::V4([10, 0, 0, 2]), port, stream_id: None }
}

#[test]
fn nat_sessions_open_forward_expire() {
    let mut t = NatSessions::new();
    assert_eq!(t.on_uplink(&src(1), 0), UplinkAction::Open);
    assert_eq!(t.on_uplink(&src(1), 1_000), UplinkAction::Forward);
    assert_eq!(t.on_uplink(&src(2), 2_000), UplinkAction::Open);
    assert_eq!(t.len(), 2);
    assert!(t.contains(&src(1)));
    // A reply from port 53 does not refresh the session; others do.
    t.on_downlink(&src(1), 53, 30_000);
    t.on_downlink(&src(2), 8080, 30_000);
    // At 31.5 s with a 30 s timeout: src 1 (last active 1 s) has timed out.
    let gone = t.expire(31_500, 30);
    assert_eq!(gone.len(), 1);
    assert_eq!(gone[0].port, 1);
    assert!(!t.contains(&src(1)));
    assert!(t.contains(&src(2)));
    // Partial seconds do not count: 59.999 s after 30 s is 29 whole seconds.
    assert!(t.expire(59_999, 30).is_empty());
    assert_eq!(t.expire(60_000, 30).len(), 1);
    assert_eq!(t.len(), 0);
}

#[test]
fn nat_sessions_remove_and_stream_ids() {
    let mut t = NatSessions::new();
    let a = DatagramSource { address: IpAddr::V4([10, 0, 0, 2]), port: 7, stream_id: Some(1) };
    let b = DatagramSource { address: IpAddr::V4([10, 0, 0, 2]), port: 7, stream_id: Some(2) };
    assert_eq!(t.on_uplink(&a, 0), UplinkAction::Open);
    assert_eq!(t.on_uplink(&b, 0), UplinkAction::Open);
    assert_eq!(t.len(), 2);
    t.remove(&a);
    assert!(!t.contains(&a));
    assert!(t.contains(&b));
    t.remove(&a);
    assert_eq!(t.len(), 1);
}

#[test]
fn tun_setups() {
    let s = |fd: i32, auto: bool| tun_setup(fd, auto, "utun8".to_string(), "10.0.0.2".to_string(), "10.0.0.1".to_string(), "255.255.255.0".to_string(), 70000);
    assert!(matches!(s(7, false), TunSetup::RawFd(7)));
    assert!(matches!(s(-1, true), TunSetup::Auto));
    match s(-1, false) {
        TunSetup::Manual { name, address, gateway, netmask, mtu } => {
            assert_eq!(name, "utun8");
            assert_eq!(address, "10.0.0.2");
            assert_eq!(gateway, "10.0.0.1");
            assert_eq!(netmask, "255.255.255.0");
            assert_eq!(mtu, 70000u32 as u16);
        }
        other => panic!("unexpected {:?}", other),
    }
}

#[test]
fn new_nat_sessions() {
    let dst = SocksAddr::Domain("example.com".to_string(), 53);
    let s = session_for(None, &src(9), dst.clone(), "tun");
    assert_eq!(s.source_ip, IpAddr::V4([10, 0, 0, 2]));
    assert_eq!(s.source_port, 9);
    assert!(matches!(s.destination, SocksAddr::Domain(ref d, 53) if d == "example.com"));
    assert_eq!(s.inbound_tag, "tun");
    let given = UdpSessionInfo {
        source_ip: IpAddr::V4([1, 2, 3, 4]),
        source_port: 5,
        destination: dst.clone(),
        inbound_tag: String::new(),
    };
    let s = session_for(Some(given), &src(9), dst.clone(), "socks");
    assert_eq!(s.source_ip, IpAddr::V4([1, 2, 3, 4]));
    assert_eq!(s.inbound_tag, "socks");
    let given = UdpSessionInfo { source_ip: IpAddr::V4([1, 2, 3, 4]), source_port: 5, destination: dst.clone(), inbound_tag: "own".to_string() };
    assert_eq!(session_for(Some(given), &src(9), dst, "socks").inbound_tag, "own");
}
