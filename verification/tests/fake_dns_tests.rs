use std::str::FromStr;

use leaf::fake_dns::{ip_to_u32, u32_to_ip, FakeDns, FakeDnsError, FakeDnsMode, MAX_CURSOR, MIN_CURSOR};
use leaf::session::{IpAddr, SocksAddr};
use leaf::tun::{inbound_datagram, InboundDatagram};
use trust_dns_proto::op::{Message, MessageType, Query};
use trust_dns_proto::rr::{DNSClass, Name, RData, RecordType};

fn query_bytes(id: u16, name: &str, rtype: RecordType, class: DNSClass) -> Vec<u8> {
    let mut msg = Message::new();
    let mut q = Query::query(Name::from_str(name).unwrap(), rtype);
    q.set_query_class(class);
    msg.add_query(q);
    msg.set_id(id);
    msg.set_message_type(MessageType::Query);
    msg.set_recursion_desired(true);
    msg.to_vec().unwrap()
}

fn answer_ip(resp: &[u8]) -> [u8; 4] {
    let msg = Message::from_vec(resp).unwrap();
    match msg.answers()[0].data() {
        Some(RData::A(a)) => a.0.octets(),
        other => panic!("unexpected answer {:?}", other),
    }
}

#[test]
fn test_u32_to_ip() {
    let ip1 = [127u8, 0, 0, 1];
    let ip2 = u32_to_ip(2130706433u32);
    assert_eq!(ip1, ip2);
}

#[test]
fn test_ip_to_u32() {
    let ip = [127u8, 0, 0, 1];
    let ip1 = ip_to_u32(&ip);
    let ip2 = 2130706433u32;
    assert_eq!(ip1, ip2);
}

#[test]
fn fake_range_bounds() {
    assert_eq!(u32_to_ip(MIN_CURSOR), [198, 18, 0, 0]);
    assert_eq!(u32_to_ip(MAX_CURSOR), [198, 18, 255, 255]);
    assert_eq!(ip_to_u32(&[198, 18, 1, 2]), 0xc612_0102);
}

#[test]
fn allocation_pairs_both_ways() {
    let mut f = FakeDns::new(FakeDnsMode::Exclude);
    let ip = f.allocate_ip("example.com").unwrap();
    assert_eq!(ip, [198, 18, 0, 0]);
    assert_eq!(f.query_fake_ip("example.com"), Some(IpAddr::V4([198, 18, 0, 0])));
    assert_eq!(f.query_domain(&IpAddr::V4(ip)), Some("example.com".to_string()));
    let ip2 = f.allocate_ip("other.org").unwrap();
    assert_eq!(ip2, [198, 18, 0, 1]);
    assert_eq!(f.query_domain(&IpAddr::V4([198, 18, 0, 2])), None);
    assert_eq!(f.query_fake_ip("missing.net"), None);
    assert_eq!(f.query_domain(&IpAddr::V6([0; 16])), None);
}

#[test]
fn next_cursor_skips_broadcast_and_network() {
    let mut f = FakeDns::new(FakeDnsMode::Exclude);
    let mut last = [0u8; 4];
    for i in 0..256u32 {
        last = f.allocate_ip(&format!("d{}.com", i)).unwrap();
        assert_ne!(last[3], 255);
        if i > 0 {
            assert_ne!(last[3], 0);
        }
    }
    // 198.18.0.0 .. 198.18.0.254 is 255 addresses; then .1.1 follows.
    assert_eq!(last, [198, 18, 1, 1]);
}

#[test]
fn is_fake_ip_range() {
    let f = FakeDns::new(FakeDnsMode::Include);
    assert!(f.is_fake_ip(&IpAddr::V4([198, 18, 0, 0])));
    assert!(f.is_fake_ip(&IpAddr::V4([198, 18, 255, 255])));
    assert!(!f.is_fake_ip(&IpAddr::V4([198, 19, 0, 0])));
    assert!(!f.is_fake_ip(&IpAddr::V4([198, 17, 255, 255])));
    assert!(!f.is_fake_ip(&IpAddr::V6([0; 16])));
}

#[test]
fn accept_modes() {
    let mut inc = FakeDns::new(FakeDnsMode::Include);
    assert!(!inc.accept("www.google.com"));
    inc.add_filter("google".to_string());
    assert!(inc.accept("www.google.com"));
    assert!(!inc.accept("example.com"));
    inc.add_filter("*".to_string());
    assert!(inc.accept("example.com"));

    let mut exc = FakeDns::new(FakeDnsMode::Exclude);
    assert!(exc.accept("www.google.com"));
    exc.add_filter("google".to_string());
    assert!(!exc.accept("www.google.com"));
    assert!(exc.accept("example.com"));
    exc.add_filter("*".to_string());
    assert!(!exc.accept("example.com"));
}

#[test]
fn fake_response_for_a_query() {
    let mut f = FakeDns::new(FakeDnsMode::Exclude);
    let req = query_bytes(4242, "www.example.com.", RecordType::A, DNSClass::IN);
    let resp = f.generate_fake_response(&req).unwrap();
    let msg = Message::from_vec(&resp).unwrap();
    assert_eq!(msg.id(), 4242);
    assert_eq!(msg.message_type(), MessageType::Response);
    assert!(msg.recursion_desired());
    assert_eq!(msg.queries().len(), 1);
    assert_eq!(msg.answers().len(), 1);
    assert_eq!(msg.answers()[0].ttl(), 1);
    assert_eq!(answer_ip(&resp), [198, 18, 0, 0]);
    assert_eq!(f.query_domain(&IpAddr::V4([198, 18, 0, 0])), Some("www.example.com".to_string()));

    // The same domain is answered with the same address.
    let resp2 = f.generate_fake_response(&req).unwrap();
    assert_eq!(answer_ip(&resp2), [198, 18, 0, 0]);
}

#[test]
fn fake_response_for_aaaa_has_no_answer() {
    let mut f = FakeDns::new(FakeDnsMode::Exclude);
    let req = query_bytes(7, "v6.example.com.", RecordType::AAAA, DNSClass::IN);
    let resp = f.generate_fake_response(&req).unwrap();
    let msg = Message::from_vec(&resp).unwrap();
    assert_eq!(msg.answers().len(), 0);
    assert_eq!(msg.queries().len(), 1);
    // The domain was still given an address.
    assert_eq!(f.query_fake_ip("v6.example.com"), Some(IpAddr::V4([198, 18, 0, 0])));
}

#[test]
fn fake_response_errors() {
    let mut f = FakeDns::new(FakeDnsMode::Include);
    f.add_filter("example".to_string());
    let bad_type = query_bytes(1, "www.example.com.", RecordType::MX, DNSClass::IN);
    assert!(matches!(f.generate_fake_response(&bad_type), Err(FakeDnsError::UnsupportedType)));
    let bad_class = query_bytes(1, "www.example.com.", RecordType::A, DNSClass::CH);
    assert!(matches!(f.generate_fake_response(&bad_class), Err(FakeDnsError::UnsupportedClass)));
    let not_accepted = query_bytes(1, "www.other.org.", RecordType::A, DNSClass::IN);
    assert!(matches!(f.generate_fake_response(&not_accepted), Err(FakeDnsError::NotAccepted)));
    assert!(matches!(f.generate_fake_response(&[1, 2, 3]), Err(FakeDnsError::Decode)));
    let mut empty = Message::new();
    empty.set_id(9);
    let empty = empty.to_vec().unwrap();
    assert!(matches!(f.generate_fake_response(&empty), Err(FakeDnsError::NoQueries)));
}

#[test]
fn tun_inbound_datagrams() {
    let mut f = FakeDns::new(FakeDnsMode::Exclude);
    let req = query_bytes(11, "www.example.com.", RecordType::A, DNSClass::IN);
    let dns = IpAddr::V4([8, 8, 8, 8]);
    // A query to port 53 is answered with a fake address.
    match inbound_datagram(&mut f, &req, &dns, 53) {
        InboundDatagram::Reply(resp) => assert_eq!(answer_ip(&resp), [198, 18, 0, 0]),
        other => panic!("unexpected {:?}", other),
    }
    // A datagram to the fake address goes to the domain.
    match inbound_datagram(&mut f, b"payload", &IpAddr::V4([198, 18, 0, 0]), 9000) {
        InboundDatagram::Forward(SocksAddr::Domain(d, 9000)) => assert_eq!(d, "www.example.com"),
        other => panic!("unexpected {:?}", other),
    }
    // An unpaired fake address is dropped.
    assert!(matches!(inbound_datagram(&mut f, b"x", &IpAddr::V4([198, 18, 3, 3]), 9000), InboundDatagram::Drop));
    // Undecodable bytes to port 53 are forwarded as they are.
    assert!(matches!(inbound_datagram(&mut f, b"x", &dns, 53), InboundDatagram::Forward(SocksAddr::Ip(a, 53)) if a == dns));
}

#[test]
fn empty_filter_is_contained_in_every_domain() {
    let mut inc = FakeDns::new(FakeDnsMode::Include);
    inc.add_filter(String::new());
    assert!(inc.accept("anything.org"));
    assert!(inc.accept(""));
}
