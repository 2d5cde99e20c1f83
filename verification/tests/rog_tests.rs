use leaf::rog::{endpoint_url, nonzero_or_default, parse_address, AddressError, ClientOptions, StreamReadBuffer};
use leaf::rog_tcp::{
    open_udp_response, seal_stream_auth, seal_udp_request, decode_frame_len, decrypt_bytes, decrypt_field, encode_frame, encrypt_bytes, encrypt_field,
    frame_with_mask, RogTcpDatagram, RogTcpError, CONN_TYPE_STREAM, CONN_TYPE_UDP, FRAME_HEADER_LEN,
};

#[test]
fn client_options_defaults() {
    let o = ClientOptions::new(true, 0, 0, None);
    assert!(o.keep_alive);
    assert_eq!(o.keep_alive_interval_secs, 30);
    assert_eq!(o.keep_alive_timeout_secs, 20);
    assert!(o.keep_alive_while_idle);
    let o = ClientOptions::new(false, 5, 7, Some(false));
    assert!(!o.keep_alive);
    assert_eq!(o.keep_alive_interval_secs, 5);
    assert_eq!(o.keep_alive_timeout_secs, 7);
    assert!(!o.keep_alive_while_idle);
    let d = ClientOptions::default();
    assert!(!d.keep_alive);
    assert_eq!(d.keep_alive_interval_secs, 30);
    assert_eq!(d.keep_alive_timeout_secs, 20);
    assert!(d.keep_alive_while_idle);
}

#[test]
fn nonzero_or_default_values() {
    assert_eq!(nonzero_or_default(0, 30), 30);
    assert_eq!(nonzero_or_default(9, 30), 9);
    assert_eq!(nonzero_or_default(u32::MAX, 1), u32::MAX as u64);
}

#[test]
fn parse_address_accepts_host_and_port() {
    assert_eq!(parse_address("example.com:443"), Ok(("example.com".to_string(), 443)));
    assert_eq!(parse_address("[::1]:80"), Ok(("[::1]".to_string(), 80)));
    assert_eq!(parse_address("h:0"), Ok(("h".to_string(), 0)));
    assert_eq!(parse_address("h:65535"), Ok(("h".to_string(), 65535)));
    assert_eq!(parse_address("a:b:8080"), Ok(("a:b".to_string(), 8080)));
}

#[test]
fn parse_address_errors() {
    assert_eq!(parse_address("host"), Err(AddressError::InvalidFormat));
    assert_eq!(parse_address(""), Err(AddressError::InvalidFormat));
    assert_eq!(parse_address(":80"), Err(AddressError::EmptyHost));
    assert_eq!(parse_address("h:65536"), Err(AddressError::InvalidPort));
    assert_eq!(parse_address("h:99999"), Err(AddressError::InvalidPort));
    assert_eq!(parse_address("h:"), Err(AddressError::InvalidPort));
    assert_eq!(parse_address("h:-1"), Err(AddressError::InvalidPort));
    assert_eq!(parse_address("h:8o"), Err(AddressError::InvalidPort));
}

#[test]
fn frame_layout() {
    let body = [1u8, 2, 3];
    let f = frame_with_mask(&body, 10);
    assert_eq!(f.len(), FRAME_HEADER_LEN + 3);
    assert_eq!(&f[0..8], &10u64.to_be_bytes());
    assert_eq!(&f[8..16], &3u64.wrapping_sub(10).to_be_bytes());
    assert_eq!(&f[16..], &body);
    assert_eq!(decode_frame_len(&f), Ok(3));
}

#[test]
fn frame_roundtrip_with_random_mask() {
    let body = vec![7u8; 1000];
    let f = encode_frame(&body);
    assert_eq!(f.len(), 1016);
    assert_eq!(decode_frame_len(&f[..16]), Ok(1000));
    assert_eq!(&f[16..], body.as_slice());
}

#[test]
fn frame_too_large() {
    let mut h = Vec::new();
    h.extend_from_slice(&0u64.to_be_bytes());
    h.extend_from_slice(&(16u64 * 1024 * 1024 + 1).to_be_bytes());
    assert_eq!(decode_frame_len(&h), Err(RogTcpError::FrameTooLarge));
    let mut h = Vec::new();
    h.extend_from_slice(&1u64.to_be_bytes());
    h.extend_from_slice(&(16u64 * 1024 * 1024 - 1).to_be_bytes());
    assert_eq!(decode_frame_len(&h), Ok(16 * 1024 * 1024));
}

#[test]
fn bytes_roundtrip() {
    let c = encrypt_bytes(b"hello", "secret").unwrap();
    assert_eq!(c.len(), 12 + 5 + 16);
    assert_eq!(decrypt_bytes(&c, "secret").unwrap(), b"hello".to_vec());
    assert_eq!(decrypt_bytes(&c, "other"), Err(RogTcpError::Decrypt));
    assert_eq!(decrypt_bytes(&c[..11], "secret"), Err(RogTcpError::CiphertextTooShort));
    // Two encryptions use different nonces.
    let c2 = encrypt_bytes(b"hello", "secret").unwrap();
    assert_ne!(c, c2);
}

#[test]
fn field_roundtrip() {
    let t = encrypt_field("user-token", "pw").unwrap();
    assert_ne!(t, "user-token");
    assert_eq!(decrypt_field(&t, "pw").unwrap(), "user-token");
    assert_eq!(decrypt_field(&t, "wrong"), Err(RogTcpError::Decrypt));
    assert_eq!(decrypt_field("not base64!", "pw"), Err(RogTcpError::Base64));
    assert_eq!(decrypt_field("AAAA", "pw"), Err(RogTcpError::CiphertextTooShort));
}

#[test]
fn datagram_holds_its_parts() {
    let d = RogTcpDatagram::new(5u32, "pw".to_string());
    assert_eq!(d.stream, 5);
    assert_eq!(d.password, "pw");
    assert_eq!(CONN_TYPE_STREAM, 1);
    assert_eq!(CONN_TYPE_UDP, 2);
}

#[test]
fn stream_read_buffer_serves_payloads_in_order() {
    let mut b = StreamReadBuffer::new();
    assert_eq!(b.read_buffered(4), None);
    let first = b.read_payload(vec![1, 2, 3, 4, 5, 6], 4);
    assert_eq!(first, vec![1, 2, 3, 4]);
    assert_eq!(b.read_buffered(1), Some(vec![5]));
    assert_eq!(b.read_buffered(10), Some(vec![6]));
    assert_eq!(b.read_buffered(10), None);
    let all = b.read_payload(vec![9, 8], 16);
    assert_eq!(all, vec![9, 8]);
    assert_eq!(b.read_buffered(16), None);
    assert_eq!(b.read_payload(Vec::new(), 16), Vec::<u8>::new());
}

#[test]
fn udp_request_fields_are_sealed() {
    let q = seal_udp_request(b"ping", "example.com", 53, "pw").unwrap();
    assert_eq!(decrypt_field(&q.auth, "pw").unwrap(), "pw");
    assert_eq!(decrypt_field(&q.dst_addr, "pw").unwrap(), "example.com");
    assert_eq!(decrypt_field(&q.src_addr, "pw").unwrap(), "0.0.0.0");
    assert_eq!(decrypt_bytes(&q.payload, "pw").unwrap(), b"ping".to_vec());
    assert_eq!(q.dst_port, 53);
    assert_eq!(q.src_port, 0);
}

#[test]
fn udp_response_is_opened() {
    let host = encrypt_field("1.2.3.4", "pw").unwrap();
    let src = encrypt_field("0.0.0.0", "pw").unwrap();
    let payload = encrypt_bytes(b"pong!", "pw").unwrap();
    let o = open_udp_response(Some(host.clone()), Some(53), Some(src.clone()), &payload, "pw", 4).unwrap();
    assert_eq!(o.payload, b"pong".to_vec());
    assert_eq!(o.host, "1.2.3.4");
    assert_eq!(o.port, 53);
    // The port is cut to 16 bits.
    let o = open_udp_response(Some(host.clone()), Some(70000), None, &payload, "pw", 64).unwrap();
    assert_eq!(o.port, 70000u32 as u16);
    assert_eq!(o.payload, b"pong!".to_vec());
    // A missing address or port is refused, after decryption succeeded.
    assert_eq!(
        open_udp_response(None, Some(53), None, &payload, "pw", 64).unwrap_err(),
        RogTcpError::MissingAddress
    );
    assert_eq!(
        open_udp_response(Some(host.clone()), None, None, &payload, "pw", 64).unwrap_err(),
        RogTcpError::MissingAddress
    );
    // Decryption failures come first, in field order.
    assert_eq!(
        open_udp_response(Some("%%".to_string()), None, None, &payload, "pw", 64).unwrap_err(),
        RogTcpError::Base64
    );
    assert_eq!(
        open_udp_response(Some(host), Some(53), Some(src), &payload[..5], "pw", 64).unwrap_err(),
        RogTcpError::CiphertextTooShort
    );
}

#[test]
fn endpoint_urls() {
    assert_eq!(endpoint_url("rog.example.com", 443), "https://rog.example.com:443");
    assert_eq!(endpoint_url("10.0.0.1", 8080), "http://10.0.0.1:8080");
    assert_eq!(endpoint_url("h", 0), "http://h:0");
    assert_eq!(endpoint_url("h", 65535), "http://h:65535");
}

#[test]
fn stream_auth_is_sealed() {
    let a = seal_stream_auth("example.org", 443, "pw").unwrap();
    assert_eq!(decrypt_field(&a.auth, "pw").unwrap(), "pw");
    assert_eq!(decrypt_field(&a.dst_addr, "pw").unwrap(), "example.org");
    assert_eq!(a.dst_port, 443);
}
