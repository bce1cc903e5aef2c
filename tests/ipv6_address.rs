use thunda::address::ipv4::IPv4;
use thunda::address::ipv6::{
    from_bytes, from_segments, from_string, is_6to4_tunneling, is_global_unicast,
    is_ipv4_mapped, is_link_local, is_loopback, is_multicast, is_private,
    is_solicited_node_multicast, is_teredo_tunneling, is_unicast, is_unspecified, mask, to_bytes,
    to_ipv4, to_segments, to_string, Ipv6AddressError, IPv6,
};

#[test]
fn test_checks() {
    let lla: IPv6 = IPv6::new(0xfe80, 0, 0, 0, 0, 0, 0, 1);
    let ula: IPv6 = IPv6::new(0xfd00, 0, 0, 201, 1, 1, 1, 1);
    let gua: IPv6 = IPv6::new(0x2001, 0xdb8, 0x3, 0, 0, 0, 0, 1);
    let loopback = IPv6::loopback();
    let unspecified = IPv6::unspecified();

    assert!(is_link_local(&lla));
    assert!(!is_unspecified(&lla));
    assert!(!is_loopback(&lla));
    assert!(!is_multicast(&lla));
    assert!(!is_global_unicast(&lla));
    assert!(!is_private(&lla));

    assert!(is_loopback(&loopback));
    assert!(!is_link_local(&loopback));
    assert!(!is_unspecified(&loopback));
    assert!(!is_multicast(&loopback));
    assert!(!is_global_unicast(&loopback));
    assert!(!is_private(&loopback));

    assert!(is_private(&ula));
    assert!(!is_link_local(&ula));
    assert!(!is_unspecified(&ula));
    assert!(!is_loopback(&ula));
    assert!(!is_multicast(&ula));
    assert!(!is_global_unicast(&ula));

    assert!(is_global_unicast(&gua));
    assert!(!is_private(&gua));
    assert!(!is_link_local(&gua));
    assert!(!is_unspecified(&gua));
    assert!(!is_loopback(&gua));
    assert!(!is_multicast(&gua));

    assert!(is_unspecified(&unspecified));
    assert!(!is_loopback(&unspecified));
    assert!(!is_link_local(&unspecified));
    assert!(!is_multicast(&unspecified));
    assert!(!is_global_unicast(&unspecified));
    assert!(!is_private(&unspecified));
}

#[test]
fn display_standard_ipv6() {
    let addr = IPv6::new(0x2001, 0x0db8, 0x85a3, 0, 0, 0x8a2e, 0x0370, 0x7334);
    assert_eq!(to_string(&addr), "2001:db8:85a3::8a2e:370:7334");
}

#[test]
fn display_zero_compressed_ipv6() {
    let addr = IPv6::new(0xfe80, 0, 0, 0, 0, 0, 0, 0x1);
    assert_eq!(to_string(&addr), "fe80::1");
}

#[test]
fn display_loopback_address() {
    assert_eq!(to_string(&IPv6::loopback()), "::1");
}

#[test]
fn display_unspecified_address() {
    assert_eq!(to_string(&IPv6::unspecified()), "::");
}

#[test]
fn display_ipv4_mapped_ipv6() {
    let addr = IPv6([0, 0, 0, 0, 0, 0, 0, 0, 0, 0, 0xff, 0xff, 192, 168, 1, 1]);
    assert_eq!(to_string(&addr), "::ffff:192.168.1.1");
}

#[test]
fn display_unique_local_address() {
    let addr = IPv6::new(0xfd00, 0, 0, 0, 0, 0, 0, 0x1);
    assert_eq!(to_string(&addr), "fd00::1");
}

#[test]
fn display_link_local_address() {
    let addr = IPv6::new(0xfe80, 0, 0, 0, 0, 0, 0, 0x1);
    assert_eq!(to_string(&addr), "fe80::1");
}

#[test]
fn display_full_ipv6() {
    let addr = IPv6::new(0xffff, 0xffff, 0xffff, 0xffff, 0xffff, 0xffff, 0xffff, 0xffff);
    assert_eq!(to_string(&addr), "ffff:ffff:ffff:ffff:ffff:ffff:ffff:ffff");
}

#[test]
fn test_parse_valid_ipv6() {
    let valid_ipv6 = "2001:0db8:85a3:0000:0000:8a2e:0370:7334";
    assert_eq!(
        from_string(valid_ipv6).unwrap(),
        IPv6([0x20, 0x01, 0x0d, 0xb8, 0x85, 0xa3, 0x00, 0x00, 0x00, 0x00, 0x8a, 0x2e, 0x03, 0x70, 0x73, 0x34])
    );
}

#[test]
fn test_address_format() {
    let link_local_all_nodes = IPv6::new(0xff02, 0, 0, 0, 0, 0, 0, 1);
    assert_eq!("ff02::1", to_string(&link_local_all_nodes));

    let link_local_addr = IPv6::new(0xfe80, 0, 0, 0, 0, 0, 0, 1);
    assert_eq!("fe80::1", to_string(&link_local_addr));

    assert_eq!("fe80::7f00:0:1", to_string(&IPv6::new(0xfe80, 0, 0, 0, 0, 0x7f00, 0, 1)));

    assert_eq!("::", to_string(&IPv6([0; 16])));

    assert_eq!("::1", to_string(&IPv6::new(0, 0, 0, 0, 0, 0, 0, 1)));
}

#[test]
fn test_new_ipv6() {
    let seg0: u16 = 0x2001;
    let seg1: u16 = 0x0db8;
    let seg2: u16 = 0x85a3;
    let seg3: u16 = 0x0000;
    let seg4: u16 = 0x0000;
    let seg5: u16 = 0x8a2e;
    let seg6: u16 = 0x0370;
    let seg7: u16 = 0x7334;

    let ipv6_addr = IPv6::new(seg0, seg1, seg2, seg3, seg4, seg5, seg6, seg7);

    let expected_addr = IPv6([
        0x20, 0x01, 0x0d, 0xb8, 0x85, 0xa3, 0x00, 0x00,
        0x00, 0x00, 0x8a, 0x2e, 0x03, 0x70, 0x73, 0x34,
    ]);
    assert_eq!(ipv6_addr, expected_addr);
}

#[test]
fn test_parse_invalid_ipv6() {
    let invalid_ipv6 = "2001:0db8::85a3::7334";
    assert!(from_string(invalid_ipv6).is_err());
}

#[test]
fn test_ipv6_to_string() {
    let ipv6 = IPv6([0x20, 0x01, 0x0d, 0xb8, 0x85, 0xa3, 0x00, 0x00, 0x00, 0x00, 0x8a, 0x2e, 0x03, 0x70, 0x73, 0x34]);
    assert_eq!(to_string(&ipv6), "2001:db8:85a3::8a2e:370:7334");
}

#[test]
fn ipv6_test_from_bytes_valid() {
    let bytes = [0x20, 0x01, 0x0d, 0xb8, 0x85, 0xa3, 0x00, 0x00, 0x00, 0x00, 0x8a, 0x2e, 0x03, 0x70, 0x73, 0x34];
    assert_eq!(from_bytes(&bytes).unwrap(), IPv6(bytes));
}

#[test]
fn ipv6_test_from_bytes_invalid_length() {
    let bytes = [0x20, 0x01];
    assert_eq!(from_bytes(&bytes), Err(Ipv6AddressError::InvalidLength));
}

#[test]
fn test_from_segments_invalid_length() {
    let segments_short = [0x2001, 0x0db8];
    assert_eq!(from_segments(&segments_short), Err(Ipv6AddressError::InvalidLength));

    let segments_long = [0x2001, 0x0db8, 0x85a3, 0x0000, 0x0000, 0x8a2e, 0x0370, 0x7334, 0x1234];
    assert_eq!(from_segments(&segments_long), Err(Ipv6AddressError::InvalidLength));
}

#[test]
fn ipv6_test_to_bytes() {
    let ipv6_addr = IPv6([
        0x20, 0x01, 0x0d, 0xb8, 0x85, 0xa3, 0x00, 0x00,
        0x00, 0x00, 0x8a, 0x2e, 0x03, 0x70, 0x73, 0x34,
    ]);
    let bytes = to_bytes(&ipv6_addr);
    let expected_bytes: [u8; 16] = [
        0x20, 0x01, 0x0d, 0xb8, 0x85, 0xa3, 0x00, 0x00,
        0x00, 0x00, 0x8a, 0x2e, 0x03, 0x70, 0x73, 0x34,
    ];
    assert_eq!(bytes, expected_bytes);
}

#[test]
fn test_from_segments() {
    let segments: [u16; 8] = [0x2001, 0x0db8, 0x85a3, 0x0000, 0x0000, 0x8a2e, 0x0370, 0x7334];
    let ipv6_addr = from_segments(&segments).unwrap();
    let expected_addr = IPv6([
        0x20, 0x01, 0x0d, 0xb8, 0x85, 0xa3, 0x00, 0x00,
        0x00, 0x00, 0x8a, 0x2e, 0x03, 0x70, 0x73, 0x34,
    ]);
    assert_eq!(ipv6_addr, expected_addr);
}

#[test]
fn test_to_segments() {
    let ipv6_addr = IPv6([
        0x20, 0x01, 0x0d, 0xb8, 0x85, 0xa3, 0x00, 0x00,
        0x00, 0x00, 0x8a, 0x2e, 0x03, 0x70, 0x73, 0x34,
    ]);
    let segments = to_segments(&ipv6_addr);
    let expected_segments: [u16; 8] = [0x2001, 0x0db8, 0x85a3, 0x0000, 0x0000, 0x8a2e, 0x0370, 0x7334];
    assert_eq!(segments, expected_segments);
}

#[test]
fn test_from_string() {
    let ipv6_str = "2001:0db8:85a3:0000:0000:8a2e:0370:7334";
    let expected_ipv6 = IPv6([
        0x20, 0x01, 0x0d, 0xb8, 0x85, 0xa3, 0x00, 0x00,
        0x00, 0x00, 0x8a, 0x2e, 0x03, 0x70, 0x73, 0x34,
    ]);
    let result = from_string(ipv6_str).unwrap();
    assert_eq!(result, expected_ipv6);
}

#[test]
fn ipv6_canonical_text_scenario() {
    let addr = from_string("2001:0db8:85a3:0000:0000:8a2e:0370:7334").unwrap();
    assert_eq!(to_string(&addr), "2001:db8:85a3::8a2e:370:7334");
    assert_eq!(to_string(&IPv6([0; 16])), "::");
    assert_eq!(to_string(&IPv6::new(0, 0, 0, 0, 0, 0, 0, 1)), "::1");
    let mapped = from_string("::ffff:192.168.1.1").unwrap();
    assert_eq!(mapped, IPv6([0, 0, 0, 0, 0, 0, 0, 0, 0, 0, 0xff, 0xff, 192, 168, 1, 1]));
    assert_eq!(to_string(&mapped), "::ffff:192.168.1.1");
    assert_eq!(from_string(&to_string(&mapped)), Ok(mapped));
}

#[test]
fn ipv6_text_forms_accepted() {
    assert_eq!(from_string("::"), Ok(IPv6([0; 16])));
    assert_eq!(from_string("::1"), Ok(IPv6::new(0, 0, 0, 0, 0, 0, 0, 1)));
    assert_eq!(from_string("1::"), Ok(IPv6::new(1, 0, 0, 0, 0, 0, 0, 0)));
    assert_eq!(from_string("1:2:3:4:5:6:7::"), Ok(IPv6::new(1, 2, 3, 4, 5, 6, 7, 0)));
    assert_eq!(from_string("::2:3:4:5:6:7:8"), Ok(IPv6::new(0, 2, 3, 4, 5, 6, 7, 8)));
    assert_eq!(from_string("FE80::ABCD"), Ok(IPv6::new(0xfe80, 0, 0, 0, 0, 0, 0, 0xabcd)));
    assert_eq!(
        from_string("1:2:3:4:5:6:10.0.0.1"),
        Ok(IPv6::new(1, 2, 3, 4, 5, 6, 0x0a00, 0x0001))
    );
    assert_eq!(from_string("64:ff9b::1.2.3.4"), Ok(IPv6::new(0x64, 0xff9b, 0, 0, 0, 0, 0x0102, 0x0304)));
}

#[test]
fn ipv6_text_forms_rejected() {
    for bad in [
        "",
        ":",
        ":::",
        "1:::2",
        "1::2::3",
        ":1:2:3:4:5:6:7",
        "1:2:3:4:5:6:7",
        "1:2:3:4:5:6:7:8:9",
        "1:2:3:4:5:6:7:8::",
        "::1:2:3:4:5:6:7:8",
        "12345::",
        "g::1",
        "1.2.3.4",
        "1.2.3.4::",
        "::01.2.3.4",
        "::256.2.3.4",
        "::1.2.3",
        "1:2:3:4:5:6:7:1.2.3.4",
        "::1.2.3.4:5",
    ] {
        assert_eq!(from_string(bad), Err(Ipv6AddressError::InvalidFormat), "{}", bad);
    }
}

#[test]
fn ipv6_round_trip_examples() {
    for addr in [
        IPv6([0; 16]),
        IPv6::new(0, 0, 0, 0, 0, 0, 0, 1),
        IPv6::new(1, 0, 0, 0, 0, 0, 0, 0),
        IPv6::new(0, 1, 0, 0, 0, 0, 0, 0),
        IPv6::new(0xfe80, 0, 0, 0, 0, 0x7f00, 0, 1),
        IPv6::new(1, 2, 3, 4, 5, 6, 7, 8),
        IPv6::new(1, 0, 2, 0, 3, 0, 4, 0),
        IPv6([0, 0, 0, 0, 0, 0, 0, 0, 0, 0, 0xff, 0xff, 0, 0, 0, 0]),
    ] {
        assert_eq!(from_string(&to_string(&addr)), Ok(addr));
    }
}

#[test]
fn ipv6_other_classes() {
    let snm = IPv6::new(0xff02, 0, 0, 0, 0, 1, 0xff12, 0x3456);
    assert!(is_solicited_node_multicast(&snm));
    assert!(!is_solicited_node_multicast(&IPv6::new(0xff02, 0, 0, 0, 0, 1, 0xff00, 0x3456)));
    assert!(is_teredo_tunneling(&IPv6::new(0x2001, 0, 1, 2, 3, 4, 5, 6)));
    assert!(!is_teredo_tunneling(&IPv6::new(0x2001, 0xdb8, 1, 2, 3, 4, 5, 6)));
    assert!(is_6to4_tunneling(&IPv6::new(0x2002, 0xc000, 0x0201, 0, 0, 0, 0, 1)));
    assert!(!is_6to4_tunneling(&IPv6::new(0x2001, 0, 0, 0, 0, 0, 0, 1)));
    assert!(is_unicast(&IPv6::new(0x2001, 0xdb8, 0, 0, 0, 0, 0, 1)));
    assert!(!is_unicast(&IPv6::new(0xff02, 0, 0, 0, 0, 0, 0, 1)));
    assert!(!is_unicast(&IPv6::unspecified()));
    let mapped = IPv6([0, 0, 0, 0, 0, 0, 0, 0, 0, 0, 0xff, 0xff, 10, 0, 0, 1]);
    assert!(is_ipv4_mapped(&mapped));
    assert_eq!(to_ipv4(mapped), Some(IPv4::new(10, 0, 0, 1)));
    assert_eq!(to_ipv4(IPv6::loopback()), None);
}

#[test]
fn ipv6_mask_prefixes() {
    let addr = IPv6([0xff; 16]);
    assert_eq!(mask(&addr, 0), [0u8; 16]);
    assert_eq!(mask(&addr, 128), [0xff; 16]);
    let m = mask(&addr, 12);
    assert_eq!(m[0], 0xff);
    assert_eq!(m[1], 0xf0);
    assert_eq!(m[2], 0);
}
