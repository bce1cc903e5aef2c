use thunda::address::ipv4::{from_bytes, from_string, from_u32, IPv4, IPv4AddressError};

#[test]
fn ipv4_test_new() {
    let ipv4 = IPv4::new(192, 168, 1, 1);
    assert_eq!(ipv4.to_string(), "192.168.1.1");
}

#[test]
fn test_from_str() {
    let ipv4: IPv4 = "192.168.1.1".parse().unwrap();
    assert_eq!(ipv4, IPv4::new(192, 168, 1, 1));
}

#[test]
fn ipv4_test_to_bytes() {
    let ipv4 = IPv4::new(192, 168, 1, 1);
    assert_eq!(ipv4.to_bytes(), [192, 168, 1, 1]);
}

#[test]
fn test_is_unicast() {
    let ipv4 = IPv4::new(192, 168, 1, 1);
    assert!(ipv4.is_unicast());
}

#[test]
fn test_is_broadcast() {
    let ipv4 = IPv4::new(255, 255, 255, 255);
    assert!(ipv4.is_broadcast());
    let ipv4_normal = IPv4::new(192, 168, 1, 1);
    assert!(!ipv4_normal.is_broadcast());
}

#[test]
fn test_is_multicast() {
    let ipv4_multicast = IPv4::new(224, 0, 0, 1);
    assert!(ipv4_multicast.is_multicast());
    let ipv4_normal = IPv4::new(192, 168, 1, 1);
    assert!(!ipv4_normal.is_multicast());
}

#[test]
fn test_is_unspecified() {
    let ipv4 = IPv4::new(0, 0, 0, 0);
    assert!(ipv4.is_unspecified());
    let ipv4_normal = IPv4::new(192, 168, 1, 1);
    assert!(!ipv4_normal.is_unspecified());
}

#[test]
fn test_is_link_local() {
    let ipv4_link_local = IPv4::new(169, 254, 0, 1);
    assert!(ipv4_link_local.is_link_local());
    let ipv4_normal = IPv4::new(192, 168, 1, 1);
    assert!(!ipv4_normal.is_link_local());
}

#[test]
fn test_is_loopback() {
    let ipv4_loopback = IPv4::new(127, 0, 0, 1);
    assert!(ipv4_loopback.is_loopback());
    let ipv4_normal = IPv4::new(192, 168, 1, 1);
    assert!(!ipv4_normal.is_loopback());
}

#[test]
fn ipv4_test_from_bytes_valid() {
    let ipv4 = from_bytes(&[192, 168, 1, 1]).unwrap();
    assert_eq!(ipv4, IPv4::new(192, 168, 1, 1));
}

#[test]
fn ipv4_test_from_bytes_invalid_length() {
    let ipv4_result = from_bytes(&[192, 168, 1]);
    assert!(ipv4_result.is_err());
}

#[test]
fn test_display_format() {
    let ipv4 = IPv4::new(192, 168, 1, 1);
    assert_eq!(ipv4.to_string(), "192.168.1.1");
}

#[test]
fn test_to_u32() {
    let addr = IPv4::new(192, 168, 1, 1);
    let addr_u32 = addr.to_u32();
    assert_eq!(addr_u32, 0xC0A80101);
}

#[test]
fn test_from_u32() {
    let addr_u32 = 0xC0A80101;
    let addr = from_u32(addr_u32);
    assert_eq!(addr, IPv4::new(192, 168, 1, 1));
}

#[test]
fn test_is_private() {
    let private_addr_10 = IPv4::new(10, 0, 0, 1);
    assert!(private_addr_10.is_private());
    let private_addr_172 = IPv4::new(172, 16, 0, 1);
    assert!(private_addr_172.is_private());
    let private_addr_192 = IPv4::new(192, 168, 0, 1);
    assert!(private_addr_192.is_private());
    let public_addr = IPv4::new(8, 8, 8, 8);
    assert!(!public_addr.is_private());
}

#[test]
fn ipv4_from_string_scenario() {
    assert_eq!(from_string("192.168.1.1"), Ok(IPv4::new(192, 168, 1, 1)));
    assert_eq!(from_string("192.168.1.1").unwrap().to_string(), "192.168.1.1");
}

#[test]
fn ipv4_from_string_errors() {
    assert_eq!(from_string("1.2.3"), Err(IPv4AddressError::InvalidLength));
    assert_eq!(from_string("1.2.3.4.5"), Err(IPv4AddressError::InvalidLength));
    assert_eq!(from_string(""), Err(IPv4AddressError::InvalidLength));
    assert_eq!(from_string("1.2.3.256"), Err(IPv4AddressError::InvalidCharacter));
    assert_eq!(from_string("1.2.x.4"), Err(IPv4AddressError::InvalidCharacter));
    assert_eq!(from_string("1..3.4"), Err(IPv4AddressError::InvalidCharacter));
    assert_eq!(from_string("1.2.3.-4"), Err(IPv4AddressError::InvalidCharacter));
    assert_eq!(from_string("1.2.3.+"), Err(IPv4AddressError::InvalidCharacter));
}

#[test]
fn ipv4_from_string_edges() {
    assert_eq!(from_string("0.0.0.0"), Ok(IPv4::new(0, 0, 0, 0)));
    assert_eq!(from_string("255.255.255.255"), Ok(IPv4::new(255, 255, 255, 255)));
    assert_eq!(from_string("010.001.0.+7"), Ok(IPv4::new(10, 1, 0, 7)));
}

#[test]
fn ipv4_text_round_trip_examples() {
    for a in [
        IPv4::new(0, 0, 0, 0),
        IPv4::new(9, 10, 99, 100),
        IPv4::new(255, 254, 128, 1),
    ] {
        assert_eq!(from_string(&a.to_string()), Ok(a));
    }
}

#[test]
fn ipv4_u32_round_trip_examples() {
    assert_eq!(from_u32(0).to_u32(), 0);
    assert_eq!(from_u32(0xFFFF_FFFF).to_u32(), 0xFFFF_FFFF);
    assert_eq!(from_u32(0x0102_0304), IPv4::new(1, 2, 3, 4));
    assert_eq!(from_u32(IPv4::new(10, 20, 30, 40).to_u32()), IPv4::new(10, 20, 30, 40));
}

#[test]
fn ipv4_classification_edges() {
    assert!(IPv4::new(239, 255, 255, 255).is_multicast());
    assert!(!IPv4::new(240, 0, 0, 0).is_multicast());
    assert!(!IPv4::new(223, 255, 255, 255).is_multicast());
    assert!(IPv4::new(172, 31, 0, 1).is_private());
    assert!(!IPv4::new(172, 32, 0, 1).is_private());
    assert!(!IPv4::new(172, 15, 0, 1).is_private());
    assert!(!IPv4::new(255, 255, 255, 255).is_unicast());
    assert!(!IPv4::new(224, 0, 0, 1).is_unicast());
    assert!(!IPv4::new(0, 1, 2, 3).is_unicast());
}

#[test]
fn ipv4_error_messages() {
    assert_eq!(
        IPv4AddressError::InvalidLength.to_string(),
        "IPv4 address must have exactly 4 octets"
    );
    assert_eq!(
        IPv4AddressError::InvalidSegment.to_string(),
        "IPv4 address segment out of range (0-255)"
    );
}

#[test]
fn ipv4_well_known_addresses() {
    assert_eq!(IPv4::unspecified(), IPv4::new(0, 0, 0, 0));
    assert!(IPv4::unspecified().is_unspecified());
    assert_eq!(IPv4::broadcast(), IPv4::new(255, 255, 255, 255));
    assert!(IPv4::broadcast().is_broadcast());
}
