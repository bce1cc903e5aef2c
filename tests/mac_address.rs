use thunda::address::mac::{from_bytes, from_string, Mac, MacAddressParseError};

const VALID_CONVERSION_TEST_CASES: [(&str, [u8; 6]); 3] = [
    ("00:00:00:00:00:00", [0, 0, 0, 0, 0, 0]),
    ("01:23:45:67:89:ab", [0x01, 0x23, 0x45, 0x67, 0x89, 0xab]),
    ("ff:ff:ff:ff:ff:ff", [0xff, 0xff, 0xff, 0xff, 0xff, 0xff]),
];

const INVALID_CONVERSION_TEST_CASES: [&str; 3] = [
    "00-00-00-00-00",
    "g1:22:33:44:55:66",
    "01:23:45:67:89:gh",
];

#[test]
fn mac_test_new() {
    let mac = Mac::new(0x11, 0x22, 0x33, 0x44, 0x55, 0x66);
    assert_eq!(mac, Mac([0x11, 0x22, 0x33, 0x44, 0x55, 0x66]));
}

#[test]
fn test_parse_valid() {
    for &(mac_str, expected) in &VALID_CONVERSION_TEST_CASES {
        let mac = from_string(mac_str).expect("Failed to parse MAC address");
        assert_eq!(mac, Mac(expected));
    }
}

#[test]
fn mac_test_to_bytes() {
    let mac = Mac([0x11, 0x22, 0x33, 0x44, 0x55, 0x66]);
    let expected_bytes = [0x11, 0x22, 0x33, 0x44, 0x55, 0x66];
    assert_eq!(mac.to_bytes(), expected_bytes);
}

#[test]
fn test_to_string() {
    let mac = Mac([0x11, 0x22, 0x33, 0x44, 0x55, 0x66]);
    let expected_str = "11:22:33:44:55:66";
    assert_eq!(mac.to_string(), expected_str);
}

#[test]
fn batch_test_parse_invalid() {
    for &mac_str in INVALID_CONVERSION_TEST_CASES.iter() {
        assert!(from_string(mac_str).is_err());
    }
}

#[test]
fn test_edge_cases() {
    let all_zeroes = "00:00:00:00:00:00";
    assert_eq!(from_string(all_zeroes).unwrap(), Mac([0, 0, 0, 0, 0, 0]));

    let all_ones = "ff:ff:ff:ff:ff:ff";
    assert_eq!(from_string(all_ones).unwrap(), Mac([0xff, 0xff, 0xff, 0xff, 0xff, 0xff]));

    let local_universal_boundary = "02:00:00:00:00:00";
    let mac = from_string(local_universal_boundary).unwrap();
    assert!(mac.is_local());
}

#[test]
fn test_display_traits() {
    let mac = Mac::new(0xde, 0xad, 0xbe, 0xef, 0x00, 0x01);
    assert_eq!(mac.to_string(), "de:ad:be:ef:00:01");

    let error = MacAddressParseError::InvalidCharacter;
    assert_eq!(error.to_string(), "MAC address contains invalid hexadecimal characters");
}

#[test]
fn test_parse_invalid_length() {
    let mac_str = "11:22:33:44:55";
    assert_eq!(from_string(mac_str), Err(MacAddressParseError::InvalidLength));
}

#[test]
fn test_invalid_characters() {
    assert!(from_string("gg:gg:gg:gg:gg:gg").is_err());
}

#[test]
fn test_unicast_multicast() {
    let unicast_mac = from_string("02:00:00:00:00:00").unwrap();
    let multicast_mac = from_string("01:00:00:00:00:00").unwrap();
    assert!(!unicast_mac.is_multicast());
    assert!(multicast_mac.is_multicast());
}

#[test]
fn test_local_universal() {
    let local_mac = from_string("02:00:00:00:00:00").unwrap();
    let universal_mac = from_string("00:00:00:00:00:00").unwrap();
    assert!(local_mac.is_local());
    assert!(!universal_mac.is_local());
}

#[test]
fn test_parse_invalid_format() {
    let mac_str = "11:22:33:GG:55:66";
    assert_eq!(from_string(mac_str), Err(MacAddressParseError::InvalidCharacter));
}

#[test]
fn mac_delimiter_conventions_agree() {
    let zero = Mac::new(0, 0, 0, 0, 0, 0);
    assert_eq!(from_string("00-00-00-00-00-00"), Ok(zero));
    assert_eq!(from_string("00:00:00:00:00:00"), Ok(zero));
    assert_eq!(from_string("0000.0000.0000"), Ok(zero));
    assert_eq!(from_string("AB-cd-EF-01-23-45"), Ok(Mac::new(0xab, 0xcd, 0xef, 0x01, 0x23, 0x45)));
}

#[test]
fn mac_parse_errors() {
    assert_eq!(from_string(""), Err(MacAddressParseError::InvalidLength));
    assert_eq!(from_string("00:11:22:33:44:55:66"), Err(MacAddressParseError::InvalidLength));
    assert_eq!(from_string("+1:22:33:44:55:66"), Err(MacAddressParseError::InvalidCharacter));
    assert_eq!(from_string("é1:22:33:44:55:66"), Err(MacAddressParseError::InvalidCharacter));
}

#[test]
fn mac_round_trip_examples() {
    for m in [
        Mac::new(0, 0, 0, 0, 0, 0),
        Mac::new(0xff, 0xff, 0xff, 0xff, 0xff, 0xff),
        Mac::new(0x0a, 0xb0, 0x01, 0x10, 0x9f, 0xf9),
    ] {
        assert_eq!(from_string(&m.to_string()), Ok(m));
    }
}

#[test]
fn mac_from_bytes_lengths() {
    assert_eq!(from_bytes(&[1, 2, 3, 4, 5, 6]), Ok(Mac::new(1, 2, 3, 4, 5, 6)));
    assert_eq!(from_bytes(&[1, 2, 3, 4, 5]), Err(MacAddressParseError::InvalidLength));
    assert_eq!(from_bytes(&[1, 2, 3, 4, 5, 6, 7]), Err(MacAddressParseError::InvalidLength));
}
