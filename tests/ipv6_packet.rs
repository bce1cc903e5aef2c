use thunda::address::ipv6;
use thunda::parsers::ipv6::IPv6Packet;
use thunda::parsers::{ParsingError, ValidationError};

fn generate_valid_ipv6_buffer() -> Vec<u8> {
    let mut buffer = vec![0u8; 40];
    buffer[0] = 0x60;
    buffer[4] = 0;
    buffer[5] = 0;
    buffer[6] = 59;
    buffer[7] = 255;
    buffer[8..24].fill(0xff);
    buffer[24..40].fill(0xee);
    buffer
}

#[test]
fn ipv6_test_new_with_valid_buffer() {
    let buffer = generate_valid_ipv6_buffer();
    let packet = IPv6Packet::new(&buffer);
    assert_eq!(packet.buffer.len(), 40);
}

#[test]
fn ipv6_test_new_with_validation_success() {
    let buffer = generate_valid_ipv6_buffer();
    assert!(IPv6Packet::new_with_validation(&buffer).is_ok());
}

#[test]
fn test_new_with_too_small_buffer() {
    let small_buffer = vec![0u8; 10];
    assert!(IPv6Packet::new(&small_buffer).check_length().is_err());
}

#[test]
fn ipv6_test_new_with_validation_failure() {
    let small_buffer = vec![0u8; 10];
    assert!(IPv6Packet::new_with_validation(&small_buffer).is_err());
}

#[test]
fn test_check_length_exact_size() {
    let buffer = generate_valid_ipv6_buffer();
    let packet = IPv6Packet::new(&buffer);
    assert!(packet.check_length().is_ok());
}

#[test]
fn test_check_length_smaller_than_header() {
    let small_buffer = vec![0u8; 39];
    let packet = IPv6Packet::new(&small_buffer);
    assert!(packet.check_length().is_err());
}

#[test]
fn test_header_length() {
    let buffer = generate_valid_ipv6_buffer();
    let packet = IPv6Packet::new(&buffer);
    assert_eq!(packet.header_length(), 40);
}

#[test]
fn test_version() {
    let buffer = generate_valid_ipv6_buffer();
    let packet = IPv6Packet::new(&buffer);
    assert_eq!(packet.version(), 6);
}

#[test]
fn test_flow_label() {
    let mut buffer = generate_valid_ipv6_buffer();
    buffer[1] |= 0x0f;
    buffer[2] = 0xff;
    buffer[3] = 0xff;
    let packet = IPv6Packet::new(&buffer);
    assert_eq!(packet.flow_label(), 0x000fffff);
}

#[test]
fn test_payload_length() {
    let mut buffer = generate_valid_ipv6_buffer();
    buffer[4] = 0x01;
    buffer[5] = 0x00;
    let packet = IPv6Packet::new(&buffer);
    assert_eq!(packet.payload_length().unwrap(), 256);
}

#[test]
fn test_total_length() {
    let mut buffer = generate_valid_ipv6_buffer();
    buffer[4] = 0x01;
    buffer[5] = 0x00;
    let packet = IPv6Packet::new(&buffer);
    assert_eq!(packet.total_length().unwrap(), 40 + 256);
}

#[test]
fn test_next_header() {
    let buffer = generate_valid_ipv6_buffer();
    let packet = IPv6Packet::new(&buffer);
    assert_eq!(packet.next_header(), 59);
}

#[test]
fn test_hop_limit() {
    let buffer = generate_valid_ipv6_buffer();
    let packet = IPv6Packet::new(&buffer);
    assert_eq!(packet.hop_limit(), 255);
}

#[test]
fn test_source_and_destination() {
    let buffer = generate_valid_ipv6_buffer();
    let packet = IPv6Packet::new(&buffer);
    let src = packet.source().unwrap();
    let dst = packet.destination().unwrap();
    assert_eq!(src, ipv6::from_bytes(&[0xff; 16]).unwrap());
    assert_eq!(dst, ipv6::from_bytes(&[0xee; 16]).unwrap());
}

// The payload ends where the payload length field says: with that field at
// zero, the ten octets after the header are not part of the packet.
#[test]
fn test_payload() {
    let mut buffer = generate_valid_ipv6_buffer();
    let payload = vec![0xab; 10];
    buffer.extend_from_slice(&payload);
    let packet = IPv6Packet::new(&buffer);
    assert_eq!(packet.payload().unwrap(), &payload[..0]);
}

#[test]
fn test_insufficient_buffer_length() {
    let buffer = vec![0u8; 20];
    assert!(matches!(IPv6Packet::new_with_validation(&buffer), Err(_)));
}

#[test]
fn test_invalid_payload_length() {
    let mut buffer = generate_valid_ipv6_buffer();
    buffer[4] = 0xFF;
    buffer[5] = 0xFF;
    assert!(matches!(IPv6Packet::new_with_validation(&buffer), Err(_)));
}

#[test]
fn test_maximum_payload_length() {
    let mut buffer = generate_valid_ipv6_buffer();
    buffer[4] = 0xFF;
    buffer[5] = 0xFF;
    let packet = IPv6Packet::new(&buffer);
    assert_eq!(packet.payload_length().unwrap(), 65535);
}

#[test]
fn test_traffic_class_and_flow_label_maximum_values() {
    let mut buffer = generate_valid_ipv6_buffer();
    buffer[0] = 0x6F;
    buffer[1] = 0xFF;
    buffer[2] = 0xFF;
    buffer[3] = 0xFF;
    let packet = IPv6Packet::new(&buffer);
    assert_eq!(packet.traffic_class(), 0xFF);
    assert_eq!(packet.flow_label(), 0x0FFFFF);
}

#[test]
fn test_unrecognized_next_header() {
    let mut buffer = generate_valid_ipv6_buffer();
    buffer[6] = 0xFF;
    let packet = IPv6Packet::new(&buffer);
    assert_eq!(packet.next_header(), 0xFF);
}

#[test]
fn test_payload_length_zero() {
    let buffer = generate_valid_ipv6_buffer();
    let packet = IPv6Packet::new(&buffer);
    assert_eq!(packet.payload_length().unwrap(), 0);
    assert!(packet.payload().unwrap().is_empty());
}

#[test]
fn ipv6_payload_follows_length_field() {
    let mut buffer = generate_valid_ipv6_buffer();
    buffer.extend_from_slice(&[1, 2, 3, 4, 5, 6]);
    buffer[5] = 4;
    let packet = IPv6Packet::new_with_validation(&buffer).unwrap();
    assert_eq!(packet.payload().unwrap(), &[1, 2, 3, 4]);
    buffer[5] = 7;
    assert_eq!(
        IPv6Packet::new(&buffer).payload(),
        Err(ParsingError::ValidationError(ValidationError::InvalidPacketLength))
    );
    assert_eq!(IPv6Packet::new(&buffer[..5]).payload(), Err(ParsingError::BufferUnderflow));
}

#[test]
fn ipv6_short_buffer_errors() {
    let buffer = vec![0u8; 30];
    let packet = IPv6Packet::new(&buffer);
    assert!(packet.source().is_ok());
    assert_eq!(packet.destination(), Err(ParsingError::BufferUnderflow));
    assert_eq!(
        packet.check_length(),
        Err(ParsingError::ValidationError(ValidationError::InvalidPacketLength))
    );
    assert_eq!(packet.read_u16(29), Err(ParsingError::BufferUnderflow));
    assert_eq!(packet.read_u16(28), Ok(0));
}
