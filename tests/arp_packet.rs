use thunda::parsers::arp::{ArpPacket, Hardware, Operation};
use thunda::parsers::ParsingError;

#[test]
fn test_arp_packet_parsing() {
    let data: [u8; 28] = [
        0x00, 0x01,
        0x08, 0x00,
        0x06,
        0x04,
        0x00, 0x01,
        0xde, 0xad, 0xbe, 0xef, 0xde, 0xad,
        0xc0, 0xa8, 0x01, 0x01,
        0x00, 0x00, 0x00, 0x00, 0x00, 0x00,
        0xc0, 0xa8, 0x01, 0x02,
    ];

    let packet = ArpPacket::new_with_validation(&data).unwrap();

    assert_eq!(packet.hardware_type(), 0x0001);
    assert_eq!(packet.protocol_type(), 0x0800);
    assert_eq!(packet.hardware_address_length(), 6);
    assert_eq!(packet.protocol_address_length(), 4);
    assert_eq!(packet.operation(), 0x0001);
    assert_eq!(packet.sender_hardware_address(), &[0xde, 0xad, 0xbe, 0xef, 0xde, 0xad]);
    assert_eq!(packet.sender_protocol_address(), &[0xc0, 0xa8, 0x01, 0x01]);
    assert_eq!(packet.target_hardware_address(), &[0x00, 0x00, 0x00, 0x00, 0x00, 0x00]);
    assert_eq!(packet.target_protocol_address(), &[0xc0, 0xa8, 0x01, 0x02]);
}

#[test]
fn arp_rejects_short_buffers() {
    let data = [0u8; 27];
    assert!(matches!(ArpPacket::new_with_validation(&data), Err(ParsingError::BufferUnderflow)));
    let data = [0u8; 28];
    assert!(ArpPacket::new_with_validation(&data).is_ok());
}

#[test]
fn arp_codes_never_abort() {
    assert_eq!(Hardware::from(1u16), Hardware::Ethernet);
    assert_eq!(Hardware::from(6u16), Hardware::Unknown(6));
    assert_eq!(Operation::from(1u16), Operation::Request);
    assert_eq!(Operation::from(2u16), Operation::Reply);
    assert_eq!(Operation::from(0xffffu16), Operation::Unknown(0xffff));
}
