use thunda::address::mac;
use thunda::assemblers::ethernet::{EtherType, EthernetFrame as FrameWriter};
use thunda::parsers::ethernet::EthernetFrame;
use thunda::parsers::ParsingError;

const FRAME_BYTES: [u8; 64] = [
    0x01, 0x02, 0x03, 0x04, 0x05, 0x06,
    0x11, 0x12, 0x13, 0x14, 0x15, 0x16,
    0x08, 0x00,
    0xaa, 0x00, 0x00, 0x00, 0x00, 0x00, 0x00, 0x00, 0x00, 0x00, 0x00, 0x00, 0x00, 0x00, 0x00, 0x00, 0x00,
    0x00, 0x00, 0x00, 0x00, 0x00, 0x00, 0x00, 0x00, 0x00, 0x00, 0x00, 0x00, 0x00, 0x00, 0x00, 0x00,
    0x00, 0x00, 0x00, 0x00, 0x00, 0x00, 0x00, 0x00, 0x00, 0x00, 0x00, 0x00, 0x00, 0x00, 0x00, 0x00, 0xff,
];

const PARSE_FRAME_BYTES: [u8; 64] = [
    0x01, 0x02, 0x03, 0x04, 0x05, 0x06,
    0x11, 0x12, 0x13, 0x14, 0x15, 0x16,
    0x08, 0x00,
    0xaa, 0x00, 0x00, 0x00, 0x00, 0x00, 0x00, 0x00, 0x00, 0x00, 0x00, 0x00, 0x00, 0x00, 0x00,
    0x00, 0x00, 0x00, 0x00, 0x00, 0x00, 0x00, 0x00, 0x00, 0x00, 0x00, 0x00, 0x00, 0x00, 0x00,
    0x00, 0x00, 0x00, 0x00, 0x00, 0x00, 0x00, 0x00, 0x00, 0x00, 0x00, 0x00, 0x00, 0x00, 0x00,
    0x00, 0x00, 0x00, 0xff,
    0x00,
];

#[test]
fn construct_ethernet_frame() {
    let mut buffer = [0u8; 64];
    let mut frame = FrameWriter::new(&mut buffer);
    frame.set_destination(mac::from_bytes(&[0x01, 0x02, 0x03, 0x04, 0x05, 0x06]).unwrap());
    frame.set_source(mac::from_bytes(&[0x11, 0x12, 0x13, 0x14, 0x15, 0x16]).unwrap());
    frame.set_ethertype(EtherType::Ipv4);
    let payload = frame.mut_payload_ref();
    payload.copy_from_slice(&[0xaa, 0x00, 0x00, 0x00, 0x00, 0x00, 0x00, 0x00, 0x00, 0x00, 0x00, 0x00, 0x00, 0x00, 0x00, 0x00, 0x00,
        0x00, 0x00, 0x00, 0x00, 0x00, 0x00, 0x00, 0x00, 0x00, 0x00, 0x00, 0x00, 0x00, 0x00, 0x00, 0x00,
        0x00, 0x00, 0x00, 0x00, 0x00, 0x00, 0x00, 0x00, 0x00, 0x00, 0x00, 0x00, 0x00, 0x00, 0x00, 0x00, 0xff]);

    assert_eq!(&buffer[..], &FRAME_BYTES[..]);
}

#[test]
fn test_deconstruct() {
    let frame = EthernetFrame::new_with_validation(&PARSE_FRAME_BYTES).expect("Valid frame");
    assert_eq!(frame.destination(), &[0x01, 0x02, 0x03, 0x04, 0x05, 0x06]);
    assert_eq!(frame.source(), &[0x11, 0x12, 0x13, 0x14, 0x15, 0x16]);
    assert_eq!(frame.ethertype(), 0x0800);
    assert_eq!(frame.payload(), &PARSE_FRAME_BYTES[14..64]);
}

#[test]
fn ethernet_rejects_short_buffers() {
    for len in 0..14 {
        let buffer = vec![0u8; len];
        assert!(matches!(
            EthernetFrame::new_with_validation(&buffer),
            Err(ParsingError::BufferUnderflow)
        ));
    }
    let header_only = [0u8; 14];
    let frame = EthernetFrame::new_with_validation(&header_only).unwrap();
    assert!(frame.payload().is_empty());
    assert_eq!(EthernetFrame::header_length(), 14);
}

#[test]
fn ethernet_sixty_four_byte_frame() {
    let mut buffer = [0u8; 64];
    for (i, b) in buffer.iter_mut().enumerate() {
        *b = (i * 7 + 3) as u8;
    }
    let frame = EthernetFrame::new_with_validation(&buffer).unwrap();
    assert_eq!(frame.payload(), &buffer[14..64]);
    assert_eq!(frame.ethertype(), u16::from_be_bytes([buffer[12], buffer[13]]));
}

#[test]
fn ethertype_values_on_the_wire() {
    assert_eq!(EtherType::Ipv4.value(), 0x0800);
    assert_eq!(EtherType::Arp.value(), 0x0806);
    assert_eq!(EtherType::Ipv6.value(), 0x86DD);
    let mut buffer = [0u8; 20];
    let mut frame = FrameWriter::new(&mut buffer);
    frame.set_ethertype(EtherType::Ipv6);
    assert_eq!(&buffer[12..14], &[0x86, 0xDD]);
}
