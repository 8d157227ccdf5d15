use packet_parse_safe::packet::{HEADER_SIZE, MAX_PAYLOAD_SIZE, PACKET_MAGIC, PROTOCOL_VERSION};
use packet_parse_safe::{Packet, PacketError, PacketFlags, PacketHeader, PacketType};

#[test]
fn test_packet_type_from_u8() {
    assert_eq!(PacketType::from_u8(0x01).unwrap(), PacketType::Data);
    assert_eq!(PacketType::from_u8(0x02).unwrap(), PacketType::Acknowledgment);
    assert!(PacketType::from_u8(0xFF).is_err());
}

#[test]
fn test_packet_flags_roundtrip() {
    let flags = PacketFlags {
        encrypted: true,
        compressed: false,
        fragmented: true,
        last_fragment: false,
        priority: 5,
    };
    let encoded = flags.to_u8();
    let decoded = PacketFlags::from_u8(encoded);

    assert_eq!(flags.encrypted, decoded.encrypted);
    assert_eq!(flags.compressed, decoded.compressed);
    assert_eq!(flags.fragmented, decoded.fragmented);
    assert_eq!(flags.last_fragment, decoded.last_fragment);
    assert_eq!(flags.priority, decoded.priority);
}

#[test]
fn test_packet_creation() {
    let payload = vec![0x01, 0x02, 0x03, 0x04];
    let packet = Packet::new(PacketType::Data, payload.clone());

    assert_eq!(packet.header.magic, PACKET_MAGIC);
    assert_eq!(packet.header.version, PROTOCOL_VERSION);
    assert_eq!(packet.header.packet_type, PacketType::Data);
    assert_eq!(packet.payload, payload);
}

#[test]
fn test_packet_validation() {
    let payload = vec![0x01, 0x02, 0x03, 0x04];
    let packet = Packet::new(PacketType::Data, payload);

    assert!(packet.validate().is_ok());
}

#[test]
fn test_packet_serialization() {
    let payload = vec![0xDE, 0xAD, 0xBE, 0xEF];
    let packet = Packet::with_sequence(PacketType::Control, payload, 42);

    let bytes = packet.to_bytes();
    assert_eq!(bytes.len(), packet.total_size());
    assert_eq!(bytes.len(), HEADER_SIZE + 4);
}

#[test]
fn test_checksum_calculation() {
    let header = PacketHeader::new(PacketType::Data, 1, 100);
    let checksum = header.calculate_checksum();
    assert_ne!(checksum, 0);

    let mut header_with_checksum = header.clone();
    header_with_checksum.checksum = checksum;
    assert!(header_with_checksum.verify_checksum());
}

#[test]
fn test_checksum_exact_values() {
    let header = PacketHeader::new(PacketType::Data, 1, 100);
    assert_eq!(header.calculate_checksum(), 0x6B0D);
    assert!(!header.verify_checksum());

    // A sum above 16 bits is folded back in.
    let mut big = PacketHeader::new(PacketType::Error, 0xFFFF_FFFF, 0xFFFF_FFFF);
    big.version = 255;
    big.flags = PacketFlags::from_u8(0xFF);
    assert_eq!(big.calculate_checksum(), 0x6E6C);

    // Words 0x5041, 0x434B, 0x0104, 0x0000, ... sum to 0x9490.
    let heartbeat = PacketHeader::new(PacketType::Heartbeat, 0, 0);
    assert_eq!(heartbeat.calculate_checksum(), 0x6B6F);
}

#[test]
fn test_packet_type_codes_and_names() {
    let all = [
        (PacketType::Data, 1u8, "DATA"),
        (PacketType::Acknowledgment, 2, "ACK"),
        (PacketType::Control, 3, "CTRL"),
        (PacketType::Heartbeat, 4, "HEARTBEAT"),
        (PacketType::Error, 5, "ERROR"),
    ];
    for (t, code, name) in all {
        assert_eq!(t.code(), code);
        assert_eq!(t.as_str(), name);
        assert_eq!(PacketType::from_u8(code).unwrap(), t);
    }
    assert_eq!(PacketType::Ack, PacketType::Acknowledgment);
    assert!(matches!(PacketType::from_u8(0), Err(PacketError::UnknownPacketType(0))));
    assert!(matches!(PacketType::from_u8(6), Err(PacketError::UnknownPacketType(6))));
}

#[test]
fn test_flags_bits() {
    let f = PacketFlags::from_u8(0xA5);
    assert!(f.encrypted);
    assert!(!f.compressed);
    assert!(f.fragmented);
    assert!(!f.last_fragment);
    assert_eq!(f.priority, 0x0A);
    for b in 0..=255u8 {
        assert_eq!(PacketFlags::from_u8(b).to_u8(), b);
    }
    // Only the low four bits of the priority are written.
    let wide = PacketFlags {
        encrypted: false,
        compressed: true,
        fragmented: false,
        last_fragment: true,
        priority: 0x1F,
    };
    assert_eq!(wide.to_u8(), 0xFA);
    assert_eq!(PacketFlags::default().to_u8(), 0);
}

#[test]
fn test_to_bytes_exact() {
    let packet = Packet::with_sequence(PacketType::Control, vec![0xDE, 0xAD, 0xBE, 0xEF], 42);
    assert_eq!(
        packet.to_bytes(),
        vec![
            0x50, 0x41, 0x43, 0x4B, 0x01, 0x03, 0x00, 0x00, 0x00, 0x00, 0x00, 0x2A, 0x00, 0x04,
            0x6B, 0x42, 0xDE, 0xAD, 0xBE, 0xEF
        ]
    );
    assert_eq!(packet.header.checksum, 0x6B42);
}

#[test]
fn test_header_validation_errors() {
    let mut h = PacketHeader::new(PacketType::Data, 0, 10);
    assert!(h.validate().is_ok());
    h.payload_length = MAX_PAYLOAD_SIZE as u32;
    assert!(h.validate().is_ok());
    h.payload_length = MAX_PAYLOAD_SIZE as u32 + 1;
    assert!(matches!(
        h.validate(),
        Err(PacketError::InvalidFieldValue { field: "payload_length", value: 65537 })
    ));
    h.version = 2;
    assert!(matches!(
        h.validate(),
        Err(PacketError::UnsupportedVersion { version: 2, max_supported: 1 })
    ));
    h.magic = 7;
    assert!(matches!(
        h.validate(),
        Err(PacketError::InvalidMagic { expected: 0x5041434B, found: 7 })
    ));
}

#[test]
fn test_packet_validation_errors() {
    let mut p = Packet::new(PacketType::Data, vec![1, 2, 3]);
    p.payload.push(4);
    assert!(matches!(
        p.validate(),
        Err(PacketError::LengthMismatch { declared: 3, actual: 4 })
    ));
    let mut p = Packet::new(PacketType::Data, vec![1, 2, 3]);
    p.header.checksum = 0;
    assert!(matches!(
        p.validate(),
        Err(PacketError::ChecksumMismatch { expected: 0, found: 0x6B6F })
    ));
}

#[test]
fn test_largest_packet_validates() {
    let p = Packet::new(PacketType::Data, vec![0; MAX_PAYLOAD_SIZE]);
    assert!(p.validate().is_ok());
    assert_eq!(p.total_size(), HEADER_SIZE + MAX_PAYLOAD_SIZE);
}
