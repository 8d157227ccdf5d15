use packet_parse_safe::packet::HEADER_SIZE;
use packet_parse_safe::{
    Packet, PacketError, PacketFlags, PacketParser, PacketType, ParserConfigBuilder,
};

fn same_packet(a: &Packet, b: &Packet) -> bool {
    a.header.magic == b.header.magic
        && a.header.version == b.header.version
        && a.header.packet_type == b.header.packet_type
        && a.header.flags.to_u8() == b.header.flags.to_u8()
        && a.header.sequence_number == b.header.sequence_number
        && a.header.payload_length == b.header.payload_length
        && a.header.checksum == b.header.checksum
        && a.payload == b.payload
}

#[test]
fn test_roundtrip_with_flags_and_trailing_bytes() {
    let mut p = Packet::with_sequence(PacketType::Error, vec![9, 8, 7], 0xDEAD_BEEF);
    p.header.flags = PacketFlags {
        encrypted: true,
        compressed: true,
        fragmented: true,
        last_fragment: false,
        priority: 15,
    };
    p.header.checksum = p.header.calculate_checksum();
    let mut bytes = p.to_bytes();
    bytes.extend_from_slice(&[0xAA, 0xBB]);
    let mut parser = PacketParser::new();
    let parsed = parser.parse(&bytes).unwrap();
    assert!(same_packet(&parsed, &p));
    assert_eq!(parser.stats().total_bytes, HEADER_SIZE + 3);
    assert_eq!(parser.stats().error_packets, 1);
}

#[test]
fn test_roundtrip_largest_length_field() {
    let payload = vec![0x5A; 0xFFFF];
    let p = Packet::new(PacketType::Data, payload);
    let mut parser = PacketParser::new();
    let parsed = parser.parse(&p.to_bytes()).unwrap();
    assert!(same_packet(&parsed, &p));
}

#[test]
fn test_stream_roundtrip_counts() {
    let ps = vec![
        Packet::new(PacketType::Control, vec![1]),
        Packet::new(PacketType::Error, vec![]),
        Packet::with_sequence(PacketType::Data, vec![2, 3, 4], 7),
    ];
    let mut buffer = Vec::new();
    for p in &ps {
        buffer.extend_from_slice(&p.to_bytes());
    }
    let mut parser = PacketParser::new();
    let parsed = parser.parse_all(&buffer).unwrap();
    assert_eq!(parsed.len(), 3);
    for (a, b) in parsed.iter().zip(ps.iter()) {
        assert!(same_packet(a, b));
    }
    let s = parser.stats();
    assert_eq!(s.total_packets, 3);
    assert_eq!(
        s.total_packets,
        s.data_packets + s.ack_packets + s.control_packets + s.heartbeat_packets + s.error_packets
    );
    assert_eq!(s.total_bytes, buffer.len());
    assert_eq!(s.parse_errors, 0);
}

#[test]
fn test_parse_all_stops_at_incomplete_tail() {
    let p = Packet::new(PacketType::Data, vec![1, 2, 3]);
    let mut buffer = p.to_bytes();
    // a second packet whose payload is cut short
    let q = Packet::new(PacketType::Data, vec![4, 5, 6, 7]);
    let qb = q.to_bytes();
    buffer.extend_from_slice(&qb[..qb.len() - 1]);
    let mut parser = PacketParser::new();
    let parsed = parser.parse_all(&buffer).unwrap();
    assert_eq!(parsed.len(), 1);
    assert_eq!(parser.stats().parse_errors, 0);

    // fewer bytes than a header
    let mut parser = PacketParser::new();
    assert_eq!(parser.parse_all(&[1, 2, 3]).unwrap().len(), 0);
    assert_eq!(parser.parse_all(&[]).unwrap().len(), 0);
}

#[test]
fn test_parse_all_fails_on_bad_packet() {
    let p = Packet::new(PacketType::Data, vec![1, 2, 3]);
    let mut buffer = p.to_bytes();
    let mut bad = Packet::new(PacketType::Control, vec![4]).to_bytes();
    bad[0] = 0;
    buffer.extend_from_slice(&bad);
    buffer.extend_from_slice(&p.to_bytes());
    let mut parser = PacketParser::new();
    let r = parser.parse_all(&buffer);
    assert!(matches!(r, Err(PacketError::InvalidMagic { expected: 0x5041434B, found: 0x0041434B })));
    assert_eq!(parser.stats().total_packets, 1);
    assert_eq!(parser.stats().parse_errors, 1);
}

#[test]
fn test_parse_error_details_and_counting() {
    let mut parser = PacketParser::new();
    assert!(matches!(
        parser.parse(&[0x50, 0x41]),
        Err(PacketError::BufferTooSmall { expected: 16, actual: 2 })
    ));
    assert_eq!(parser.stats().parse_errors, 1);

    // unknown packet type: counted like every other failure
    let mut b = Packet::new(PacketType::Data, vec![]).to_bytes();
    b[5] = 9;
    assert!(matches!(parser.parse(&b), Err(PacketError::UnknownPacketType(9))));
    assert_eq!(parser.stats().parse_errors, 2);

    // truncated
    let b = Packet::new(PacketType::Data, vec![1, 2, 3, 4]).to_bytes();
    assert!(matches!(
        parser.parse(&b[..18]),
        Err(PacketError::TruncatedData { position: 18, required: 20 })
    ));
    assert_eq!(parser.stats().parse_errors, 3);
    assert_eq!(parser.stats().total_packets, 0);

    // payload over the configured limit
    let mut small = PacketParser::with_config(ParserConfigBuilder::new().with_max_payload_size(3).build());
    assert!(matches!(
        small.parse(&b),
        Err(PacketError::InvalidFieldValue { field: "payload_length", value: 4 })
    ));
    assert_eq!(small.stats().parse_errors, 1);
    assert_eq!(small.stats().total_packets, 0);

    // a corrupted checksum is refused and counted when checksums are verified
    let mut b = Packet::new(PacketType::Data, vec![1]).to_bytes();
    b[15] ^= 0xFF;
    let mut strict = PacketParser::new();
    assert!(matches!(strict.parse(&b), Err(PacketError::ChecksumMismatch { .. })));
    assert_eq!(strict.stats().parse_errors, 1);

    // with checksum verification off, header validation does not test the checksum
    let mut no_checksum = PacketParser::with_config(
        ParserConfigBuilder::new().with_checksum_verification(false).build(),
    );
    let parsed = no_checksum.parse(&b).unwrap();
    assert!(!parsed.header.verify_checksum());
    assert_eq!(parsed.payload, vec![1]);
    assert_eq!(no_checksum.stats().parse_errors, 0);
    assert_eq!(no_checksum.stats().total_packets, 1);

    // but it still checks the header fields
    let mut b2 = b.clone();
    b2[4] = 0;
    b2[0] = 1;
    assert!(matches!(no_checksum.parse(&b2), Err(PacketError::InvalidMagic { .. })));
    assert_eq!(no_checksum.stats().parse_errors, 1);

    // with neither check the corrupted packet is accepted as it is
    let mut lax = PacketParser::with_config(
        ParserConfigBuilder::new()
            .with_checksum_verification(false)
            .with_header_validation(false)
            .build(),
    );
    let parsed = lax.parse(&b).unwrap();
    assert!(!parsed.header.verify_checksum());
    assert_eq!(lax.stats().total_packets, 1);
}

#[test]
fn test_checksum_skipped_as_documented() {
    let mut b = Packet::new(PacketType::Data, vec![1, 2, 3]).to_bytes();
    b[14] = 0;
    b[15] = 0;
    let mut parser = PacketParser::with_config(
        ParserConfigBuilder::new()
            .with_checksum_verification(false)
            .with_header_validation(true)
            .build(),
    );
    let q = parser.parse(&b).unwrap();
    assert_eq!(q.payload, vec![1, 2, 3]);
    assert_eq!(q.header.checksum, 0);
}

#[test]
fn test_reset_stats() {
    let mut parser = PacketParser::new();
    parser.parse(&Packet::new(PacketType::Data, vec![1]).to_bytes()).unwrap();
    let _ = parser.parse(&[0]);
    parser.reset_stats();
    let s = parser.stats();
    assert_eq!(s.total_packets, 0);
    assert_eq!(s.data_packets, 0);
    assert_eq!(s.total_bytes, 0);
    assert_eq!(s.parse_errors, 0);
}

#[test]
fn test_record_methods() {
    let mut s = packet_parse_safe::ParseStats::default();
    s.record_packet(PacketType::Control, 10);
    s.record_packet(PacketType::Acknowledgment, 0);
    s.record_error();
    assert_eq!(s.total_packets, 2);
    assert_eq!(s.control_packets, 1);
    assert_eq!(s.ack_packets, 1);
    assert_eq!(s.total_bytes, 2 * HEADER_SIZE + 10);
    assert_eq!(s.parse_errors, 1);
}
