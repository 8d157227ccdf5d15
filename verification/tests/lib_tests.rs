use packet_parse_safe::{Packet, PacketParser, PacketType, HEADER_SIZE, MAGIC, VERSION_NUM};

#[test]
fn test_library_constants() {
    assert_eq!(MAGIC, 0x5041434B);
    assert_eq!(VERSION_NUM, 1);
    assert_eq!(HEADER_SIZE, 16);
}

#[test]
fn test_end_to_end() {
    let packet = Packet::new(PacketType::Control, vec![0xCA, 0xFE]);
    let bytes = packet.to_bytes();

    let mut parser = PacketParser::new();
    let parsed = parser.parse(&bytes).unwrap();

    assert_eq!(parsed.header.packet_type, PacketType::Control);
    assert_eq!(parsed.payload, vec![0xCA, 0xFE]);
}
