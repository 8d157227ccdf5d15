use std::io;

use packet_parse_safe::PacketError;

#[test]
fn test_error_display_buffer_too_small() {
    let err = PacketError::BufferTooSmall { expected: 64, actual: 32 };
    assert!(err.message().contains("Buffer too small"));
    assert!(err.message().contains("64"));
    assert!(err.message().contains("32"));
}

#[test]
fn test_error_display_invalid_magic() {
    let err = PacketError::InvalidMagic { expected: 0x12345678, found: 0x87654321 };
    assert!(err.message().contains("Invalid magic number"));
}

#[test]
fn test_error_from_io_error() {
    let io_err = io::Error::new(io::ErrorKind::UnexpectedEof, "unexpected eof");
    let packet_err: PacketError = io_err.into();
    assert!(matches!(packet_err, PacketError::IoError(_)));
}

#[test]
fn test_error_messages_exact() {
    assert_eq!(
        PacketError::BufferTooSmall { expected: 16, actual: 4 }.message(),
        "Buffer too small: expected 16 bytes, got 4"
    );
    assert_eq!(
        PacketError::InvalidMagic { expected: 0x5041434B, found: 0xAB }.message(),
        "Invalid magic number: expected 0x5041434B, found 0x000000AB"
    );
    assert_eq!(
        PacketError::LengthMismatch { declared: 100, actual: 0 }.message(),
        "Length mismatch: declared 100 bytes, actual 0 bytes"
    );
    assert_eq!(PacketError::UnknownPacketType(0xFF).message(), "Unknown packet type: 0xFF");
    assert_eq!(PacketError::UnknownPacketType(7).message(), "Unknown packet type: 0x07");
    assert_eq!(
        PacketError::ChecksumMismatch { expected: 0x1A, found: 0xBEEF }.message(),
        "Checksum mismatch: expected 0x001A, found 0xBEEF"
    );
    assert_eq!(
        PacketError::UnsupportedVersion { version: 99, max_supported: 1 }.message(),
        "Unsupported version: 99 (max supported: 1)"
    );
    assert_eq!(
        PacketError::InvalidFieldValue { field: "payload_length", value: 70000 }.message(),
        "Invalid value for field 'payload_length': 70000"
    );
    assert_eq!(
        PacketError::TruncatedData { position: 18, required: 20 }.message(),
        "Truncated data at position 18: required 20 bytes"
    );
    assert_eq!(PacketError::EndOfStream.message(), "End of stream reached unexpectedly");
    let io_err = io::Error::new(io::ErrorKind::Other, "disk on fire");
    assert_eq!(PacketError::IoError(io_err).message(), "IO error: disk on fire");
}

#[test]
fn test_error_message_zero_and_large_numbers() {
    assert_eq!(
        PacketError::BufferTooSmall { expected: 0, actual: 1234567890 }.message(),
        "Buffer too small: expected 0 bytes, got 1234567890"
    );
}
