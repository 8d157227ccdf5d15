use vstd::prelude::*;
use vstd::string::*;

use crate::text::{append_decimal, append_hex, decimal, hex_digits};

verus! {

#[verifier::external_type_specification]
#[verifier::external_body]
pub struct ExIoError(std::io::Error);

/// Error types that can occur during packet parsing.
#[derive(Debug)]
pub enum PacketError {
    /// The input buffer is too small to contain a valid packet header
    BufferTooSmall { expected: usize, actual: usize },
    /// Invalid magic number in packet header
    InvalidMagic { expected: u32, found: u32 },
    /// Packet length field is inconsistent with actual data
    LengthMismatch { declared: usize, actual: usize },
    /// Unknown packet type identifier
    UnknownPacketType(u8),
    /// Invalid checksum detected
    ChecksumMismatch { expected: u16, found: u16 },
    /// Packet version is not supported
    UnsupportedVersion { version: u8, max_supported: u8 },
    /// Invalid field value in packet header
    InvalidFieldValue { field: &'static str, value: u32 },
    /// Truncated packet data
    TruncatedData { position: usize, required: usize },
    /// IO error during file operations
    IoError(std::io::Error),
    /// End of stream reached unexpectedly
    EndOfStream,
}

/// Result type alias for packet parsing operations.
pub type PacketResult<T> = Result<T, PacketError>;

impl From<std::io::Error> for PacketError {
    fn from(err: std::io::Error) -> (r: Self) {
        PacketError::IoError(err)
    }
}

impl vstd::std_specs::convert::FromSpecImpl<std::io::Error> for PacketError {
    open spec fn obeys_from_spec() -> bool {
        true
    }

    open spec fn from_spec(v: std::io::Error) -> Self {
        PacketError::IoError(v)
    }
}

/// The text that describes an error; for an I/O error, the part before the I/O error's own
/// text, which follows it.
pub open spec fn error_message(e: PacketError) -> Seq<char> {
    match e {
        PacketError::BufferTooSmall { expected, actual } => "Buffer too small: expected "@
            + decimal(expected as nat) + " bytes, got "@ + decimal(actual as nat),
        PacketError::InvalidMagic { expected, found } => "Invalid magic number: expected 0x"@
            + hex_digits(expected as nat, 8) + ", found 0x"@ + hex_digits(found as nat, 8),
        PacketError::LengthMismatch { declared, actual } => "Length mismatch: declared "@
            + decimal(declared as nat) + " bytes, actual "@ + decimal(actual as nat)
            + " bytes"@,
        PacketError::UnknownPacketType(ty) => "Unknown packet type: 0x"@ + hex_digits(
            ty as nat,
            2,
        ),
        PacketError::ChecksumMismatch { expected, found } => "Checksum mismatch: expected 0x"@
            + hex_digits(expected as nat, 4) + ", found 0x"@ + hex_digits(found as nat, 4),
        PacketError::UnsupportedVersion { version, max_supported } => "Unsupported version: "@
            + decimal(version as nat) + " (max supported: "@ + decimal(max_supported as nat)
            + ")"@,
        PacketError::InvalidFieldValue { field, value } => "Invalid value for field '"@ + field@
            + "': "@ + decimal(value as nat),
        PacketError::TruncatedData { position, required } => "Truncated data at position "@
            + decimal(position as nat) + ": required "@ + decimal(required as nat) + " bytes"@,
        PacketError::IoError(_) => "IO error: "@,
        PacketError::EndOfStream => "End of stream reached unexpectedly"@,
    }
}

impl PacketError {
    /// A human-readable description of the error.
    pub fn message(&self) -> (s: String)
        ensures
            self matches PacketError::IoError(err) ==> exists|t: String|
                #[trigger] to_string_from_display_ensures::<std::io::Error>(&err, t) && s@
                    == error_message(*self) + t@,
            !(self is IoError) ==> s@ == error_message(*self),
    {
        match self {
            PacketError::BufferTooSmall { expected, actual } => {
                let mut s = String::from_str("Buffer too small: expected ");
                append_decimal(&mut s, *expected as u64);
                s.append(" bytes, got ");
                append_decimal(&mut s, *actual as u64);
                s
            },
            PacketError::InvalidMagic { expected, found } => {
                let mut s = String::from_str("Invalid magic number: expected 0x");
                append_hex(&mut s, *expected as u64, 8);
                s.append(", found 0x");
                append_hex(&mut s, *found as u64, 8);
                s
            },
            PacketError::LengthMismatch { declared, actual } => {
                let mut s = String::from_str("Length mismatch: declared ");
                append_decimal(&mut s, *declared as u64);
                s.append(" bytes, actual ");
                append_decimal(&mut s, *actual as u64);
                s.append(" bytes");
                s
            },
            PacketError::UnknownPacketType(ty) => {
                let mut s = String::from_str("Unknown packet type: 0x");
                append_hex(&mut s, *ty as u64, 2);
                s
            },
            PacketError::ChecksumMismatch { expected, found } => {
                let mut s = String::from_str("Checksum mismatch: expected 0x");
                append_hex(&mut s, *expected as u64, 4);
                s.append(", found 0x");
                append_hex(&mut s, *found as u64, 4);
                s
            },
            PacketError::UnsupportedVersion { version, max_supported } => {
                let mut s = String::from_str("Unsupported version: ");
                append_decimal(&mut s, *version as u64);
                s.append(" (max supported: ");
                append_decimal(&mut s, *max_supported as u64);
                s.append(")");
                s
            },
            PacketError::InvalidFieldValue { field, value } => {
                let mut s = String::from_str("Invalid value for field '");
                s.append(field);
                s.append("': ");
                append_decimal(&mut s, *value as u64);
                s
            },
            PacketError::TruncatedData { position, required } => {
                let mut s = String::from_str("Truncated data at position ");
                append_decimal(&mut s, *position as u64);
                s.append(": required ");
                append_decimal(&mut s, *required as u64);
                s.append(" bytes");
                s
            },
            PacketError::IoError(err) => {
                let mut s = String::from_str("IO error: ");
                let text = err.to_string();
                s.append(text.as_str());
                assert(to_string_from_display_ensures::<std::io::Error>(err, text));
                s
            },
            PacketError::EndOfStream => String::from_str("End of stream reached unexpectedly"),
        }
    }
}

} // verus!
