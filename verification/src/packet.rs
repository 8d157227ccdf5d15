use vstd::prelude::*;

use crate::error::PacketError;

verus! {

/// Magic number identifying valid packets ("PACK" in ASCII).
pub const PACKET_MAGIC: u32 = 0x5041434B;

/// Current supported protocol version.
pub const PROTOCOL_VERSION: u8 = 1;

/// Maximum allowed payload size (64 KB).
pub const MAX_PAYLOAD_SIZE: usize = 65536;

/// Minimum header size in bytes.
pub const HEADER_SIZE: usize = 16;

/// Packet types supported by the protocol.
#[derive(Debug, Clone, Copy, PartialEq, Eq, Structural)]
pub enum PacketType {
    Data,
    Acknowledgment,
    Control,
    Heartbeat,
    Error,
}

/// The wire code of a packet type.
pub open spec fn type_code(t: PacketType) -> u8 {
    match t {
        PacketType::Data => 0x01,
        PacketType::Acknowledgment => 0x02,
        PacketType::Control => 0x03,
        PacketType::Heartbeat => 0x04,
        PacketType::Error => 0x05,
    }
}

/// The packet type whose wire code is `value`, or the error naming the unknown code.
pub open spec fn type_from_code(value: u8) -> Result<PacketType, PacketError> {
    if value == 0x01 {
        Ok(PacketType::Data)
    } else if value == 0x02 {
        Ok(PacketType::Acknowledgment)
    } else if value == 0x03 {
        Ok(PacketType::Control)
    } else if value == 0x04 {
        Ok(PacketType::Heartbeat)
    } else if value == 0x05 {
        Ok(PacketType::Error)
    } else {
        Err(PacketError::UnknownPacketType(value))
    }
}

/// The display name of a packet type.
pub open spec fn type_label(t: PacketType) -> Seq<char> {
    match t {
        PacketType::Data => "DATA"@,
        PacketType::Acknowledgment => "ACK"@,
        PacketType::Control => "CTRL"@,
        PacketType::Heartbeat => "HEARTBEAT"@,
        PacketType::Error => "ERROR"@,
    }
}

#[allow(non_upper_case_globals)]
impl PacketType {
    /// Short name of `Acknowledgment`.
    pub const Ack: PacketType = PacketType::Acknowledgment;

    /// The wire code of this packet type.
    pub fn code(&self) -> (c: u8)
        ensures
            c == type_code(*self),
    {
        match self {
            PacketType::Data => 0x01,
            PacketType::Acknowledgment => 0x02,
            PacketType::Control => 0x03,
            PacketType::Heartbeat => 0x04,
            PacketType::Error => 0x05,
        }
    }

    /// Convert from raw byte to PacketType.
    pub fn from_u8(value: u8) -> (r: Result<PacketType, PacketError>)
        ensures
            r == type_from_code(value),
            r is Ok <==> 0x01 <= value <= 0x05,
            r matches Ok(t) ==> type_code(t) == value,
    {
        match value {
            0x01 => Ok(PacketType::Data),
            0x02 => Ok(PacketType::Acknowledgment),
            0x03 => Ok(PacketType::Control),
            0x04 => Ok(PacketType::Heartbeat),
            0x05 => Ok(PacketType::Error),
            _ => Err(PacketError::UnknownPacketType(value)),
        }
    }

    /// Get the string representation of the packet type.
    pub fn as_str(&self) -> (s: &'static str)
        ensures
            s@ == type_label(*self),
    {
        match self {
            PacketType::Data => "DATA",
            PacketType::Acknowledgment => "ACK",
            PacketType::Control => "CTRL",
            PacketType::Heartbeat => "HEARTBEAT",
            PacketType::Error => "ERROR",
        }
    }
}

/// The wire codes and names of the packet types: DATA 0x01, ACK 0x02, CTRL 0x03, HEARTBEAT
/// 0x04, ERROR 0x05; distinct types have distinct codes.
pub proof fn lemma_type_table(t: PacketType, u: PacketType)
    ensures
        type_code(PacketType::Data) == 0x01 && type_label(PacketType::Data) == "DATA"@,
        type_code(PacketType::Acknowledgment) == 0x02 && type_label(PacketType::Acknowledgment)
            == "ACK"@,
        type_code(PacketType::Control) == 0x03 && type_label(PacketType::Control) == "CTRL"@,
        type_code(PacketType::Heartbeat) == 0x04 && type_label(PacketType::Heartbeat)
            == "HEARTBEAT"@,
        type_code(PacketType::Error) == 0x05 && type_label(PacketType::Error) == "ERROR"@,
        type_code(t) == type_code(u) ==> t == u,
{
}

/// Every packet type is recovered from its wire code.
pub proof fn lemma_type_code_roundtrip(t: PacketType)
    ensures
        type_from_code(type_code(t)) == Ok::<PacketType, PacketError>(t),
{
}

/// Packet flags for additional metadata.
#[derive(Debug, Clone, Copy)]
pub struct PacketFlags {
    pub encrypted: bool,
    pub compressed: bool,
    pub fragmented: bool,
    pub last_fragment: bool,
    pub priority: u8,
}

/// The flags all cleared, priority zero.
pub open spec fn no_flags() -> PacketFlags {
    PacketFlags {
        encrypted: false,
        compressed: false,
        fragmented: false,
        last_fragment: false,
        priority: 0,
    }
}

/// Decoding of the flags byte: bits 0 to 3 are the four booleans, bits 4 to 7 the priority.
pub open spec fn flags_from_byte(value: u8) -> PacketFlags {
    PacketFlags {
        encrypted: (value & 0x01) != 0,
        compressed: (value & 0x02) != 0,
        fragmented: (value & 0x04) != 0,
        last_fragment: (value & 0x08) != 0,
        priority: (value >> 4) & 0x0F,
    }
}

/// Encoding of the flags as a byte; only the low four bits of the priority are kept.
pub open spec fn flags_to_byte(f: PacketFlags) -> u8 {
    (if f.encrypted { 0x01u8 } else { 0u8 }) | (if f.compressed { 0x02u8 } else { 0u8 }) | (
    if f.fragmented {
        0x04u8
    } else {
        0u8
    }) | (if f.last_fragment { 0x08u8 } else { 0u8 }) | (((f.priority & 0x0F) << 4u8) as u8)
}

impl Default for PacketFlags {
    fn default() -> (f: Self)
        ensures
            f == no_flags(),
    {
        PacketFlags {
            encrypted: false,
            compressed: false,
            fragmented: false,
            last_fragment: false,
            priority: 0,
        }
    }
}

impl PacketFlags {
    /// Parse flags from a u8 value.
    pub fn from_u8(value: u8) -> (f: Self)
        ensures
            f == flags_from_byte(value),
            f.encrypted == (value & 0x01 != 0),
            f.compressed == (value & 0x02 != 0),
            f.fragmented == (value & 0x04 != 0),
            f.last_fragment == (value & 0x08 != 0),
            f.priority == value >> 4,
    {
        proof {
            lemma_flag_bits(value);
        }
        PacketFlags {
            encrypted: (value & 0x01) != 0,
            compressed: (value & 0x02) != 0,
            fragmented: (value & 0x04) != 0,
            last_fragment: (value & 0x08) != 0,
            priority: (value >> 4) & 0x0F,
        }
    }

    /// Convert flags to u8.
    pub fn to_u8(&self) -> (v: u8)
        ensures
            v == flags_to_byte(*self),
            (v & 0x01 != 0) == self.encrypted,
            (v & 0x02 != 0) == self.compressed,
            (v & 0x04 != 0) == self.fragmented,
            (v & 0x08 != 0) == self.last_fragment,
            v >> 4 == self.priority & 0x0F,
    {
        proof {
            lemma_flags_byte_bits(*self);
        }
        let mut value: u8 = 0;
        let ghost e: u8 = if self.encrypted { 0x01u8 } else { 0u8 };
        let ghost c: u8 = if self.compressed { 0x02u8 } else { 0u8 };
        let ghost fr: u8 = if self.fragmented { 0x04u8 } else { 0u8 };
        let ghost l: u8 = if self.last_fragment { 0x08u8 } else { 0u8 };
        if self.encrypted {
            value |= 0x01;
        }
        assert(value == e) by (bit_vector)
            requires
                (e == 0 && value == 0) || (e == 1 && value == 0 | 1),
        ;
        if self.compressed {
            value |= 0x02;
        }
        assert(value == e | c) by (bit_vector)
            requires
                (c == 0 && value == e) || (c == 2 && value == e | 2),
        ;
        if self.fragmented {
            value |= 0x04;
        }
        assert(value == e | c | fr) by (bit_vector)
            requires
                (fr == 0 && value == e | c) || (fr == 4 && value == (e | c) | 4),
        ;
        if self.last_fragment {
            value |= 0x08;
        }
        assert(value == e | c | fr | l) by (bit_vector)
            requires
                (l == 0 && value == e | c | fr) || (l == 8 && value == (e | c | fr) | 8),
        ;
        value |= (self.priority & 0x0F) << 4;
        value
    }
}

/// Where each flag sits in the flags byte: bit 0 encrypted, bit 1 compressed, bit 2
/// fragmented, bit 3 last fragment, bits 4 to 7 the priority.
pub proof fn lemma_flag_bits(v: u8)
    ensures
        flags_from_byte(v).encrypted == (v & 0x01 != 0),
        flags_from_byte(v).compressed == (v & 0x02 != 0),
        flags_from_byte(v).fragmented == (v & 0x04 != 0),
        flags_from_byte(v).last_fragment == (v & 0x08 != 0),
        flags_from_byte(v).priority == v >> 4,
{
    assert((v >> 4) & 0x0F == v >> 4) by (bit_vector);
}

/// The flags byte sets exactly the bits of the flags that are set, and carries the low four
/// bits of the priority in its high four bits.
pub proof fn lemma_flags_byte_bits(f: PacketFlags)
    ensures
        (flags_to_byte(f) & 0x01 != 0) == f.encrypted,
        (flags_to_byte(f) & 0x02 != 0) == f.compressed,
        (flags_to_byte(f) & 0x04 != 0) == f.fragmented,
        (flags_to_byte(f) & 0x08 != 0) == f.last_fragment,
        flags_to_byte(f) >> 4 == f.priority & 0x0F,
{
    let e = f.encrypted;
    let c = f.compressed;
    let fr = f.fragmented;
    let l = f.last_fragment;
    let p = f.priority;
    let b = flags_to_byte(f);
    assert({
        &&& (b & 0x01 != 0) == e
        &&& (b & 0x02 != 0) == c
        &&& (b & 0x04 != 0) == fr
        &&& (b & 0x08 != 0) == l
        &&& b >> 4 == p & 0x0F
    }) by (bit_vector)
        requires
            b == (if e { 0x01u8 } else { 0u8 }) | (if c { 0x02u8 } else { 0u8 }) | (if fr {
                0x04u8
            } else {
                0u8
            }) | (if l { 0x08u8 } else { 0u8 }) | (((p & 0x0F) << 4u8) as u8),
    ;
}

/// Decoding an encoded set of flags gives the same flags back, for every priority that fits
/// in four bits.
pub proof fn lemma_flags_roundtrip(f: PacketFlags)
    requires
        f.priority < 16,
    ensures
        flags_from_byte(flags_to_byte(f)) == f,
{
    let e = f.encrypted;
    let c = f.compressed;
    let fr = f.fragmented;
    let l = f.last_fragment;
    let p = f.priority;
    let b = flags_to_byte(f);
    assert(b == (if e { 0x01u8 } else { 0u8 }) | (if c { 0x02u8 } else { 0u8 }) | (if fr {
        0x04u8
    } else {
        0u8
    }) | (if l { 0x08u8 } else { 0u8 }) | (((p & 0x0F) << 4u8) as u8));
    assert({
        &&& ((b & 0x01) != 0) == e
        &&& ((b & 0x02) != 0) == c
        &&& ((b & 0x04) != 0) == fr
        &&& ((b & 0x08) != 0) == l
        &&& ((b >> 4) & 0x0F) == p
    }) by (bit_vector)
        requires
            p < 16,
            b == (if e { 0x01u8 } else { 0u8 }) | (if c { 0x02u8 } else { 0u8 }) | (if fr {
                0x04u8
            } else {
                0u8
            }) | (if l { 0x08u8 } else { 0u8 }) | (((p & 0x0F) << 4u8) as u8),
    ;
}

/// Encoding the decoded flags of a byte gives the same byte back; the decoded priority
/// always fits in four bits.
pub proof fn lemma_flags_byte_roundtrip(b: u8)
    ensures
        flags_to_byte(flags_from_byte(b)) == b,
        flags_from_byte(b).priority < 16,
{
    assert((b >> 4) & 0x0F < 16) by (bit_vector);
    let f = flags_from_byte(b);
    let e = f.encrypted;
    let c = f.compressed;
    let fr = f.fragmented;
    let l = f.last_fragment;
    let p = f.priority;
    assert((if e { 0x01u8 } else { 0u8 }) | (if c { 0x02u8 } else { 0u8 }) | (if fr {
        0x04u8
    } else {
        0u8
    }) | (if l { 0x08u8 } else { 0u8 }) | (((p & 0x0F) << 4u8) as u8) == b) by (bit_vector)
        requires
            e == ((b & 0x01) != 0),
            c == ((b & 0x02) != 0),
            fr == ((b & 0x04) != 0),
            l == ((b & 0x08) != 0),
            p == (b >> 4) & 0x0F,
    ;
}

/// Packet header structure.
#[derive(Debug, Clone)]
pub struct PacketHeader {
    pub magic: u32,
    pub version: u8,
    pub packet_type: PacketType,
    pub flags: PacketFlags,
    pub sequence_number: u32,
    pub payload_length: u32,
    pub checksum: u16,
}

/// A header of the current protocol with no flags and a zero checksum field.
pub open spec fn blank_header(packet_type: PacketType, sequence_number: u32, payload_length: u32) -> PacketHeader {
    PacketHeader {
        magic: PACKET_MAGIC,
        version: PROTOCOL_VERSION,
        packet_type,
        flags: no_flags(),
        sequence_number,
        payload_length,
        checksum: 0,
    }
}

/// A blank header whose checksum field holds its checksum.
pub open spec fn sealed_header(packet_type: PacketType, sequence_number: u32, payload_length: u32) -> PacketHeader {
    let h = blank_header(packet_type, sequence_number, payload_length);
    PacketHeader { checksum: header_checksum(h), ..h }
}

/// The outcome of checking a header's magic, version and declared payload length, in that order.
pub open spec fn header_check(h: PacketHeader) -> Result<(), PacketError> {
    if h.magic != PACKET_MAGIC {
        Err(PacketError::InvalidMagic { expected: PACKET_MAGIC, found: h.magic })
    } else if h.version > PROTOCOL_VERSION {
        Err(PacketError::UnsupportedVersion { version: h.version, max_supported: PROTOCOL_VERSION })
    } else if h.payload_length > MAX_PAYLOAD_SIZE {
        Err(PacketError::InvalidFieldValue { field: "payload_length", value: h.payload_length })
    } else {
        Ok(())
    }
}

/// The sum of the header's 16-bit words, leaving out the checksum: the two halves of the
/// magic number, version and type as one word, flags and the reserved zero byte as one word,
/// and the two halves of the sequence number and of the payload length.
pub open spec fn word_sum(h: PacketHeader) -> nat {
    (h.magic / 0x10000) as nat + (h.magic % 0x10000) as nat + (h.version as nat * 0x100
        + type_code(h.packet_type) as nat) + (flags_to_byte(h.flags) as nat * 0x100) + (
    h.sequence_number / 0x10000) as nat + (h.sequence_number % 0x10000) as nat + (
    h.payload_length / 0x10000) as nat + (h.payload_length % 0x10000) as nat
}

/// End-around carry: the bits above the low 16 are added back in until none are left.
pub open spec fn fold_carries(s: nat) -> nat
    decreases s,
{
    if s > 0xFFFF {
        fold_carries((s % 0x10000 + s / 0x10000) as nat)
    } else {
        s
    }
}

/// The header checksum: the ones' complement of the folded word sum.
pub open spec fn header_checksum(h: PacketHeader) -> u16 {
    (0xFFFF - fold_carries(word_sum(h))) as u16
}

/// Folding never leaves more than 16 bits.
pub proof fn lemma_fold_carries_bound(s: nat)
    ensures
        fold_carries(s) <= 0xFFFF,
    decreases s,
{
    if s > 0xFFFF {
        lemma_fold_carries_bound((s % 0x10000 + s / 0x10000) as nat);
    }
}

/// Folding computes the ones' complement sum: zero stays zero, and any other sum becomes the
/// number in 1 to 0xFFFF that is congruent to it modulo 0xFFFF.
pub proof fn lemma_fold_carries_value(x: nat)
    ensures
        x == 0 ==> fold_carries(x) == 0,
        x > 0 ==> fold_carries(x) == (x - 1) % 0xFFFF + 1,
    decreases x,
{
    if x > 0xFFFF {
        let q = x / 0x10000;
        let r = x % 0x10000;
        let y = (r + q) as nat;
        lemma_fold_carries_value(y);
        assert(x == 0x10000 * q + r);
        assert(x - 1 == 0xFFFF * q + (y - 1));
        vstd::arithmetic::div_mod::lemma_mod_multiples_vanish(q as int, y - 1, 0xFFFF);
    }
}

/// The checksum of a header whose payload length fits its 16-bit field is the ones'
/// complement of the ones' complement sum of the seven 16-bit words of its wire header before
/// the checksum field.
pub proof fn lemma_checksum_of_wire_words(h: PacketHeader)
    requires
        h.payload_length <= 0xFFFF,
    ensures
        ({
            let b = header_bytes(h);
            let w = (b[0] * 0x100 + b[1]) + (b[2] * 0x100 + b[3]) + (b[4] * 0x100 + b[5]) + (b[6]
                * 0x100 + b[7]) + (b[8] * 0x100 + b[9]) + (b[10] * 0x100 + b[11]) + (b[12] * 0x100
                + b[13]);
            &&& w == 0 ==> header_checksum(h) == 0xFFFF
            &&& w > 0 ==> header_checksum(h) == 0xFFFF - ((w - 1) % 0xFFFF + 1)
        }),
{
    let b = header_bytes(h);
    let m = h.magic;
    let q = h.sequence_number;
    let l = h.payload_length;
    let n = l as u16;
    assert(((m >> 24u32) as u8) * 0x100 + ((m >> 16u32) as u8) == m / 0x10000) by (bit_vector);
    assert(((m >> 8u32) as u8) * 0x100 + (m as u8) == m % 0x10000) by (bit_vector);
    assert(((q >> 24u32) as u8) * 0x100 + ((q >> 16u32) as u8) == q / 0x10000) by (bit_vector);
    assert(((q >> 8u32) as u8) * 0x100 + (q as u8) == q % 0x10000) by (bit_vector);
    assert(l <= 0xFFFF ==> ((n >> 8u16) as u8) * 0x100 + (n as u8) == l % 0x10000 && l / 0x10000
        == 0) by (bit_vector)
        requires
            n == l as u16,
    ;
    let w = (b[0] * 0x100 + b[1]) + (b[2] * 0x100 + b[3]) + (b[4] * 0x100 + b[5]) + (b[6] * 0x100
        + b[7]) + (b[8] * 0x100 + b[9]) + (b[10] * 0x100 + b[11]) + (b[12] * 0x100 + b[13]);
    assert(w == word_sum(h));
    lemma_fold_carries_value(word_sum(h));
}

/// The checksum of a header does not depend on the value of its checksum field, so a header
/// whose checksum field is set to its computed checksum verifies.
pub proof fn lemma_checksum_ignores_checksum_field(h: PacketHeader, c: u16)
    ensures
        header_checksum(PacketHeader { checksum: c, ..h }) == header_checksum(h),
        header_checksum(PacketHeader { checksum: header_checksum(h), ..h }) == (PacketHeader {
            checksum: header_checksum(h),
            ..h
        }).checksum,
{
    assert(word_sum(PacketHeader { checksum: c, ..h }) == word_sum(h));
    assert(word_sum(PacketHeader { checksum: header_checksum(h), ..h }) == word_sum(h));
}

impl PacketHeader {
    /// Create a new packet header.
    pub fn new(packet_type: PacketType, sequence_number: u32, payload_length: u32) -> (h: Self)
        ensures
            h == blank_header(packet_type, sequence_number, payload_length),
    {
        PacketHeader {
            magic: PACKET_MAGIC,
            version: PROTOCOL_VERSION,
            packet_type,
            flags: PacketFlags::default(),
            sequence_number,
            payload_length,
            checksum: 0,
        }
    }

    /// Validate the header fields.
    pub fn validate(&self) -> (r: Result<(), PacketError>)
        ensures
            r == header_check(*self),
            r is Ok <==> (self.magic == 0x5041434B && self.version <= 1 && self.payload_length
                <= 65536),
    {
        if self.magic != PACKET_MAGIC {
            return Err(PacketError::InvalidMagic { expected: PACKET_MAGIC, found: self.magic });
        }
        if self.version > PROTOCOL_VERSION {
            return Err(
                PacketError::UnsupportedVersion {
                    version: self.version,
                    max_supported: PROTOCOL_VERSION,
                },
            );
        }
        if self.payload_length as usize > MAX_PAYLOAD_SIZE {
            return Err(
                PacketError::InvalidFieldValue {
                    field: "payload_length",
                    value: self.payload_length,
                },
            );
        }
        Ok(())
    }

    /// Calculate the checksum for this header.
    pub fn calculate_checksum(&self) -> (c: u16)
        ensures
            c == header_checksum(*self),
    {
        let magic = self.magic;
        let seq = self.sequence_number;
        let len = self.payload_length;
        proof {
            assert(magic >> 16 == magic / 0x10000 && magic & 0xFFFF == magic % 0x10000)
                by (bit_vector);
            assert(seq >> 16 == seq / 0x10000 && seq & 0xFFFF == seq % 0x10000) by (bit_vector);
            assert(len >> 16 == len / 0x10000 && len & 0xFFFF == len % 0x10000) by (bit_vector);
        }
        let mut sum: u32 = 0;
        sum += (magic >> 16) as u32;
        sum += (magic & 0xFFFF) as u32;
        // version and packet type form one 16-bit word
        sum += (self.version as u32) * 0x100 + self.packet_type.code() as u32;
        // flags and the reserved zero byte form another
        sum += (self.flags.to_u8() as u32) * 0x100;
        sum += (seq >> 16) as u32;
        sum += (seq & 0xFFFF) as u32;
        sum += (len >> 16) as u32;
        sum += (len & 0xFFFF) as u32;
        assert(sum == word_sum(*self));
        // Fold 32-bit sum to 16-bit
        while sum > 0xFFFF
            invariant
                fold_carries(sum as nat) == fold_carries(word_sum(*self)),
            decreases sum,
        {
            let s = sum;
            assert(s & 0xFFFF == s % 0x10000 && s >> 16 == s / 0x10000) by (bit_vector);
            sum = (sum & 0xFFFF) + (sum >> 16);
        }
        let c = !sum as u16;
        assert(sum <= 0xFFFF ==> (!sum) as u16 == (0xFFFF - sum) as u16) by (bit_vector);
        c
    }

    /// Verify the checksum.
    pub fn verify_checksum(&self) -> (ok: bool)
        ensures
            ok == (self.checksum == header_checksum(*self)),
    {
        self.checksum == self.calculate_checksum()
    }
}

/// Complete packet structure with header and payload.
#[derive(Debug, Clone)]
pub struct Packet {
    pub header: PacketHeader,
    pub payload: Vec<u8>,
}

/// The outcome of validating a header together with the length of the payload it goes with:
/// the header checks first, then the declared length, then the checksum.
pub open spec fn packet_check(h: PacketHeader, payload_len: nat) -> Result<(), PacketError> {
    match structure_check(h, payload_len) {
        Err(e) => Err(e),
        Ok(()) => if h.checksum != header_checksum(h) {
            Err(PacketError::ChecksumMismatch { expected: h.checksum, found: header_checksum(h) })
        } else {
            Ok(())
        },
    }
}

/// The outcome of the header checks followed by the declared-length check, without the
/// checksum.
pub open spec fn structure_check(h: PacketHeader, payload_len: nat) -> Result<(), PacketError> {
    match header_check(h) {
        Err(e) => Err(e),
        Ok(()) => if h.payload_length != payload_len {
            Err(
                PacketError::LengthMismatch {
                    declared: h.payload_length as usize,
                    actual: payload_len as usize,
                },
            )
        } else {
            Ok(())
        },
    }
}

/// Big-endian bytes of a 32-bit value.
pub open spec fn be_bytes_u32(x: u32) -> Seq<u8> {
    seq![(x >> 24u32) as u8, (x >> 16u32) as u8, (x >> 8u32) as u8, x as u8]
}

/// Big-endian bytes of a 16-bit value.
pub open spec fn be_bytes_u16(x: u16) -> Seq<u8> {
    seq![(x >> 8u16) as u8, x as u8]
}

/// The 16 header bytes on the wire: magic, version, type, flags, a reserved zero byte,
/// sequence number, the low 16 bits of the payload length, and checksum; numbers big-endian.
pub open spec fn header_bytes(h: PacketHeader) -> Seq<u8> {
    be_bytes_u32(h.magic) + seq![h.version, type_code(h.packet_type), flags_to_byte(h.flags), 0u8]
        + be_bytes_u32(h.sequence_number) + be_bytes_u16(h.payload_length as u16) + be_bytes_u16(
        h.checksum,
    )
}

/// A packet on the wire: its header bytes followed by its payload.
pub open spec fn packet_bytes(h: PacketHeader, payload: Seq<u8>) -> Seq<u8> {
    header_bytes(h) + payload
}

/// Where each header field sits on the wire: the magic number in bytes 0 to 3, big-endian;
/// the version in byte 4; the type code in byte 5; the flags in byte 6; a zero reserved byte
/// in byte 7; the sequence number in bytes 8 to 11 and the low 16 bits of the payload length
/// in bytes 12 and 13, big-endian; the checksum in bytes 14 and 15, big-endian. The payload
/// follows the 16 header bytes.
pub proof fn lemma_header_layout(h: PacketHeader)
    ensures
        header_bytes(h).len() == HEADER_SIZE,
        header_bytes(h)[0] * 0x1000000 + header_bytes(h)[1] * 0x10000 + header_bytes(h)[2] * 0x100
            + header_bytes(h)[3] == h.magic,
        header_bytes(h)[4] == h.version,
        header_bytes(h)[5] == type_code(h.packet_type),
        header_bytes(h)[6] == flags_to_byte(h.flags),
        header_bytes(h)[7] == 0,
        header_bytes(h)[8] * 0x1000000 + header_bytes(h)[9] * 0x10000 + header_bytes(h)[10] * 0x100
            + header_bytes(h)[11] == h.sequence_number,
        header_bytes(h)[12] * 0x100 + header_bytes(h)[13] == h.payload_length % 0x10000,
        header_bytes(h)[14] * 0x100 + header_bytes(h)[15] == h.checksum,
        forall|payload: Seq<u8>|
            #![trigger packet_bytes(h, payload)]
            packet_bytes(h, payload).subrange(0, HEADER_SIZE as int) == header_bytes(h)
                && packet_bytes(h, payload).subrange(HEADER_SIZE as int, HEADER_SIZE + payload.len())
                == payload,
{
    let hb = header_bytes(h);
    let m = h.magic;
    let q = h.sequence_number;
    let n = h.payload_length as u16;
    let c = h.checksum;
    let l = h.payload_length;
    assert(((m >> 24u32) as u8) * 0x1000000 + ((m >> 16u32) as u8) * 0x10000 + ((m >> 8u32) as u8)
        * 0x100 + (m as u8) == m) by (bit_vector);
    assert(((q >> 24u32) as u8) * 0x1000000 + ((q >> 16u32) as u8) * 0x10000 + ((q >> 8u32) as u8)
        * 0x100 + (q as u8) == q) by (bit_vector);
    assert(((n >> 8u16) as u8) * 0x100 + (n as u8) == n) by (bit_vector);
    assert(((c >> 8u16) as u8) * 0x100 + (c as u8) == c) by (bit_vector);
    assert((l as u16) == l % 0x10000) by (bit_vector);
    assert forall|payload: Seq<u8>|
        #![trigger packet_bytes(h, payload)]
        packet_bytes(h, payload).subrange(0, HEADER_SIZE as int) == header_bytes(h)
            && packet_bytes(h, payload).subrange(HEADER_SIZE as int, HEADER_SIZE + payload.len())
            == payload by {
        assert(packet_bytes(h, payload).subrange(0, HEADER_SIZE as int) =~= header_bytes(h));
        assert(packet_bytes(h, payload).subrange(HEADER_SIZE as int, HEADER_SIZE + payload.len())
            =~= payload);
    }
}

fn push_be_u32(buffer: &mut Vec<u8>, x: u32)
    ensures
        final(buffer)@ == old(buffer)@ + be_bytes_u32(x),
{
    buffer.push((x >> 24) as u8);
    buffer.push((x >> 16) as u8);
    buffer.push((x >> 8) as u8);
    buffer.push(x as u8);
}

fn push_be_u16(buffer: &mut Vec<u8>, x: u16)
    ensures
        final(buffer)@ == old(buffer)@ + be_bytes_u16(x),
{
    buffer.push((x >> 8) as u8);
    buffer.push(x as u8);
}

impl Packet {
    /// Create a new packet with the given type and payload.
    pub fn new(packet_type: PacketType, payload: Vec<u8>) -> (p: Self)
        ensures
            p.header == sealed_header(packet_type, 0, payload@.len() as u32),
            p.payload == payload,
    {
        let mut header = PacketHeader::new(packet_type, 0, payload.len() as u32);
        header.checksum = header.calculate_checksum();
        Packet { header, payload }
    }

    /// Create a packet with custom sequence number.
    pub fn with_sequence(packet_type: PacketType, payload: Vec<u8>, sequence_number: u32) -> (p:
        Self)
        ensures
            p.header == sealed_header(packet_type, sequence_number, payload@.len() as u32),
            p.payload == payload,
    {
        let mut header = PacketHeader::new(packet_type, sequence_number, payload.len() as u32);
        header.checksum = header.calculate_checksum();
        Packet { header, payload }
    }

    /// Get the total size of the packet in bytes.
    pub fn total_size(&self) -> (n: usize)
        requires
            HEADER_SIZE + self.payload@.len() <= usize::MAX,
        ensures
            n == HEADER_SIZE + self.payload@.len(),
    {
        HEADER_SIZE + self.payload.len()
    }

    /// Validate the entire packet.
    pub fn validate(&self) -> (r: Result<(), PacketError>)
        ensures
            r == packet_check(self.header, self.payload@.len()),
            r is Ok <==> {
                &&& self.header.magic == 0x5041434B
                &&& self.header.version <= 1
                &&& self.header.payload_length <= 65536
                &&& self.header.payload_length == self.payload@.len()
                &&& self.header.checksum == header_checksum(self.header)
            },
    {
        proof {
            lemma_packet_check_exact(self.header, self.payload@.len());
        }
        self.check_structure()?;
        if !self.header.verify_checksum() {
            return Err(
                PacketError::ChecksumMismatch {
                    expected: self.header.checksum,
                    found: self.header.calculate_checksum(),
                },
            );
        }
        Ok(())
    }

    /// Validate the header fields and the declared payload length, leaving the checksum aside.
    pub(crate) fn check_structure(&self) -> (r: Result<(), PacketError>)
        ensures
            r == structure_check(self.header, self.payload@.len()),
    {
        self.header.validate()?;
        if self.header.payload_length as usize != self.payload.len() {
            return Err(
                PacketError::LengthMismatch {
                    declared: self.header.payload_length as usize,
                    actual: self.payload.len(),
                },
            );
        }
        Ok(())
    }

    /// Serialize the packet to bytes.
    pub fn to_bytes(&self) -> (bytes: Vec<u8>)
        ensures
            bytes@ == packet_bytes(self.header, self.payload@),
            bytes@.len() == HEADER_SIZE + self.payload@.len(),
            bytes@[0] * 0x1000000 + bytes@[1] * 0x10000 + bytes@[2] * 0x100 + bytes@[3]
                == self.header.magic,
            bytes@[4] == self.header.version,
            bytes@[5] == type_code(self.header.packet_type),
            bytes@[6] == flags_to_byte(self.header.flags),
            bytes@[7] == 0,
            bytes@[8] * 0x1000000 + bytes@[9] * 0x10000 + bytes@[10] * 0x100 + bytes@[11]
                == self.header.sequence_number,
            bytes@[12] * 0x100 + bytes@[13] == self.header.payload_length % 0x10000,
            bytes@[14] * 0x100 + bytes@[15] == self.header.checksum,
            bytes@.subrange(HEADER_SIZE as int, bytes@.len() as int) == self.payload@,
    {
        proof {
            lemma_header_layout(self.header);
        }
        let mut buffer: Vec<u8> = Vec::new();
        // magic (4 bytes, big-endian)
        push_be_u32(&mut buffer, self.header.magic);
        // version, packet type, flags, reserved byte
        buffer.push(self.header.version);
        buffer.push(self.header.packet_type.code());
        buffer.push(self.header.flags.to_u8());
        buffer.push(0x00);
        // sequence number (4 bytes, big-endian)
        push_be_u32(&mut buffer, self.header.sequence_number);
        // payload length (2 bytes, big-endian)
        push_be_u16(&mut buffer, self.header.payload_length as u16);
        // checksum (2 bytes, big-endian)
        push_be_u16(&mut buffer, self.header.checksum);
        assert(buffer@ == header_bytes(self.header));
        // payload
        let mut i: usize = 0;
        while i < self.payload.len()
            invariant
                i <= self.payload@.len(),
                buffer@ == header_bytes(self.header) + self.payload@.subrange(0, i as int),
            decreases self.payload@.len() - i,
        {
            buffer.push(self.payload[i]);
            i += 1;
            assert(self.payload@.subrange(0, i as int) == self.payload@.subrange(0, i - 1)
                + seq![self.payload@[i - 1]]);
        }
        assert(self.payload@.subrange(0, i as int) == self.payload@);
        buffer
    }
}

/// Validation accepts a packet exactly when its magic number is "PACK", its version is at
/// most 1, its declared length is at most 64 KB and equals the payload's length, and its
/// checksum field holds the header checksum, whatever its type; a packet that passes
/// everything but the checksum is refused with the checksum mismatch.
pub proof fn lemma_packet_check_exact(h: PacketHeader, n: nat)
    ensures
        header_check(h) is Ok <==> (h.magic == 0x5041434B && h.version <= 1 && h.payload_length
            <= 65536),
        structure_check(h, n) is Ok <==> (h.magic == 0x5041434B && h.version <= 1
            && h.payload_length <= 65536 && h.payload_length == n),
        packet_check(h, n) is Ok <==> (h.magic == 0x5041434B && h.version <= 1 && h.payload_length
            <= 65536 && h.payload_length == n && h.checksum == header_checksum(h)),
        structure_check(h, n) is Ok && h.checksum != header_checksum(h) ==> packet_check(h, n)
            == Err::<(), PacketError>(
            PacketError::ChecksumMismatch { expected: h.checksum, found: header_checksum(h) },
        ),
{
}

/// A packet made by `Packet::new` or `Packet::with_sequence` validates, for every payload
/// within the maximum size.
pub proof fn lemma_sealed_packet_valid(
    packet_type: PacketType,
    sequence_number: u32,
    payload: Seq<u8>,
)
    requires
        payload.len() <= MAX_PAYLOAD_SIZE,
    ensures
        packet_check(
            sealed_header(packet_type, sequence_number, payload.len() as u32),
            payload.len(),
        ) == Ok::<(), PacketError>(()),
{
    let b = blank_header(packet_type, sequence_number, payload.len() as u32);
    let h = sealed_header(packet_type, sequence_number, payload.len() as u32);
    assert(word_sum(h) == word_sum(b));
}

} // verus!
