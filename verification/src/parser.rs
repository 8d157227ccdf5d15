use vstd::prelude::*;

use crate::error::PacketError;
use crate::packet::{
    be_bytes_u16, be_bytes_u32, blank_header, flags_from_byte, flags_to_byte, header_bytes,
    header_checksum, packet_bytes, sealed_header, structure_check, type_code, type_from_code,
    word_sum, Packet, PacketFlags, PacketHeader, PacketType, HEADER_SIZE, PACKET_MAGIC,
    PROTOCOL_VERSION,
};

verus! {

/// Parser configuration options.
#[derive(Debug, Clone)]
pub struct ParserConfig {
    /// Whether to verify checksums
    pub verify_checksum: bool,
    /// Whether to validate packet headers
    pub validate_headers: bool,
    /// Maximum payload size to accept
    pub max_payload_size: usize,
}

/// The default configuration: checksums verified, headers validated, payloads up to 64 KB.
pub open spec fn default_config() -> ParserConfig {
    ParserConfig { verify_checksum: true, validate_headers: true, max_payload_size: 65536 }
}

impl Default for ParserConfig {
    fn default() -> (c: Self)
        ensures
            c == default_config(),
    {
        ParserConfig { verify_checksum: true, validate_headers: true, max_payload_size: 65536 }
    }
}

/// Builder for creating parser configurations.
pub struct ParserConfigBuilder {
    config: ParserConfig,
}

impl ParserConfigBuilder {
    /// The configuration built so far.
    pub closed spec fn spec_config(&self) -> ParserConfig {
        self.config
    }

    /// A builder that starts from the default configuration.
    pub fn new() -> (b: Self)
        ensures
            b.spec_config() == default_config(),
    {
        ParserConfigBuilder { config: ParserConfig::default() }
    }

    /// Set whether checksums are verified.
    pub fn with_checksum_verification(self, verify: bool) -> (b: Self)
        ensures
            b.spec_config() == (ParserConfig { verify_checksum: verify, ..self.spec_config() }),
    {
        let mut builder = self;
        builder.config.verify_checksum = verify;
        builder
    }

    /// Set whether headers are validated.
    pub fn with_header_validation(self, validate: bool) -> (b: Self)
        ensures
            b.spec_config() == (ParserConfig { validate_headers: validate, ..self.spec_config() }),
    {
        let mut builder = self;
        builder.config.validate_headers = validate;
        builder
    }

    /// Set the largest payload accepted.
    pub fn with_max_payload_size(self, size: usize) -> (b: Self)
        ensures
            b.spec_config() == (ParserConfig { max_payload_size: size, ..self.spec_config() }),
    {
        let mut builder = self;
        builder.config.max_payload_size = size;
        builder
    }

    /// The configuration built.
    pub fn build(self) -> (c: ParserConfig)
        ensures
            c == self.spec_config(),
    {
        self.config
    }
}

impl Default for ParserConfigBuilder {
    fn default() -> (b: Self)
        ensures
            b.spec_config() == default_config(),
    {
        Self::new()
    }
}

/// Statistics about parsed packets.
#[derive(Debug)]
pub struct ParseStats {
    pub total_packets: usize,
    pub data_packets: usize,
    pub ack_packets: usize,
    pub control_packets: usize,
    pub heartbeat_packets: usize,
    pub error_packets: usize,
    pub total_bytes: usize,
    pub parse_errors: usize,
}

/// All counters at zero.
pub open spec fn zero_stats() -> ParseStats {
    ParseStats {
        total_packets: 0,
        data_packets: 0,
        ack_packets: 0,
        control_packets: 0,
        heartbeat_packets: 0,
        error_packets: 0,
        total_bytes: 0,
        parse_errors: 0,
    }
}

/// The counters after one more packet of type `t` with a payload of `payload_size` bytes:
/// one more packet in all and of its type, and its header and payload added to the bytes.
pub open spec fn stats_with_packet(s: ParseStats, t: PacketType, payload_size: nat) -> ParseStats {
    let s1 = ParseStats {
        total_packets: (s.total_packets + 1) as usize,
        total_bytes: (s.total_bytes + HEADER_SIZE + payload_size) as usize,
        ..s
    };
    match t {
        PacketType::Data => ParseStats { data_packets: (s.data_packets + 1) as usize, ..s1 },
        PacketType::Acknowledgment => ParseStats { ack_packets: (s.ack_packets + 1) as usize, ..s1 },
        PacketType::Control => ParseStats {
            control_packets: (s.control_packets + 1) as usize,
            ..s1
        },
        PacketType::Heartbeat => ParseStats {
            heartbeat_packets: (s.heartbeat_packets + 1) as usize,
            ..s1
        },
        PacketType::Error => ParseStats { error_packets: (s.error_packets + 1) as usize, ..s1 },
    }
}

/// The counters after one more parse error.
pub open spec fn stats_with_error(s: ParseStats) -> ParseStats {
    ParseStats { parse_errors: (s.parse_errors + 1) as usize, ..s }
}

impl Default for ParseStats {
    fn default() -> (s: Self)
        ensures
            s == zero_stats(),
    {
        ParseStats {
            total_packets: 0,
            data_packets: 0,
            ack_packets: 0,
            control_packets: 0,
            heartbeat_packets: 0,
            error_packets: 0,
            total_bytes: 0,
            parse_errors: 0,
        }
    }
}

impl ParseStats {
    /// The counter of packets of type `t`.
    pub open spec fn type_count(self, t: PacketType) -> usize {
        match t {
            PacketType::Data => self.data_packets,
            PacketType::Acknowledgment => self.ack_packets,
            PacketType::Control => self.control_packets,
            PacketType::Heartbeat => self.heartbeat_packets,
            PacketType::Error => self.error_packets,
        }
    }

    /// The counters can take in `n` more bytes without overflow: the byte count grows by at
    /// most `n`, and every other counter by at most one more than the number of headers that
    /// fit in `n` bytes.
    pub open spec fn has_room(self, n: nat) -> bool {
        let k = n / (HEADER_SIZE as nat);
        &&& self.total_packets + k < usize::MAX
        &&& self.data_packets + k < usize::MAX
        &&& self.ack_packets + k < usize::MAX
        &&& self.control_packets + k < usize::MAX
        &&& self.heartbeat_packets + k < usize::MAX
        &&& self.error_packets + k < usize::MAX
        &&& self.parse_errors + k < usize::MAX
        &&& self.total_bytes + n <= usize::MAX
    }

    /// The total count is the sum of the counts per type.
    pub open spec fn is_consistent(self) -> bool {
        self.total_packets == self.data_packets + self.ack_packets + self.control_packets
            + self.heartbeat_packets + self.error_packets
    }

    /// Record a successfully parsed packet.
    pub fn record_packet(&mut self, packet_type: PacketType, payload_size: usize)
        requires
            old(self).total_packets < usize::MAX,
            old(self).type_count(packet_type) < usize::MAX,
            old(self).total_bytes + HEADER_SIZE + payload_size <= usize::MAX,
        ensures
            *final(self) == stats_with_packet(*old(self), packet_type, payload_size as nat),
    {
        self.total_packets += 1;
        self.total_bytes += HEADER_SIZE + payload_size;
        match packet_type {
            PacketType::Data => self.data_packets += 1,
            PacketType::Acknowledgment => self.ack_packets += 1,
            PacketType::Control => self.control_packets += 1,
            PacketType::Heartbeat => self.heartbeat_packets += 1,
            PacketType::Error => self.error_packets += 1,
        }
    }

    /// Record a parse error.
    pub fn record_error(&mut self)
        requires
            old(self).parse_errors < usize::MAX,
        ensures
            *final(self) == stats_with_error(*old(self)),
    {
        self.parse_errors += 1;
    }
}

/// Recording a packet or an error keeps the total count equal to the sum of the counts per type.
pub proof fn lemma_recording_keeps_consistency(s: ParseStats, t: PacketType, payload_size: nat)
    requires
        s.is_consistent(),
        s.total_packets < usize::MAX,
        s.type_count(t) < usize::MAX,
        s.total_bytes + HEADER_SIZE + payload_size <= usize::MAX,
        s.parse_errors < usize::MAX,
    ensures
        stats_with_packet(s, t, payload_size).is_consistent(),
        stats_with_error(s).is_consistent(),
{
}

/// The big-endian 16-bit number at `at` in `s`.
pub open spec fn be_u16_at(s: Seq<u8>, at: int) -> u16 {
    (s[at] * 0x100 + s[at + 1]) as u16
}

/// The big-endian 32-bit number at `at` in `s`.
pub open spec fn be_u32_at(s: Seq<u8>, at: int) -> u32 {
    (s[at] * 0x1000000 + s[at + 1] * 0x10000 + s[at + 2] * 0x100 + s[at + 3]) as u32
}

/// The header that the first 16 bytes of `b` hold, or the first thing wrong with them: the
/// magic number, then the version, then the packet type.
pub open spec fn decode_header(b: Seq<u8>) -> Result<PacketHeader, PacketError> {
    let magic = be_u32_at(b, 0);
    let version = b[4];
    if magic != PACKET_MAGIC {
        Err(PacketError::InvalidMagic { expected: PACKET_MAGIC, found: magic })
    } else if version > PROTOCOL_VERSION {
        Err(PacketError::UnsupportedVersion { version, max_supported: PROTOCOL_VERSION })
    } else {
        match type_from_code(b[5]) {
            Err(e) => Err(e),
            Ok(packet_type) => Ok(
                PacketHeader {
                    magic,
                    version,
                    packet_type,
                    flags: flags_from_byte(b[6]),
                    sequence_number: be_u32_at(b, 8),
                    payload_length: be_u16_at(b, 12) as u32,
                    checksum: be_u16_at(b, 14),
                },
            ),
        }
    }
}

/// The outcome of parsing one packet from `b` under `cfg`: its header and payload, or the
/// first error met. In order: the buffer must hold a header, the header must decode, the
/// declared payload must not exceed the configured maximum and must be present in full,
/// the checksum must match if checksums are verified, and the header fields and declared
/// length must validate if headers are validated (the checksum is tested only when checksums
/// are verified). Bytes after the payload are ignored.
#[verifier::opaque]
pub open spec fn parse_outcome(cfg: ParserConfig, b: Seq<u8>) -> Result<
    (PacketHeader, Seq<u8>),
    PacketError,
> {
    if b.len() < HEADER_SIZE {
        Err(PacketError::BufferTooSmall { expected: HEADER_SIZE, actual: b.len() as usize })
    } else {
        match decode_header(b) {
            Err(e) => Err(e),
            Ok(h) => {
                let n = h.payload_length as nat;
                if n > cfg.max_payload_size {
                    Err(
                        PacketError::InvalidFieldValue {
                            field: "payload_length",
                            value: h.payload_length,
                        },
                    )
                } else if b.len() < HEADER_SIZE + n {
                    Err(
                        PacketError::TruncatedData {
                            position: b.len() as usize,
                            required: (HEADER_SIZE + n) as usize,
                        },
                    )
                } else if cfg.verify_checksum && h.checksum != header_checksum(h) {
                    Err(
                        PacketError::ChecksumMismatch {
                            expected: h.checksum,
                            found: header_checksum(h),
                        },
                    )
                } else {
                    match (if cfg.validate_headers {
                        structure_check(h, n)
                    } else {
                        Ok(())
                    }) {
                        Err(e) => Err(e),
                        Ok(()) => Ok((h, b.subrange(HEADER_SIZE as int, HEADER_SIZE + n))),
                    }
                }
            },
        }
    }
}

/// The statistics after parsing one packet from `b` under `cfg`: the packet is recorded if
/// it parses, and one parse error is recorded if it does not.
pub open spec fn stats_after_parse(cfg: ParserConfig, s: ParseStats, b: Seq<u8>) -> ParseStats {
    match parse_outcome(cfg, b) {
        Ok((h, payload)) => stats_with_packet(s, h.packet_type, payload.len()),
        Err(_) => stats_with_error(s),
    }
}

/// A packet as a header and the payload bytes.
pub open spec fn packet_view(p: Packet) -> (PacketHeader, Seq<u8>) {
    (p.header, p.payload@)
}

/// The outcome of parsing one packet, with the packet taken as header and payload bytes.
pub open spec fn outcome_view(r: Result<Packet, PacketError>) -> Result<
    (PacketHeader, Seq<u8>),
    PacketError,
> {
    match r {
        Ok(p) => Ok(packet_view(p)),
        Err(e) => Err(e),
    }
}

/// The outcome of parsing all packets, with each packet taken as header and payload bytes.
pub open spec fn outcomes_view(r: Result<Vec<Packet>, PacketError>) -> Result<
    Seq<(PacketHeader, Seq<u8>)>,
    PacketError,
> {
    match r {
        Ok(v) => Ok(v@.map_values(|p: Packet| packet_view(p))),
        Err(e) => Err(e),
    }
}

/// Packets parsed before the rest of a stream, put in front of what the rest gives.
pub open spec fn prepend_packets(
    done: Seq<(PacketHeader, Seq<u8>)>,
    rest: (Result<Seq<(PacketHeader, Seq<u8>)>, PacketError>, ParseStats),
) -> (Result<Seq<(PacketHeader, Seq<u8>)>, PacketError>, ParseStats) {
    (
        match rest.0 {
            Ok(ps) => Ok(done + ps),
            Err(e) => Err(e),
        },
        rest.1,
    )
}

/// The outcome of parsing consecutive packets from `b` under `cfg`, starting from the
/// statistics `s`, and the statistics at the end. Parsing stops without error where fewer
/// bytes remain than a header, or than the header and the payload it declares; each packet is
/// parsed from exactly its own bytes; the first packet that fails to parse ends the whole with
/// its error.
pub open spec fn parse_all_outcome(cfg: ParserConfig, s: ParseStats, b: Seq<u8>) -> (
    Result<Seq<(PacketHeader, Seq<u8>)>, PacketError>,
    ParseStats,
)
    decreases b.len(),
{
    if b.len() < HEADER_SIZE {
        (Ok(Seq::empty()), s)
    } else {
        let size = HEADER_SIZE + be_u16_at(b, 12);
        if b.len() < size {
            (Ok(Seq::empty()), s)
        } else {
            let chunk = b.subrange(0, size as int);
            let s1 = stats_after_parse(cfg, s, chunk);
            match parse_outcome(cfg, chunk) {
                Err(e) => (Err(e), s1),
                Ok(p) => prepend_packets(
                    seq![p],
                    parse_all_outcome(cfg, s1, b.subrange(size as int, b.len() as int)),
                ),
            }
        }
    }
}


/// A successful parse takes its payload from within the buffer, right after the header.
pub proof fn lemma_parse_outcome_fits(cfg: ParserConfig, b: Seq<u8>)
    ensures
        parse_outcome(cfg, b) matches Ok((h, payload)) ==> HEADER_SIZE + payload.len() <= b.len()
            && payload == b.subrange(HEADER_SIZE as int, HEADER_SIZE + payload.len()),
{
    reveal(parse_outcome);
}

/// Parsing one packet from `b` leaves room for the bytes that follow it.
proof fn lemma_parse_keeps_room(cfg: ParserConfig, s: ParseStats, b: Seq<u8>, n: nat)
    requires
        s.has_room(n),
        HEADER_SIZE <= b.len() <= n,
    ensures
        s.has_room(b.len()),
        stats_after_parse(cfg, s, b).has_room((n - b.len()) as nat),
{
    lemma_parse_outcome_fits(cfg, b);
}

/// Putting no packets in front changes nothing; putting two runs in front is putting their
/// concatenation in front.
proof fn lemma_prepend_packets(
    a: Seq<(PacketHeader, Seq<u8>)>,
    b: Seq<(PacketHeader, Seq<u8>)>,
    x: (Result<Seq<(PacketHeader, Seq<u8>)>, PacketError>, ParseStats),
)
    ensures
        prepend_packets(Seq::empty(), x) == x,
        prepend_packets(a, prepend_packets(b, x)) == prepend_packets(a + b, x),
{
    match x.0 {
        Ok(ps) => {
            assert(Seq::<(PacketHeader, Seq<u8>)>::empty() + ps == ps);
            assert(a + (b + ps) == (a + b) + ps);
        },
        Err(_) => {},
    }
}

/// One step of parsing a stream of packets.
proof fn lemma_parse_all_unfold(cfg: ParserConfig, s: ParseStats, b: Seq<u8>)
    ensures
        parse_all_outcome(cfg, s, b) == (if b.len() < HEADER_SIZE {
            (Ok(Seq::empty()), s)
        } else if b.len() < HEADER_SIZE + be_u16_at(b, 12) {
            (Ok(Seq::empty()), s)
        } else {
            let size = HEADER_SIZE + be_u16_at(b, 12);
            let chunk = b.subrange(0, size as int);
            let s1 = stats_after_parse(cfg, s, chunk);
            match parse_outcome(cfg, chunk) {
                Err(e) => (Err(e), s1),
                Ok(p) => prepend_packets(
                    seq![p],
                    parse_all_outcome(cfg, s1, b.subrange(size as int, b.len() as int)),
                ),
            }
        }),
{
}

fn read_be_u16(buffer: &[u8], at: usize) -> (v: u16)
    requires
        at + 2 <= buffer@.len(),
    ensures
        v == be_u16_at(buffer@, at as int),
{
    let b0 = buffer[at];
    let b1 = buffer[at + 1];
    let v = ((b0 as u16) << 8) | (b1 as u16);
    assert(v == (b0 * 0x100 + b1) as u16) by (bit_vector)
        requires
            v == ((b0 as u16) << 8) | (b1 as u16),
    ;
    v
}

fn read_be_u32(buffer: &[u8], at: usize) -> (v: u32)
    requires
        at + 4 <= buffer@.len(),
    ensures
        v == be_u32_at(buffer@, at as int),
{
    let b0 = buffer[at];
    let b1 = buffer[at + 1];
    let b2 = buffer[at + 2];
    let b3 = buffer[at + 3];
    let v = ((b0 as u32) << 24) | ((b1 as u32) << 16) | ((b2 as u32) << 8) | (b3 as u32);
    assert(v == (b0 * 0x1000000 + b1 * 0x10000 + b2 * 0x100 + b3) as u32) by (bit_vector)
        requires
            v == ((b0 as u32) << 24) | ((b1 as u32) << 16) | ((b2 as u32) << 8) | (b3 as u32),
    ;
    v
}

/// Binary packet parser for memory-safe parsing.
pub struct PacketParser {
    config: ParserConfig,
    stats: ParseStats,
}

impl PacketParser {
    /// The configuration this parser works under.
    pub closed spec fn spec_config(&self) -> ParserConfig {
        self.config
    }

    /// The statistics this parser has gathered.
    pub closed spec fn spec_stats(&self) -> ParseStats {
        self.stats
    }

    /// Create a new parser with default configuration.
    pub fn new() -> (p: Self)
        ensures
            p.spec_config() == default_config(),
            p.spec_stats() == zero_stats(),
    {
        PacketParser { config: ParserConfig::default(), stats: ParseStats::default() }
    }

    /// Create a new parser with custom configuration.
    pub fn with_config(config: ParserConfig) -> (p: Self)
        ensures
            p.spec_config() == config,
            p.spec_stats() == zero_stats(),
    {
        PacketParser { config, stats: ParseStats::default() }
    }

    /// Get parsing statistics.
    pub fn stats(&self) -> (s: &ParseStats)
        ensures
            *s == self.spec_stats(),
    {
        &self.stats
    }

    /// Reset parsing statistics.
    pub fn reset_stats(&mut self)
        ensures
            final(self).spec_config() == old(self).spec_config(),
            final(self).spec_stats() == zero_stats(),
    {
        self.stats = ParseStats::default();
    }

    /// Parse a single packet from a byte buffer.
    pub fn parse(&mut self, buffer: &[u8]) -> (r: Result<Packet, PacketError>)
        requires
            old(self).spec_stats().has_room(buffer.len() as nat),
        ensures
            outcome_view(r) == parse_outcome(old(self).spec_config(), buffer@),
            final(self).spec_config() == old(self).spec_config(),
            final(self).spec_stats() == stats_after_parse(
                old(self).spec_config(),
                old(self).spec_stats(),
                buffer@,
            ),
    {
        reveal(parse_outcome);
        if buffer.len() < HEADER_SIZE {
            self.stats.record_error();
            return Err(PacketError::BufferTooSmall { expected: HEADER_SIZE, actual: buffer.len() });
        }
        let header = match self.parse_header(buffer) {
            Ok(h) => h,
            Err(e) => {
                return Err(e);
            },
        };
        let payload_len = header.payload_length as usize;
        if payload_len > self.config.max_payload_size {
            self.stats.record_error();
            return Err(
                PacketError::InvalidFieldValue {
                    field: "payload_length",
                    value: payload_len as u32,
                },
            );
        }
        let expected_total = HEADER_SIZE + payload_len;
        if buffer.len() < expected_total {
            self.stats.record_error();
            return Err(
                PacketError::TruncatedData { position: buffer.len(), required: expected_total },
            );
        }
        let payload = vstd::slice::slice_to_vec(&buffer[HEADER_SIZE..expected_total]);
        let packet = Packet { header, payload };
        if self.config.verify_checksum && !packet.header.verify_checksum() {
            self.stats.record_error();
            return Err(
                PacketError::ChecksumMismatch {
                    expected: packet.header.checksum,
                    found: packet.header.calculate_checksum(),
                },
            );
        }
        if self.config.validate_headers {
            match packet.check_structure() {
                Ok(()) => {},
                Err(e) => {
                    self.stats.record_error();
                    return Err(e);
                },
            }
        }
        self.stats.record_packet(packet.header.packet_type, packet.payload.len());
        Ok(packet)
    }

    /// Parse all packets from a byte buffer.
    pub fn parse_all(&mut self, buffer: &[u8]) -> (r: Result<Vec<Packet>, PacketError>)
        requires
            old(self).spec_stats().has_room(buffer.len() as nat),
        ensures
            final(self).spec_config() == old(self).spec_config(),
            (outcomes_view(r), final(self).spec_stats()) == parse_all_outcome(
                old(self).spec_config(),
                old(self).spec_stats(),
                buffer@,
            ),
    {
        let ghost cfg = self.spec_config();
        let ghost whole = parse_all_outcome(cfg, self.spec_stats(), buffer@);
        let mut packets: Vec<Packet> = Vec::new();
        let mut offset: usize = 0;
        proof {
            assert(buffer@.subrange(0, buffer@.len() as int) == buffer@);
            assert(packets@.map_values(|p: Packet| packet_view(p)) == Seq::<(PacketHeader, Seq<u8>)>::empty());
            lemma_prepend_packets(Seq::empty(), Seq::empty(), whole);
        }
        while offset < buffer.len()
            invariant
                offset <= buffer@.len(),
                cfg == old(self).spec_config(),
                whole == parse_all_outcome(old(self).spec_config(), old(self).spec_stats(), buffer@),
                self.spec_config() == cfg,
                self.spec_stats().has_room((buffer@.len() - offset) as nat),
                whole == prepend_packets(
                    packets@.map_values(|p: Packet| packet_view(p)),
                    parse_all_outcome(
                        cfg,
                        self.spec_stats(),
                        buffer@.subrange(offset as int, buffer@.len() as int),
                    ),
                ),
            ensures
                parse_all_outcome(
                    cfg,
                    self.spec_stats(),
                    buffer@.subrange(offset as int, buffer@.len() as int),
                ) == (Ok::<Seq<(PacketHeader, Seq<u8>)>, PacketError>(Seq::empty()), self.spec_stats()),
            decreases buffer@.len() - offset,
        {
            let ghost rest = buffer@.subrange(offset as int, buffer@.len() as int);
            let ghost stats0 = self.spec_stats();
            let remaining_len = buffer.len() - offset;
            if remaining_len < HEADER_SIZE {
                proof {
                    lemma_parse_all_unfold(cfg, stats0, rest);
                }
                break;
            }
            let payload_len = read_be_u16(buffer, offset + 12) as usize;
            assert(payload_len == be_u16_at(rest, 12));
            let packet_size = HEADER_SIZE + payload_len;
            if remaining_len < packet_size {
                proof {
                    lemma_parse_all_unfold(cfg, stats0, rest);
                }
                break;
            }
            let chunk = &buffer[offset..offset + packet_size];
            assert(chunk@ == rest.subrange(0, packet_size as int));
            proof {
                lemma_parse_all_unfold(cfg, stats0, rest);
                lemma_parse_keeps_room(cfg, stats0, chunk@, remaining_len as nat);
            }
            let packet = match self.parse(chunk) {
                Ok(p) => p,
                Err(e) => {
                    return Err(e);
                },
            };
            let ghost done = packets@.map_values(|p: Packet| packet_view(p));
            packets.push(packet);
            assert(packets@.map_values(|p: Packet| packet_view(p)) == done + seq![packet_view(packet)]);
            offset += packet_size;
            proof {
                lemma_prepend_packets(
                    done,
                    seq![packet_view(packet)],
                    parse_all_outcome(cfg, self.spec_stats(), buffer@.subrange(offset as int, buffer@.len() as int)),
                );
            }
            assert(buffer@.subrange(offset as int, buffer@.len() as int) == rest.subrange(
                packet_size as int,
                rest.len() as int,
            ));
        }
        assert(packets@.map_values(|p: Packet| packet_view(p)) + Seq::empty() == packets@.map_values(|p: Packet| packet_view(p)));
        Ok(packets)
    }

    /// Parse packet header from buffer.
    fn parse_header(&mut self, buffer: &[u8]) -> (r: Result<PacketHeader, PacketError>)
        requires
            buffer@.len() >= HEADER_SIZE,
            old(self).spec_stats().parse_errors < usize::MAX,
        ensures
            r == decode_header(buffer@),
            final(self).spec_config() == old(self).spec_config(),
            final(self).spec_stats() == (if r is Err {
                stats_with_error(old(self).spec_stats())
            } else {
                old(self).spec_stats()
            }),
    {
        let magic = read_be_u32(buffer, 0);
        if magic != PACKET_MAGIC {
            self.stats.record_error();
            return Err(PacketError::InvalidMagic { expected: PACKET_MAGIC, found: magic });
        }
        let version = buffer[4];
        if version > PROTOCOL_VERSION {
            self.stats.record_error();
            return Err(
                PacketError::UnsupportedVersion { version, max_supported: PROTOCOL_VERSION },
            );
        }
        let packet_type = match PacketType::from_u8(buffer[5]) {
            Ok(t) => t,
            Err(e) => {
                self.stats.record_error();
                return Err(e);
            },
        };
        let flags = PacketFlags::from_u8(buffer[6]);
        let sequence_number = read_be_u32(buffer, 8);
        let payload_length = read_be_u16(buffer, 12) as u32;
        let checksum = read_be_u16(buffer, 14);
        Ok(
            PacketHeader {
                magic,
                version,
                packet_type,
                flags,
                sequence_number,
                payload_length,
                checksum,
            },
        )
    }
}

impl Default for PacketParser {
    fn default() -> (p: Self)
        ensures
            p.spec_config() == default_config(),
            p.spec_stats() == zero_stats(),
    {
        Self::new()
    }
}

/// A header and payload that `Packet::to_bytes` writes in a form that parses back as they
/// are: the current magic and a supported version, a priority that fits its four bits, a
/// declared length equal to the payload's length and small enough for its 16-bit field,
/// and a matching checksum.
pub open spec fn is_well_formed(h: PacketHeader, payload: Seq<u8>) -> bool {
    &&& h.magic == PACKET_MAGIC
    &&& h.version <= PROTOCOL_VERSION
    &&& h.flags.priority < 16
    &&& h.payload_length == payload.len()
    &&& payload.len() <= 0xFFFF
    &&& h.checksum == header_checksum(h)
}

/// The bytes of consecutive packets.
pub open spec fn stream_bytes(ps: Seq<(PacketHeader, Seq<u8>)>) -> Seq<u8>
    decreases ps.len(),
{
    if ps.len() == 0 {
        Seq::empty()
    } else {
        packet_bytes(ps[0].0, ps[0].1) + stream_bytes(ps.drop_first())
    }
}

proof fn lemma_be_u32_roundtrip(x: u32)
    ensures
        be_u32_at(be_bytes_u32(x), 0) == x,
{
    let b = be_bytes_u32(x);
    let b0 = (x >> 24u32) as u8;
    let b1 = (x >> 16u32) as u8;
    let b2 = (x >> 8u32) as u8;
    let b3 = x as u8;
    assert(b[0] == b0 && b[1] == b1 && b[2] == b2 && b[3] == b3);
    assert((b0 * 0x1000000 + b1 * 0x10000 + b2 * 0x100 + b3) as u32 == x) by (bit_vector)
        requires
            b0 == (x >> 24u32) as u8,
            b1 == (x >> 16u32) as u8,
            b2 == (x >> 8u32) as u8,
            b3 == x as u8,
    ;
}

proof fn lemma_be_u16_roundtrip(x: u16)
    ensures
        be_u16_at(be_bytes_u16(x), 0) == x,
{
    let b = be_bytes_u16(x);
    let b0 = (x >> 8u16) as u8;
    let b1 = x as u8;
    assert(b[0] == b0 && b[1] == b1);
    assert((b0 * 0x100 + b1) as u16 == x) by (bit_vector)
        requires
            b0 == (x >> 8u16) as u8,
            b1 == x as u8,
    ;
}

/// The header bytes of a well-formed packet decode to its header.
proof fn lemma_decode_header_bytes(h: PacketHeader, payload: Seq<u8>, extra: Seq<u8>)
    requires
        is_well_formed(h, payload),
    ensures
        decode_header(packet_bytes(h, payload) + extra) == Ok::<PacketHeader, PacketError>(h),
{
    let b = packet_bytes(h, payload) + extra;
    let hb = header_bytes(h);
    assert(hb.len() == 16);
    assert(b.subrange(0, 4) == be_bytes_u32(h.magic));
    assert(b.subrange(8, 12) == be_bytes_u32(h.sequence_number));
    assert(b.subrange(12, 14) == be_bytes_u16(h.payload_length as u16));
    assert(b.subrange(14, 16) == be_bytes_u16(h.checksum));
    lemma_be_u32_roundtrip(h.magic);
    lemma_be_u32_roundtrip(h.sequence_number);
    lemma_be_u16_roundtrip(h.payload_length as u16);
    lemma_be_u16_roundtrip(h.checksum);
    assert(be_u32_at(b, 0) == be_u32_at(b.subrange(0, 4), 0));
    assert(be_u32_at(b, 8) == be_u32_at(b.subrange(8, 12), 0));
    assert(be_u16_at(b, 12) == be_u16_at(b.subrange(12, 14), 0));
    assert(be_u16_at(b, 14) == be_u16_at(b.subrange(14, 16), 0));
    assert(b[4] == h.version && b[5] == type_code(h.packet_type) && b[6] == flags_to_byte(h.flags));
    crate::packet::lemma_type_code_roundtrip(h.packet_type);
    crate::packet::lemma_flags_roundtrip(h.flags);
}

/// Round trip: the bytes of a well-formed packet parse back to that packet, whatever bytes
/// follow them, under every configuration whose payload limit admits the payload.
pub proof fn lemma_parse_packet_bytes(
    cfg: ParserConfig,
    h: PacketHeader,
    payload: Seq<u8>,
    extra: Seq<u8>,
)
    requires
        is_well_formed(h, payload),
        payload.len() <= cfg.max_payload_size,
    ensures
        parse_outcome(cfg, packet_bytes(h, payload) + extra) == Ok::<
            (PacketHeader, Seq<u8>),
            PacketError,
        >((h, payload)),
{
    reveal(parse_outcome);
    let b = packet_bytes(h, payload) + extra;
    lemma_decode_header_bytes(h, payload, extra);
    assert(b.subrange(HEADER_SIZE as int, HEADER_SIZE + payload.len()) == payload);
}

/// The bytes after the last whole packet of a stream are too few for a header, or for the
/// header and the payload it declares.
pub open spec fn is_incomplete(tail: Seq<u8>) -> bool {
    tail.len() < HEADER_SIZE || tail.len() < HEADER_SIZE + be_u16_at(tail, 12)
}

/// Every packet of `ps` is well formed and within the payload limit of `cfg`.
pub open spec fn all_well_formed(cfg: ParserConfig, ps: Seq<(PacketHeader, Seq<u8>)>) -> bool {
    forall|i: int|
        0 <= i < ps.len() ==> #[trigger] is_well_formed(ps[i].0, ps[i].1) && ps[i].1.len()
            <= cfg.max_payload_size
}

proof fn lemma_all_well_formed_tail(cfg: ParserConfig, ps: Seq<(PacketHeader, Seq<u8>)>)
    requires
        all_well_formed(cfg, ps),
        ps.len() > 0,
    ensures
        is_well_formed(ps[0].0, ps[0].1),
        ps[0].1.len() <= cfg.max_payload_size,
        all_well_formed(cfg, ps.drop_first()),
        seq![ps[0]] + ps.drop_first() == ps,
{
    let tail = ps.drop_first();
    assert(is_well_formed(ps[0].0, ps[0].1));
    assert forall|i: int| 0 <= i < tail.len() implies #[trigger] is_well_formed(tail[i].0, tail[i].1)
        && tail[i].1.len() <= cfg.max_payload_size by {
        assert(tail[i] == ps[i + 1]);
        assert(is_well_formed(ps[i + 1].0, ps[i + 1].1));
    }
    assert(seq![ps[0]] + tail == ps);
}

/// Round trip for a stream: the bytes of consecutive well-formed packets, followed by an
/// incomplete tail (possibly empty), parse back to those packets in order; the tail is left
/// without error; each packet is counted once and no parse error is counted.
pub proof fn lemma_parse_stream_bytes(
    cfg: ParserConfig,
    s: ParseStats,
    ps: Seq<(PacketHeader, Seq<u8>)>,
    tail: Seq<u8>,
)
    requires
        all_well_formed(cfg, ps),
        is_incomplete(tail),
        s.has_room((stream_bytes(ps) + tail).len()),
    ensures
        parse_all_outcome(cfg, s, stream_bytes(ps) + tail).0 == Ok::<
            Seq<(PacketHeader, Seq<u8>)>,
            PacketError,
        >(ps),
        parse_all_outcome(cfg, s, stream_bytes(ps) + tail).1.total_packets == s.total_packets
            + ps.len(),
        parse_all_outcome(cfg, s, stream_bytes(ps) + tail).1.parse_errors == s.parse_errors,
    decreases ps.len(),
{
    let b = stream_bytes(ps) + tail;
    if ps.len() == 0 {
        assert(b == tail);
        assert(ps == Seq::<(PacketHeader, Seq<u8>)>::empty());
        lemma_parse_all_unfold(cfg, s, b);
    } else {
        lemma_all_well_formed_tail(cfg, ps);
        let rest = ps.drop_first();
        let s1 = lemma_stream_step(cfg, s, ps[0].0, ps[0].1, stream_bytes(rest) + tail);
        assert(b == packet_bytes(ps[0].0, ps[0].1) + (stream_bytes(rest) + tail));
        lemma_parse_stream_bytes(cfg, s1, rest, tail);
    }
}

/// A stream of well-formed packets followed by a packet that fails to parse ends with that
/// packet's error: the packets before it are counted, and one parse error; nothing after it
/// is read.
pub proof fn lemma_parse_stream_stops_at_failure(
    cfg: ParserConfig,
    s: ParseStats,
    ps: Seq<(PacketHeader, Seq<u8>)>,
    bad: Seq<u8>,
    rest: Seq<u8>,
)
    requires
        all_well_formed(cfg, ps),
        bad.len() >= HEADER_SIZE,
        bad.len() == HEADER_SIZE + be_u16_at(bad, 12),
        parse_outcome(cfg, bad) is Err,
        s.has_room((stream_bytes(ps) + bad + rest).len()),
    ensures
        parse_all_outcome(cfg, s, stream_bytes(ps) + bad + rest).0 == Err::<
            Seq<(PacketHeader, Seq<u8>)>,
            PacketError,
        >(parse_outcome(cfg, bad)->Err_0),
        parse_all_outcome(cfg, s, stream_bytes(ps) + bad + rest).1.total_packets
            == s.total_packets + ps.len(),
        parse_all_outcome(cfg, s, stream_bytes(ps) + bad + rest).1.parse_errors
            == s.parse_errors + 1,
    decreases ps.len(),
{
    let b = stream_bytes(ps) + bad + rest;
    if ps.len() == 0 {
        assert(b == bad + rest);
        assert(b[12] == bad[12] && b[13] == bad[13]);
        assert(b.subrange(0, bad.len() as int) == bad);
        lemma_parse_all_unfold(cfg, s, b);
    } else {
        lemma_all_well_formed_tail(cfg, ps);
        let others = ps.drop_first();
        let s1 = lemma_stream_step(cfg, s, ps[0].0, ps[0].1, stream_bytes(others) + bad + rest);
        assert(b == packet_bytes(ps[0].0, ps[0].1) + (stream_bytes(others) + bad + rest));
        lemma_parse_stream_stops_at_failure(cfg, s1, others, bad, rest);
    }
}

/// Parsing a stream that starts with a well-formed packet yields that packet, then whatever
/// the rest of the stream yields from the statistics that the packet leaves.
proof fn lemma_stream_step(
    cfg: ParserConfig,
    s: ParseStats,
    h: PacketHeader,
    payload: Seq<u8>,
    rest: Seq<u8>,
) -> (s1: ParseStats)
    requires
        is_well_formed(h, payload),
        payload.len() <= cfg.max_payload_size,
        s.has_room((packet_bytes(h, payload) + rest).len()),
    ensures
        parse_all_outcome(cfg, s, packet_bytes(h, payload) + rest) == prepend_packets(
            seq![(h, payload)],
            parse_all_outcome(cfg, s1, rest),
        ),
        s1.has_room(rest.len()),
        s1.total_packets == s.total_packets + 1,
        s1.parse_errors == s.parse_errors,
{
    let first = packet_bytes(h, payload);
    let b = first + rest;
    let size = HEADER_SIZE + payload.len();
    assert(be_u16_at(b, 12) == h.payload_length) by {
        lemma_be_u16_roundtrip(h.payload_length as u16);
        assert(b.subrange(12, 14) == be_bytes_u16(h.payload_length as u16));
        assert(be_u16_at(b, 12) == be_u16_at(b.subrange(12, 14), 0));
    }
    let chunk = b.subrange(0, size as int);
    assert(chunk == first + Seq::<u8>::empty());
    lemma_parse_packet_bytes(cfg, h, payload, Seq::empty());
    let s1 = stats_after_parse(cfg, s, chunk);
    lemma_parse_keeps_room(cfg, s, chunk, b.len());
    assert(b.subrange(size as int, b.len() as int) == rest);
    lemma_parse_all_unfold(cfg, s, b);
    s1
}

/// A packet made by `Packet::new` or `Packet::with_sequence` is well formed whenever its
/// payload fits the 16-bit length field.
pub proof fn lemma_sealed_packet_well_formed(
    packet_type: PacketType,
    sequence_number: u32,
    payload: Seq<u8>,
)
    requires
        payload.len() <= 0xFFFF,
    ensures
        is_well_formed(sealed_header(packet_type, sequence_number, payload.len() as u32), payload),
{
    let b = blank_header(packet_type, sequence_number, payload.len() as u32);
    let h = sealed_header(packet_type, sequence_number, payload.len() as u32);
    assert(word_sum(h) == word_sum(b));
}

/// A failed parse counts one parse error and nothing else.
pub proof fn lemma_failed_parse_counts_one_error(cfg: ParserConfig, s: ParseStats, b: Seq<u8>)
    requires
        parse_outcome(cfg, b) is Err,
    ensures
        stats_after_parse(cfg, s, b) == stats_with_error(s),
        stats_after_parse(cfg, s, b).total_packets == s.total_packets,
        stats_after_parse(cfg, s, b).total_bytes == s.total_bytes,
{
}

/// Parsing one packet keeps the total count equal to the sum of the counts per type.
pub proof fn lemma_parse_keeps_consistency(cfg: ParserConfig, s: ParseStats, b: Seq<u8>)
    requires
        s.is_consistent(),
        s.has_room(b.len()),
    ensures
        stats_after_parse(cfg, s, b).is_consistent(),
{
    lemma_parse_outcome_fits(cfg, b);
}

/// Parsing a stream keeps the total count equal to the sum of the counts per type.
pub proof fn lemma_parse_all_keeps_consistency(cfg: ParserConfig, s: ParseStats, b: Seq<u8>)
    requires
        s.is_consistent(),
        s.has_room(b.len()),
    ensures
        parse_all_outcome(cfg, s, b).1.is_consistent(),
    decreases b.len(),
{
    lemma_parse_all_unfold(cfg, s, b);
    if b.len() >= HEADER_SIZE && b.len() >= HEADER_SIZE + be_u16_at(b, 12) {
        let size = HEADER_SIZE + be_u16_at(b, 12);
        let chunk = b.subrange(0, size as int);
        let s1 = stats_after_parse(cfg, s, chunk);
        lemma_parse_keeps_consistency(cfg, s, chunk);
        lemma_parse_keeps_room(cfg, s, chunk, b.len());
        if parse_outcome(cfg, chunk) is Ok {
            lemma_parse_all_keeps_consistency(cfg, s1, b.subrange(size as int, b.len() as int));
        }
    }
}

/// Where the decoder reads each header field: the magic number from bytes 0 to 3, the
/// version from byte 4, the type from byte 5, the flags from byte 6, the sequence number from
/// bytes 8 to 11, the payload length from bytes 12 and 13 and the checksum from bytes 14 and
/// 15, numbers big-endian; byte 7 is not read. Decoding fails exactly when the magic number is
/// not "PACK", the version is above 1, or the type code is not 1 to 5.
pub proof fn lemma_decode_layout(b: Seq<u8>)
    requires
        b.len() >= HEADER_SIZE,
    ensures
        decode_header(b) is Ok <==> (b[0] * 0x1000000 + b[1] * 0x10000 + b[2] * 0x100 + b[3]
            == 0x5041434B && b[4] <= 1 && 1 <= b[5] <= 5),
        decode_header(b) matches Ok(h) ==> {
            &&& h.magic == b[0] * 0x1000000 + b[1] * 0x10000 + b[2] * 0x100 + b[3]
            &&& h.version == b[4]
            &&& type_code(h.packet_type) == b[5]
            &&& h.flags == flags_from_byte(b[6])
            &&& h.sequence_number == b[8] * 0x1000000 + b[9] * 0x10000 + b[10] * 0x100 + b[11]
            &&& h.payload_length == b[12] * 0x100 + b[13]
            &&& h.checksum == b[14] * 0x100 + b[15]
        },
{
    let (b0, b1, b2, b3) = (b[0], b[1], b[2], b[3]);
    assert(b0 * 0x1000000 + b1 * 0x10000 + b2 * 0x100 + b3 < 0x100000000) by (nonlinear_arith)
        requires
            b0 < 256 && b1 < 256 && b2 < 256 && b3 < 256,
    ;
    let (b8, b9, b10, b11) = (b[8], b[9], b[10], b[11]);
    assert(b8 * 0x1000000 + b9 * 0x10000 + b10 * 0x100 + b11 < 0x100000000) by (nonlinear_arith)
        requires
            b8 < 256 && b9 < 256 && b10 < 256 && b11 < 256,
    ;
}

/// With checksums verified, a packet whose header decodes, whose payload is within the limit
/// and present in full, but whose checksum field does not match the header checksum is
/// refused with a checksum mismatch, whatever its payload and type; so every packet accepted
/// under checksum verification carries a matching checksum.
pub proof fn lemma_parse_refuses_bad_checksum(cfg: ParserConfig, b: Seq<u8>)
    requires
        cfg.verify_checksum,
        b.len() >= HEADER_SIZE,
    ensures
        ({
            let h = decode_header(b)->Ok_0;
            decode_header(b) is Ok && h.payload_length <= cfg.max_payload_size && b.len()
                >= HEADER_SIZE + h.payload_length && h.checksum != header_checksum(h)
                ==> parse_outcome(cfg, b) == Err::<(PacketHeader, Seq<u8>), PacketError>(
                PacketError::ChecksumMismatch { expected: h.checksum, found: header_checksum(h) },
            )
        }),
        parse_outcome(cfg, b) matches Ok((h, payload)) ==> h.checksum == header_checksum(h),
{
    reveal(parse_outcome);
}

/// A packet is accepted only if its header decodes from the buffer, and then it is that header
/// with the declared number of payload bytes that follow the header; under header validation
/// the declared length is at most 64 KB. A buffer shorter than a header is always refused.
pub proof fn lemma_parse_accepts_decoded(cfg: ParserConfig, b: Seq<u8>)
    ensures
        b.len() < HEADER_SIZE ==> parse_outcome(cfg, b) == Err::<
            (PacketHeader, Seq<u8>),
            PacketError,
        >(PacketError::BufferTooSmall { expected: 16, actual: b.len() as usize }),
        parse_outcome(cfg, b) matches Ok((h, payload)) ==> {
            &&& decode_header(b) == Ok::<PacketHeader, PacketError>(h)
            &&& payload.len() == h.payload_length
            &&& h.payload_length <= cfg.max_payload_size
            &&& payload == b.subrange(16, 16 + payload.len() as int)
            &&& cfg.validate_headers ==> h.payload_length <= 65536
        },
{
    reveal(parse_outcome);
}

/// What one parse does to the statistics: a packet adds one to the total and one to the
/// count of its type, and its header and payload bytes to the byte count, leaving the other
/// counters; a failure adds one parse error and leaves everything else.
pub proof fn lemma_parse_stats_effect(cfg: ParserConfig, s: ParseStats, b: Seq<u8>)
    requires
        s.has_room(b.len()),
    ensures
        parse_outcome(cfg, b) matches Ok((h, payload)) ==> {
            let t = stats_after_parse(cfg, s, b);
            &&& t.total_packets == s.total_packets + 1
            &&& t.total_bytes == s.total_bytes + 16 + payload.len()
            &&& t.parse_errors == s.parse_errors
            &&& t.data_packets == s.data_packets + (if h.packet_type == PacketType::Data { 1int } else { 0 })
            &&& t.ack_packets == s.ack_packets + (if h.packet_type == PacketType::Acknowledgment { 1int } else { 0 })
            &&& t.control_packets == s.control_packets + (if h.packet_type == PacketType::Control { 1int } else { 0 })
            &&& t.heartbeat_packets == s.heartbeat_packets + (if h.packet_type == PacketType::Heartbeat { 1int } else { 0 })
            &&& t.error_packets == s.error_packets + (if h.packet_type == PacketType::Error { 1int } else { 0 })
        },
        parse_outcome(cfg, b) is Err ==> {
            let t = stats_after_parse(cfg, s, b);
            &&& t.parse_errors == s.parse_errors + 1
            &&& t.total_packets == s.total_packets
            &&& t.total_bytes == s.total_bytes
            &&& t.data_packets == s.data_packets
            &&& t.ack_packets == s.ack_packets
            &&& t.control_packets == s.control_packets
            &&& t.heartbeat_packets == s.heartbeat_packets
            &&& t.error_packets == s.error_packets
        },
{
    lemma_parse_outcome_fits(cfg, b);
}

/// Each refusal of a parse, with the error it gives: a buffer shorter than a header; a header
/// that does not decode, with the decoding error; a declared payload above the configured
/// limit; a payload that is not all present. With checksums not verified, a packet whose
/// header decodes, whose payload is within the limit and present, and whose header fields
/// validate, is accepted whatever its checksum field holds.
pub proof fn lemma_parse_refusals(cfg: ParserConfig, b: Seq<u8>)
    ensures
        b.len() >= 16 && decode_header(b) is Err ==> parse_outcome(cfg, b) == Err::<
            (PacketHeader, Seq<u8>),
            PacketError,
        >(decode_header(b)->Err_0),
        ({
            let h = decode_header(b)->Ok_0;
            let n = h.payload_length;
            &&& b.len() >= 16 && decode_header(b) is Ok && n > cfg.max_payload_size
                ==> parse_outcome(cfg, b) == Err::<(PacketHeader, Seq<u8>), PacketError>(
                PacketError::InvalidFieldValue { field: "payload_length", value: n },
            )
            &&& b.len() >= 16 && decode_header(b) is Ok && n <= cfg.max_payload_size && b.len()
                < 16 + n ==> parse_outcome(cfg, b) == Err::<(PacketHeader, Seq<u8>), PacketError>(
                PacketError::TruncatedData { position: b.len() as usize, required: (16 + n) as usize },
            )
            &&& b.len() >= 16 && decode_header(b) is Ok && n <= cfg.max_payload_size && b.len()
                >= 16 + n && !cfg.verify_checksum && (cfg.validate_headers ==> n <= 65536)
                ==> parse_outcome(cfg, b) == Ok::<(PacketHeader, Seq<u8>), PacketError>(
                (h, b.subrange(16, 16 + n)),
            )
        }),
{
    reveal(parse_outcome);
    if b.len() >= 16 && decode_header(b) is Ok {
        let h = decode_header(b)->Ok_0;
        crate::packet::lemma_packet_check_exact(h, h.payload_length as nat);
    }
}

} // verus!
