# packet_parse_safe

A binary packet parser whose behaviour is stated in contracts and proved with Verus.

A packet is a 16-byte header followed by its payload:

```
Offset  Size  Field
0       4     Magic (0x5041434B, "PACK"), big-endian
4       1     Version (1)
5       1     Type (1 DATA, 2 ACK, 3 CTRL, 4 HEARTBEAT, 5 ERROR)
6       1     Flags (bit 0 encrypted, 1 compressed, 2 fragmented, 3 last fragment, 4-7 priority)
7       1     Reserved (0)
8       4     Sequence number, big-endian
12      2     Payload length, big-endian
14      2     Checksum, big-endian
16      N     Payload
```

Layout:

- `src/packet.rs`: packet types, flags, headers and packets; checksum, validation and
  serialisation, with the wire format as spec functions.
- `src/parser.rs`: parser configuration, statistics and the parser; `parse_outcome` and
  `parse_all_outcome` say what parsing yields, and the round-trip laws are proved there.
- `src/error.rs`: the error type and its messages.
- `src/text.rs`: decimal and hexadecimal digits for messages.
- `src/cli.rs`: command-line reading and the computations behind the tool's reports.
- `app/main.rs`: the command-line tool (files, printing).
- `tests/`: tests of the library.
