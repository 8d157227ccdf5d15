use packet_parse_safe::cli::{flag_letters, hex_bytes, sample_packets, tally_validation, Args, Mode};
use packet_parse_safe::{Packet, PacketFlags, PacketType};

#[test]
fn test_args_parsing_help() {
    let args = Args::parse(&["program".to_string(), "--help".to_string()]).unwrap();
    assert!(matches!(args.mode, Mode::Help));
}

#[test]
fn test_args_parsing_version() {
    let args = Args::parse(&["program".to_string(), "-v".to_string()]).unwrap();
    assert!(matches!(args.mode, Mode::Version));
}

#[test]
fn test_args_parsing_parse() {
    let args = Args::parse(&[
        "program".to_string(),
        "-p".to_string(),
        "-i".to_string(),
        "input.bin".to_string(),
    ])
    .unwrap();
    assert!(matches!(args.mode, Mode::Parse));
    assert_eq!(args.input_file, Some("input.bin".to_string()));
}

#[test]
fn test_args_parsing_generate() {
    let args = Args::parse(&[
        "program".to_string(),
        "-g".to_string(),
        "-o".to_string(),
        "output.bin".to_string(),
    ])
    .unwrap();
    assert!(matches!(args.mode, Mode::Generate));
    assert_eq!(args.output_file, Some("output.bin".to_string()));
}

#[test]
fn test_args_parsing_verbose() {
    let args = Args::parse(&["program".to_string(), "--verbose".to_string()]).unwrap();
    assert!(args.verbose);
}

#[test]
fn test_args_parsing_no_checksum() {
    let args = Args::parse(&["program".to_string(), "--no-checksum".to_string()]).unwrap();
    assert!(args.no_checksum);
}

#[test]
fn test_args_parsing_unknown_option() {
    let result = Args::parse(&["program".to_string(), "--unknown".to_string()]);
    assert!(result.is_err());
}

#[test]
fn test_args_defaults_and_positionals() {
    let args = Args::parse(&["program".to_string()]).unwrap();
    assert!(matches!(args.mode, Mode::Parse));
    assert_eq!(args.input_file, None);
    assert_eq!(args.output_file, None);
    assert!(!args.verbose);
    assert!(!args.no_checksum);

    let args = Args::parse(&[
        "program".to_string(),
        "in.bin".to_string(),
        "--stats".to_string(),
        "out.bin".to_string(),
        "--validate".to_string(),
    ])
    .unwrap();
    assert!(matches!(args.mode, Mode::Validate));
    assert_eq!(args.input_file, Some("in.bin".to_string()));
    assert_eq!(args.output_file, Some("out.bin".to_string()));
}

#[test]
fn test_args_default_mode_is_parse() {
    let args = Args::parse(&["program".to_string(), "input.bin".to_string()]).unwrap();
    assert!(matches!(args.mode, Mode::Parse));
    assert_eq!(args.input_file, Some("input.bin".to_string()));
    assert_eq!(args.output_file, None);
}

#[test]
fn test_args_errors() {
    let e = Args::parse(&["program".to_string(), "--unknown".to_string()]).unwrap_err();
    assert_eq!(e, "Unknown option: --unknown");
    let e = Args::parse(&["program".to_string(), "-i".to_string()]).unwrap_err();
    assert_eq!(e, "Missing argument for --input");
    let e = Args::parse(&["program".to_string(), "--output".to_string()]).unwrap_err();
    assert_eq!(e, "Missing argument for --output");
    let e = Args::parse(&[
        "program".to_string(),
        "a".to_string(),
        "b".to_string(),
        "c".to_string(),
    ])
    .unwrap_err();
    assert_eq!(e, "Unexpected argument: c");
}

#[test]
fn test_sample_packets() {
    let ps = sample_packets();
    assert_eq!(ps.len(), 5);
    assert_eq!(ps[0].header.packet_type, PacketType::Data);
    assert_eq!(ps[0].header.sequence_number, 0);
    assert_eq!(ps[0].payload, vec![0x01, 0x02, 0x03, 0x04, 0x05]);
    assert_eq!(ps[1].header.packet_type, PacketType::Acknowledgment);
    assert_eq!(ps[3].payload.len(), 0);
    assert_eq!(ps[4].header.sequence_number, 4);
    for p in &ps {
        assert!(p.validate().is_ok());
    }
}

#[test]
fn test_tally_validation() {
    let good = Packet::new(PacketType::Data, vec![1, 2]);
    let mut bad = Packet::new(PacketType::Data, vec![1, 2]);
    bad.header.checksum ^= 1;
    let mut short = Packet::new(PacketType::Control, vec![1, 2, 3]);
    short.payload.pop();
    assert_eq!(tally_validation(&[good.clone(), bad, short, good]), (2, 2));
    assert_eq!(tally_validation(&[]), (0, 0));
}

#[test]
fn test_flag_letters_and_hex() {
    let flags = PacketFlags {
        encrypted: true,
        compressed: false,
        fragmented: true,
        last_fragment: false,
        priority: 3,
    };
    assert_eq!(flag_letters(&flags), "E-F-");
    assert_eq!(flag_letters(&PacketFlags::default()), "----");
    assert_eq!(hex_bytes(&[0xDE, 0xAD, 0x0B, 0x00]), "DE AD 0B 00");
    assert_eq!(hex_bytes(&[]), "");
    assert_eq!(hex_bytes(&[0x7]), "07");
}
