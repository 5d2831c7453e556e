use oxcraft::cli::{yay, ByteInput, CliCommand, Expectation, LogLevel, ParseError, TextLabel};
use oxcraft::nbt::NbtTagType;

#[test]
fn empty_line_is_help_at_info() {
    let cli = yay("").unwrap();
    assert_eq!(cli.level, LogLevel::Info);
    assert!(matches!(cli.command, CliCommand::Help));
}

#[test]
fn documented_example_decodes_hex_with_debug_logging() {
    let cli = yay("-Dd 0xbd7d9a9f7e").unwrap();
    assert_eq!(cli.level, LogLevel::Debug);
    match cli.command {
        CliCommand::Decode(ByteInput::Data(d)) => assert_eq!(d, vec![0xbd, 0x7d, 0x9a, 0x9f, 0x7e]),
        other => panic!("unexpected {other:?}"),
    }
}

#[test]
fn inline_bytes_in_each_radix() {
    match yay("-V 0b1011").unwrap().command {
        CliCommand::VarInt(ByteInput::Data(d)) => assert_eq!(d, vec![11]),
        other => panic!("unexpected {other:?}"),
    }
    match yay("-V 0b1111111100000001").unwrap().command {
        CliCommand::VarInt(ByteInput::Data(d)) => assert_eq!(d, vec![0xff, 1]),
        other => panic!("unexpected {other:?}"),
    }
    match yay("-c 0o777").unwrap().command {
        CliCommand::Decompress(ByteInput::Data(d)) => assert_eq!(d, vec![63, 7]),
        other => panic!("unexpected {other:?}"),
    }
    match yay("-d 0d2550").unwrap().command {
        CliCommand::Decode(ByteInput::Data(d)) => assert_eq!(d, vec![25, 50]),
        other => panic!("unexpected {other:?}"),
    }
    match yay("-d 0xbd7d9a9f7e").unwrap().command {
        CliCommand::Decode(ByteInput::Data(d)) => assert_eq!(d, vec![0xbd, 0x7d, 0x9a, 0x9f, 0x7e]),
        other => panic!("unexpected {other:?}"),
    }
}

#[test]
fn inline_binary_byte() {
    match yay("-d 0b11111111").unwrap().command {
        CliCommand::Decode(ByteInput::Data(d)) => assert_eq!(d, vec![0xff]),
        other => panic!("unexpected {other:?}"),
    }
}

#[test]
fn inline_octal_and_decimal_digits_pair_up() {
    match yay("-c 0o377").unwrap().command {
        CliCommand::Decompress(ByteInput::Data(d)) => assert_eq!(d, vec![31, 7]),
        other => panic!("unexpected {other:?}"),
    }
    match yay("-d 0d256").unwrap().command {
        CliCommand::Decode(ByteInput::Data(d)) => assert_eq!(d, vec![25, 6]),
        other => panic!("unexpected {other:?}"),
    }
}

#[test]
fn other_input_is_a_path() {
    match yay("-d ./my data.bin").unwrap().command {
        CliCommand::Decode(ByteInput::File(f)) => assert_eq!(f, "./my data.bin"),
        other => panic!("unexpected {other:?}"),
    }
    match yay("-d 0xzz").unwrap().command {
        CliCommand::Decode(ByteInput::File(f)) => assert_eq!(f, "0xzz"),
        other => panic!("unexpected {other:?}"),
    }
}

#[test]
fn long_flags_and_levels() {
    assert_eq!(yay("--debug").unwrap().level, LogLevel::Debug);
    assert_eq!(yay("-l trace").unwrap().level, LogLevel::Trace);
    assert_eq!(yay("--level=WARN").unwrap().level, LogLevel::Warn);
    assert!(matches!(yay("-l=WARN"), Err(ParseError::UnexpectedEof { .. })));
    assert_eq!(yay("-l 1").unwrap().level, LogLevel::Error);
    assert_eq!(yay("--level 005").unwrap().level, LogLevel::Trace);
    assert!(matches!(yay("-h").unwrap().command, CliCommand::Help));
    assert!(matches!(yay("--deserialize 0x01").unwrap().command, CliCommand::Decode(_)));
}

#[test]
fn nbt_flag() {
    match yay("-n compound,   0x0a00").unwrap().command {
        CliCommand::Nbt(NbtTagType::Compound, ByteInput::Data(d)) => assert_eq!(d, vec![0x0a, 0x00]),
        other => panic!("unexpected {other:?}"),
    }
    match yay("-n list, 0x00") {
        Err(ParseError::Expected { expected: Expectation::AnyOfStr(v), found: 'l', at: (3, 7), help: Some(_) }) => {
            assert_eq!(v, vec!["compound"])
        }
        other => panic!("unexpected {other:?}"),
    }
    assert!(matches!(yay("-n compound 0x00"), Err(ParseError::Expected { found: ' ', .. })));
}

#[test]
fn parse_errors() {
    assert!(matches!(yay("x"), Err(ParseError::Expected { found: 'x', at: (0, 1), .. })));
    assert!(matches!(yay("-q"), Err(ParseError::UnknownFlag { ref flag, at: (0, 2) }) if flag == "q"));
    assert!(matches!(yay("-d"), Err(ParseError::UnexpectedEof { at: (2, 2), .. })));
    assert!(matches!(yay("-l loud"), Err(ParseError::ParseLevel { at: (3, 7) })));
    assert!(matches!(
        yay("-l ?"),
        Err(ParseError::Text { label: TextLabel::ExpectedDigit(10), last_token: Some('?'), .. })
    ));
    assert!(matches!(yay("-- x"), Err(ParseError::Text { label: TextLabel::ExpectedIdent, .. })));
}

#[test]
fn only_the_first_group_of_flags_is_read() {
    let cli = yay("-D -h").unwrap();
    assert_eq!(cli.level, LogLevel::Debug);
    assert!(matches!(cli.command, CliCommand::Help));
    let cli = yay("-hD").unwrap();
    assert_eq!(cli.level, LogLevel::Debug);
}
