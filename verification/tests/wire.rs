//! Packets and options on the wire.
use aitftp::error::Error;
use aitftp::proto::text::{decimal_string, eq_ignore_case, parse_decimal};
use aitftp::proto::{
    decode, encode_into, ErrorCode, Mode, Opcode, OptionKind, OptionSet, OptionValue, Packet,
    DEFAULT_BLOCK_SIZE, MAX_BLOCK_SIZE, MAX_PACKET_SIZE, MIN_BLOCK_SIZE,
};
use bytes::{BufMut, BytesMut};

fn put_cstr(buf: &mut BytesMut, s: &[u8]) {
    buf.put_slice(s);
    buf.put_u8(0);
}

fn encoded(packet: &Packet<'_>) -> Vec<u8> {
    let mut buf = BytesMut::new();
    encode_into(packet, &mut buf);
    buf.to_vec()
}

fn roundtrip(packet: Packet<'_>) {
    let mut buf = BytesMut::new();
    encode_into(&packet, &mut buf);
    let bytes = buf.freeze();
    let decoded = decode(&bytes).unwrap();
    assert_eq!(format!("{packet:?}"), format!("{decoded:?}"));
    assert_eq!(packet, decoded);
}

#[test]
fn rrq_minimal() {
    roundtrip(Packet::Rrq {
        filename: "boot.img".into(),
        mode: Mode::Octet,
        options: OptionSet::new(),
    });
}

#[test]
fn rrq_with_options() {
    let mut opts = OptionSet::new();
    opts.insert(OptionValue::BlockSize(1428));
    opts.insert(OptionValue::Timeout(3));
    opts.insert(OptionValue::TransferSize(0));
    opts.insert(OptionValue::WindowSize(8));
    roundtrip(Packet::Rrq {
        filename: "vmlinuz".into(),
        mode: Mode::Octet,
        options: opts,
    });
}

#[test]
fn ack_and_data() {
    roundtrip(Packet::Ack { block: 1 });
    roundtrip(Packet::Data {
        block: 7,
        data: b"hello tftp",
    });
}

#[test]
fn error_packet() {
    roundtrip(Packet::Error {
        code: ErrorCode::FileNotFound,
        msg: "not here".into(),
    });
}

#[test]
fn oack_packet() {
    let mut opts = OptionSet::new();
    opts.insert(OptionValue::BlockSize(1024));
    opts.insert(OptionValue::WindowSize(4));
    roundtrip(Packet::Oack { options: opts });
}

#[test]
fn rejects_unknown_opcode() {
    let bytes = [0x00, 0x09, 0x00, 0x00];
    assert!(matches!(decode(&bytes), Err(Error::UnknownOpcode(9))));
}

#[test]
fn rejects_missing_nul() {
    // RRQ with filename that has no terminator.
    let bytes = [0x00, 0x01, b'f', b'o', b'o'];
    assert!(matches!(decode(&bytes), Err(Error::MissingNul)));
}

#[test]
fn unknown_options_are_silently_dropped() {
    // RRQ with one known + one unknown option.
    let mut buf = BytesMut::new();
    buf.put_u16(Opcode::Rrq.to_u16());
    put_cstr(&mut buf, b"file");
    put_cstr(&mut buf, b"octet");
    put_cstr(&mut buf, b"blksize");
    put_cstr(&mut buf, b"1024");
    put_cstr(&mut buf, b"madeupopt");
    put_cstr(&mut buf, b"42");
    let pkt = decode(&buf).unwrap();
    match pkt {
        Packet::Rrq { options, .. } => {
            assert_eq!(options.len(), 1);
            assert_eq!(options.block_size(), Some(1024));
        }
        _ => panic!("expected RRQ"),
    }
}

#[test]
fn mode_is_case_insensitive() {
    let mut buf = BytesMut::new();
    buf.put_u16(Opcode::Rrq.to_u16());
    put_cstr(&mut buf, b"file");
    put_cstr(&mut buf, b"OCTET");
    let pkt = decode(&buf).unwrap();
    match pkt {
        Packet::Rrq { mode, .. } => assert_eq!(mode, Mode::Octet),
        _ => panic!("expected RRQ"),
    }
}

#[test]
fn rejects_blksize_out_of_range() {
    let mut buf = BytesMut::new();
    buf.put_u16(Opcode::Rrq.to_u16());
    put_cstr(&mut buf, b"file");
    put_cstr(&mut buf, b"octet");
    put_cstr(&mut buf, b"blksize");
    put_cstr(&mut buf, b"4");
    // Below MIN_BLOCK_SIZE: silently dropped, like an unknown option.
    let pkt = decode(&buf).unwrap();
    match pkt {
        Packet::Rrq { options, .. } => assert!(options.is_empty()),
        _ => panic!("expected RRQ"),
    }
}

#[test]
fn packets_have_their_exact_bytes() {
    assert_eq!(encoded(&Packet::Ack { block: 0x1234 }), vec![0, 4, 0x12, 0x34]);
    assert_eq!(
        encoded(&Packet::Data { block: 1, data: &[7, 8, 9] }),
        vec![0, 3, 0, 1, 7, 8, 9]
    );
    assert_eq!(
        encoded(&Packet::Error { code: ErrorCode::UnknownTid, msg: "no".into() }),
        vec![0, 5, 0, 5, b'n', b'o', 0]
    );
    let mut options = OptionSet::new();
    options.insert(OptionValue::WindowSize(10));
    assert_eq!(
        encoded(&Packet::Oack { options: options.clone() }),
        b"\0\x06windowsize\x0010\0".to_vec()
    );
    assert_eq!(
        encoded(&Packet::Wrq { filename: "f".into(), mode: Mode::NetAscii, options }),
        b"\0\x02f\0netascii\0windowsize\x0010\0".to_vec()
    );
}

#[test]
fn encoding_appends() {
    let mut buf = BytesMut::new();
    encode_into(&Packet::Ack { block: 1 }, &mut buf);
    encode_into(&Packet::Ack { block: 2 }, &mut buf);
    assert_eq!(buf.to_vec(), vec![0, 4, 0, 1, 0, 4, 0, 2]);
}

#[test]
fn malformed_packets_are_told_apart() {
    assert!(matches!(decode(&[]), Err(Error::Malformed("packet shorter than opcode"))));
    assert!(matches!(decode(&[0]), Err(Error::Malformed("packet shorter than opcode"))));
    assert!(matches!(decode(&[0, 3, 0]), Err(Error::Malformed("DATA missing block number"))));
    assert!(matches!(decode(&[0, 4, 1]), Err(Error::Malformed("ACK missing block number"))));
    assert!(matches!(decode(&[0, 5, 0, 1]), Err(Error::Malformed("ERROR too short"))));
    assert!(matches!(decode(&[0, 0, 0, 1]), Err(Error::UnknownOpcode(0))));
    assert!(matches!(decode(&[0, 1, 0xff, 0, b'o', 0]), Err(Error::InvalidUtf8)));
    match decode(b"\0\x01f\0mail\0") {
        Err(Error::InvalidMode(mode)) => assert_eq!(mode, "mail"),
        other => panic!("expected an invalid mode, got {other:?}"),
    }
    assert!(matches!(decode(b"\0\x06blksize\0"), Err(Error::MissingNul)));
}

#[test]
fn data_may_be_empty() {
    match decode(&[0, 3, 0xff, 0xff]).unwrap() {
        Packet::Data { block, data } => {
            assert_eq!(block, 65535);
            assert!(data.is_empty());
        }
        other => panic!("expected DATA, got {other:?}"),
    }
}

#[test]
fn later_values_replace_earlier_ones() {
    match decode(b"\0\x06blksize\x00512\0windowsize\x004\0BLKSIZE\x001024\0").unwrap() {
        Packet::Oack { options } => {
            assert_eq!(options.block_size(), Some(1024));
            assert_eq!(options.window_size(), Some(4));
            assert_eq!(options.len(), 2);
        }
        other => panic!("expected OACK, got {other:?}"),
    }
}

#[test]
fn text_fields_hold_any_utf8() {
    roundtrip(Packet::Error { code: ErrorCode::NotDefined, msg: "kaputt \u{1f4a5} \u{e4}".into() });
}

#[test]
fn error_codes_map_to_numbers_and_back() {
    let codes = [
        ErrorCode::NotDefined,
        ErrorCode::FileNotFound,
        ErrorCode::AccessViolation,
        ErrorCode::DiskFull,
        ErrorCode::IllegalOperation,
        ErrorCode::UnknownTid,
        ErrorCode::FileExists,
        ErrorCode::NoSuchUser,
        ErrorCode::OptionNegotiation,
    ];
    for (i, code) in codes.iter().enumerate() {
        assert_eq!(code.to_u16(), i as u16);
        assert_eq!(ErrorCode::from_u16(i as u16), *code);
    }
    assert_eq!(ErrorCode::from_u16(99), ErrorCode::NotDefined);
}

#[test]
fn opcodes_map_to_numbers_and_back() {
    for n in 1u16..=6 {
        assert_eq!(Opcode::from_u16(n).unwrap().to_u16(), n);
    }
    assert!(matches!(Opcode::from_u16(7), Err(Error::UnknownOpcode(7))));
}

#[test]
fn option_values_are_parsed_and_checked() {
    assert_eq!(OptionValue::parse("blksize", "8").unwrap(), OptionValue::BlockSize(MIN_BLOCK_SIZE));
    assert_eq!(
        OptionValue::parse("BlkSize", "65464").unwrap(),
        OptionValue::BlockSize(MAX_BLOCK_SIZE)
    );
    assert_eq!(OptionValue::parse("timeout", "255").unwrap(), OptionValue::Timeout(255));
    assert_eq!(
        OptionValue::parse("tsize", "18446744073709551615").unwrap(),
        OptionValue::TransferSize(u64::MAX)
    );
    assert_eq!(OptionValue::parse("windowsize", "1").unwrap(), OptionValue::WindowSize(1));
    for (name, value) in [
        ("blksize", "7"),
        ("blksize", "65465"),
        ("blksize", "x"),
        ("blksize", ""),
        ("timeout", "0"),
        ("timeout", "256"),
        ("tsize", "-1"),
        ("windowsize", "0"),
        ("windowsize", "65536"),
        ("multicast", "1"),
    ] {
        match OptionValue::parse(name, value) {
            Err(Error::InvalidOption { name: n, value: v }) => {
                assert_eq!(n, name);
                assert_eq!(v, value);
            }
            other => panic!("expected an invalid option, got {other:?}"),
        }
    }
}

#[test]
fn option_values_have_their_texts() {
    let value = OptionValue::TransferSize(1200003);
    assert_eq!(value.name(), "tsize");
    assert_eq!(value.value_string(), "1200003");
    assert_eq!(OptionValue::BlockSize(0).value_string(), "0");
    assert_eq!(value.get_kind(), OptionKind::TransferSize);
    assert_eq!(OptionKind::from_name("WindowSize"), Some(OptionKind::WindowSize));
    assert_eq!(OptionKind::from_name("window"), None);
}

#[test]
fn option_sets_keep_order_and_replace() {
    let mut set = OptionSet::new();
    set.insert(OptionValue::WindowSize(4));
    set.insert(OptionValue::BlockSize(DEFAULT_BLOCK_SIZE));
    set.insert(OptionValue::WindowSize(9));
    assert_eq!(set.iter(), [OptionValue::WindowSize(9), OptionValue::BlockSize(512)]);
    assert_eq!(set.timeout(), None);
    assert_eq!(set.transfer_size(), None);
    assert_eq!(set.clone(), set);
    assert!(OptionSet::default().is_empty());
    let pairs = vec![
        ("tsize".to_string(), "0".to_string()),
        ("nothing".to_string(), "1".to_string()),
    ];
    assert_eq!(OptionSet::from_pairs(&pairs).iter(), [OptionValue::TransferSize(0)]);
}

#[test]
fn modes_have_wire_names() {
    assert_eq!(Mode::NetAscii.as_wire(), "netascii");
    assert_eq!(Mode::Octet.as_wire(), "octet");
    assert_eq!(Mode::parse("NetAscii").unwrap(), Mode::NetAscii);
    assert_eq!("octet".parse::<Mode>().unwrap(), Mode::Octet);
    assert!(matches!(Mode::parse("mail"), Err(Error::InvalidMode(_))));
}

#[test]
fn numbers_round_trip_as_text() {
    for n in [0, 9, 10, 512, 65464, u64::MAX] {
        assert_eq!(parse_decimal(&decimal_string(n), u64::MAX), Some(n));
    }
    assert_eq!(parse_decimal("+7", 10), Some(7));
    assert_eq!(parse_decimal("007", 10), Some(7));
    assert_eq!(parse_decimal("11", 10), None);
    assert_eq!(parse_decimal("+", 10), None);
    assert_eq!(parse_decimal("18446744073709551616", u64::MAX), None);
    assert!(eq_ignore_case("BlkSize", "blksize"));
    assert!(!eq_ignore_case("blksize", "blksizes"));
}

#[test]
fn largest_packet_holds_a_full_block() {
    let data = vec![0u8; MAX_BLOCK_SIZE as usize];
    let wire = encoded(&Packet::Data { block: 1, data: &data });
    assert_eq!(wire.len(), MAX_PACKET_SIZE);
}
