use as_proxy::utils::bytes::Cursor;
use as_proxy::utils::parser::{
    AerospikeField, AerospikeFieldType, AerospikeKey, AerospikeMessage, AerospikeOperation,
    AerospikePacket, AerospikePacketBody, Failure, Fatal, ParseError,
};

fn field(code: u8, data: &[u8]) -> Vec<u8> {
    let mut out = (data.len() as u32 + 1).to_be_bytes().to_vec();
    out.push(code);
    out.extend_from_slice(data);
    out
}

fn operation(op: u8, name: &str, data: &[u8]) -> Vec<u8> {
    let mut out = (4 + name.len() as u32 + data.len() as u32).to_be_bytes().to_vec();
    out.extend_from_slice(&[op, 3, 0, name.len() as u8]);
    out.extend_from_slice(name.as_bytes());
    out.extend_from_slice(data);
    out
}

fn message(fields: &[Vec<u8>], operations: &[Vec<u8>]) -> Vec<u8> {
    let mut out = vec![0x16, 1, 2, 3, 4, 5];
    out.extend_from_slice(&0x01020304u32.to_be_bytes());
    out.extend_from_slice(&0x0a0b0c0du32.to_be_bytes());
    out.extend_from_slice(&0x11223344u32.to_be_bytes());
    out.extend_from_slice(&(fields.len() as u16).to_be_bytes());
    out.extend_from_slice(&(operations.len() as u16).to_be_bytes());
    for f in fields {
        out.extend_from_slice(f);
    }
    for o in operations {
        out.extend_from_slice(o);
    }
    out
}

fn packet(kind: u8, body: &[u8]) -> Vec<u8> {
    let mut out = vec![2, kind];
    out.extend_from_slice(&(body.len() as u64).to_be_bytes()[2..]);
    out.extend_from_slice(body);
    out
}

#[test]
fn a_message_is_read_field_by_field() {
    let body = message(&[field(0, b"test"), field(4, &[9, 8, 7])], &[operation(2, "bin", &[1, 2])]);
    let m = AerospikeMessage::from_bytes(&body).unwrap();
    assert_eq!((m.header_sz, m.info1, m.info2, m.info3, m.info4), (0x16, 1, 2, 3, 4));
    assert_eq!(m.result_code, 5);
    assert_eq!(m.generation, 0x01020304);
    assert_eq!(m.record_ttl, 0x0a0b0c0d);
    assert_eq!(m.transaction_ttl, 0x11223344);
    assert_eq!((m.n_fields, m.n_ops), (2, 1));
    assert_eq!(m.fields[0].field_type, AerospikeFieldType::Namespace);
    assert_eq!(m.fields[0].size, 5);
    assert_eq!(m.fields[0].data, b"test");
    assert_eq!(m.fields[1].field_type, AerospikeFieldType::DigestRipe);
    assert_eq!(m.fields[1].data, vec![9, 8, 7]);
    let o = &m.operations[0];
    assert_eq!((o.op_sz, o.op, o.particle_type, o.bin_version, o.bin_name_length), (9, 2, 3, 0, 3));
    assert_eq!(o.bin_name, "bin");
    assert_eq!(o.data, vec![1, 2]);
}

#[test]
fn an_empty_body_has_no_header_size() {
    assert!(matches!(
        AerospikeMessage::from_bytes(&[]),
        Err(ParseError::HeaderSizeNotPresent)
    ));
}

#[test]
fn a_body_shorter_than_its_header_size_mismatches() {
    assert!(matches!(
        AerospikeMessage::from_bytes(&[3, 0]),
        Err(ParseError::MessageSizeMismatch)
    ));
}

#[test]
fn a_header_that_breaks_off_is_a_field_error() {
    let whole = message(&[], &[]);
    for n in 1..whole.len() {
        let mut part = whole[..n].to_vec();
        part[0] = 1;
        assert!(matches!(
            AerospikeMessage::from_bytes(&part),
            Err(ParseError::ErrorWhileParsingField(_))
        ));
    }
}

#[test]
fn a_read_past_the_end_reports_the_end_of_the_input() {
    let part = message(&[field(0, b"test")], &[]);
    match AerospikeMessage::from_bytes(&part[..part.len() - 1]) {
        Err(ParseError::ErrorWhileParsingField(e)) => {
            assert_eq!(e.kind(), std::io::ErrorKind::UnexpectedEof)
        }
        other => panic!("{:?}", other),
    }
}

#[test]
fn an_unknown_field_type_is_unsupported() {
    assert!(matches!(
        AerospikeMessage::from_bytes(&message(&[field(8, b"x")], &[])),
        Err(ParseError::UnsupportedMessageType)
    ));
    // the type is looked at before the size
    let mut body = message(&[vec![0, 0, 0, 0, 8]], &[]);
    body[19] = 1;
    assert!(matches!(
        AerospikeMessage::from_bytes(&body),
        Err(ParseError::UnsupportedMessageType)
    ));
}

#[test]
fn a_field_without_room_for_its_type_is_fatal() {
    let body = message(&[vec![0, 0, 0, 0, 1]], &[]);
    assert!(matches!(
        AerospikeMessage::read(&body),
        Err(Failure::Fatal(Fatal::EmptyField))
    ));
}

#[test]
fn an_operation_without_room_for_its_name_is_fatal() {
    let body = message(&[], &[vec![0, 0, 0, 5, 1, 1, 0, 2, b'a', b'b']]);
    assert!(matches!(
        AerospikeMessage::read(&body),
        Err(Failure::Fatal(Fatal::ShortOperation))
    ));
}

#[test]
fn an_operation_whose_data_breaks_off_is_a_field_error() {
    let body = message(&[], &[vec![0, 0, 0, 9, 1, 1, 0, 2, b'a', b'b', 1]]);
    assert!(matches!(
        AerospikeMessage::from_bytes(&body),
        Err(ParseError::ErrorWhileParsingField(_))
    ));
}

#[test]
fn a_bin_name_must_be_text() {
    let body = message(&[], &[vec![0, 0, 0, 5, 1, 1, 0, 1, 0xff]]);
    assert!(matches!(
        AerospikeMessage::from_bytes(&body),
        Err(ParseError::ErrorWhileParsingMessage(_))
    ));
}

#[test]
fn bytes_behind_a_message_are_fatal() {
    let mut body = message(&[], &[]);
    body.push(0);
    assert!(matches!(
        AerospikeMessage::read(&body),
        Err(Failure::Fatal(Fatal::TrailingBytes))
    ));
}

#[test]
fn a_packet_needs_eight_bytes() {
    assert!(matches!(
        AerospikePacket::from_bytes(&[2, 3, 0, 0, 0, 0, 0]),
        Err(ParseError::PacketTooShort)
    ));
}

#[test]
fn other_packet_types_are_unsupported() {
    for kind in [0u8, 2, 4, 255] {
        assert!(matches!(
            AerospikePacket::from_bytes(&packet(kind, b"")),
            Err(ParseError::UnsupportedMessageType)
        ));
    }
    assert!(matches!(
        AerospikePacketBody::from_bytes(4, 0, b""),
        Err(ParseError::UnsupportedMessageType)
    ));
}

#[test]
fn the_size_of_a_packet_is_six_bytes_and_not_checked() {
    let mut bytes = vec![2, 3, 1, 2, 3, 4, 5, 6];
    bytes.extend_from_slice(&message(&[], &[]));
    let p = AerospikePacket::from_bytes(&bytes).unwrap();
    assert_eq!(p.version, 2);
    assert_eq!(p.message_type, 3);
    assert_eq!(p.size, 0x010203040506);
    assert_eq!(p.to_bytes(), bytes);
}

#[test]
fn an_info_packet_is_a_table() {
    let p = AerospikePacket::from_bytes(&packet(
        1,
        b"node\tBB9\nfeatures\t\r\nversion\t1\t2\r\nbuild\nversion\t7\r",
    ))
    .unwrap();
    match p.body {
        AerospikePacketBody::Info(info) => {
            assert_eq!(info.get("node"), Some(&Some("BB9".to_string())));
            assert_eq!(info.get("features"), Some(&None));
            // the last line has no line feed, so its carriage return stays
            assert_eq!(info.get("version"), Some(&Some("7\r".to_string())));
            assert_eq!(info.get("build"), None);
            assert_eq!(info.entries.len(), 3);
        }
        _ => panic!("not an info packet"),
    }
}

#[test]
fn an_info_table_splits_at_the_first_tab() {
    match AerospikePacketBody::from_bytes(1, 0, "k\u{e9}\ta\tb\n\tempty\n\n".as_bytes()).unwrap() {
        AerospikePacketBody::Info(info) => {
            assert_eq!(info.get("k\u{e9}"), Some(&Some("a\tb".to_string())));
            assert_eq!(info.get(""), Some(&Some("empty".to_string())));
            assert_eq!(info.entries.len(), 2);
        }
        _ => panic!("not an info packet"),
    }
}

#[test]
fn an_info_packet_must_be_text() {
    assert!(matches!(
        AerospikePacket::from_bytes(&packet(1, &[b'a', 0xc0, 0x80])),
        Err(ParseError::ErrorWhileParsingMessage(_))
    ));
}

#[test]
fn field_types_have_the_bytes_of_the_protocol() {
    let known: [(u8, AerospikeFieldType); 27] = [
        (0, AerospikeFieldType::Namespace),
        (1, AerospikeFieldType::SetName),
        (2, AerospikeFieldType::Key),
        (3, AerospikeFieldType::RecordVersion),
        (4, AerospikeFieldType::DigestRipe),
        (5, AerospikeFieldType::MrtId),
        (6, AerospikeFieldType::MrtDeadline),
        (7, AerospikeFieldType::TRID),
        (9, AerospikeFieldType::SocketTimeout),
        (10, AerospikeFieldType::RecsPerSec),
        (11, AerospikeFieldType::PidArray),
        (12, AerospikeFieldType::DigestArray),
        (13, AerospikeFieldType::SampleMax),
        (14, AerospikeFieldType::LUT),
        (15, AerospikeFieldType::BvalArray),
        (21, AerospikeFieldType::IndexName),
        (22, AerospikeFieldType::IndexRange),
        (23, AerospikeFieldType::IndexContext),
        (26, AerospikeFieldType::IndexType),
        (30, AerospikeFieldType::UdfFilename),
        (31, AerospikeFieldType::UdfFunction),
        (32, AerospikeFieldType::UdfArglist),
        (33, AerospikeFieldType::UdfOp),
        (40, AerospikeFieldType::QueryBinlist),
        (41, AerospikeFieldType::Batch),
        (42, AerospikeFieldType::BatchWithSet),
        (43, AerospikeFieldType::PredExp),
    ];
    for code in 0..=255u8 {
        let expected = known.iter().find(|(c, _)| *c == code).map(|(_, t)| *t);
        assert_eq!(AerospikeFieldType::try_from(code).ok(), expected);
    }
}

#[test]
fn io_errors_become_field_errors() {
    let e = ParseError::from(std::io::Error::from(std::io::ErrorKind::UnexpectedEof));
    assert!(matches!(e, ParseError::ErrorWhileParsingField(_)));
}

#[test]
fn a_new_operation_counts_its_bytes() {
    let o = AerospikeOperation::new(2, 1, 0, "k\u{e9}y", vec![1, 2, 3]);
    assert_eq!(o.op_sz, 11);
    assert_eq!(o.bin_name_length, 4);
    assert_eq!((o.op, o.particle_type, o.bin_version), (2, 1, 0));
    assert_eq!(o.bin_name, "k\u{e9}y");
    let long = AerospikeOperation::new(2, 1, 0, &"x".repeat(300), vec![]);
    assert_eq!(long.bin_name_length, 44);
    assert_eq!(long.op_sz, 304);
}

#[test]
fn a_cloned_operation_is_the_same() {
    let o = AerospikeOperation::new(2, 1, 7, "bin", vec![1, 2, 3]);
    let c = o.clone();
    assert_eq!(format!("{:?}", o), format!("{:?}", c));
}

#[test]
fn a_new_packet_reads_back() {
    let operations = vec![
        AerospikeOperation::new(1, 3, 0, "a", b"one".to_vec()),
        AerospikeOperation::new(1, 3, 0, "bc", vec![]),
    ];
    let m = AerospikeMessage::new(1, 2, 3, 4, 5, 6, 7, 8, vec![], operations);
    assert_eq!(m.get_raw_byte_size(), 22 + 12 + 10);
    let p = AerospikePacket::new(AerospikePacketBody::Message(m));
    assert_eq!(p.size, 44);
    let bytes = p.to_bytes();
    assert_eq!(bytes.len(), 8 + 44);
    assert_eq!(&bytes[..8], &[2, 3, 0, 0, 0, 0, 0, 44]);
    let back = AerospikePacket::from_bytes(&bytes).unwrap();
    match &back.body {
        AerospikePacketBody::Message(m) => {
            assert_eq!((m.info1, m.info2, m.info3, m.info4), (1, 2, 3, 4));
            assert_eq!((m.result_code, m.generation), (5, 6));
            assert_eq!((m.record_ttl, m.transaction_ttl), (7, 8));
            assert_eq!((m.header_sz, m.n_fields, m.n_ops), (0x16, 0, 2));
            assert_eq!(m.operations[0].bin_name, "a");
            assert_eq!(m.operations[0].data, b"one");
            assert_eq!(m.operations[1].bin_name, "bc");
        }
        _ => panic!("not a message"),
    }
    assert_eq!(back.to_bytes(), bytes);
}

#[test]
fn a_message_without_fields_is_rewritten_byte_for_byte() {
    let body = message(&[], &[operation(2, "bin", &[1, 2]), operation(1, "", b"")]);
    let m = AerospikeMessage::from_bytes(&body).unwrap();
    assert_eq!(m.get_raw_byte_size(), body.len());
    assert_eq!(m.to_bytes(), body);
}

#[test]
fn a_body_is_written_as_its_message() {
    let body = message(&[], &[operation(2, "bin", &[1, 2])]);
    let b = AerospikePacketBody::from_bytes(3, body.len(), &body).unwrap();
    assert_eq!(b.to_bytes(), body);
}

#[test]
fn the_acknowledgement_of_a_write_is_an_empty_message() {
    let bytes = AerospikeMessage::get_successful_write_packet(0x01020304, 0x05060708);
    assert_eq!(
        bytes,
        vec![
            2, 3, 0, 0, 0, 0, 0, 0x16, 0x16, 0, 0, 0, 0, 0, 0, 0, 0, 0, 1, 2, 3, 4, 5, 6, 7, 8, 0,
            0, 0, 0
        ]
    );
    let m = AerospikeMessage::new(0, 0, 0, 0, 0, 0, 0x01020304, 0x05060708, vec![], vec![]);
    assert_eq!(bytes, AerospikePacket::new(AerospikePacketBody::Message(m)).to_bytes());
}

#[test]
fn flags_are_single_bits() {
    let with = |info1: u8, info2: u8| {
        AerospikeMessage::new(info1, info2, 0, 0, 0, 0, 0, 0, vec![], vec![])
    };
    assert!(with(1, 0).is_read_op());
    assert!(!with(0xfe, 0xff).is_read_op());
    assert!(with(2, 0).get_all_bins());
    assert!(!with(0xfd, 0xff).get_all_bins());
    assert!(with(8, 0).is_batch_query());
    assert!(!with(0xf7, 0xff).is_batch_query());
    assert!(with(0, 1).is_write_op());
    assert!(!with(0xff, 0xfe).is_write_op());
    assert!(with(0, 2).is_delete());
    assert!(!with(0, 1).is_delete());
    assert!(!with(0xff, 0xfd).is_delete());
    assert!(with(0, 32).is_create_ony());
    assert!(!with(0xff, 0xdf).is_create_ony());
}

fn parsed_fields(fields: &[Vec<u8>]) -> Vec<AerospikeField> {
    AerospikeMessage::from_bytes(&message(fields, &[])).unwrap().fields
}

#[test]
fn a_key_comes_from_three_fields() {
    let key = AerospikeKey::parse(parsed_fields(&[
        field(0, b"ns"),
        field(1, b"users"),
        field(4, &[1, 2, 3]),
    ]))
    .unwrap();
    assert_eq!(key.namespace, "ns");
    assert_eq!(key.set, "users");
    assert_eq!(key.digest, vec![1, 2, 3]);
    // the order of the fields does not matter
    let turned = AerospikeKey::parse(parsed_fields(&[
        field(4, &[1, 2, 3]),
        field(1, b"users"),
        field(0, b"ns"),
    ]));
    assert_eq!(turned, Some(key));
}

#[test]
fn keys_differ_in_namespace_set_or_digest() {
    let key = |ns: &[u8], set: &[u8], digest: &[u8]| {
        AerospikeKey::parse(parsed_fields(&[field(0, ns), field(1, set), field(4, digest)])).unwrap()
    };
    assert_eq!(key(b"a", b"b", b"c"), key(b"a", b"b", b"c"));
    assert_ne!(key(b"a", b"b", b"c"), key(b"x", b"b", b"c"));
    assert_ne!(key(b"a", b"b", b"c"), key(b"a", b"x", b"c"));
    assert_ne!(key(b"a", b"b", b"c"), key(b"a", b"b", b"x"));
    // a digest need not be text
    assert_eq!(key(b"a", b"b", &[0xff]).digest, vec![0xff]);
}

#[test]
fn fields_that_name_no_key() {
    let ns = || field(0, b"ns");
    let set = || field(1, b"users");
    let digest = || field(4, &[1, 2, 3]);
    assert!(AerospikeKey::parse(parsed_fields(&[ns(), set(), digest()])).is_some());
    assert!(AerospikeKey::parse(vec![]).is_none());
    assert!(AerospikeKey::parse(parsed_fields(&[ns(), set()])).is_none());
    assert!(AerospikeKey::parse(parsed_fields(&[ns(), set(), digest(), ns()])).is_none());
    assert!(AerospikeKey::parse(parsed_fields(&[ns(), set(), field(2, b"k")])).is_none());
    assert!(AerospikeKey::parse(parsed_fields(&[ns(), ns(), digest()])).is_none());
    assert!(AerospikeKey::parse(parsed_fields(&[set(), set(), digest()])).is_none());
    assert!(AerospikeKey::parse(parsed_fields(&[field(0, &[0xff]), set(), digest()])).is_none());
    assert!(AerospikeKey::parse(parsed_fields(&[ns(), field(1, &[0xff]), digest()])).is_none());
}

#[test]
fn an_operation_reads_back_as_it_was_made() {
    let o = AerospikeOperation::new(2, 3, 1, "k\u{e9}y", vec![7, 8, 9]);
    let mut bytes = o.clone().to_bytes();
    assert_eq!(bytes, [&[0, 0, 0, 11, 2, 3, 1, 4][..], "k\u{e9}y".as_bytes(), &[7, 8, 9]].concat());
    bytes.extend_from_slice(&[42, 43]);
    let mut cursor = Cursor::new(&bytes);
    let back = AerospikeOperation::parse_one(&mut cursor).unwrap();
    assert_eq!(format!("{:?}", back), format!("{:?}", o));
    assert_eq!(cursor.rest, &[42, 43]);
}

#[test]
fn a_message_that_breaks_off_is_not_read() {
    let whole = message(&[field(0, b"test"), field(4, &[9])], &[operation(2, "bin", &[1, 2])]);
    assert!(AerospikeMessage::read(&whole).is_ok());
    for k in 0..whole.len() {
        match AerospikeMessage::read(&whole[..k]) {
            Err(Failure::Rejected(ParseError::HeaderSizeNotPresent)) => assert_eq!(k, 0),
            Err(Failure::Rejected(ParseError::MessageSizeMismatch)) => assert!(0 < k && k < 22),
            Err(Failure::Rejected(ParseError::ErrorWhileParsingField(_))) => assert!(k >= 22),
            other => panic!("{:?}", other),
        }
    }
}

#[test]
fn later_info_lines_override_earlier_ones() {
    let first = "a\t1\nb\t2\r\n";
    let second = "b\t3\nc\t\n";
    match AerospikePacketBody::from_bytes(1, 0, [first, second].concat().as_bytes()).unwrap() {
        AerospikePacketBody::Info(info) => {
            assert_eq!(info.get("a"), Some(&Some("1".to_string())));
            assert_eq!(info.get("b"), Some(&Some("3".to_string())));
            assert_eq!(info.get("c"), Some(&None));
            assert_eq!(info.entries.len(), 3);
        }
        _ => panic!("not an info packet"),
    }
}

#[test]
fn a_packet_states_its_length_also_with_a_long_name() {
    let o = AerospikeOperation::new(2, 1, 0, &"x".repeat(300), vec![1, 2]);
    let m = AerospikeMessage::new(0, 0, 0, 0, 0, 0, 0, 0, vec![], vec![o]);
    assert_eq!(m.get_raw_byte_size(), 22 + 8 + 300 + 2);
    let bytes = AerospikePacket::new(AerospikePacketBody::Message(m)).to_bytes();
    assert_eq!(bytes.len(), 8 + 332);
    assert_eq!(&bytes[2..8], &[0, 0, 0, 0, 1, 0x4c]);
}

#[test]
fn the_order_of_fields_does_not_change_the_key() {
    let fields = [field(0, b"ns"), field(1, b"users"), field(4, &[1, 2, 3])];
    let key = AerospikeKey::parse(parsed_fields(&fields));
    assert!(key.is_some());
    for [a, b, c] in [[0, 2, 1], [1, 0, 2], [1, 2, 0], [2, 0, 1], [2, 1, 0]] {
        let turned = [fields[a].clone(), fields[b].clone(), fields[c].clone()];
        assert_eq!(AerospikeKey::parse(parsed_fields(&turned)), key);
    }
}
