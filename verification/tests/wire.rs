//! Transport, messages, descriptors and field masks.
use serde_json::Value as Json;
use zzzcap::kcp::{
    Direction, Kcp, KcpError, KcpStats, MessageHeader, SegmentHeader, CMD_ACK, CMD_PUSH, CMD_WASK,
};
use zzzcap::proto::{
    collect_packed_uints, read_varint, write_tag, write_varint, Field, Message, ProtoError, Value,
    MAX_FIELD_NUMBER, WT_VARINT,
};
use zzzcap::protonap::{ProtoEntry, ProtoEntryField, Protonap};
use zzzcap::xor_fields::xor_proto_fields;

const CONV: u32 = 0x1234_5678;

fn segment(frg: u8, sn: u32, payload: &[u8]) -> Vec<u8> {
    segment_with(CMD_PUSH, frg, sn, payload)
}

fn segment_with(cmd: u8, frg: u8, sn: u32, payload: &[u8]) -> Vec<u8> {
    let header = SegmentHeader {
        conv: CONV,
        token: 0,
        cmd,
        frg,
        wnd: 128,
        ts: 0,
        sn,
        una: 0,
        len: payload.len() as u32,
    };
    let mut out = header.encode().to_vec();
    out.extend_from_slice(payload);
    out
}

#[test]
fn headers_round_trip_with_the_expected_endianness() {
    let header = SegmentHeader {
        conv: 0x1122_3344,
        token: 0x5566_7788,
        cmd: CMD_PUSH,
        frg: 2,
        wnd: 0x99AA,
        ts: 0xBBCC_DDEE,
        sn: 0x0102_0304,
        una: 0x0506_0708,
        len: 0x090A_0B0C,
    };
    let bytes = header.encode();
    // conv is little-endian on the wire.
    assert_eq!(&bytes[0..4], &[0x44, 0x33, 0x22, 0x11]);
    assert_eq!(SegmentHeader::decode(&bytes).unwrap(), header);
    assert!(matches!(
        SegmentHeader::decode(&bytes[..27]),
        Err(KcpError::ShortSegment(27))
    ));

    let message = MessageHeader {
        magic: [0x4D, 0x54, 0x50, 0x00],
        command_id: 1175,
        head_length: 0,
        body_length: 0x0000_1234,
    };
    let bytes = message.encode();
    // command id is big-endian here.
    assert_eq!(&bytes[4..6], &[0x04, 0x97]);
    assert_eq!(MessageHeader::decode(&bytes).unwrap(), message);
    assert!(matches!(
        MessageHeader::decode(&bytes[..11]),
        Err(KcpError::ShortMessageHeader(11))
    ));
}

#[test]
fn reassembles_a_single_segment_message() {
    let mut kcp = Kcp::new();
    let messages = kcp.receive(&segment(0, 0, b"hello"), Direction::Outgoing, 1000);
    assert_eq!(messages, vec![b"hello".to_vec()]);
    assert_eq!(kcp.stats(), &KcpStats::default());
}

#[test]
fn reassembles_a_two_fragment_message_in_arrival_order() {
    let mut kcp = Kcp::new();
    // First fragment carries the higher frg, exactly as the game sends it.
    assert!(kcp
        .receive(&segment(1, 0, b"part-"), Direction::Outgoing, 1000)
        .is_empty());
    let messages = kcp.receive(&segment(0, 1, b"two"), Direction::Outgoing, 1000);
    assert_eq!(messages, vec![b"part-two".to_vec()]);
}

#[test]
fn holds_out_of_order_segments_until_the_gap_is_filled() {
    let mut kcp = Kcp::new();
    assert_eq!(
        kcp.receive(&segment(0, 0, b"a"), Direction::Outgoing, 1000),
        vec![b"a".to_vec()]
    );
    // sn=2 arrives before sn=1: buffered, nothing emitted yet.
    assert!(kcp
        .receive(&segment(0, 2, b"c"), Direction::Outgoing, 1000)
        .is_empty());
    // sn=1 closes the gap; both are released in order.
    let messages = kcp.receive(&segment(0, 1, b"b"), Direction::Outgoing, 1000);
    assert_eq!(messages, vec![b"b".to_vec(), b"c".to_vec()]);
    assert_eq!(kcp.stats(), &KcpStats::default());
}

#[test]
fn skips_a_gap_that_never_fills() {
    let mut kcp = Kcp::new();
    assert_eq!(
        kcp.receive(&segment(0, 0, b"a"), Direction::Outgoing, 1000),
        vec![b"a".to_vec()]
    );
    // One second later sn=1 is still missing; not yet given up on.
    assert!(kcp
        .receive(&segment(0, 2, b"c"), Direction::Outgoing, 1001)
        .is_empty());
    // Four seconds in, the gap is abandoned and the stream jumps to sn=2.
    let messages = kcp.receive(&segment(0, 3, b"d"), Direction::Outgoing, 1004);
    assert_eq!(messages, vec![b"c".to_vec(), b"d".to_vec()]);
    assert_eq!(kcp.stats().gaps_skipped, 1);
    assert_eq!(kcp.stats().backlog_overflows, 0);
}

#[test]
fn drops_segments_older_than_the_next_expected_one() {
    let mut kcp = Kcp::new();
    assert_eq!(
        kcp.receive(&segment(0, 5, b"six"), Direction::Outgoing, 1000),
        vec![b"six".to_vec()]
    );
    // sn=5 was promoted, so rcv_nxt is 6 and anything lower is a duplicate.
    assert!(kcp
        .receive(&segment(0, 2, b"three"), Direction::Outgoing, 1000)
        .is_empty());
}

#[test]
fn a_new_conv_resets_both_directions_independently() {
    let mut kcp = Kcp::new();
    assert_eq!(
        kcp.receive(&segment(0, 10, b"old"), Direction::Outgoing, 1000),
        vec![b"old".to_vec()]
    );

    // Same sn on a different conv would be dropped without the reset.
    let mut new_conv = segment(0, 10, b"new");
    new_conv[0..4].copy_from_slice(&0x8765_4321u32.to_le_bytes());
    assert_eq!(
        kcp.receive(&new_conv, Direction::Outgoing, 1001),
        vec![b"new".to_vec()]
    );
    assert_eq!(kcp.stats().conv_resets, 1);

    // The incoming stream is untouched and still tracks its own conv.
    assert_eq!(
        kcp.receive(&segment(0, 0, b"in"), Direction::Incoming, 1001),
        vec![b"in".to_vec()]
    );
    assert_eq!(kcp.stats().conv_resets, 1);
}

#[test]
fn non_push_commands_carry_no_payload() {
    let mut kcp = Kcp::new();
    assert!(kcp
        .receive(
            &segment_with(CMD_ACK, 0, 0, b"ignored"),
            Direction::Outgoing,
            1000
        )
        .is_empty());
    // An ACK with a len of 0 still advances the cursor correctly.
    assert_eq!(
        kcp.receive(
            &segment_with(CMD_WASK, 0, 1, b""),
            Direction::Outgoing,
            1000
        )
        .len(),
        0
    );
    assert_eq!(
        kcp.receive(&segment(0, 0, b"real"), Direction::Outgoing, 1000),
        vec![b"real".to_vec()]
    );
}

#[test]
fn multiple_segments_in_one_datagram_are_all_read() {
    let mut kcp = Kcp::new();
    let mut datagram = segment(0, 0, b"one");
    datagram.extend_from_slice(&segment(0, 1, b"two"));
    assert_eq!(
        kcp.receive(&datagram, Direction::Outgoing, 1000),
        vec![b"one".to_vec(), b"two".to_vec()]
    );
}

#[test]
fn a_truncated_trailing_segment_is_ignored() {
    let mut kcp = Kcp::new();
    let mut datagram = segment(0, 0, b"complete");
    datagram.extend_from_slice(&segment(0, 1, b"truncated")[..10]);
    let messages = kcp.receive(&datagram, Direction::Outgoing, 1000);
    assert_eq!(messages, vec![b"complete".to_vec()]);

    // Declared length longer than the datagram: stop without emitting.
    let mut short = segment(0, 0, b"abcdef");
    short[24..28].copy_from_slice(&100u32.to_le_bytes());
    assert!(Kcp::new()
        .receive(&short, Direction::Outgoing, 1000)
        .is_empty());
}

#[test]
fn the_backlog_cap_forces_the_stream_forward() {
    let mut kcp = Kcp::new();
    assert_eq!(
        kcp.receive(&segment(0, 0, b"first"), Direction::Outgoing, 1000),
        vec![b"first".to_vec()]
    );
    // sn=1 is missing forever; buffer sn=2..=514, one over the 512 cap.
    let mut emitted = 0;
    for sn in 2..=514u32 {
        emitted += kcp
            .receive(&segment(0, sn, b"x"), Direction::Outgoing, 1000)
            .len();
    }
    assert_eq!(kcp.stats().backlog_overflows, 1);
    // Everything buffered was contiguous, so it all drains at once.
    assert_eq!(emitted, 513);
}

#[test]
fn empty_input_is_a_valid_empty_message() {
    let msg = Message::decode(&[]).unwrap();
    assert!(msg.is_empty());
    assert!(msg.encode().is_empty());
}

#[test]
fn round_trips_every_wire_type() {
    let msg = Message {
        fields: vec![
            Field::new(1, Value::Varint(300)),
            Field::new(2, Value::Fixed64(0x0102_0304_0506_0708)),
            Field::new(3, Value::LengthDelimited(b"hello".to_vec())),
            Field::new(4, Value::Fixed32(0xDEAD_BEEF)),
            Field::new(5, Value::Group(vec![Field::new(1, Value::Varint(7))])),
        ],
    };
    let encoded = msg.encode();
    assert_eq!(Message::decode(&encoded).unwrap(), msg);
    assert_eq!(Message::decode(&encoded).unwrap().encode(), encoded);
}

#[test]
fn preserves_field_order_and_repeats() {
    let msg = Message {
        fields: vec![
            Field::new(9, Value::Varint(1)),
            Field::new(3, Value::Varint(2)),
            Field::new(9, Value::Varint(3)),
        ],
    };
    let decoded = Message::decode(&msg.encode()).unwrap();
    assert_eq!(decoded, msg);
    assert_eq!(decoded.get(9).len(), 2);
    assert_eq!(decoded.varint(9), Some(1));
}

#[test]
fn encoding_is_minimal_like_protobuf() {
    let mut long_form = vec![1 << 3]; // tag for field 1, varint
    long_form.extend_from_slice(&[0x81, 0x80, 0x80, 0x00]); // 1 encoded in 4 bytes
    let msg = Message::decode(&long_form).unwrap();
    assert_eq!(msg.varint(1), Some(1));
    // Re-encoding canonicalises it, exactly as protobuf would.
    assert_eq!(msg.encode(), vec![1 << 3, 0x01]);
}

#[test]
fn rejects_what_protobuf_rejects() {
    assert_eq!(Message::decode(&[0x08]), Err(ProtoError::Truncated));
    assert_eq!(
        Message::decode(&[0x00, 0x01]),
        Err(ProtoError::InvalidFieldNumber(0))
    );
    // Wire types 6 and 7 do not exist.
    assert_eq!(
        Message::decode(&[0x0E]),
        Err(ProtoError::InvalidWireType(6))
    );
    // varint with all continuation bits set for 10 bytes then more.
    let bad_varint = [
        0x08, 0xFF, 0xFF, 0xFF, 0xFF, 0xFF, 0xFF, 0xFF, 0xFF, 0xFF, 0xFF, 0x01,
    ];
    assert_eq!(
        Message::decode(&bad_varint),
        Err(ProtoError::MalformedVarint)
    );
    // Length prefix longer than what is left.
    assert!(matches!(
        Message::decode(&[0x12, 0x05, 0x01]),
        Err(ProtoError::LengthOverflow { .. })
    ));
    // End-group without a start, and an unterminated group.
    assert_eq!(
        Message::decode(&[0x0C]),
        Err(ProtoError::UnexpectedEndGroup(1))
    );
    assert_eq!(Message::decode(&[0x0B]), Err(ProtoError::Truncated));
}

#[test]
fn a_field_number_above_the_limit_is_rejected() {
    let mut buf = Vec::new();
    write_tag(&mut buf, MAX_FIELD_NUMBER, WT_VARINT);
    write_varint(&mut buf, 1);
    assert!(Message::decode(&buf).is_ok());

    let mut buf = Vec::new();
    write_varint(&mut buf, u64::from(MAX_FIELD_NUMBER + 1) << 3);
    assert_eq!(
        Message::decode(&buf),
        Err(ProtoError::InvalidFieldNumber(MAX_FIELD_NUMBER + 1))
    );
}

#[test]
fn nested_messages_decode_and_reencode() {
    let inner = Message {
        fields: vec![Field::new(1, Value::Varint(42))],
    };
    let outer = Message {
        fields: vec![Field::new(6, Value::LengthDelimited(inner.encode()))],
    };
    let decoded = Message::decode(&outer.encode()).unwrap();
    assert_eq!(decoded.nested(6).unwrap(), inner);
    assert_eq!(decoded.encode(), outer.encode());
}

#[test]
fn packed_uints_keep_partial_results() {
    let packed = Field::new(1, Value::LengthDelimited(vec![1, 2, 3, 0x80]));
    assert_eq!(collect_packed_uints(&packed), vec![1, 2, 3]);

    assert_eq!(
        collect_packed_uints(&Field::new(1, Value::Varint(7))),
        vec![7]
    );
    assert!(collect_packed_uints(&Field::new(1, Value::Fixed32(1))).is_empty());
}

#[test]
fn large_values_survive_the_round_trip() {
    let msg = Message {
        fields: vec![Field::new(1, Value::Varint(u64::MAX))],
    };
    assert_eq!(Message::decode(&msg.encode()).unwrap(), msg);
}

/// Reads descriptors from their file's JSON.
fn entries_from_json(json: &str) -> Vec<ProtoEntry> {
    let value: Json = serde_json::from_str(json).expect("the text is JSON");
    let text = |v: &Json| v.as_str().unwrap_or_default().to_string();
    let flag = |v: &Json| v.as_bool().unwrap_or_default();
    value
        .as_array()
        .expect("a list of entries")
        .iter()
        .map(|entry| ProtoEntry {
            cmd_id: entry["cmd_id"].as_u64().map(|id| id as u16),
            name: text(&entry["name"]),
            fields: entry["fields"]
                .as_array()
                .expect("a list of fields")
                .iter()
                .map(|field| ProtoEntryField {
                    number: field["number"].as_i64().unwrap_or_default() as i32,
                    name: text(&field["name"]),
                    type_ref: text(&field["type"]),
                    xor_value: field["xor_value"].as_u64().map(|value| value as u32),
                    is_native_type: flag(&field["is_native_type"]),
                    is_enum: flag(&field["is_enum"]),
                    repeated: flag(&field["repeated"]),
                })
                .collect(),
        })
        .collect()
}

fn entry(cmd_id: Option<u16>, name: &str, numbers: &[i32]) -> ProtoEntry {
    ProtoEntry {
        cmd_id,
        name: name.to_string(),
        fields: numbers
            .iter()
            .map(|&number| ProtoEntryField {
                number,
                name: format!("f{number}"),
                type_ref: "uint32".into(),
                xor_value: None,
                is_native_type: true,
                is_enum: false,
                repeated: false,
            })
            .collect(),
    }
}

fn nap() -> Protonap {
    Protonap::new(vec![
        entry(Some(1175), "PlayerSyncScNotify", &[15, 9]),
        entry(Some(4937), "PlayerGetTokenScRsp", &[1]),
        entry(None, "NoCmd", &[1]),
        entry(Some(2470), "GetAvatarDataScRsp", &[2, 1, 3]),
    ])
}

#[test]
fn lookups_by_cmd_id_work_regardless_of_input_order() {
    let nap = nap();
    assert_eq!(nap.entry_by_cmd(1175).unwrap().name, "PlayerSyncScNotify");
    assert_eq!(nap.entry_by_cmd(2470).unwrap().name, "GetAvatarDataScRsp");
    assert!(nap.entry_by_cmd(9999).is_none());
}

#[test]
fn fields_are_sorted_by_number_like_the_cpp_version() {
    let nap = nap();
    let numbers: Vec<i32> = nap
        .entry_by_cmd(1175)
        .unwrap()
        .fields
        .iter()
        .map(|f| f.number)
        .collect();
    assert_eq!(numbers, vec![9, 15]);
}

#[test]
fn names_are_indexed_with_last_write_wins() {
    let nap = Protonap::new(vec![
        entry(Some(1), "Dup", &[1]),
        entry(Some(2), "Dup", &[1]),
    ]);
    assert_eq!(nap.entry_by_name("Dup").unwrap().cmd_id, Some(2));
    assert!(nap.entry_by_name("Nope").is_none());
}

#[test]
fn null_cmd_id_entries_are_reachable_as_command_zero() {
    let nap = nap();
    assert_eq!(nap.entry_by_cmd(0).unwrap().name, "NoCmd");
}

#[test]
fn parses_the_real_shape_of_nap_json() {
    // First entry of the committed assets/nap.json, verbatim.
    let json = r#"[{"name":"CKLPODCNKJB","cmd_id":null,"fields":[
        {"number":2,"name":"OIOGINEENIN","type":"uint32","repeated":true,"is_native_type":true,"is_enum":false,"xor_value":0},
        {"number":11,"name":"BDADLDPMIFP","type":"uint32","repeated":false,"is_native_type":true,"is_enum":false,"xor_value":5927}]}]"#;
    let entries: Vec<ProtoEntry> = entries_from_json(json);
    let nap = Protonap::new(entries);
    let entry = nap.entry_by_name("CKLPODCNKJB").unwrap();
    assert_eq!(entry.cmd_id, None);
    assert_eq!(entry.fields.len(), 2);
    assert_eq!(entry.fields[1].xor_value, Some(5927));
}

#[test]
fn parses_a_submessage_field() {
    // Submessage fields carry the target entry's name in "type".
    let json = r#"[{"name":"Outer","cmd_id":10,"fields":[
        {"number":1,"name":"Inner","type":"InnerType","repeated":false,"is_native_type":false,"is_enum":false}]},
        {"name":"InnerType","cmd_id":null,"fields":[]}]"#;
    let nap = Protonap::new(entries_from_json(json));
    let field = &nap.entry_by_cmd(10).unwrap().fields[0];
    assert_eq!(field.type_ref, "InnerType");
    assert_eq!(field.xor_value, None);
    assert!(nap.entry_by_name(&field.type_ref).is_some());
}

fn scalar(number: i32, xor_value: Option<u32>) -> ProtoEntryField {
    ProtoEntryField {
        number,
        name: format!("s{number}"),
        type_ref: "uint32".into(),
        xor_value,
        is_native_type: true,
        is_enum: false,
        repeated: false,
    }
}

fn submessage(number: i32, type_ref: &str) -> ProtoEntryField {
    ProtoEntryField {
        number,
        name: format!("m{number}"),
        type_ref: type_ref.into(),
        xor_value: None,
        is_native_type: false,
        is_enum: false,
        repeated: false,
    }
}

fn nested_nap() -> Protonap {
    Protonap::new(vec![
        ProtoEntry {
            cmd_id: Some(100),
            name: "Outer".into(),
            fields: vec![
                scalar(1, Some(0x1234)),
                scalar(2, None),
                submessage(3, "Inner"),
                scalar(4, Some(0xFF)),
            ],
        },
        ProtoEntry {
            cmd_id: None,
            name: "Inner".into(),
            fields: vec![scalar(1, Some(0xABCD))],
        },
    ])
}

#[test]
fn xors_only_the_values_the_descriptor_marks() {
    let nap = nested_nap();
    let inner = Message {
        fields: vec![Field::new(1, Value::Varint(0x1111))],
    };
    let mut msg = Message {
        fields: vec![
            Field::new(1, Value::Varint(0x0001)),
            Field::new(2, Value::Varint(0x0001)),
            Field::new(3, Value::LengthDelimited(inner.encode())),
            Field::new(9, Value::Varint(0x0001)),
        ],
    };

    xor_proto_fields(&mut msg, nap.entry_by_cmd(100), &nap);

    // Marked scalar: XORed.
    assert_eq!(msg.varint(1), Some(0x0001 ^ 0x1234));
    // Descriptor present but no xor_value: untouched.
    assert_eq!(msg.varint(2), Some(0x0001));
    // Unknown field number: untouched.
    assert_eq!(msg.varint(9), Some(0x0001));
    // Submessage: recursed, inner field XORed.
    let nested = msg.nested(3).unwrap();
    assert_eq!(nested.varint(1), Some(0x1111 ^ 0xABCD));
}

#[test]
fn a_length_delimited_field_with_an_xor_value_keeps_its_bytes() {
    let nap = Protonap::new(vec![ProtoEntry {
        cmd_id: Some(7),
        name: "Odd".into(),
        fields: vec![ProtoEntryField {
            number: 1,
            name: "blob".into(),
            type_ref: "bytes".into(),
            xor_value: Some(0xFFFF),
            is_native_type: true,
            is_enum: false,
            repeated: false,
        }],
    }]);
    let mut msg = Message {
        fields: vec![Field::new(
            1,
            Value::LengthDelimited(b"payload".to_vec()),
        )],
    };
    xor_proto_fields(&mut msg, nap.entry_by_cmd(7), &nap);
    assert_eq!(msg.bytes(1), Some(&b"payload"[..]));
}

#[test]
fn enum_fields_are_not_treated_as_submessages() {
    let nap = Protonap::new(vec![ProtoEntry {
        cmd_id: Some(1),
        name: "E".into(),
        fields: vec![ProtoEntryField {
            number: 1,
            name: "e".into(),
            type_ref: "Inner".into(),
            xor_value: Some(0x5),
            is_native_type: false,
            is_enum: true,
            repeated: false,
        }],
    }]);
    let mut msg = Message {
        fields: vec![Field::new(1, Value::Varint(0x10))],
    };
    xor_proto_fields(&mut msg, nap.entry_by_cmd(1), &nap);
    assert_eq!(msg.varint(1), Some(0x15));
}

#[test]
fn an_unknown_command_leaves_the_message_alone() {
    let nap = nested_nap();
    let mut msg = Message {
        fields: vec![Field::new(1, Value::Varint(0x0001))],
    };
    let before = msg.clone();
    xor_proto_fields(&mut msg, nap.entry_by_cmd(4242), &nap);
    assert_eq!(msg, before);
}

#[test]
fn xor_is_involutive_for_varints() {
    let nap = nested_nap();
    let original = Message {
        fields: vec![Field::new(1, Value::Varint(0xDEAD_BEEF))],
    };
    let mut msg = original.clone();
    xor_proto_fields(&mut msg, nap.entry_by_cmd(100), &nap);
    xor_proto_fields(&mut msg, nap.entry_by_cmd(100), &nap);
    assert_eq!(msg, original);
}

#[test]
fn reassembly_is_independent_of_arrival_order() {
    let orders: [[u32; 3]; 4] = [[1, 2, 3], [1, 3, 2], [2, 1, 3], [3, 2, 1]];
    for order in orders {
        let mut kcp = Kcp::new();
        assert_eq!(
            kcp.receive(&segment(0, 0, &[0]), Direction::Incoming, 5),
            vec![vec![0u8]]
        );
        let mut messages = Vec::new();
        for sn in order {
            messages.extend(kcp.receive(&segment(0, sn, &[sn as u8]), Direction::Incoming, 5));
        }
        assert_eq!(messages, vec![vec![1u8], vec![2u8], vec![3u8]], "order {order:?}");
    }
}

#[test]
fn transport_errors_give_the_length() {
    assert!(KcpError::ShortSegment(27).to_string().contains("27"));
    assert!(KcpError::ShortMessageHeader(11).to_string().contains("11"));
}

#[test]
fn varints_are_read_where_they_were_written() {
    for value in [0u64, 1, 127, 128, 300, u64::from(u32::MAX), u64::MAX] {
        let mut buf = Vec::new();
        write_varint(&mut buf, value);
        let mut pos = 0usize;
        assert_eq!(read_varint(&buf, &mut pos), Ok(value));
        assert_eq!(pos, buf.len());
    }
}

#[test]
fn accessors_read_the_first_field_of_a_number() {
    let mut message = Message {
        fields: vec![
            Field::new(2, Value::LengthDelimited(b"ab".to_vec())),
            Field::new(2, Value::Varint(5)),
            Field::new(3, Value::Fixed32(9)),
        ],
    };
    assert_eq!(message.bytes(2), Some(&b"ab"[..]));
    assert_eq!(message.varint(2), None);
    assert_eq!(message.varint(3), None);
    assert!(message.first(4).is_none());
    assert_eq!(message.first(3).unwrap().value.wire_type(), 5);
    message.first_mut(3).unwrap().value = Value::Varint(1);
    assert_eq!(message.varint(3), Some(1));
    assert!(!message.is_empty());
    assert_eq!(Value::Varint(4).as_varint(), Some(4));
    assert_eq!(Value::Varint(4).as_bytes(), None);
    assert_eq!(Value::LengthDelimited(vec![]).as_message(), Some(Message::default()));
}

#[test]
fn message_errors_are_told_apart_in_words() {
    let errors = [
        ProtoError::Truncated,
        ProtoError::MalformedVarint,
        ProtoError::InvalidFieldNumber(0),
        ProtoError::InvalidWireType(6),
        ProtoError::UnexpectedEndGroup(1),
        ProtoError::LengthOverflow { declared: 5, remaining: 1 },
    ];
    for (i, a) in errors.iter().enumerate() {
        for b in &errors[i + 1..] {
            assert_ne!(a.to_string(), b.to_string());
        }
    }
}

#[test]
fn field_masks_reach_fixed_width_values_and_undo_themselves() {
    let nap = Protonap::new(vec![ProtoEntry {
        cmd_id: Some(8),
        name: "Fixed".into(),
        fields: vec![scalar(1, Some(0xFF)), scalar(2, Some(0xFF))],
    }]);
    let before = Message {
        fields: vec![
            Field::new(1, Value::Fixed32(0x0F0F_0F0F)),
            Field::new(2, Value::Fixed64(0xF0)),
        ],
    };
    let mut message = before.clone();
    xor_proto_fields(&mut message, nap.entry_by_cmd(8), &nap);
    assert_eq!(message.fields[0].value, Value::Fixed32(0x0F0F_0FF0));
    assert_eq!(message.fields[1].value, Value::Fixed64(0x0F));
    xor_proto_fields(&mut message, nap.entry_by_cmd(8), &nap);
    assert_eq!(message, before);
}

#[test]
fn a_message_split_in_one_datagram_is_delivered_whole() {
    let mut kcp = Kcp::new();
    let mut data = segment(2, u32::MAX, b"over ");
    data.extend_from_slice(&segment(1, 0, b"the "));
    data.extend_from_slice(&segment(0, 1, b"edge"));
    let messages = kcp.receive(&data, Direction::Incoming, 1000);
    assert_eq!(messages, vec![b"over the edge".to_vec()]);
    assert_eq!(kcp.stats(), &KcpStats::default());
}

#[test]
fn a_repeated_segment_changes_nothing() {
    let mut kcp = Kcp::new();
    kcp.receive(&segment(0, 0, b"a"), Direction::Incoming, 1000);
    // One that was delivered, and one that waits.
    kcp.receive(&segment(0, 2, b"c"), Direction::Incoming, 1000);
    assert!(kcp.receive(&segment(0, 0, b"x"), Direction::Incoming, 1000).is_empty());
    assert!(kcp.receive(&segment(0, 2, b"y"), Direction::Incoming, 1000).is_empty());
    let messages = kcp.receive(&segment(0, 1, b"b"), Direction::Incoming, 1000);
    assert_eq!(messages, vec![b"b".to_vec(), b"c".to_vec()]);
    assert_eq!(kcp.stats(), &KcpStats::default());
}

#[test]
fn a_tag_whose_field_number_passes_32_bits_is_rejected() {
    // Field number 2^32 + 1: its low 32 bits are those of field 1.
    let buf = [0x88, 0x80, 0x80, 0x80, 0x80, 0x01, 0x01];
    assert_eq!(Message::decode(&buf), Err(ProtoError::InvalidFieldNumber(1)));
}

#[test]
fn segments_in_any_order_and_more_than_once_give_each_message_once() {
    // Three messages in six segments, around the point where the numbers wrap.
    let first = u32::MAX - 2;
    let parts: [(u8, &[u8]); 6] =
        [(1, b"one "), (0, b"a"), (2, b"two "), (1, b"b "), (0, b"c"), (0, b"three")];
    let segment_at =
        |i: usize| segment(parts[i].0, first.wrapping_add(1 + i as u32), parts[i].1);
    let feed = |datagrams: &[&[usize]]| {
        let mut kcp = Kcp::new();
        assert_eq!(
            kcp.receive(&segment(0, first, b"start"), Direction::Incoming, 50),
            vec![b"start".to_vec()]
        );
        let mut messages = Vec::new();
        for datagram in datagrams {
            let bytes: Vec<u8> = datagram.iter().flat_map(|i| segment_at(*i)).collect();
            messages.extend(kcp.receive(&bytes, Direction::Incoming, 50));
        }
        assert_eq!(kcp.stats(), &KcpStats::default());
        messages
    };
    let in_order = feed(&[&[0, 1, 2, 3, 4, 5]]);
    assert_eq!(in_order, vec![b"one a".to_vec(), b"two b c".to_vec(), b"three".to_vec()]);
    assert_eq!(feed(&[&[5], &[4], &[3], &[2], &[1], &[0]]), in_order);
    assert_eq!(feed(&[&[2, 0], &[2, 2, 5], &[1], &[0, 4], &[3, 1], &[5]]), in_order);
    assert_eq!(feed(&[&[1, 3, 5], &[], &[0, 2, 4]]), in_order);
}

#[test]
fn masks_in_nested_messages_undo_themselves() {
    let nap = nested_nap();
    let inner = Message { fields: vec![Field::new(1, Value::Varint(0))] };
    let before = Message {
        fields: vec![
            Field::new(3, Value::LengthDelimited(inner.encode())),
            // Neither of these decodes.
            Field::new(3, Value::LengthDelimited(vec![0xFF])),
            Field::new(1, Value::LengthDelimited(vec![1, 2, 3])),
            Field::new(4, Value::Varint(7)),
        ],
    };
    let mut message = before.clone();
    xor_proto_fields(&mut message, nap.entry_by_cmd(100), &nap);
    // The inner value takes more bytes once it is masked.
    assert_eq!(
        message.fields[0].value,
        Value::LengthDelimited(vec![0x08, 0xCD, 0xD7, 0x02])
    );
    assert_eq!(message.fields[1], before.fields[1]);
    assert_eq!(message.fields[2], before.fields[2]);
    assert_eq!(message.fields[3].value, Value::Varint(0xF8));
    xor_proto_fields(&mut message, nap.entry_by_cmd(100), &nap);
    assert_eq!(message, before);
}

#[test]
fn tokens_windows_timestamps_and_acknowledgements_do_not_matter() {
    let sent = |token: u32, wnd: u16, ts: u32, una: u32| {
        let mut kcp = Kcp::new();
        let mut messages = Vec::new();
        for (sn, frg, payload) in [(0u32, 0u8, b"a"), (2, 0, b"c"), (1, 1, b"b")] {
            let header = SegmentHeader {
                conv: 7,
                cmd: CMD_PUSH,
                frg,
                sn,
                len: payload.len() as u32,
                // Different in each segment.
                token: token.wrapping_add(sn),
                wnd: wnd.wrapping_mul(sn as u16 + 1),
                ts: ts.wrapping_sub(sn),
                una: una ^ sn,
            };
            let mut data = header.encode().to_vec();
            data.extend_from_slice(payload);
            messages.extend(kcp.receive(&data, Direction::Incoming, 10));
        }
        messages
    };
    let plain = sent(0, 0, 0, 0);
    assert_eq!(plain, vec![b"a".to_vec(), b"bc".to_vec()]);
    assert_eq!(sent(u32::MAX, 513, 0x8000_0000, 99), plain);
}
