//! Recorded captures, datagrams and the capture driver's addresses.
use serde_json::Value;
use zzzcap::capture::{
    address_is_outbound, port_filter, receive_failure, CaptureCounts, CaptureError,
    ADDRESS_FLAGS_OFFSET, ADDRESS_OUTBOUND_MASK, ADDRESS_OUTBOUND_OFFSET, ADDRESS_SIZE,
    ERROR_INSUFFICIENT_BUFFER, ERROR_NO_MORE_ITEMS, ERROR_OPERATION_ABORTED, GAME_PORT,
};
use zzzcap::dump::{DirectionError, DirectionToken, Dump, DumpPacket, Packet};
use zzzcap::kcp::Direction;
use zzzcap::packet::{parse_udp, IPPROTO_UDP};

/// Reads a capture file's JSON.
fn from_json(json: &str) -> Result<Dump, DirectionError> {
    let value: Value = serde_json::from_str(json).expect("the text is JSON");
    let mut dump = Dump::new();
    if let Some(packets) = value.get("packets").and_then(Value::as_array) {
        for packet in packets {
            let token = match &packet["direction"] {
                Value::Number(number) => DirectionToken::Number(number.as_u64()),
                Value::String(name) => DirectionToken::Name(name.clone()),
                other => DirectionToken::Other(other.to_string()),
            };
            let data: Vec<u8> = packet["data"]
                .as_array()
                .expect("a list of bytes")
                .iter()
                .map(|byte| byte.as_u64().expect("a byte") as u8)
                .collect();
            dump.packets.push(DumpPacket {
                direction: token.code()?,
                timestamp: packet["timestamp"].as_i64().expect("a time"),
                data,
            });
        }
    }
    Ok(dump)
}

fn direction_of(json: &str) -> u8 {
    from_json(json).unwrap().packets[0].direction
}

#[test]
fn round_trips_through_the_cpp_format() {
    let mut dump = Dump::new();
    dump.push(&Packet {
        direction: Direction::Outgoing,
        timestamp: 1_758_300_000,
        data: vec![1, 2, 3],
    });
    dump.push(&Packet {
        direction: Direction::Incoming,
        timestamp: 1_758_300_001,
        data: vec![],
    });

    let json = dump.to_json();
    assert_eq!(
        json,
        r#"{"packets":[{"direction":1,"timestamp":1758300000,"data":[1,2,3]},{"direction":0,"timestamp":1758300001,"data":[]}]}"#
    );
    assert_eq!(from_json(&json).unwrap(), dump);
    assert_eq!(dump.payload_bytes(), 3);

    let replayed: Vec<Packet> = dump.iter_packets();
    assert_eq!(replayed[0].direction, Direction::Outgoing);
    assert_eq!(replayed[1].data, Vec::<u8>::new());
}

#[test]
fn accepts_a_numeric_direction() {
    assert_eq!(
        direction_of(r#"{"packets":[{"direction":0,"timestamp":1,"data":[]}]}"#),
        0
    );
    assert_eq!(
        direction_of(r#"{"packets":[{"direction":1,"timestamp":1,"data":[]}]}"#),
        1
    );
}

#[test]
fn accepts_a_named_direction_and_bad_capitalisation() {
    assert_eq!(
        direction_of(r#"{"packets":[{"direction":"incoming","timestamp":1,"data":[]}]}"#),
        0
    );
    assert_eq!(
        direction_of(r#"{"packets":[{"direction":"Outgoing","timestamp":1,"data":[]}]}"#),
        1
    );
}

#[test]
fn rejects_a_direction_it_cannot_interpret() {
    assert!(
        from_json(r#"{"packets":[{"direction":"sideways","timestamp":1,"data":[]}]}"#).is_err()
    );
    assert!(from_json(r#"{"packets":[{"direction":null,"timestamp":1,"data":[]}]}"#).is_err());
}

#[test]
fn tolerates_missing_and_extra_keys() {
    // An empty file is an empty capture, not an error.
    assert!(from_json("{}").unwrap().is_empty());
    assert!(from_json(r#"{"packets":[]}"#).unwrap().is_empty());
    let dump = from_json(
        r#"{"version":2,"packets":[{"direction":0,"timestamp":5,"data":[9],"note":"x"}]}"#,
    )
    .unwrap();
    assert_eq!(dump.len(), 1);
    assert_eq!(dump.packets[0].data, vec![9]);
}

#[test]
fn summarises_size_for_progress_output() {
    let dump = from_json(
        r#"{"packets":[{"direction":0,"timestamp":1,"data":[1,2,3,4]},{"direction":1,"timestamp":2,"data":[5]}]}"#,
    )
    .unwrap();
    assert_eq!(dump.payload_bytes(), 5);
}

#[test]
fn a_negative_time_is_written_with_its_sign() {
    let mut dump = Dump::default();
    dump.push(&Packet { direction: Direction::Incoming, timestamp: -7, data: vec![255] });
    assert_eq!(
        dump.to_json(),
        r#"{"packets":[{"direction":0,"timestamp":-7,"data":[255]}]}"#
    );
}

#[test]
fn replaying_gives_back_what_was_recorded() {
    let packets = vec![
        Packet { direction: Direction::Outgoing, timestamp: 10, data: vec![1, 2] },
        Packet { direction: Direction::Incoming, timestamp: 11, data: vec![3] },
    ];
    let mut dump = Dump::new();
    for packet in &packets {
        dump.push(packet);
    }
    assert_eq!(dump.iter_packets(), packets);
    assert_eq!(dump.packets[0].direction(), Direction::Outgoing);
}

#[test]
fn every_direction_error_is_reported() {
    assert_eq!(DirectionToken::Number(None).code(), Err(DirectionError::NotAnInteger));
    assert_eq!(
        DirectionToken::Name("sideways".to_string()).code(),
        Err(DirectionError::UnknownName("sideways".to_string()))
    );
    assert_eq!(
        DirectionToken::Other("null".to_string()).code(),
        Err(DirectionError::NotADirection("null".to_string()))
    );
}

fn ipv4_udp(source: u16, destination: u16, payload: &[u8], options: usize) -> Vec<u8> {
    let header_len = 20 + options;
    let total = header_len + 8 + payload.len();
    let mut packet = vec![0u8; header_len];
    packet[0] = 0x40 | ((header_len / 4) as u8);
    packet[2..4].copy_from_slice(&(total as u16).to_be_bytes());
    packet[9] = IPPROTO_UDP;
    packet.extend_from_slice(&source.to_be_bytes());
    packet.extend_from_slice(&destination.to_be_bytes());
    packet.extend_from_slice(&((8 + payload.len()) as u16).to_be_bytes());
    packet.extend_from_slice(&[0, 0]); // checksum
    packet.extend_from_slice(payload);
    packet
}

fn ipv6_udp(source: u16, destination: u16, payload: &[u8], extension: bool) -> Vec<u8> {
    let mut packet = vec![0u8; 40];
    packet[0] = 0x60;
    packet[6] = if extension { 0 } else { IPPROTO_UDP }; // hop-by-hop or UDP
    let mut body = Vec::new();
    if extension {
        body.extend_from_slice(&[IPPROTO_UDP, 0, 0, 0, 0, 0, 0, 0]);
    }
    body.extend_from_slice(&source.to_be_bytes());
    body.extend_from_slice(&destination.to_be_bytes());
    body.extend_from_slice(&((8 + payload.len()) as u16).to_be_bytes());
    body.extend_from_slice(&[0, 0]);
    body.extend_from_slice(payload);
    packet[4..6].copy_from_slice(&(body.len() as u16).to_be_bytes());
    packet.extend_from_slice(&body);
    packet
}

#[test]
fn parses_an_ipv4_udp_datagram() {
    let packet = ipv4_udp(51000, 20501, b"payload", 0);
    let view = parse_udp(&packet).expect("parses");
    assert_eq!(view.source_port, 51000);
    assert_eq!(view.destination_port, 20501);
    assert_eq!(view.payload, b"payload");
}

#[test]
fn honours_ipv4_options_when_finding_the_udp_header() {
    let packet = ipv4_udp(20501, 51000, b"with options", 12);
    let view = parse_udp(&packet).expect("parses");
    assert_eq!(view.source_port, 20501);
    assert_eq!(view.payload, b"with options");
}

#[test]
fn parses_an_ipv6_udp_datagram() {
    let packet = ipv6_udp(51000, 20501, b"v6 payload", false);
    let view = parse_udp(&packet).expect("parses");
    assert_eq!(view.destination_port, 20501);
    assert_eq!(view.payload, b"v6 payload");
}

#[test]
fn walks_ipv6_extension_headers() {
    let packet = ipv6_udp(51000, 20501, b"after hop-by-hop", true);
    let view = parse_udp(&packet).expect("parses");
    assert_eq!(view.destination_port, 20501);
    assert_eq!(view.payload, b"after hop-by-hop");
}

#[test]
fn rejects_what_it_cannot_parse() {
    assert_eq!(parse_udp(&[]), None);
    assert_eq!(parse_udp(&[0x45, 0x00]), None);

    // IPv4 carrying TCP, not UDP.
    let mut tcp = ipv4_udp(1, 2, b"x", 0);
    tcp[9] = 6;
    assert_eq!(parse_udp(&tcp), None);

    // A non-first fragment has no UDP header at the offset that would be read.
    let mut fragment = ipv4_udp(1, 2, b"x", 0);
    fragment[7] = 0x01; // fragment offset 1
    assert_eq!(parse_udp(&fragment), None);

    // IPv6 with a fragment header: the payload is incomplete by design.
    let mut fragmented = ipv6_udp(1, 2, b"x", false);
    fragmented[6] = 44;
    assert_eq!(parse_udp(&fragmented), None);

    // Truncated UDP header.
    let packet = ipv4_udp(1, 2, b"", 0);
    assert_eq!(parse_udp(&packet[..22]), None);
}

#[test]
fn truncation_shrinks_the_payload_instead_of_panicking() {
    let packet = ipv4_udp(1, 2, b"0123456789", 0);
    // Drop the last four bytes of payload but leave the declared length alone.
    let view = parse_udp(&packet[..packet.len() - 4]).expect("parses what is there");
    assert_eq!(view.payload, b"012345");
}

#[test]
fn a_zero_total_length_falls_back_to_the_buffer() {
    let mut packet = ipv4_udp(1, 20501, b"no length", 0);
    packet[2] = 0;
    packet[3] = 0;
    let view = parse_udp(&packet).expect("parses");
    assert_eq!(view.payload, b"no length");
}

/// The address that a network-layer packet gets.
fn make_address(
    layer: u8,
    event: u8,
    sniffed: bool,
    outbound: bool,
    loopback: bool,
) -> [u8; ADDRESS_SIZE] {
    let mut flags: u32 = u32::from(layer) | (u32::from(event) << 8);
    flags |= u32::from(sniffed) << 16;
    flags |= u32::from(outbound) << 17;
    flags |= u32::from(loopback) << 18;
    let mut address = [0u8; ADDRESS_SIZE];
    address[ADDRESS_FLAGS_OFFSET..ADDRESS_FLAGS_OFFSET + 4].copy_from_slice(&flags.to_le_bytes());
    address
}

#[test]
fn reads_the_outbound_bit_from_the_bitfield_word() {
    assert!(!address_is_outbound(&make_address(0, 0, true, false, false)));
    assert!(address_is_outbound(&make_address(0, 0, true, true, false)));
    // The neighbouring bits must not leak into it.
    assert!(!address_is_outbound(&make_address(1, 7, true, false, true)));
    assert!(address_is_outbound(&make_address(1, 7, false, true, true)));
    // An undersized buffer is not outbound rather than a panic.
    assert!(!address_is_outbound(&[]));
}

#[test]
fn the_address_layout_matches_the_vendor_header() {
    // A 64-bit time, the word of flags, a reserved word, then the 64-byte union.
    assert_eq!(ADDRESS_SIZE, 8 + 4 + 4 + 64);
    assert_eq!(ADDRESS_FLAGS_OFFSET, 8);
    // Layer and event fill bytes 8 and 9, sniffed takes bit 16, so outbound is bit 17:
    // byte 10, mask 0x02.
    assert_eq!(ADDRESS_OUTBOUND_OFFSET, 10);
    assert_eq!(ADDRESS_OUTBOUND_MASK, 0x02);
}

#[test]
fn the_reserved_bytes_are_not_mistaken_for_the_bit() {
    let mut inbound = make_address(0, 0, true, false, false);
    inbound[11] = 0xFF;
    inbound[12] = 0xFF;
    assert!(
        !address_is_outbound(&inbound),
        "the reserved bytes must not be read as the direction"
    );

    let mut outbound = make_address(0, 0, true, true, false);
    outbound[11] = 0x00;
    assert!(address_is_outbound(&outbound));
}

#[test]
fn the_port_decides_the_direction_the_way_process_raw_packet_did() {
    let client_to_server = ipv4_udp(51000, GAME_PORT, b"request", 0);
    let server_to_client = ipv4_udp(GAME_PORT, 51000, b"response", 0);
    assert_eq!(parse_udp(&client_to_server).unwrap().destination_port, GAME_PORT);
    assert_eq!(parse_udp(&server_to_client).unwrap().source_port, GAME_PORT);
}

#[test]
fn captured_packets_get_the_direction_of_their_port() {
    let mut counts = CaptureCounts::default();
    let out = counts
        .take(
            &ipv4_udp(51000, GAME_PORT, b"request", 0),
            &make_address(0, 0, true, true, false),
            GAME_PORT,
            77,
        )
        .expect("a packet of the game");
    assert_eq!(
        out,
        Packet { direction: Direction::Outgoing, timestamp: 77, data: b"request".to_vec() }
    );
    // The address contradicts the port: the port wins, and it is counted.
    let conflicting = counts
        .take(
            &ipv4_udp(GAME_PORT, 51000, b"response", 0),
            &make_address(0, 0, true, true, false),
            GAME_PORT,
            78,
        )
        .expect("a packet of the game");
    assert_eq!(conflicting.direction, Direction::Incoming);
    // What is no datagram is skipped.
    assert_eq!(counts.take(&[0x45], &[], GAME_PORT, 79), None);
    assert_eq!(counts, CaptureCounts { packets: 2, skipped: 1, direction_conflicts: 1 });
}

#[test]
fn the_filter_names_the_port() {
    let filter = port_filter(GAME_PORT);
    assert_eq!(filter, "udp.DstPort == 20501 or udp.SrcPort == 20501");
}

#[test]
fn capture_failures_are_told_apart() {
    assert_eq!(receive_failure(ERROR_NO_MORE_ITEMS), None);
    assert_eq!(receive_failure(ERROR_OPERATION_ABORTED), None);
    assert_eq!(
        receive_failure(ERROR_INSUFFICIENT_BUFFER),
        Some(CaptureError::BufferTooSmall)
    );
    assert_eq!(receive_failure(31), Some(CaptureError::RecvFailed(31)));
}

#[test]
fn capture_errors_say_what_went_wrong_and_what_to_do() {
    let denied = CaptureError::OpenFailed { filter: "udp \"x\"".to_string(), code: 5 };
    assert_eq!(
        denied.to_string(),
        "WinDivertOpen(\"udp \\\"x\\\"\") failed with Win32 error 5"
    );
    assert_eq!(
        denied.describe(),
        format!(
            "{}\n       access denied: WinDivert has to load a kernel driver, so run this from an elevated terminal",
            denied.to_string()
        )
    );
    let unsigned = CaptureError::OpenFailed { filter: "udp".to_string(), code: 577 };
    assert!(unsigned.hint().is_some());
    let other = CaptureError::OpenFailed { filter: "udp".to_string(), code: 2 };
    assert_eq!(other.hint(), None);
    assert_eq!(other.describe(), "WinDivertOpen(\"udp\") failed with Win32 error 2");
    assert_eq!(CaptureError::DllMissing.to_string(), "WinDivert.dll not found");
    assert_eq!(
        CaptureError::MissingFunction("WinDivertOpen").to_string(),
        "WinDivert.dll does not export WinDivertOpen"
    );
    assert_eq!(
        CaptureError::RecvFailed(31).to_string(),
        "WinDivertRecv failed with Win32 error 31"
    );
    assert_eq!(
        CaptureError::BufferTooSmall.to_string(),
        "captured packet did not fit in the buffer"
    );
    assert_eq!(CaptureError::Unsupported("this system").to_string(), "unsupported: this system");
}

#[test]
fn direction_errors_quote_what_they_could_not_read() {
    let unknown = DirectionToken::Name("Side\"ways".to_string()).code().unwrap_err();
    assert_eq!(unknown.to_string(), "unknown direction \"side\\\"ways\"");
    assert_eq!(DirectionError::NotAnInteger.to_string(), "direction is not an integer");
}
