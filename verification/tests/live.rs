//! Frames, the handshake, the connections of a server, and SHA-1.
use zzzcap::b64::b64_encode;
use zzzcap::frame::{
    bytes_needed, encode, encode_close, encode_pong, encode_text, is_timeout, opcode, read_frame,
    source_end, Frame, FrameError, FrameRead, IoError, IoKind, SourceEnd, MAX_INBOUND_PAYLOAD,
};
use zzzcap::server::{
    accept_key, handshake_response, read_handshake, Handshake, HeadStep, Hub, ReadAction,
    SendAction, DEFAULT_PORT, MAX_HEADERS_BYTES,
};
use zzzcap::sha1::{sha1, Sha1};

/// Reads a frame from a connection that is closed behind these bytes.
fn io_error(kind: IoKind, message: &str) -> IoError {
    IoError { kind, message: message.to_string() }
}

fn read_all(wire: &[u8]) -> Result<FrameRead, FrameError> {
    read_frame(wire, SourceEnd::Closed).0
}

fn client_frame(opcode: u8, payload: &[u8], mask: [u8; 4]) -> Vec<u8> {
    let mut frame = vec![0x80 | opcode];
    let length = payload.len();
    if length < 126 {
        frame.push(0x80 | length as u8);
    } else if length <= 0xFFFF {
        frame.push(0x80 | 126);
        frame.extend_from_slice(&(length as u16).to_be_bytes());
    } else {
        frame.push(0x80 | 127);
        frame.extend_from_slice(&(length as u64).to_be_bytes());
    }
    frame.extend_from_slice(&mask);
    frame.extend(
        payload
            .iter()
            .enumerate()
            .map(|(index, byte)| byte ^ mask[index % 4]),
    );
    frame
}

fn frame_of(outcome: Result<FrameRead, FrameError>) -> Frame {
    match outcome {
        Ok(FrameRead::Frame(frame)) => frame,
        other => panic!("expected a frame, got {other:?}"),
    }
}

#[test]
fn encodes_every_length_form() {
    // 7-bit, 16-bit and 64-bit lengths, with the boundary values.
    assert_eq!(encode_text("hi"), vec![0x81, 2, b'h', b'i']);
    assert_eq!(encode_text(""), vec![0x81, 0]);

    let short = "x".repeat(125);
    assert_eq!(encode_text(&short)[..2], [0x81, 125]);

    let medium = "x".repeat(126);
    let encoded = encode_text(&medium);
    assert_eq!(encoded[..4], [0x81, 126, 0x00, 126]);

    let long = "x".repeat(0x10000);
    let encoded = encode_text(&long);
    assert_eq!(&encoded[..2], [0x81, 127]);
    assert_eq!(
        &encoded[2..10],
        &(0x10000u64).to_be_bytes(),
        "64-bit big-endian length"
    );
    assert_eq!(encoded.len(), long.len() + 10);

    // Exactly 65535 still fits in the 16-bit form.
    let boundary = "x".repeat(0xFFFF);
    assert_eq!(encode_text(&boundary)[1], 126);
}

#[test]
fn closes_with_the_reference_bytes() {
    assert_eq!(encode_close(), [0x88, 0x00]);
}

#[test]
fn reads_masked_frames_of_every_length_and_unmasks_them() {
    let mask = [0x12, 0x34, 0x56, 0x78];
    for length in [0usize, 1, 125, 126, 700, 0xFFFF] {
        let payload: Vec<u8> = (0..length).map(|index| (index % 256) as u8).collect();
        let wire = client_frame(opcode::TEXT, &payload, mask);
        let frame = frame_of(read_all(&wire));
        assert_eq!(frame.opcode, opcode::TEXT);
        assert_eq!(frame.payload, payload, "length {length}");
    }
}

#[test]
fn reads_an_unmasked_frame_too() {
    let wire = encode_text("plain");
    let frame = frame_of(read_all(&wire));
    assert_eq!(frame.opcode, opcode::TEXT);
    assert_eq!(frame.payload, b"plain");
}

#[test]
fn reports_a_clean_end_separately_from_a_truncated_frame() {
    // Nothing at all: the client went away.
    assert_eq!(read_all(&[]).unwrap(), FrameRead::Ended);
    // A header promising more than is there: that is an error, not an end.
    let wire = [0x81u8, 4, b'a'];
    assert!(matches!(
        read_all(&wire),
        Err(FrameError::Io(_))
    ));
    // Half a header.
    let wire = [0x81u8];
    assert!(matches!(
        read_all(&wire),
        Err(FrameError::Io(_))
    ));
}

#[test]
fn rejects_the_lengths_the_reference_rejects() {
    // A 64-bit length with the high bit set.
    let mut wire = vec![0x82, 127];
    wire.extend_from_slice(&0x8000_0000_0000_0001u64.to_be_bytes());
    assert!(matches!(
        read_all(&wire),
        Err(FrameError::LengthHasMsbSet)
    ));

    // Above the 64 MiB cap. The length is refused before the payload is
    // allocated, so this costs nothing to test.
    let mut wire = vec![0x82, 127];
    wire.extend_from_slice(&(MAX_INBOUND_PAYLOAD + 1).to_be_bytes());
    assert!(matches!(
        read_all(&wire),
        Err(FrameError::PayloadTooLarge(length)) if length == MAX_INBOUND_PAYLOAD + 1
    ));
}

#[test]
fn reads_one_frame_at_a_time_from_a_stream() {
    // Two frames back to back, which is what a client that pipelines them looks like.
    let mask = [1, 2, 3, 4];
    let mut wire = client_frame(opcode::PING, b"p", mask);
    wire.extend(client_frame(opcode::CLOSE, b"", mask));

    let (first, used) = read_frame(&wire, SourceEnd::Closed);
    let first = frame_of(first);
    assert_eq!(
        (first.opcode, first.payload.as_slice()),
        (opcode::PING, b"p".as_slice())
    );
    let rest = &wire[used..];
    let (second, used) = read_frame(rest, SourceEnd::Closed);
    assert_eq!(frame_of(second).opcode, opcode::CLOSE);
    assert_eq!(
        read_all(&rest[used..]).unwrap(),
        FrameRead::Ended,
        "then the stream ends"
    );
}

#[test]
fn reports_an_idle_socket_separately_from_a_closed_one() {
    // Both kinds of timeout are silence.
    let would_block =
        source_end(io_error(IoKind::WouldBlock, "quiet")).expect("not to be tried again");
    assert_eq!(read_frame(&[], would_block).0.unwrap(), FrameRead::Idle);
    let timed_out =
        source_end(io_error(IoKind::TimedOut, "late")).expect("not to be tried again");
    assert_eq!(read_frame(&[], timed_out.clone()).0.unwrap(), FrameRead::Idle);
    let outcome = read_frame(&[0x81], timed_out).0;
    assert!(
        matches!(&outcome, Err(FrameError::Io(error)) if error.kind == IoKind::TimedOut),
        "half a header then silence is a stalled connection, got {outcome:?}"
    );
}

#[test]
fn an_idle_timeout_is_not_a_failure() {
    assert!(is_timeout(&io_error(IoKind::WouldBlock, "")));
    assert!(is_timeout(&io_error(IoKind::TimedOut, "")));
    assert!(!is_timeout(&io_error(IoKind::Interrupted, "")));
    assert!(!is_timeout(&io_error(IoKind::BrokenPipe, "")));
}

#[test]
fn a_cut_frame_is_an_error_wherever_it_is_cut() {
    let wire = client_frame(opcode::TEXT, &[7u8; 200], [9, 8, 7, 6]);
    for cut in 1..wire.len() {
        assert_eq!(
            read_frame(&wire[..cut], SourceEnd::Closed).0,
            Err(FrameError::Io(io_error(
                IoKind::UnexpectedEof,
                "connection closed mid-frame"
            ))),
            "cut at {cut}"
        );
        assert_eq!(
            read_frame(&wire[..cut], SourceEnd::Silent).0,
            Err(FrameError::Io(io_error(IoKind::TimedOut, "the peer stalled mid-frame"))),
            "silent at {cut}"
        );
    }
    assert_eq!(
        read_frame(&[], SourceEnd::Failed(io_error(IoKind::BrokenPipe, "gone"))).0,
        Err(FrameError::Io(io_error(IoKind::BrokenPipe, "gone")))
    );
    assert_eq!(source_end(io_error(IoKind::Interrupted, "again")), None);
}

#[test]
fn a_frame_says_how_many_bytes_it_needs() {
    assert_eq!(bytes_needed(&[]), Ok(2));
    assert_eq!(bytes_needed(&[0x81, 5]), Ok(7));
    assert_eq!(bytes_needed(&[0x81, 0x85]), Ok(11));
    assert_eq!(bytes_needed(&[0x81, 126]), Ok(4));
    assert_eq!(bytes_needed(&[0x81, 126, 1, 0]), Ok(260));
    assert_eq!(bytes_needed(&[0x81, 127]), Ok(10));
}

#[test]
fn what_is_encoded_is_read_back() {
    for length in [0usize, 5, 126, 0x1_0000] {
        let payload = vec![3u8; length];
        let frame = frame_of(read_all(&encode(opcode::BINARY, &payload)));
        assert_eq!(frame, Frame { opcode: opcode::BINARY, payload });
    }
    assert_eq!(
        frame_of(read_all(&encode_pong(b"p"))),
        Frame { opcode: opcode::PONG, payload: b"p".to_vec() }
    );
}

/// The key of a request whose bytes are all there.
fn handshake_of(request: &str) -> Option<Vec<u8>> {
    read_handshake(request.as_bytes()).0
}

fn request(headers: &[&str]) -> String {
    let mut request = String::from("GET /ws HTTP/1.1\r\nHost: 127.0.0.1\r\n");
    for header in headers {
        request.push_str(header);
        request.push_str("\r\n");
    }
    request.push_str("\r\n");
    request
}

#[test]
fn server_computes_the_rfc_6455_accept_value() {
    assert_eq!(
        accept_key(b"dGhlIHNhbXBsZSBub25jZQ=="),
        "s3pPLMBiTxaQ9kYGzzhZRbK+xOo="
    );
}

#[test]
fn reads_the_key_whatever_its_case_or_spacing() {
    for header in [
        "Sec-WebSocket-Key: dGhlIHNhbXBsZSBub25jZQ==",
        "sec-websocket-key: dGhlIHNhbXBsZSBub25jZQ==",
        "SEC-WEBSOCKET-KEY:\t dGhlIHNhbXBsZSBub25jZQ==",
        "Sec-WebSocket-Key:dGhlIHNhbXBsZSBub25jZQ==",
    ] {
        assert_eq!(
            handshake_of(&request(&[header])).as_deref(),
            Some(b"dGhlIHNhbXBsZSBub25jZQ==".as_slice()),
            "{header}"
        );
    }

    // Other headers are ignored, and unrelated ones that merely start with
    // the same letters are not mistaken for it.
    assert_eq!(
        handshake_of(&request(&[
            "Sec-WebSocket-Version: 13",
            "Sec-WebSocket-Extensions: permessage-deflate",
            "Sec-WebSocket-Key2: nope",
            "Sec-WebSocket-Key: realkey",
        ])),
        Some(b"realkey".to_vec())
    );
}

#[test]
fn refuses_a_request_without_a_key() {
    assert_eq!(handshake_of(&request(&["Host: 127.0.0.1"])), None);
    assert_eq!(
        handshake_of(&request(&["Sec-WebSocket-Key:   "])),
        Some(Vec::new())
    );
}

#[test]
fn the_first_key_wins_and_the_tail_is_not_read() {
    assert_eq!(
        handshake_of(&request(&[
            "Sec-WebSocket-Key: first",
            "Sec-WebSocket-Key: second",
        ])),
        Some(b"first".to_vec())
    );
}

#[test]
fn accepts_lf_only_line_endings() {
    let request = "GET /ws HTTP/1.1\nSec-WebSocket-Key: k\n\n";
    assert_eq!(handshake_of(request), Some(b"k".to_vec()));
}

#[test]
fn gives_up_on_a_head_that_never_ends() {
    let request = "GET /ws HTTP/1.1\r\n".to_string() + &"X-Filler: y\r\n".repeat(2000);
    assert!(request.len() > MAX_HEADERS_BYTES);
    assert_eq!(handshake_of(&request), None);
}

#[test]
fn leaves_whatever_follows_the_head_in_the_reader() {
    let mut wire = request(&["Sec-WebSocket-Key: k"]).into_bytes();
    wire.extend(encode_text("early"));

    let (key, used) = read_handshake(&wire);
    assert_eq!(key, Some(b"k".to_vec()));
    let frame = frame_of(read_all(&wire[used..]));
    assert_eq!(
        (frame.opcode, frame.payload.as_slice()),
        (opcode::TEXT, b"early".as_slice())
    );
}

#[test]
fn an_ended_connection_is_not_an_error() {
    assert_eq!(
        read_handshake(b"").0,
        None,
        "a client that connects and says nothing"
    );
    assert_eq!(
        read_handshake(b"GET /ws HTTP/1.1\r\n").0,
        None,
        "a head cut off mid-way"
    );
    // A line that ends without its newline.
    assert_eq!(
        read_handshake(b"GET /ws HTTP/1.1\r\nSec-WebSocket-Key: abc").0,
        None
    );
}

#[test]
fn a_head_that_arrives_in_pieces_is_still_read() {
    // The connection is quiet three times before the request comes.
    let mut handshake = Handshake::new();
    for _ in 0..3 {
        assert!(matches!(handshake.timed_out(false), HeadStep::More));
    }
    let request = request(&["Sec-WebSocket-Key: realkey"]);
    let mut key = None;
    for line in request.split_inclusive('\n') {
        match handshake.line(line.as_bytes()) {
            HeadStep::More => {}
            HeadStep::Done(found) => key = found,
            HeadStep::Refused => panic!("refused at {line:?}"),
        }
    }
    assert_eq!(key, Some(b"realkey".to_vec()));
}

#[test]
fn a_client_that_never_sends_its_head_is_dropped_at_the_deadline() {
    let handshake = Handshake::new();
    assert!(matches!(handshake.timed_out(true), HeadStep::Refused));
}

#[test]
fn a_key_that_is_not_utf8_still_produces_an_accept_value() {
    let mut wire = b"GET /ws HTTP/1.1\r\nSec-WebSocket-Key: ".to_vec();
    wire.extend_from_slice(&[0xFF, 0xFE]);
    wire.extend_from_slice(b"\r\n\r\n");
    let key = read_handshake(&wire).0.expect("a key");
    assert_eq!(key, vec![0xFF, 0xFE]);
    assert!(!accept_key(&key).is_empty());
}

const RFC_KEY: &str = "dGhlIHNhbXBsZSBub25jZQ==";
const RFC_ACCEPT: &str = "s3pPLMBiTxaQ9kYGzzhZRbK+xOo=";

const SNAPSHOT: &str = "{\"format\":\"ZOD\",\"snapshot\":true}";

/// A server without sockets: what a client sends is handed in, what it is sent is handed out.
struct TestServer {
    hub: Hub,
    snapshot: String,
}

impl TestServer {
    fn start(snapshot: &str) -> Self {
        Self { hub: Hub::new(), snapshot: snapshot.to_string() }
    }

    /// A connection that has said nothing yet.
    fn connect(&mut self, id: u64) {
        self.hub.accept(id);
    }

    /// The answer to a client's handshake.
    fn handshake(&mut self, id: u64, key: &str) -> String {
        self.connect(id);
        let request = format!(
            "GET /ws HTTP/1.1\r\nHost: 127.0.0.1\r\nUpgrade: websocket\r\nConnection: Upgrade\r\nSec-WebSocket-Key: {key}\r\nSec-WebSocket-Version: 13\r\n\r\n"
        );
        let key = read_handshake(request.as_bytes()).0.expect("a key");
        self.hub.open(id);
        self.hub.announce(id, Some(self.snapshot.clone()));
        handshake_response(&key)
    }

    /// The next frame that a client is sent, if there is one.
    fn next_frame(&mut self, id: u64) -> Option<Frame> {
        let i = self.hub.index_of(id);
        match self.hub.clients[i].next_send() {
            SendAction::Write(body) => Some(frame_of(read_all(&body.to_bytes()))),
            SendAction::CloseReply => {
                let reply = frame_of(read_all(&encode_close()));
                self.hub.remove(id);
                Some(reply)
            }
            SendAction::Wait => None,
            SendAction::Leave => {
                self.hub.remove(id);
                None
            }
        }
    }

    fn payload(&mut self, id: u64) -> Vec<u8> {
        self.next_frame(id).expect("a frame").payload
    }

    /// Hands in what a client sends.
    fn send(&mut self, id: u64, wire: &[u8]) {
        let i = self.hub.index_of(id);
        let read = read_frame(wire, SourceEnd::Closed).0;
        if self.hub.clients[i].next_read(&read) == ReadAction::Close {
            self.hub.remove(id);
        }
    }
}

const MASK: [u8; 4] = [0x12, 0x34, 0x56, 0x78];

#[test]
fn handshake_uses_the_rfc_6455_example_key() {
    let mut server = TestServer::start(SNAPSHOT);
    let head = server.handshake(1, RFC_KEY);
    assert!(head.starts_with("HTTP/1.1 101"), "{head}");
    assert!(head.contains("Upgrade: websocket"), "{head}");
    assert!(head.contains("Connection: Upgrade"), "{head}");
    assert!(
        head.contains(&format!("Sec-WebSocket-Accept: {RFC_ACCEPT}")),
        "unexpected accept value in {head}"
    );
    assert!(head.ends_with("\r\n\r\n"), "{head}");
    assert_eq!(server.hub.client_count(), 1);
}

#[test]
fn pushes_a_snapshot_on_connect_and_broadcasts_after_it() {
    let mut server = TestServer::start(SNAPSHOT);
    assert_eq!(server.hub.client_count(), 0, "no clients initially");
    server.handshake(1, RFC_KEY);
    assert_eq!(server.hub.client_count(), 1, "client registered");

    let snapshot = server.next_frame(1).unwrap();
    assert_eq!(snapshot.opcode, opcode::TEXT);
    assert_eq!(snapshot.payload, SNAPSHOT.as_bytes());

    server.hub.broadcast("hello world");
    let broadcast = server.next_frame(1).unwrap();
    assert_eq!(broadcast.opcode, opcode::TEXT);
    assert_eq!(broadcast.payload, b"hello world");

    // An empty payload is a valid frame: the caller decides what to send.
    server.hub.broadcast("");
    assert_eq!(server.payload(1), Vec::<u8>::new());
}

#[test]
fn survives_a_client_text_frame_and_answers_pings() {
    let mut server = TestServer::start(SNAPSHOT);
    server.handshake(1, RFC_KEY);
    let _snapshot = server.next_frame(1);

    server.send(1, &client_frame(opcode::TEXT, b"ignored text", MASK));
    server.send(1, &client_frame(opcode::BINARY, b"\x00\x01", MASK));
    server.hub.broadcast("after client text");
    assert_eq!(server.payload(1), b"after client text", "the server survived");

    // A masked ping is answered with a pong carrying the same payload.
    server.send(1, &client_frame(opcode::PING, b"p", MASK));
    let pong = server.next_frame(1).unwrap();
    assert_eq!(pong.opcode, opcode::PONG);
    assert_eq!(pong.payload, b"p");

    // An unmasked ping too.
    server.send(1, &encode(opcode::PING, b"q"));
    let pong = server.next_frame(1).unwrap();
    assert_eq!((pong.opcode, pong.payload), (opcode::PONG, b"q".to_vec()));
}

#[test]
fn answers_a_close_and_deregisters() {
    let mut server = TestServer::start(SNAPSHOT);
    server.handshake(1, RFC_KEY);
    let _snapshot = server.next_frame(1);

    server.send(1, &client_frame(opcode::CLOSE, b"", MASK));
    let reply = server.next_frame(1).unwrap();
    assert_eq!(reply.opcode, opcode::CLOSE);
    assert_eq!(reply.payload, Vec::<u8>::new());
    assert_eq!(server.hub.client_count(), 0, "client deregistered after close");
}

#[test]
fn delivers_to_every_client() {
    let mut server = TestServer::start(SNAPSHOT);
    server.handshake(1, RFC_KEY);
    server.handshake(2, RFC_KEY);
    assert_eq!(server.hub.client_count(), 2, "both registered");
    // Each got the snapshot before anything was broadcast.
    assert_eq!(server.payload(1), SNAPSHOT.as_bytes());
    assert_eq!(server.payload(2), SNAPSHOT.as_bytes());

    server.hub.broadcast("both");
    assert_eq!(server.payload(1), b"both");
    assert_eq!(server.payload(2), b"both");
}

#[test]
fn a_late_client_gets_the_latest_broadcast_not_the_snapshot() {
    let mut server = TestServer::start(SNAPSHOT);
    server.hub.broadcast("live payload");
    server.handshake(1, RFC_KEY);
    assert_eq!(server.payload(1), b"live payload");
    assert!(server.next_frame(1).is_none());
}

#[test]
fn an_empty_snapshot_sends_nothing() {
    let mut server = TestServer::start("");
    server.handshake(1, RFC_KEY);
    assert!(
        server.next_frame(1).is_none(),
        "an empty payload must not become a frame"
    );
    // The next broadcast is therefore the client's first frame.
    server.hub.broadcast("first");
    assert_eq!(server.payload(1), b"first");
}

#[test]
fn broadcasts_large_payloads_in_one_64_bit_length_frame() {
    let mut server = TestServer::start(SNAPSHOT);
    server.handshake(1, RFC_KEY);
    let _snapshot = server.next_frame(1);

    let payload = "x".repeat(300_000);
    server.hub.broadcast(&payload);
    let frame = server.next_frame(1).unwrap();
    assert_eq!(frame.opcode, opcode::TEXT);
    assert_eq!(frame.payload.len(), payload.len());
    assert_eq!(frame.payload, payload.as_bytes());
}

#[test]
fn a_client_that_never_hands_shakes_is_hidden_and_cleaned_up() {
    let mut server = TestServer::start(SNAPSHOT);
    // Connect and say nothing.
    server.connect(1);
    assert_eq!(
        server.hub.client_count(),
        0,
        "a connection mid-handshake is not a client"
    );

    // A real client still connects and works while the quiet one sits there.
    server.handshake(2, RFC_KEY);
    assert_eq!(server.payload(2), SNAPSHOT.as_bytes());

    // And a broadcast reaches it, with the unregistered connection in the list.
    server.hub.broadcast("nobody is listening");
    assert_eq!(server.payload(2), b"nobody is listening");

    // Stopping reaches the quiet one too.
    server.hub.stop();
    assert!(server.hub.clients.iter().all(|client| client.close_after_send && !client.open));
    let _ = server.next_frame(1);
    let _ = server.next_frame(2);
    assert!(server.hub.clients.is_empty());
}

#[test]
fn a_stopped_server_refuses_new_connections_and_drops_broadcasts() {
    let mut server = TestServer::start(SNAPSHOT);
    server.hub.broadcast("while running");
    server.hub.stop();
    assert!(!server.hub.running);

    // A broadcast to a stopped server is dropped, and a restart begins afresh.
    server.hub.broadcast("while stopped");
    assert_eq!(server.hub.latest.as_deref(), Some("while running"));
    server.hub = Hub::new();
    server.handshake(1, RFC_KEY);
    assert_eq!(
        server.payload(1),
        SNAPSHOT.as_bytes(),
        "the snapshot from before the restart must not survive it"
    );
}

#[test]
fn a_disconnected_client_is_cleaned_up_and_the_rest_keep_working() {
    let mut server = TestServer::start(SNAPSHOT);
    server.handshake(1, RFC_KEY);
    let _ = server.next_frame(1);
    server.handshake(2, RFC_KEY);
    let _ = server.next_frame(2);
    assert_eq!(server.hub.client_count(), 2);

    // The connection ends without a close, which is how a browser tab closing looks.
    server.send(1, &[]);
    assert_eq!(server.hub.client_count(), 1, "the departed client must be retired");

    server.hub.broadcast("still here");
    assert_eq!(server.payload(2), b"still here");
}

#[test]
fn the_default_port_is_the_reference_port() {
    assert_eq!(DEFAULT_PORT, 23313);
}

#[test]
fn a_quiet_client_is_let_go_once_it_is_no_longer_open() {
    let mut server = TestServer::start(SNAPSHOT);
    server.handshake(1, RFC_KEY);
    let idle = Ok(FrameRead::Idle);
    assert_eq!(server.hub.clients[0].next_read(&idle), ReadAction::Continue);
    server.hub.stop();
    assert_eq!(server.hub.clients[0].next_read(&idle), ReadAction::Close);
}

fn hex(digest: &[u8; 20]) -> String {
    digest.iter().map(|byte| format!("{byte:02x}")).collect()
}

#[test]
fn matches_the_published_vectors() {
    // FIPS 180-1 / RFC 3174.
    assert_eq!(hex(&sha1(b"")), "da39a3ee5e6b4b0d3255bfef95601890afd80709");
    assert_eq!(
        hex(&sha1(b"abc")),
        "a9993e364706816aba3e25717850c26c9cd0d89d"
    );
    // 56 bytes: the case where padding does not fit in the final block, so
    // a whole extra block is required.
    assert_eq!(
        hex(&sha1(
            b"abcdbcdecdefdefgefghfghighijhijkijkljklmklmnlmnomnopnopq"
        )),
        "84983e441c3bd26ebaae4aa1f95129e5e54670f1"
    );
    // Two blocks exactly, with no room for padding.
    assert_eq!(
        hex(&sha1(&[b'a'; 64])),
        "0098ba824b5c16427bd7a1122a5a442a25ec644d"
    );
}

#[test]
fn matches_the_long_message_vector() {
    // A million 'a's, the standard multi-block check.
    let mut hasher = Sha1::new();
    for _ in 0..1000 {
        hasher.update(&[b'a'; 1000]);
    }
    assert_eq!(
        hex(&hasher.finish()),
        "34aa973cd4c4daa4f61eeb2bdbad27316534016f"
    );
}

#[test]
fn streaming_in_pieces_matches_one_shot() {
    // The chunk boundaries walk across the 64-byte block edge in both
    // directions, which is where a buffer bug would show.
    let data: Vec<u8> = (0..300u32).map(|index| (index % 251) as u8).collect();
    let expected = sha1(&data);
    for chunk in [1usize, 7, 63, 64, 65, 128, 299] {
        let mut hasher = Sha1::new();
        for piece in data.chunks(chunk) {
            hasher.update(piece);
        }
        assert_eq!(hasher.finish(), expected, "chunk size {chunk}");
    }
    // And a zero-length update in the middle changes nothing.
    let mut hasher = Sha1::new();
    hasher.update(&data[..100]);
    hasher.update(&[]);
    hasher.update(&data[100..]);
    assert_eq!(hasher.finish(), expected);
}

#[test]
fn sha1_computes_the_rfc_6455_accept_value() {
    let key = "dGhlIHNhbXBsZSBub25jZQ==";
    let mut hasher = Sha1::new();
    hasher.update(key.as_bytes());
    hasher.update(b"258EAFA5-E914-47DA-95CA-C5AB0DC85B11");
    assert_eq!(
        b64_encode(&hasher.finish()),
        "s3pPLMBiTxaQ9kYGzzhZRbK+xOo="
    );
}

#[test]
fn a_head_without_an_end_is_given_up() {
    // No line ends, and the source is longer than a head may be.
    let endless = vec![b'a'; 20_000];
    assert_eq!(read_handshake(&endless), (None, 16_385));
    let mut handshake = Handshake::new();
    assert!(matches!(handshake.held(16_384), HeadStep::More));
    assert!(matches!(handshake.held(16_385), HeadStep::Refused));
    let line = b"GET /ws HTTP/1.1\r\n";
    assert!(matches!(handshake.line(line), HeadStep::More));
    assert!(matches!(handshake.held(16_384 - line.len()), HeadStep::More));
    assert!(matches!(handshake.held(16_385 - line.len()), HeadStep::Refused));
}

#[test]
fn frame_errors_are_told_in_words() {
    assert_eq!(FrameError::LengthHasMsbSet.to_string(), "frame length has its high bit set");
    assert_eq!(
        FrameError::PayloadTooLarge(99).to_string(),
        "frame payload of 99 bytes is too large"
    );
    let closed = read_frame(&[0x81], SourceEnd::Closed).0.unwrap_err();
    assert_eq!(closed.to_string(), "connection closed mid-frame");
    let stalled = read_frame(&[0x81, 2, b'a'], SourceEnd::Silent).0.unwrap_err();
    assert_eq!(stalled.to_string(), "the peer stalled mid-frame");
    // Any other failure speaks for itself.
    let reset = source_end(io_error(IoKind::Other, "connection reset by peer")).unwrap();
    let failed = read_frame(&[0x81], reset).0.unwrap_err();
    assert_eq!(failed.to_string(), "connection reset by peer");
}
