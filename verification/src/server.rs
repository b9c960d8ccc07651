//! What the live server decides: how it answers a handshake, what each client is sent, and
//! when a client is let go.
//!
//! The server accepts connections from its own machine. Each client has an outbox, so that a
//! broadcast never waits for a socket. A client takes part in broadcasts once its handshake
//! is complete. Its first message is the latest broadcast, or the snapshot at hand where
//! nothing was broadcast yet.
use crate::b64;
use crate::frame;
use crate::frame::{opcode, FrameError, FrameErrorView, FrameRead, FrameReadView};
use crate::lookup;
use crate::sha1;
use crate::text;
use std::collections::VecDeque;
use vstd::prelude::*;

verus! {

/// The port the server listens on unless told otherwise.
pub const DEFAULT_PORT: u16 = 23313;

/// The longest request head that is read.
pub const MAX_HEADERS_BYTES: usize = 16384;

/// What a key is hashed with (RFC 6455, section 1.3):
/// `258EAFA5-E914-47DA-95CA-C5AB0DC85B11`.
pub const WEBSOCKET_GUID: [u8; 36] = [
    50, 53, 56, 69, 65, 70, 65, 53, 45, 69, 57, 49, 52, 45, 52, 55, 68, 65, 45, 57, 53, 67, 65, 45,
    67, 53, 65, 66, 48, 68, 67, 56, 53, 66, 49, 49,
];

/// The line feed.
pub const LF: u8 = 10;

/// The carriage return.
pub const CR: u8 = 13;

/// The answer to a key.
pub open spec fn accept_value(key: Seq<u8>) -> Seq<char> {
    b64::b64_encoded(sha1::hash(key + WEBSOCKET_GUID@))
}

/// Base64 of the hash of a client's key and the protocol's identifier.
pub fn accept_key(key: &[u8]) -> (r: String)
    ensures
        r@ == accept_value(key@),
{
    let mut input: Vec<u8> = Vec::new();
    input.extend_from_slice(key);
    assert(input@ =~= key@);
    let mut i: usize = 0;
    assert(WEBSOCKET_GUID@.take(0) =~= Seq::empty());
    assert(input@ =~= key@ + WEBSOCKET_GUID@.take(0));
    while i < 36
        invariant
            i <= 36,
            input@ == key@ + WEBSOCKET_GUID@.take(i as int),
        decreases 36 - i,
    {
        input.push(WEBSOCKET_GUID[i]);
        i = i + 1;
        assert(input@ =~= key@ + WEBSOCKET_GUID@.take(i as int));
    }
    assert(WEBSOCKET_GUID@.take(36) =~= WEBSOCKET_GUID@);
    b64::b64_encode(sha1::sha1(input.as_slice()).as_slice())
}

/// The response that completes a handshake.
pub open spec fn switching_protocols(key: Seq<u8>) -> Seq<char> {
    "HTTP/1.1 101 Switching Protocols\r\nUpgrade: websocket\r\nConnection: Upgrade\r\nSec-WebSocket-Accept: "@
        + accept_value(key) + "\r\n\r\n"@
}

pub fn handshake_response(key: &[u8]) -> (r: String)
    ensures
        r@ == switching_protocols(key@),
{
    let mut out: String =
        "HTTP/1.1 101 Switching Protocols\r\nUpgrade: websocket\r\nConnection: Upgrade\r\nSec-WebSocket-Accept: ".to_owned();
    out.push_str(accept_key(key).as_str());
    out.push_str("\r\n\r\n");
    out
}

/// A line without the line feeds and carriage returns at its end.
pub open spec fn line_content(line: Seq<u8>) -> Seq<u8>
    decreases line.len(),
{
    if line.len() > 0 && (line.last() == LF || line.last() == CR) {
        line_content(line.drop_last())
    } else {
        line
    }
}

/// The position of the first byte `wanted` from `from` on, or the length.
pub open spec fn position_of(s: Seq<u8>, wanted: u8, from: int) -> int
    decreases s.len() - from,
{
    if from >= s.len() || s[from] == wanted {
        from
    } else {
        position_of(s, wanted, from + 1)
    }
}

/// A byte with an ASCII letter in lower case.
pub open spec fn lower_byte(b: u8) -> u8 {
    if 65 <= b <= 90 {
        (b + 32) as u8
    } else {
        b
    }
}

/// The name of the header that carries the key, `sec-websocket-key`.
pub const KEY_HEADER: [u8; 17] = [
    115, 101, 99, 45, 119, 101, 98, 115, 111, 99, 107, 101, 116, 45, 107, 101, 121,
];

/// A header value without the spaces and tabs at its start.
pub open spec fn value_content(s: Seq<u8>) -> Seq<u8>
    decreases s.len(),
{
    if s.len() > 0 && (s[0] == 32 || s[0] == 9) {
        value_content(s.skip(1))
    } else {
        s
    }
}

/// The key in a header line, whatever the case of the header's name.
pub open spec fn key_in_line(line: Seq<u8>) -> Option<Seq<u8>> {
    let colon = position_of(line, 58, 0);
    if colon < line.len() && line.take(colon).map_values(|b: u8| lower_byte(b)) == KEY_HEADER@ {
        Some(value_content(line.skip(colon + 1)))
    } else {
        None
    }
}

/// What was read of a request head.
pub struct HeadView {
    pub consumed: nat,
    /// The first key that was found.
    pub key: Option<Seq<u8>>,
}

/// What reading a line of a request head comes to.
pub enum HeadStepView {
    /// The next line is due.
    More,
    /// The head is complete.
    Done(Option<Seq<u8>>),
    /// The connection is let go.
    Refused,
}

/// What reading a line of a request head comes to.
#[derive(Debug)]
pub enum HeadStep {
    More,
    Done(Option<Vec<u8>>),
    Refused,
}

pub open spec fn bytes_of(key: Option<Vec<u8>>) -> Option<Seq<u8>> {
    match key {
        Some(bytes) => Some(bytes@),
        None => None,
    }
}

impl View for HeadStep {
    type V = HeadStepView;

    open spec fn view(&self) -> HeadStepView {
        match *self {
            HeadStep::More => HeadStepView::More,
            HeadStep::Done(key) => HeadStepView::Done(bytes_of(key)),
            HeadStep::Refused => HeadStepView::Refused,
        }
    }
}

/// A line with its line end is read. One without is where the connection ended, and a head
/// that is too long is given up.
pub open spec fn line_read(h: HeadView, line: Seq<u8>) -> (HeadStepView, HeadView) {
    let consumed = h.consumed + line.len();
    if line.len() == 0 || consumed > MAX_HEADERS_BYTES || line.last() != LF {
        (HeadStepView::Refused, h)
    } else if line_content(line).len() == 0 {
        (HeadStepView::Done(h.key), HeadView { consumed, key: h.key })
    } else {
        (
            HeadStepView::More,
            HeadView {
                consumed,
                key: match h.key {
                    Some(key) => Some(key),
                    None => key_in_line(line_content(line)),
                },
            },
        )
    }
}

/// A request head that is read line by line.
pub struct Handshake {
    consumed: usize,
    key: Option<Vec<u8>>,
}

impl View for Handshake {
    type V = HeadView;

    closed spec fn view(&self) -> HeadView {
        HeadView { consumed: self.consumed as nat, key: bytes_of(self.key) }
    }
}

/// Before the first line.
pub open spec fn no_head() -> HeadView {
    HeadView { consumed: 0, key: None }
}

fn trim_line_end(line: &[u8]) -> (r: &[u8])
    ensures
        r@ == line_content(line@),
{
    let mut end: usize = line.len();
    assert(line@.take(end as int) =~= line@);
    while end > 0 && (line[end - 1] == LF || line[end - 1] == CR)
        invariant
            end <= line@.len(),
            line_content(line@) == line_content(line@.take(end as int)),
        decreases end,
    {
        assert(line@.take(end as int).last() == line@[end - 1]);
        assert(line@.take(end as int).drop_last() =~= line@.take(end - 1));
        end = end - 1;
    }
    proof {
        if end > 0 {
            assert(line@.take(end as int).last() == line@[end - 1]);
        }
    }
    vstd::slice::slice_subrange(line, 0, end)
}

fn find_byte(s: &[u8], wanted: u8, from: usize) -> (r: usize)
    requires
        from <= s.len(),
    ensures
        r == position_of(s@, wanted, from as int),
        from <= r <= s.len(),
        r < s.len() ==> s@[r as int] == wanted,
{
    let mut i: usize = from;
    while i < s.len() && s[i] != wanted
        invariant
            from <= i <= s@.len(),
            position_of(s@, wanted, from as int) == position_of(s@, wanted, i as int),
        decreases s@.len() - i,
    {
        i = i + 1;
    }
    i
}

fn header_key(line: &[u8]) -> (r: Option<Vec<u8>>)
    ensures
        bytes_of(r) == key_in_line(line@),
{
    let colon: usize = find_byte(line, 58, 0);
    if colon >= line.len() {
        return None;
    }
    let ghost name = line@.take(colon as int).map_values(|b: u8| lower_byte(b));
    if colon != 17 {
        assert(name.len() != KEY_HEADER@.len());
        return None;
    }
    let mut i: usize = 0;
    while i < 17
        invariant
            i <= 17,
            colon == 17,
            colon < line@.len(),
            name == line@.take(colon as int).map_values(|b: u8| lower_byte(b)),
            key_in_line(line@) is Some ==> name == KEY_HEADER@,
            forall|k: int| 0 <= k < i ==> name[k] == KEY_HEADER@[k],
        decreases 17 - i,
    {
        let b: u8 = line[i];
        let lower: u8 = if b >= 65 && b <= 90 {
            b + 32
        } else {
            b
        };
        assert(name[i as int] == lower);
        if lower != KEY_HEADER[i] {
            return None;
        }
        i = i + 1;
    }
    assert(name =~= KEY_HEADER@);
    let mut start: usize = colon + 1;
    while start < line.len() && (line[start] == 32 || line[start] == 9)
        invariant
            colon < start <= line@.len(),
            value_content(line@.skip(colon + 1)) == value_content(line@.skip(start as int)),
        decreases line@.len() - start,
    {
        assert(line@.skip(start as int)[0] == line@[start as int]);
        assert(line@.skip(start as int).skip(1) =~= line@.skip(start + 1));
        start = start + 1;
    }
    proof {
        if start < line@.len() {
            assert(line@.skip(start as int)[0] == line@[start as int]);
        }
        assert(line@.subrange(start as int, line@.len() as int) =~= line@.skip(start as int));
    }
    Some(vstd::slice::slice_to_vec(vstd::slice::slice_subrange(line, start, line.len())))
}

impl Handshake {
    pub fn new() -> (r: Handshake)
        ensures
            r@ == no_head(),
    {
        Handshake { consumed: 0, key: None }
    }

    /// Takes in the next line, with its line end. An empty one says that the connection
    /// ended.
    pub fn line(&mut self, line: &[u8]) -> (r: HeadStep)
        ensures
            (r@, final(self)@) == line_read(old(self)@, line@),
    {
        if line.len() == 0 || self.consumed > MAX_HEADERS_BYTES || line.len() > MAX_HEADERS_BYTES
            - self.consumed || line[line.len() - 1] != LF {
            return HeadStep::Refused;
        }
        let content: &[u8] = trim_line_end(line);
        self.consumed = self.consumed + line.len();
        if content.len() == 0 {
            return HeadStep::Done(
                match &self.key {
                    Some(key) => Some(vstd::slice::slice_to_vec(key.as_slice())),
                    None => None,
                },
            );
        }
        if self.key.is_none() {
            self.key = header_key(content);
        }
        HeadStep::More
    }

    /// Whether to go on with `n` bytes held of a line that has not ended yet: a head that never
    /// ends is given up once it is too long.
    pub fn held(&self, n: usize) -> (r: HeadStep)
        ensures
            r@ == if self@.consumed + n > MAX_HEADERS_BYTES {
                HeadStepView::Refused
            } else {
                HeadStepView::More
            },
    {
        if self.consumed > MAX_HEADERS_BYTES || n > MAX_HEADERS_BYTES - self.consumed {
            HeadStep::Refused
        } else {
            HeadStep::More
        }
    }

    /// Whether to go on when a wait for the head has timed out.
    pub fn timed_out(&self, deadline_passed: bool) -> (r: HeadStep)
        ensures
            r@ == if deadline_passed {
                HeadStepView::Refused
            } else {
                HeadStepView::More
            },
    {
        if deadline_passed {
            HeadStep::Refused
        } else {
            HeadStep::More
        }
    }
}

/// Where the line that starts at `at` ends, its line feed included.
pub open spec fn line_end(source: Seq<u8>, at: int) -> int {
    let feed = position_of(source, LF, at);
    if feed < source.len() {
        feed + 1
    } else {
        source.len() as int
    }
}

/// The head in a source of bytes, from `at` on: the key, if there is one, and where the head
/// ends.
pub open spec fn head_from(h: HeadView, source: Seq<u8>, at: int) -> (Option<Seq<u8>>, int)
    decreases source.len() - at,
{
    if at >= source.len() {
        (None, at)
    } else {
        let end = line_end(source, at);
        match line_read(h, source.subrange(at, end)) {
            (HeadStepView::Done(key), _) => (key, end),
            (HeadStepView::Refused, _) => (None, end),
            (HeadStepView::More, next) => if end <= at {
                (None, end)
            } else {
                head_from(next, source, end)
            },
        }
    }
}

/// As much of a source as is looked at: a head that is not complete by then is too long.
pub open spec fn looked_at(source: Seq<u8>) -> Seq<u8> {
    if source.len() > MAX_HEADERS_BYTES {
        source.take(MAX_HEADERS_BYTES + 1)
    } else {
        source
    }
}

/// The head at the start of a source: the key, if there is one, and where the head ends.
pub open spec fn head_of(source: Seq<u8>) -> (Option<Seq<u8>>, int) {
    head_from(no_head(), looked_at(source), 0)
}

/// Reads the request head at the start of `source`, behind which the connection ends. Gives
/// the key, if the head is complete and has one, and where the head ends: what follows it is
/// left alone. Of a head that is too long, one byte more than it may have is read.
pub fn read_handshake(source: &[u8]) -> (r: (Option<Vec<u8>>, usize))
    ensures
        (bytes_of(r.0), r.1 as int) == head_of(source@),
{
    let total: usize = if source.len() > MAX_HEADERS_BYTES {
        MAX_HEADERS_BYTES + 1
    } else {
        source.len()
    };
    let seen: &[u8] = vstd::slice::slice_subrange(source, 0, total);
    assert(seen@ =~= looked_at(source@));
    let mut head: Handshake = Handshake::new();
    let mut at: usize = 0;
    while at < total
        invariant
            at <= total,
            total == seen@.len(),
            seen@ == looked_at(source@),
            head_of(source@) == head_from(head@, seen@, at as int),
        decreases seen@.len() - at,
    {
        let feed: usize = find_byte(seen, LF, at);
        let end: usize = if feed < total {
            feed + 1
        } else {
            total
        };
        match head.line(vstd::slice::slice_subrange(seen, at, end)) {
            HeadStep::Done(key) => {
                return (key, end);
            },
            HeadStep::Refused => {
                return (None, end);
            },
            HeadStep::More => {},
        }
        at = end;
    }
    (None, at)
}

/// Something to be written to a client.
#[derive(Debug, Clone, PartialEq, Eq)]
pub enum Body {
    /// Text that is framed when it is written.
    Text(String),
    /// A frame.
    Raw(Vec<u8>),
}

/// What a [`Body`] holds.
pub enum BodyView {
    Text(Seq<char>),
    Raw(Seq<u8>),
}

impl View for Body {
    type V = BodyView;

    open spec fn view(&self) -> BodyView {
        match *self {
            Body::Text(text) => BodyView::Text(text@),
            Body::Raw(bytes) => BodyView::Raw(bytes@),
        }
    }
}

/// The bytes that are written for a body.
pub open spec fn wire(body: BodyView) -> Seq<u8> {
    match body {
        BodyView::Text(text) => frame::encoded(opcode::TEXT, vstd::utf8::encode_utf8(text)),
        BodyView::Raw(bytes) => bytes,
    }
}

impl Body {
    pub fn to_bytes(&self) -> (r: Vec<u8>)
        ensures
            r@ == wire(self@),
    {
        match self {
            Body::Text(text) => frame::encode_text(text.as_str()),
            Body::Raw(bytes) => vstd::slice::slice_to_vec(bytes.as_slice()),
        }
    }
}

/// One connection.
#[derive(Debug)]
pub struct Client {
    pub id: u64,
    /// Whether its handshake is complete and announced.
    pub registered: bool,
    /// Whether it is open for writing.
    pub open: bool,
    /// Whether a close is to be answered.
    pub close_after_send: bool,
    pub outbox: VecDeque<Body>,
}

/// What a [`Client`] holds.
pub struct ClientView {
    pub id: u64,
    pub registered: bool,
    pub open: bool,
    pub close_after_send: bool,
    pub outbox: Seq<BodyView>,
}

pub open spec fn outbox_view(outbox: Seq<Body>) -> Seq<BodyView> {
    outbox.map_values(|b: Body| b@)
}

impl View for Client {
    type V = ClientView;

    open spec fn view(&self) -> ClientView {
        ClientView {
            id: self.id,
            registered: self.registered,
            open: self.open,
            close_after_send: self.close_after_send,
            outbox: outbox_view(self.outbox@),
        }
    }
}

/// The connections of a server, and the latest broadcast.
#[derive(Debug)]
pub struct Hub {
    pub running: bool,
    pub clients: Vec<Client>,
    pub latest: Option<String>,
}

/// What a [`Hub`] holds.
pub struct HubView {
    pub running: bool,
    pub clients: Seq<ClientView>,
    pub latest: Option<Seq<char>>,
}

pub open spec fn clients_view(clients: Seq<Client>) -> Seq<ClientView> {
    clients.map_values(|c: Client| c@)
}

pub open spec fn text_of(text: Option<String>) -> Option<Seq<char>> {
    match text {
        Some(s) => Some(s@),
        None => None,
    }
}

impl View for Hub {
    type V = HubView;

    open spec fn view(&self) -> HubView {
        HubView {
            running: self.running,
            clients: clients_view(self.clients@),
            latest: text_of(self.latest),
        }
    }
}

/// The condition to be the client with an id.
pub open spec fn is_client(id: u64) -> spec_fn(ClientView) -> bool {
    |c: ClientView| c.id == id
}

/// The client with an id, changed.
pub open spec fn changed(h: HubView, id: u64, f: spec_fn(ClientView) -> ClientView) -> HubView {
    let i = lookup::index_first(h.clients, is_client(id));
    if i < h.clients.len() {
        HubView { clients: h.clients.update(i, f(h.clients[i])), ..h }
    } else {
        h
    }
}

/// A client with something more to be written.
pub open spec fn queued(c: ClientView, body: BodyView) -> ClientView {
    ClientView { outbox: c.outbox.push(body), ..c }
}

/// A broadcast reaches the clients whose handshake is complete, and is remembered.
pub open spec fn broadcasted(h: HubView, text: Seq<char>) -> HubView {
    if h.running {
        HubView {
            latest: Some(text),
            clients: h.clients.map_values(
                |c: ClientView|
                    if c.registered {
                        queued(c, BodyView::Text(text))
                    } else {
                        c
                    },
            ),
            ..h
        }
    } else {
        h
    }
}

/// What a client is sent first: the latest broadcast, or else the snapshot. An empty text is
/// not sent.
pub open spec fn first_payload(h: HubView, snapshot: Option<Seq<char>>) -> Option<Seq<char>> {
    let initial = match h.latest {
        Some(text) => Some(text),
        None => snapshot,
    };
    match initial {
        Some(text) => if text.len() == 0 {
            None
        } else {
            Some(text)
        },
        None => None,
    }
}

/// A client takes part from here on.
pub open spec fn announced(c: ClientView, initial: Option<Seq<char>>) -> ClientView {
    let c = ClientView { registered: true, ..c };
    match initial {
        Some(text) => queued(c, BodyView::Text(text)),
        None => c,
    }
}

/// What a client's sender does next.
pub enum SendActionView {
    /// Wait until something changes.
    Wait,
    /// Answer the close, and let the client go.
    CloseReply,
    /// Stop: the client is gone.
    Leave,
    /// Write the oldest body.
    Write(BodyView),
}

/// What a client's sender does next.
#[derive(Debug)]
pub enum SendAction {
    Wait,
    CloseReply,
    Leave,
    Write(Body),
}

impl View for SendAction {
    type V = SendActionView;

    open spec fn view(&self) -> SendActionView {
        match *self {
            SendAction::Wait => SendActionView::Wait,
            SendAction::CloseReply => SendActionView::CloseReply,
            SendAction::Leave => SendActionView::Leave,
            SendAction::Write(body) => SendActionView::Write(body@),
        }
    }
}

/// A close goes before what is still to be written; what is to be written goes out in the
/// order it came in.
pub open spec fn send_action(c: ClientView) -> (SendActionView, ClientView) {
    if c.close_after_send {
        (SendActionView::CloseReply, c)
    } else if c.outbox.len() > 0 {
        (
            SendActionView::Write(c.outbox[0]),
            ClientView { outbox: c.outbox.skip(1), ..c },
        )
    } else if c.open {
        (SendActionView::Wait, c)
    } else {
        (SendActionView::Leave, c)
    }
}

/// What a client's reader does next.
#[derive(Debug, Clone, Copy, PartialEq, Eq, Structural)]
pub enum ReadAction {
    /// Read the next frame.
    Continue,
    /// Stop reading; the sender answers the close.
    Stop,
    /// Let the client go.
    Close,
}

/// A close is answered by the sender, a ping with its payload. Other frames are dropped. A
/// quiet client is let go once it is no longer open.
pub open spec fn read_action(c: ClientView, read: Result<FrameReadView, FrameErrorView>) -> (
    ReadAction,
    ClientView,
) {
    match read {
        Ok(FrameReadView::Frame(f)) => if f.opcode == opcode::CLOSE {
            (ReadAction::Stop, ClientView { close_after_send: true, ..c })
        } else if f.opcode == opcode::PING {
            (
                ReadAction::Continue,
                queued(c, BodyView::Raw(frame::encoded(opcode::PONG, f.payload))),
            )
        } else {
            (ReadAction::Continue, c)
        },
        Ok(FrameReadView::Idle) => (
            if c.open {
                ReadAction::Continue
            } else {
                ReadAction::Close
            },
            c,
        ),
        _ => (ReadAction::Close, c),
    }
}

impl Client {
    /// Queues something to be written.
    pub fn push(&mut self, body: Body)
        ensures
            final(self)@ == queued(old(self)@, body@),
    {
        let ghost before = self.outbox@;
        self.outbox.push_back(body);
        assert(outbox_view(self.outbox@) =~= outbox_view(before).push(body@));
    }

    /// What the sender does next.
    pub fn next_send(&mut self) -> (r: SendAction)
        ensures
            (r@, final(self)@) == send_action(old(self)@),
    {
        if self.close_after_send {
            return SendAction::CloseReply;
        }
        let ghost before = self.outbox@;
        if let Some(body) = self.outbox.pop_front() {
            assert(outbox_view(self.outbox@) =~= outbox_view(before).skip(1));
            return SendAction::Write(body);
        }
        if self.open {
            SendAction::Wait
        } else {
            SendAction::Leave
        }
    }

    /// What the reader does after a frame, or after none came.
    pub fn next_read(&mut self, read: &Result<FrameRead, FrameError>) -> (r: ReadAction)
        ensures
            (r, final(self)@) == read_action(old(self)@, frame::outcome(*read)),
    {
        match read {
            Ok(FrameRead::Frame(f)) => {
                if f.opcode == opcode::CLOSE {
                    self.close_after_send = true;
                    ReadAction::Stop
                } else {
                    if f.opcode == opcode::PING {
                        self.push(Body::Raw(frame::encode_pong(f.payload.as_slice())));
                    }
                    ReadAction::Continue
                }
            },
            Ok(FrameRead::Idle) => if self.open {
                ReadAction::Continue
            } else {
                ReadAction::Close
            },
            Ok(FrameRead::Ended) => ReadAction::Close,
            Err(_) => ReadAction::Close,
        }
    }
}

/// The number of clients whose handshake is complete.
pub open spec fn registered_count(clients: Seq<ClientView>) -> nat
    decreases clients.len(),
{
    if clients.len() == 0 {
        0
    } else {
        registered_count(clients.drop_last()) + if clients.last().registered {
            1nat
        } else {
            0nat
        }
    }
}

/// A client as it is accepted.
pub open spec fn accepted(id: u64) -> ClientView {
    ClientView {
        id,
        registered: false,
        open: false,
        close_after_send: false,
        outbox: Seq::empty(),
    }
}

/// A client that is told to go.
pub open spec fn dismissed(c: ClientView) -> ClientView {
    ClientView { open: false, close_after_send: true, ..c }
}

/// A connection is taken in.
pub open spec fn with_client(h: HubView, id: u64) -> HubView {
    HubView { clients: h.clients.push(accepted(id)), ..h }
}

/// A client is opened for writing.
pub open spec fn with_open(h: HubView, id: u64) -> HubView {
    changed(h, id, |c: ClientView| ClientView { open: true, ..c })
}

/// A client is announced.
pub open spec fn with_announced(h: HubView, id: u64, snapshot: Option<Seq<char>>) -> HubView {
    changed(h, id, |c: ClientView| announced(c, first_payload(h, snapshot)))
}

/// A client is let go.
pub open spec fn without_client(h: HubView, id: u64) -> HubView {
    HubView { clients: lookup::cut(h.clients, is_client(id)), ..h }
}

/// The server is stopped.
pub open spec fn stopped(h: HubView) -> HubView {
    HubView { running: false, clients: h.clients.map_values(|c: ClientView| dismissed(c)), ..h }
}

impl Hub {
    pub fn new() -> (r: Hub)
        ensures
            r@ == (HubView { running: true, clients: Seq::empty(), latest: None }),
    {
        let r = Hub { running: true, clients: Vec::new(), latest: None };
        assert(r@.clients =~= Seq::empty());
        r
    }

    /// Where the client with an id stands, or the number of clients.
    pub fn index_of(&self, id: u64) -> (r: usize)
        ensures
            r == lookup::index_first(self@.clients, is_client(id)),
            r <= self.clients@.len(),
    {
        let ghost all = self@.clients;
        let mut i: usize = 0;
        while i < self.clients.len()
            invariant
                i <= self.clients@.len(),
                all == self@.clients,
                forall|k: int| 0 <= k < i ==> !is_client(id)(#[trigger] all[k]),
            decreases self.clients@.len() - i,
        {
            assert(all[i as int] == self.clients@[i as int]@);
            if self.clients[i].id == id {
                proof {
                    lookup::lemma_find_first(all, is_client(id), i as int);
                }
                return i;
            }
            i = i + 1;
        }
        proof {
            lookup::lemma_find_first(all, is_client(id), i as int);
        }
        i
    }

    /// Takes in a connection, before its handshake.
    pub fn accept(&mut self, id: u64)
        ensures
            final(self)@ == (HubView {
                clients: old(self)@.clients.push(accepted(id)),
                ..old(self)@
            }),
            final(self)@ == with_client(old(self)@, id),
    {
        let client = Client {
            id,
            registered: false,
            open: false,
            close_after_send: false,
            outbox: VecDeque::new(),
        };
        assert(client@.outbox =~= Seq::empty());
        let ghost before = self.clients@;
        self.clients.push(client);
        assert(clients_view(self.clients@) =~= clients_view(before).push(client@));
    }

    /// Opens a client for writing: its handshake was answered.
    pub fn open(&mut self, id: u64)
        ensures
            final(self)@ == changed(
                old(self)@,
                id,
                |c: ClientView| ClientView { open: true, ..c },
            ),
            final(self)@ == with_open(old(self)@, id),
    {
        let i: usize = self.index_of(id);
        if i < self.clients.len() {
            let ghost before = self.clients@;
            self.clients[i].open = true;
            assert(clients_view(self.clients@) =~= clients_view(before).update(
                i as int,
                ClientView { open: true, ..before[i as int]@ },
            ));
        }
    }

    /// Lets a client take part, and queues its first message.
    pub fn announce(&mut self, id: u64, snapshot: Option<String>)
        ensures
            final(self)@ == changed(
                old(self)@,
                id,
                |c: ClientView| announced(c, first_payload(old(self)@, text_of(snapshot))),
            ),
            final(self)@ == with_announced(old(self)@, id, text_of(snapshot)),
    {
        let initial: Option<String> = match &self.latest {
            Some(text) => Some(text.clone()),
            None => snapshot,
        };
        let i: usize = self.index_of(id);
        if i < self.clients.len() {
            let ghost before = self.clients@;
            self.clients[i].registered = true;
            if let Some(text) = initial {
                if text::chars_of(text.as_str()).len() > 0 {
                    self.clients[i].push(Body::Text(text));
                }
            }
            assert(clients_view(self.clients@) =~= clients_view(before).update(
                i as int,
                announced(before[i as int]@, first_payload(old(self)@, text_of(snapshot))),
            ));
        }
    }

    /// How many clients take part.
    pub fn client_count(&self) -> (r: usize)
        ensures
            r == registered_count(self@.clients),
    {
        let ghost all = self@.clients;
        let mut count: usize = 0;
        let mut i: usize = 0;
        assert(all.take(0) =~= Seq::empty());
        while i < self.clients.len()
            invariant
                i <= self.clients@.len(),
                all == self@.clients,
                count == registered_count(all.take(i as int)),
                count <= i,
            decreases self.clients@.len() - i,
        {
            assert(all[i as int] == self.clients@[i as int]@);
            assert(all.take(i + 1).drop_last() =~= all.take(i as int));
            assert(all.take(i + 1).last() == all[i as int]);
            if self.clients[i].registered {
                count = count + 1;
            }
            i = i + 1;
        }
        assert(all.take(i as int) =~= all);
        count
    }

    /// Queues a text for every client that takes part. A server that is stopped drops it.
    pub fn broadcast(&mut self, text: &str)
        ensures
            final(self)@ == broadcasted(old(self)@, text@),
    {
        if !self.running {
            return;
        }
        let ghost before = self@.clients;
        let ghost sent = broadcasted(self@, text@).clients;
        self.latest = Some(text.to_owned());
        let mut i: usize = 0;
        while i < self.clients.len()
            invariant
                i <= self.clients@.len(),
                self.running,
                text_of(self.latest) == Some(text@),
                before.len() == sent.len(),
                self.clients@.len() == before.len(),
                sent == before.map_values(
                    |c: ClientView|
                        if c.registered {
                            queued(c, BodyView::Text(text@))
                        } else {
                            c
                        },
                ),
                forall|k: int| 0 <= k < i ==> (#[trigger] self.clients@[k])@ == sent[k],
                forall|k: int|
                    i <= k < before.len() ==> (#[trigger] self.clients@[k])@ == before[k],
            decreases self.clients@.len() - i,
        {
            if self.clients[i].registered {
                self.clients[i].push(Body::Text(text.to_owned()));
            }
            i = i + 1;
        }
        assert(clients_view(self.clients@) =~= sent);
    }

    /// Lets a client go.
    pub fn remove(&mut self, id: u64)
        ensures
            final(self)@ == (HubView {
                clients: lookup::cut(old(self)@.clients, is_client(id)),
                ..old(self)@
            }),
            final(self)@ == without_client(old(self)@, id),
    {
        let i: usize = self.index_of(id);
        if i < self.clients.len() {
            let ghost before = self.clients@;
            let _gone: Client = self.clients.remove(i);
            assert(clients_view(self.clients@) =~= clients_view(before).remove(i as int));
        }
    }

    /// Stops the server: every client is told to go.
    pub fn stop(&mut self)
        ensures
            final(self)@ == (HubView {
                running: false,
                clients: old(self)@.clients.map_values(|c: ClientView| dismissed(c)),
                ..old(self)@
            }),
            final(self)@ == stopped(old(self)@),
    {
        let ghost before = self@.clients;
        self.running = false;
        let mut i: usize = 0;
        while i < self.clients.len()
            invariant
                i <= self.clients@.len(),
                !self.running,
                self.latest == old(self).latest,
                self.clients@.len() == before.len(),
                forall|k: int| 0 <= k < i ==> (#[trigger] self.clients@[k])@ == dismissed(before[k]),
                forall|k: int|
                    i <= k < before.len() ==> (#[trigger] self.clients@[k])@ == before[k],
            decreases self.clients@.len() - i,
        {
            self.clients[i].open = false;
            self.clients[i].close_after_send = true;
            i = i + 1;
        }
        assert(clients_view(self.clients@) =~= before.map_values(|c: ClientView| dismissed(c)));
    }
}

/// Whether a source of bytes holds a whole request head.
pub open spec fn completes(h: HeadView, source: Seq<u8>, at: int) -> bool
    decreases source.len() - at,
{
    let end = line_end(source, at);
    at < source.len() && match line_read(h, source.subrange(at, end)) {
        (HeadStepView::Done(_), _) => true,
        (HeadStepView::Refused, _) => false,
        (HeadStepView::More, next) => end > at && completes(next, source, end),
    }
}

proof fn lemma_position(s: Seq<u8>, rest: Seq<u8>, wanted: u8, from: int)
    requires
        0 <= from <= s.len(),
    ensures
        from <= position_of(s, wanted, from) <= s.len(),
        position_of(s, wanted, from) < s.len() ==> s[position_of(s, wanted, from)] == wanted
            && position_of(s + rest, wanted, from) == position_of(s, wanted, from),
    decreases s.len() - from,
{
    if from < s.len() && s[from] != wanted {
        lemma_position(s, rest, wanted, from + 1);
        assert((s + rest)[from] == s[from]);
    }
}

proof fn lemma_head_ignores_rest(h: HeadView, source: Seq<u8>, rest: Seq<u8>, at: int)
    requires
        0 <= at,
        completes(h, source, at),
    ensures
        head_from(h, source + rest, at) == head_from(h, source, at),
    decreases source.len() - at,
{
    let both = source + rest;
    let end = line_end(source, at);
    lemma_position(source, rest, LF, at);
    let line = source.subrange(at, end);
    if position_of(source, LF, at) == source.len() {
        lemma_no_feed(source, LF, at, source.len() - 1);
        assert(line.last() == source[source.len() - 1]);
    }
    assert(line_end(both, at) == end);
    assert(both.subrange(at, end) =~= line);
    match line_read(h, line) {
        (HeadStepView::More, next) => {
            lemma_head_ignores_rest(next, source, rest, end);
        },
        _ => {},
    }
}

proof fn lemma_no_feed(s: Seq<u8>, wanted: u8, from: int, i: int)
    requires
        0 <= from <= i < s.len(),
        position_of(s, wanted, from) == s.len(),
    ensures
        s[i] != wanted,
    decreases i - from,
{
    if from < i {
        lemma_no_feed(s, wanted, from + 1, i);
    }
}

/// What follows a whole request head makes no difference to it, and is not consumed.
pub proof fn law_what_follows_the_head_is_left_alone(head: Seq<u8>, rest: Seq<u8>)
    requires
        completes(no_head(), head, 0),
    ensures
        head_of(head + rest) == head_of(head),
{
    if head.len() > MAX_HEADERS_BYTES {
        assert(looked_at(head + rest) =~= looked_at(head));
    } else {
        let more = looked_at(head + rest).skip(head.len() as int);
        assert(looked_at(head + rest) =~= head + more);
        lemma_head_ignores_rest(no_head(), head, more, 0);
    }
}

proof fn lemma_head_within(h: HeadView, source: Seq<u8>, at: int)
    requires
        0 <= at <= source.len(),
    ensures
        at <= head_from(h, source, at).1 <= source.len(),
    decreases source.len() - at,
{
    if at < source.len() {
        lemma_position(source, Seq::empty(), LF, at);
        let end = line_end(source, at);
        match line_read(h, source.subrange(at, end)) {
            (HeadStepView::More, next) => {
                lemma_head_within(next, source, end);
            },
            _ => {},
        }
    }
}

/// A key comes out of a head that is complete in as many bytes as a head may have.
proof fn lemma_head_in_time(h: HeadView, source: Seq<u8>, at: int)
    requires
        0 <= at <= source.len(),
        source.len() == MAX_HEADERS_BYTES + 1,
        h.consumed == at,
    ensures
        head_from(h, source, at).0 is Some ==> completes(h, source.take(MAX_HEADERS_BYTES as int), at),
    decreases source.len() - at,
{
    if at < source.len() {
        let short = source.take(MAX_HEADERS_BYTES as int);
        assert(short + seq![source.last()] =~= source);
        lemma_position(source, Seq::empty(), LF, at);
        let end = line_end(source, at);
        let line = source.subrange(at, end);
        match line_read(h, line) {
            (HeadStepView::Refused, _) => {},
            (step, next) => {
                assert(end <= MAX_HEADERS_BYTES);
                assert(line.last() == source[end - 1]);
                lemma_position(short, seq![source.last()], LF, at);
                if position_of(short, LF, at) == short.len() {
                    lemma_no_feed(short, LF, at, end - 1);
                    assert(short[end - 1] == source[end - 1]);
                }
                assert(line_end(short, at) == end);
                assert(short.subrange(at, end) =~= line);
                if step is More {
                    lemma_head_in_time(next, source, end);
                }
            },
        }
    }
}

/// The handshake is bounded: of no request head are more bytes read than a head may have and
/// one more, and one that is not complete in as many as it may have gives no key.
pub proof fn law_the_handshake_is_bounded(source: Seq<u8>)
    ensures
        head_of(source).1 <= MAX_HEADERS_BYTES + 1,
        source.len() > MAX_HEADERS_BYTES && !completes(
            no_head(),
            source.take(MAX_HEADERS_BYTES as int),
            0,
        ) ==> head_of(source).0 is None,
{
    lemma_head_within(no_head(), looked_at(source), 0);
    if source.len() > MAX_HEADERS_BYTES {
        lemma_head_in_time(no_head(), looked_at(source), 0);
        assert(looked_at(source).take(MAX_HEADERS_BYTES as int) =~= source.take(
            MAX_HEADERS_BYTES as int,
        ));
    }
}

/// A client that comes after a broadcast is sent that broadcast, whatever the snapshot is.
pub proof fn law_late_clients_get_the_latest_broadcast(
    h: HubView,
    text: Seq<char>,
    snapshot: Option<Seq<char>>,
)
    requires
        h.running,
        text.len() > 0,
    ensures
        first_payload(broadcasted(h, text), snapshot) == Some(text),
{
}

/// A broadcast is queued last for each client that takes part, and changes nothing for the
/// others.
pub proof fn law_broadcast_reaches_registered_clients(h: HubView, text: Seq<char>, i: int)
    requires
        h.running,
        0 <= i < h.clients.len(),
    ensures
        h.clients[i].registered ==> broadcasted(h, text).clients[i] == queued(
            h.clients[i],
            BodyView::Text(text),
        ),
        !h.clients[i].registered ==> broadcasted(h, text).clients[i] == h.clients[i],
        registered_count(broadcasted(h, text).clients) == registered_count(h.clients),
{
    lemma_count_of_broadcast(h.clients, text);
}

proof fn lemma_count_of_broadcast(clients: Seq<ClientView>, text: Seq<char>)
    ensures
        registered_count(
            clients.map_values(
                |c: ClientView|
                    if c.registered {
                        queued(c, BodyView::Text(text))
                    } else {
                        c
                    },
            ),
        ) == registered_count(clients),
    decreases clients.len(),
{
    let f = |c: ClientView|
        if c.registered {
            queued(c, BodyView::Text(text))
        } else {
            c
        };
    if clients.len() > 0 {
        lemma_count_of_broadcast(clients.drop_last(), text);
        assert(clients.map_values(f).drop_last() =~= clients.drop_last().map_values(f));
    }
}

/// A server that is stopped drops broadcasts.
pub proof fn law_stopped_servers_drop_broadcasts(h: HubView, text: Seq<char>)
    requires
        !h.running,
    ensures
        broadcasted(h, text) == h,
{
}

/// What a sender writes until it has to wait.
pub open spec fn written(c: ClientView) -> Seq<BodyView>
    decreases c.outbox.len(),
{
    match send_action(c) {
        (SendActionView::Write(body), next) => if next.outbox.len() < c.outbox.len() {
            seq![body] + written(next)
        } else {
            seq![body]
        },
        _ => Seq::empty(),
    }
}

/// A sender writes all that is queued, in the order it was queued.
pub proof fn law_messages_go_out_in_order(c: ClientView)
    requires
        !c.close_after_send,
    ensures
        written(c) == c.outbox,
    decreases c.outbox.len(),
{
    if c.outbox.len() > 0 {
        let next = ClientView { outbox: c.outbox.skip(1), ..c };
        law_messages_go_out_in_order(next);
        assert(seq![c.outbox[0]] + c.outbox.skip(1) =~= c.outbox);
    } else {
        assert(c.outbox =~= Seq::empty());
    }
}

/// A ping is answered with its payload, which the peer can read back.
pub proof fn law_pings_are_answered(c: ClientView, payload: Seq<u8>)
    requires
        payload.len() <= frame::MAX_INBOUND_PAYLOAD,
    ensures
        ({
            let ping = Ok::<FrameReadView, FrameErrorView>(
                FrameReadView::Frame(frame::FrameView { opcode: opcode::PING, payload }),
            );
            let (action, after) = read_action(c, ping);
            &&& action == ReadAction::Continue
            &&& after.outbox.len() == c.outbox.len() + 1
            &&& frame::frame_in(wire(after.outbox.last()), frame::SourceEndView::Closed).0 == Ok::<
                FrameReadView,
                FrameErrorView,
            >(FrameReadView::Frame(frame::FrameView { opcode: opcode::PONG, payload }))
        }),
{
    let pong = frame::encoded(opcode::PONG, payload);
    frame::law_reading_undoes_encoding(
        opcode::PONG,
        payload,
        Seq::empty(),
        frame::SourceEndView::Closed,
    );
    assert(pong + Seq::<u8>::empty() =~= pong);
}

/// Whether a header has the name that carries the key, in whatever case.
pub open spec fn names_the_key(name: Seq<u8>) -> bool {
    let lower = "sec-websocket-key"@;
    &&& name.len() == lower.len()
    &&& forall|i: int|
        0 <= i < name.len() ==> {
            let b = #[trigger] name[i] as int;
            let c = lower[i] as int;
            b == c || (97 <= c <= 122 && b + 32 == c)
        }
}

/// Whether some bytes are spaces and tabs.
pub open spec fn is_blank(s: Seq<u8>) -> bool {
    forall|i: int| 0 <= i < s.len() ==> #[trigger] s[i] == 32 || s[i] == 9
}

proof fn lemma_key_name(name: Seq<u8>)
    ensures
        names_the_key(name) <==> name.map_values(|b: u8| lower_byte(b)) == KEY_HEADER@,
        names_the_key(name) ==> forall|i: int| 0 <= i < name.len() ==> #[trigger] name[i] != 58,
{
    reveal_strlit("sec-websocket-key");
    let text = "sec-websocket-key"@;
    let lower = name.map_values(|b: u8| lower_byte(b));
    assert forall|i: int| 0 <= i < 17 implies #[trigger] text[i] as int == KEY_HEADER@[i] && (
    KEY_HEADER@[i] == 45 || 97 <= KEY_HEADER@[i] <= 122) by {}
    if names_the_key(name) {
        assert forall|i: int| 0 <= i < name.len() implies #[trigger] lower[i] == KEY_HEADER@[i] by {
            assert(name[i] as int == text[i] as int || name[i] as int + 32 == text[i] as int);
        }
        assert(lower =~= KEY_HEADER@);
        assert forall|i: int| 0 <= i < name.len() implies #[trigger] name[i] != 58 by {
            assert(name[i] as int == text[i] as int || name[i] as int + 32 == text[i] as int);
        }
    }
    if lower == KEY_HEADER@ {
        assert(lower.len() == name.len());
        assert(KEY_HEADER@.len() == 17);
        assert forall|i: int| 0 <= i < name.len() implies ({
            let b = #[trigger] name[i] as int;
            let c = text[i] as int;
            b == c || (97 <= c <= 122 && b + 32 == c)
        }) by {
            assert(lower[i] == KEY_HEADER@[i]);
        }
    }
}

proof fn lemma_first_colon(s: Seq<u8>, at: int, from: int)
    requires
        0 <= from <= at < s.len(),
        s[at] == 58,
        forall|i: int| from <= i < at ==> #[trigger] s[i] != 58,
    ensures
        position_of(s, 58, from) == at,
    decreases at - from,
{
    if from < at {
        lemma_first_colon(s, at, from + 1);
    }
}

proof fn lemma_blanks_skipped(blanks: Seq<u8>, key: Seq<u8>)
    requires
        is_blank(blanks),
        key.len() > 0 ==> key[0] != 32 && key[0] != 9,
    ensures
        value_content(blanks + key) == key,
    decreases blanks.len(),
{
    if blanks.len() == 0 {
        assert(blanks + key =~= key);
    } else {
        lemma_blanks_skipped(blanks.skip(1), key);
        assert((blanks + key).skip(1) =~= blanks.skip(1) + key);
        assert((blanks + key)[0] == blanks[0]);
    }
}

/// The key is the value of the header `Sec-WebSocket-Key`, in whatever case its name is written
/// and however many blanks stand before the value. No other header gives a key.
pub proof fn law_the_key_header_is_found(
    name: Seq<u8>,
    blanks: Seq<u8>,
    key: Seq<u8>,
    other: Seq<u8>,
    value: Seq<u8>,
)
    requires
        names_the_key(name),
        is_blank(blanks),
        key.len() > 0 ==> key[0] != 32 && key[0] != 9,
        !names_the_key(other),
        forall|i: int| 0 <= i < other.len() ==> #[trigger] other[i] != 58,
    ensures
        key_in_line(name + seq![58u8] + blanks + key) == Some(key),
        key_in_line(other + seq![58u8] + value) is None,
        key_in_line(other) is None,
{
    lemma_key_name(name);
    lemma_key_name(other);
    let line = name + seq![58u8] + blanks + key;
    let at = name.len() as int;
    lemma_first_colon(line, at, 0);
    assert(line.take(at) =~= name);
    assert(line.skip(at + 1) =~= blanks + key);
    lemma_blanks_skipped(blanks, key);
    let foreign = other + seq![58u8] + value;
    lemma_first_colon(foreign, other.len() as int, 0);
    assert(foreign.take(other.len() as int) =~= other);
    lemma_no_colon(other, 0);
}

proof fn lemma_no_colon(s: Seq<u8>, from: int)
    requires
        0 <= from <= s.len(),
        forall|i: int| 0 <= i < s.len() ==> #[trigger] s[i] != 58,
    ensures
        position_of(s, 58, from) == s.len(),
    decreases s.len() - from,
{
    if from < s.len() {
        lemma_no_colon(s, from + 1);
    }
}

/// A line ends with a line feed, before which carriage returns do not count. An empty one ends
/// the head; of the others the first that has a key gives it. More than 16 KiB are refused, and
/// so is a line that does not end.
pub proof fn law_lines_are_read_one_by_one(h: HeadView, content: Seq<u8>, cr: bool)
    requires
        content.len() > 0 ==> content.last() != 10 && content.last() != 13,
    ensures
        ({
            let line = content + if cr {
                seq![13u8, 10u8]
            } else {
                seq![10u8]
            };
            let (step, after) = line_read(h, line);
            let fits = h.consumed + line.len() <= 16384;
            &&& !fits ==> step is Refused && after == h
            &&& fits ==> after.consumed == h.consumed + line.len()
            &&& fits && content.len() == 0 ==> step == HeadStepView::Done(h.key) && after.key == h.key
            &&& fits && content.len() > 0 ==> step is More
            &&& fits && content.len() > 0 && h.key is Some ==> after.key == h.key
            &&& fits && content.len() > 0 && h.key is None ==> after.key == key_in_line(content)
        }),
        content.len() > 0 ==> line_read(h, content).0 is Refused,
        line_read(h, Seq::empty()).0 is Refused,
{
    let line = content + if cr {
        seq![13u8, 10u8]
    } else {
        seq![10u8]
    };
    reveal_with_fuel(line_content, 3);
    if cr {
        assert(line.drop_last().drop_last() =~= content);
    } else {
        assert(line.drop_last() =~= content);
    }
    assert(line_content(content) == content);
}

/// A frame that closes stops the reading and is answered before anything else is written; a
/// ping is answered in its turn, and any other frame is dropped. A client that is quiet is let
/// go only once it is no longer open, and one whose connection ended or failed at once.
pub proof fn law_frames_are_answered_by_their_kind(
    c: ClientView,
    payload: Seq<u8>,
    kind: u8,
    error: FrameErrorView,
)
    ensures
        ({
            let (action, after) = read_action(
                c,
                Ok(FrameReadView::Frame(frame::FrameView { opcode: kind, payload })),
            );
            &&& kind == 8 ==> action is Stop && send_action(after).0 is CloseReply && after.outbox
                == c.outbox
            &&& kind == 9 ==> action is Continue && after.outbox == c.outbox.push(
                BodyView::Raw(frame::encoded(10, payload)),
            ) && after.close_after_send == c.close_after_send
            &&& kind != 8 && kind != 9 ==> action is Continue && after == c
            &&& after.open == c.open && after.registered == c.registered && after.id == c.id
        }),
        read_action(c, Ok(FrameReadView::Idle)) == (
            if c.open {
                ReadAction::Continue
            } else {
                ReadAction::Close
            },
            c,
        ),
        read_action(c, Ok(FrameReadView::Ended)) == (ReadAction::Close, c),
        read_action(c, Err(error)) == (ReadAction::Close, c),
        !c.close_after_send && c.outbox.len() == 0 ==> (send_action(c).0 is Wait <==> c.open),
        !c.close_after_send && c.outbox.len() == 0 ==> (send_action(c).0 is Leave <==> !c.open),
{
}

/// A text that is sent is read back by the client as a frame of text.
pub proof fn law_a_text_is_read_back(text: Seq<char>)
    requires
        vstd::utf8::encode_utf8(text).len() <= frame::MAX_INBOUND_PAYLOAD,
    ensures
        frame::frame_in(wire(BodyView::Text(text)), frame::SourceEndView::Closed).0 == Ok::<
            FrameReadView,
            FrameErrorView,
        >(
            FrameReadView::Frame(
                frame::FrameView { opcode: 1, payload: vstd::utf8::encode_utf8(text) },
            ),
        ),
{
    let bytes = wire(BodyView::Text(text));
    frame::law_reading_undoes_encoding(
        1,
        vstd::utf8::encode_utf8(text),
        Seq::empty(),
        frame::SourceEndView::Closed,
    );
    assert(bytes + Seq::<u8>::empty() =~= bytes);
}

/// A client that is announced takes part, and is first sent the latest broadcast, or the
/// snapshot where there was none. An empty text is not sent. What was queued stays in front.
pub proof fn law_a_client_starts_with_the_latest(
    h: HubView,
    c: ClientView,
    snapshot: Option<Seq<char>>,
)
    ensures
        ({
            let after = announced(c, first_payload(h, snapshot));
            let text = if h.latest is Some {
                h.latest
            } else {
                snapshot
            };
            &&& after.registered
            &&& after.open == c.open
            &&& after.close_after_send == c.close_after_send
            &&& text is Some && text->Some_0.len() > 0 ==> after.outbox == c.outbox.push(
                BodyView::Text(text->Some_0),
            )
            &&& text is None || text->Some_0.len() == 0 ==> after.outbox == c.outbox
        }),
{
}

/// Changing one client leaves the others alone.
pub proof fn law_only_that_client_changes(
    h: HubView,
    id: u64,
    f: spec_fn(ClientView) -> ClientView,
    i: int,
)
    requires
        0 <= i < h.clients.len(),
        forall|j: int| 0 <= j < h.clients.len() && j != i ==> (#[trigger] h.clients[j]).id
            != h.clients[i].id,
    ensures
        changed(h, id, f).clients.len() == h.clients.len(),
        changed(h, id, f).latest == h.latest,
        changed(h, id, f).running == h.running,
        h.clients[i].id == id ==> changed(h, id, f).clients[i] == f(h.clients[i]),
        h.clients[i].id != id ==> changed(h, id, f).clients[i] == h.clients[i],
{
    lookup::lemma_index_first(h.clients, is_client(id));
    if h.clients[i].id == id {
        lookup::lemma_find_first(h.clients, is_client(id), i);
    }
}

/// The clients that take part are counted, each once.
pub proof fn law_clients_are_counted(first: Seq<ClientView>, then: Seq<ClientView>, c: ClientView)
    ensures
        registered_count(first + then) == registered_count(first) + registered_count(then),
        c.registered ==> registered_count(seq![c]) == 1,
        !c.registered ==> registered_count(seq![c]) == 0,
    decreases then.len(),
{
    reveal_with_fuel(registered_count, 2);
    assert(seq![c].drop_last() =~= Seq::empty());
    if then.len() == 0 {
        assert(first + then =~= first);
    } else {
        law_clients_are_counted(first, then.drop_last(), c);
        assert((first + then).drop_last() =~= first + then.drop_last());
        assert((first + then).last() == then.last());
    }
}

/// A client that is told to go is answered with a close, whatever is still to be written, and is
/// let go.
pub proof fn law_dismissed_clients_are_closed(c: ClientView)
    ensures
        send_action(dismissed(c)).0 is CloseReply,
        !dismissed(c).open,
        dismissed(c).outbox == c.outbox,
        dismissed(c).id == c.id,
        dismissed(c).registered == c.registered,
        !accepted(c.id).registered,
        !accepted(c.id).open,
        accepted(c.id).id == c.id,
        accepted(c.id).outbox.len() == 0,
{
}

/// The answer to a handshake switches protocols and carries the hash of the key behind it.
pub proof fn law_the_handshake_is_answered(key: Seq<u8>)
    ensures
        ({
            let hashed = b64::b64_encoded(sha1::hash(key + WEBSOCKET_GUID@));
            switching_protocols(key)
                == "HTTP/1.1 101 Switching Protocols\r\nUpgrade: websocket\r\nConnection: Upgrade\r\nSec-WebSocket-Accept: "@
                + hashed + "\r\n\r\n"@
        }),
{
}

/// The clients of a server come last and take no part at first, are opened and announced one by
/// one, and leave the others alone when they go. A server that stops tells all of them to go,
/// and remembers the latest broadcast.
pub proof fn law_clients_come_and_go_alone(
    h: HubView,
    i: int,
    id: u64,
    other: u64,
    snapshot: Option<Seq<char>>,
)
    requires
        0 <= i < h.clients.len(),
        h.clients[i].id == id,
        id != other,
        forall|j: int| 0 <= j < h.clients.len() && j != i ==> (#[trigger] h.clients[j]).id != id,
    ensures
        with_client(h, other).clients.len() == h.clients.len() + 1,
        with_client(h, other).clients.last().id == other,
        !with_client(h, other).clients.last().registered,
        with_client(h, other).clients[i] == h.clients[i],
        with_open(h, id).clients[i] == (ClientView { open: true, ..h.clients[i] }),
        with_open(h, other).clients[i] == h.clients[i],
        with_announced(h, id, snapshot).clients[i].registered,
        with_announced(h, other, snapshot).clients[i] == h.clients[i],
        without_client(h, id).clients == h.clients.remove(i),
        without_client(h, id).latest == h.latest,
        !stopped(h).running,
        stopped(h).latest == h.latest,
        stopped(h).clients.len() == h.clients.len(),
        send_action(stopped(h).clients[i]).0 is CloseReply,
{
    law_only_that_client_changes(h, id, |c: ClientView| ClientView { open: true, ..c }, i);
    law_only_that_client_changes(h, other, |c: ClientView| ClientView { open: true, ..c }, i);
    law_only_that_client_changes(
        h,
        id,
        |c: ClientView| announced(c, first_payload(h, snapshot)),
        i,
    );
    law_only_that_client_changes(
        h,
        other,
        |c: ClientView| announced(c, first_payload(h, snapshot)),
        i,
    );
    assert forall|k: int| 0 <= k < i implies !is_client(id)(#[trigger] h.clients[k]) by {}
    lookup::lemma_find_first(h.clients, is_client(id), i);
}

} // verus!
