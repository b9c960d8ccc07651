//! The game's KCP transport, as a passive observer sees it.
//!
//! The stream is only ever read, so there is no acknowledgement state, no retransmission
//! and no congestion control. The game does not retransmit a segment it has delivered: a
//! hole in the capture is lost for good, and the stream is moved past it once it has stayed
//! open for [`MAX_GAP_SECONDS`] or [`MAX_RCV_BUF`] segments wait behind it.
use crate::endian;
use crate::text;
use std::collections::{BTreeMap, VecDeque};
use vstd::prelude::*;

verus! {

pub const SEGMENT_HEADER_SIZE: usize = 28;

pub const MESSAGE_HEADER_SIZE: usize = 12;

pub const CMD_PUSH: u8 = 81;

pub const CMD_ACK: u8 = 82;

pub const CMD_WASK: u8 = 83;

pub const CMD_WINS: u8 = 84;

/// A gap that stays open longer than this is lost.
pub const MAX_GAP_SECONDS: i64 = 2;

/// The most segments that wait out of order.
pub const MAX_RCV_BUF: usize = 512;

/// Which side of the connection a packet came from.
#[derive(Debug, Clone, Copy, PartialEq, Eq, Hash, Structural)]
pub enum Direction {
    Incoming,
    Outgoing,
}

impl Direction {
    pub fn is_outgoing(self) -> (r: bool)
        ensures
            r == (self == Direction::Outgoing),
    {
        matches!(self, Direction::Outgoing)
    }
}

#[derive(Debug, Clone, Copy, PartialEq, Eq, Structural)]
pub enum KcpError {
    ShortSegment(usize),
    ShortMessageHeader(usize),
}

impl KcpError {
    /// What went wrong, in words.
    pub open spec fn text(self) -> Seq<char> {
        match self {
            KcpError::ShortSegment(len) => "not enough data to read KCP header ("@ + text::decimal(
                len as nat,
            ) + " bytes)"@,
            KcpError::ShortMessageHeader(len) => "not enough data to read KCP message header ("@
                + text::decimal(len as nat) + " bytes)"@,
        }
    }

    pub fn to_string(&self) -> (r: String)
        ensures
            r@ == self.text(),
    {
        let mut out: String = match *self {
            KcpError::ShortSegment(len) => text::with_number(
                "not enough data to read KCP header (",
                len as u64,
            ),
            KcpError::ShortMessageHeader(len) => text::with_number(
                "not enough data to read KCP message header (",
                len as u64,
            ),
        };
        out.push_str(" bytes)");
        out
    }
}

/// A segment header: 28 bytes, little-endian.
#[derive(Debug, Clone, Copy, PartialEq, Eq, Structural)]
pub struct SegmentHeader {
    pub conv: u32,
    pub token: u32,
    pub cmd: u8,
    pub frg: u8,
    pub wnd: u16,
    pub ts: u32,
    pub sn: u32,
    pub una: u32,
    pub len: u32,
}

/// The segment header at `at`.
pub open spec fn segment_header_at(s: Seq<u8>, at: int) -> SegmentHeader {
    SegmentHeader {
        conv: endian::le32(s, at) as u32,
        token: endian::le32(s, at + 4) as u32,
        cmd: s[at + 8],
        frg: s[at + 9],
        wnd: endian::le16(s, at + 10) as u16,
        ts: endian::le32(s, at + 12) as u32,
        sn: endian::le32(s, at + 16) as u32,
        una: endian::le32(s, at + 20) as u32,
        len: endian::le32(s, at + 24) as u32,
    }
}

/// The bytes of a segment header.
pub open spec fn segment_header_bytes(h: SegmentHeader) -> Seq<u8> {
    endian::le32_bytes(h.conv) + endian::le32_bytes(h.token) + seq![h.cmd, h.frg]
        + endian::le16_bytes(h.wnd) + endian::le32_bytes(h.ts) + endian::le32_bytes(h.sn)
        + endian::le32_bytes(h.una) + endian::le32_bytes(h.len)
}

impl Default for SegmentHeader {
    fn default() -> (r: SegmentHeader)
        ensures
            r == (SegmentHeader {
                conv: 0,
                token: 0,
                cmd: 0,
                frg: 0,
                wnd: 0,
                ts: 0,
                sn: 0,
                una: 0,
                len: 0,
            }),
    {
        SegmentHeader { conv: 0, token: 0, cmd: 0, frg: 0, wnd: 0, ts: 0, sn: 0, una: 0, len: 0 }
    }
}

/// Byte `k` of `v`, counted from the lowest.
fn byte_of(v: u32, k: u32) -> (b: u8)
    requires
        k < 4,
    ensures
        b == endian::le32_bytes(v)[k as int],
{
    let low: u16 = (v % 0x1_0000) as u16;
    let high: u16 = (v / 0x1_0000) as u16;
    if k == 0 {
        (low % 0x100) as u8
    } else if k == 1 {
        (low / 0x100) as u8
    } else if k == 2 {
        (high % 0x100) as u8
    } else {
        (high / 0x100) as u8
    }
}

impl SegmentHeader {
    pub fn decode(data: &[u8]) -> (r: Result<SegmentHeader, KcpError>)
        ensures
            r == if data@.len() < SEGMENT_HEADER_SIZE {
                Err(KcpError::ShortSegment(data@.len() as usize))
            } else {
                Ok(segment_header_at(data@, 0))
            },
    {
        if data.len() < SEGMENT_HEADER_SIZE {
            return Err(KcpError::ShortSegment(data.len()));
        }
        Ok(
            SegmentHeader {
                conv: endian::read_le32(data, 0),
                token: endian::read_le32(data, 4),
                cmd: data[8],
                frg: data[9],
                wnd: endian::read_le16(data, 10),
                ts: endian::read_le32(data, 12),
                sn: endian::read_le32(data, 16),
                una: endian::read_le32(data, 20),
                len: endian::read_le32(data, 24),
            },
        )
    }

    pub fn encode(&self) -> (r: [u8; SEGMENT_HEADER_SIZE])
        ensures
            r@ == segment_header_bytes(*self),
    {
        let r: [u8; SEGMENT_HEADER_SIZE] = [
            byte_of(self.conv, 0),
            byte_of(self.conv, 1),
            byte_of(self.conv, 2),
            byte_of(self.conv, 3),
            byte_of(self.token, 0),
            byte_of(self.token, 1),
            byte_of(self.token, 2),
            byte_of(self.token, 3),
            self.cmd,
            self.frg,
            (self.wnd % 0x100) as u8,
            (self.wnd / 0x100) as u8,
            byte_of(self.ts, 0),
            byte_of(self.ts, 1),
            byte_of(self.ts, 2),
            byte_of(self.ts, 3),
            byte_of(self.sn, 0),
            byte_of(self.sn, 1),
            byte_of(self.sn, 2),
            byte_of(self.sn, 3),
            byte_of(self.una, 0),
            byte_of(self.una, 1),
            byte_of(self.una, 2),
            byte_of(self.una, 3),
            byte_of(self.len, 0),
            byte_of(self.len, 1),
            byte_of(self.len, 2),
            byte_of(self.len, 3),
        ];
        assert(r@ =~= segment_header_bytes(*self));
        r
    }
}

/// A message header: 12 bytes, big-endian.
#[derive(Debug, Clone, Copy, PartialEq, Eq)]
pub struct MessageHeader {
    pub magic: [u8; 4],
    pub command_id: u16,
    pub head_length: u16,
    pub body_length: u32,
}

/// What a [`MessageHeader`] holds.
pub struct MessageHeaderView {
    pub magic: Seq<u8>,
    pub command_id: u16,
    pub head_length: u16,
    pub body_length: u32,
}

impl View for MessageHeader {
    type V = MessageHeaderView;

    open spec fn view(&self) -> MessageHeaderView {
        MessageHeaderView {
            magic: self.magic@,
            command_id: self.command_id,
            head_length: self.head_length,
            body_length: self.body_length,
        }
    }
}

/// The message header at the start of `s`.
pub open spec fn message_header_of(s: Seq<u8>) -> MessageHeaderView {
    MessageHeaderView {
        magic: s.subrange(0, 4),
        command_id: endian::be16(s, 4) as u16,
        head_length: endian::be16(s, 6) as u16,
        body_length: endian::be32(s, 8) as u32,
    }
}

/// The bytes of a message header.
pub open spec fn message_header_bytes(h: MessageHeaderView) -> Seq<u8> {
    h.magic + endian::be16_bytes(h.command_id) + endian::be16_bytes(h.head_length)
        + endian::be32_bytes(h.body_length)
}

impl Default for MessageHeader {
    fn default() -> (r: MessageHeader)
        ensures
            r@ == (MessageHeaderView {
                magic: seq![0u8, 0, 0, 0],
                command_id: 0,
                head_length: 0,
                body_length: 0,
            }),
    {
        let r = MessageHeader { magic: [0, 0, 0, 0], command_id: 0, head_length: 0, body_length: 0 };
        assert(r.magic@ =~= seq![0u8, 0, 0, 0]);
        r
    }
}

impl MessageHeader {
    pub fn decode(data: &[u8]) -> (r: Result<MessageHeader, KcpError>)
        ensures
            if data@.len() < MESSAGE_HEADER_SIZE {
                r == Err::<MessageHeader, KcpError>(
                    KcpError::ShortMessageHeader(data@.len() as usize),
                )
            } else {
                r is Ok && r->Ok_0@ == message_header_of(data@)
            },
    {
        if data.len() < MESSAGE_HEADER_SIZE {
            return Err(KcpError::ShortMessageHeader(data.len()));
        }
        let magic: [u8; 4] = [data[0], data[1], data[2], data[3]];
        assert(magic@ =~= data@.subrange(0, 4));
        Ok(
            MessageHeader {
                magic,
                command_id: endian::read_be16(data, 4),
                head_length: endian::read_be16(data, 6),
                body_length: endian::read_be32(data, 8),
            },
        )
    }

    pub fn encode(&self) -> (r: [u8; MESSAGE_HEADER_SIZE])
        ensures
            r@ == message_header_bytes(self@),
    {
        let r: [u8; MESSAGE_HEADER_SIZE] = [
            self.magic[0],
            self.magic[1],
            self.magic[2],
            self.magic[3],
            (self.command_id / 0x100) as u8,
            (self.command_id % 0x100) as u8,
            (self.head_length / 0x100) as u8,
            (self.head_length % 0x100) as u8,
            byte_of(self.body_length, 3),
            byte_of(self.body_length, 2),
            byte_of(self.body_length, 1),
            byte_of(self.body_length, 0),
        ];
        assert(r@ =~= message_header_bytes(self@));
        r
    }
}

/// A segment header is read back as it was written.
pub proof fn law_segment_header_round_trip(h: SegmentHeader)
    ensures
        segment_header_bytes(h).len() == SEGMENT_HEADER_SIZE,
        segment_header_at(segment_header_bytes(h), 0) == h,
{
    let b = segment_header_bytes(h);
    assert(b.subrange(0, 4) =~= endian::le32_bytes(h.conv));
    assert(b.subrange(4, 8) =~= endian::le32_bytes(h.token));
    assert(b.subrange(10, 12) =~= endian::le16_bytes(h.wnd));
    assert(b.subrange(12, 16) =~= endian::le32_bytes(h.ts));
    assert(b.subrange(16, 20) =~= endian::le32_bytes(h.sn));
    assert(b.subrange(20, 24) =~= endian::le32_bytes(h.una));
    assert(b.subrange(24, 28) =~= endian::le32_bytes(h.len));
    endian::lemma_round_trip_32(b, 0, h.conv);
    endian::lemma_round_trip_32(b, 4, h.token);
    endian::lemma_round_trip_16(b, 10, h.wnd);
    endian::lemma_round_trip_32(b, 12, h.ts);
    endian::lemma_round_trip_32(b, 16, h.sn);
    endian::lemma_round_trip_32(b, 20, h.una);
    endian::lemma_round_trip_32(b, 24, h.len);
}

/// A message header is read back as it was written.
pub proof fn law_message_header_round_trip(h: MessageHeaderView)
    requires
        h.magic.len() == 4,
    ensures
        message_header_bytes(h).len() == MESSAGE_HEADER_SIZE,
        message_header_of(message_header_bytes(h)) == h,
{
    assert(message_header_bytes(h).subrange(0, 4) =~= h.magic);
}


/// A segment that waits for its turn.
#[derive(Debug)]
struct Segment {
    sn: u32,
    frg: u8,
    data: Vec<u8>,
}

/// What a waiting segment holds.
pub struct SegmentView {
    pub sn: u32,
    pub frg: u8,
    pub data: Seq<u8>,
}

impl View for Segment {
    type V = SegmentView;

    closed spec fn view(&self) -> SegmentView {
        SegmentView { sn: self.sn, frg: self.frg, data: self.data@ }
    }
}

/// One direction of the connection.
pub struct StreamView {
    /// The segments that arrived ahead of their turn, by sequence number.
    pub buffered: Map<u32, SegmentView>,
    /// The segments whose turn has come, not yet delivered as messages.
    pub queue: Seq<SegmentView>,
    /// The sequence number that is due next, once a segment has been seen.
    pub next: Option<u32>,
    /// The conversation, once a segment has been seen.
    pub conv: Option<u32>,
    /// When a segment last moved to the queue.
    pub last_progress: i64,
}

/// Counters for what a caller may want to report. They wrap.
#[derive(Debug, Clone, Copy, PartialEq, Eq, Structural)]
pub struct KcpStats {
    /// The game reconnected and the stream was reset.
    pub conv_resets: u64,
    /// More than [`MAX_RCV_BUF`] segments waited and the stream skipped ahead.
    pub backlog_overflows: u64,
    /// A gap stayed open past [`MAX_GAP_SECONDS`] and the stream skipped ahead.
    pub gaps_skipped: u64,
}

impl Default for KcpStats {
    fn default() -> (r: KcpStats)
        ensures
            r == (KcpStats { conv_resets: 0, backlog_overflows: 0, gaps_skipped: 0 }),
    {
        KcpStats { conv_resets: 0, backlog_overflows: 0, gaps_skipped: 0 }
    }
}

/// The lowest sequence number that waits.
pub open spec fn is_lowest(buffered: Map<u32, SegmentView>, sn: u32) -> bool {
    &&& buffered.contains_key(sn)
    &&& forall|other: u32| #[trigger] buffered.contains_key(other) ==> sn <= other
}

pub open spec fn lowest(buffered: Map<u32, SegmentView>) -> u32 {
    choose|sn: u32| is_lowest(buffered, sn)
}

/// The segment that is due moves from the buffer to the queue.
pub open spec fn advanced(s: StreamView, now: i64) -> StreamView {
    StreamView {
        buffered: s.buffered.remove(s.next->Some_0),
        queue: s.queue.push(s.buffered[s.next->Some_0]),
        next: Some(s.next->Some_0.wrapping_add(1)),
        last_progress: now,
        ..s
    }
}

/// Whether the segment that is due waits in the buffer.
pub open spec fn is_due(s: StreamView) -> bool {
    s.next matches Some(next) && s.buffered.dom().finite() && s.buffered.contains_key(next)
}

/// Every segment that is due has moved to the queue.
pub open spec fn promoted(s: StreamView, now: i64) -> StreamView
    decreases s.buffered.dom().len(),
{
    if is_due(s) {
        promoted(advanced(s, now), now)
    } else {
        s
    }
}

/// The stream skips to the lowest sequence number that waits.
pub open spec fn skipped_ahead(s: StreamView, now: i64) -> StreamView {
    promoted(StreamView { next: Some(lowest(s.buffered)), ..s }, now)
}

/// A new conversation drops everything the old one left.
pub open spec fn in_conv(s: StreamView, conv: u32) -> StreamView {
    if s.conv is Some && s.conv != Some(conv) {
        StreamView {
            buffered: Map::empty(),
            queue: Seq::empty(),
            next: None,
            conv: Some(conv),
            last_progress: s.last_progress,
        }
    } else {
        StreamView { conv: Some(conv), ..s }
    }
}

/// The first segment of a conversation says which sequence number is due.
pub open spec fn started(s: StreamView, sn: u32, now: i64) -> StreamView {
    if s.next is None {
        StreamView { next: Some(sn), last_progress: now, ..s }
    } else {
        s
    }
}

/// `sn` is `next` or ahead of it: sequence numbers wrap, and half of them count as ahead.
pub open spec fn is_ahead(sn: u32, next: u32) -> bool {
    sn.wrapping_sub(next) < 0x8000_0000
}

/// A segment is kept unless it is behind, or one with its number waits already.
pub open spec fn buffered_with(s: StreamView, segment: SegmentView) -> StreamView {
    if is_ahead(segment.sn, s.next->Some_0) && !s.buffered.contains_key(segment.sn) {
        StreamView { buffered: s.buffered.insert(segment.sn, segment), ..s }
    } else {
        s
    }
}

/// A segment has arrived: what can move, moves.
pub open spec fn placed(s: StreamView, segment: SegmentView, now: i64) -> StreamView {
    promoted(buffered_with(s, segment), now)
}

/// Where too many segments wait, the stream skips ahead.
pub open spec fn without_backlog(s: StreamView, stats: KcpStats, now: i64) -> (StreamView, KcpStats) {
    if s.buffered.dom().len() > MAX_RCV_BUF {
        (
            skipped_ahead(s, now),
            KcpStats { backlog_overflows: stats.backlog_overflows.wrapping_add(1), ..stats },
        )
    } else {
        (s, stats)
    }
}

/// Where a gap has stayed open too long, the stream skips ahead.
pub open spec fn without_gap(s: StreamView, stats: KcpStats, now: i64) -> (StreamView, KcpStats) {
    if s.buffered.dom().len() > 0 && now.wrapping_sub(s.last_progress) > MAX_GAP_SECONDS {
        (
            skipped_ahead(s, now),
            KcpStats { gaps_skipped: stats.gaps_skipped.wrapping_add(1), ..stats },
        )
    } else {
        (s, stats)
    }
}

/// A data segment of conversation `conv` has arrived.
pub open spec fn accepted(
    s: StreamView,
    stats: KcpStats,
    conv: u32,
    segment: SegmentView,
    now: i64,
) -> (StreamView, KcpStats) {
    let reset = s.conv is Some && s.conv != Some(conv);
    let stats = if reset {
        KcpStats { conv_resets: stats.conv_resets.wrapping_add(1), ..stats }
    } else {
        stats
    };
    let s = placed(started(in_conv(s, conv), segment.sn, now), segment, now);
    let (s, stats) = without_backlog(s, stats, now);
    without_gap(s, stats, now)
}

/// The segments from `offset` on have arrived. One whose payload runs past the end of the
/// datagram was cut off by the capture, and ends it.
pub open spec fn received(
    s: StreamView,
    stats: KcpStats,
    data: Seq<u8>,
    offset: int,
    now: i64,
) -> (StreamView, KcpStats)
    decreases data.len() - offset,
{
    if data.len() - offset < SEGMENT_HEADER_SIZE {
        (s, stats)
    } else {
        let header = segment_header_at(data, offset);
        let start = offset + SEGMENT_HEADER_SIZE;
        let end = start + header.len;
        if end > data.len() {
            (s, stats)
        } else if header.cmd == CMD_PUSH && header.len > 0 {
            let segment = SegmentView {
                sn: header.sn,
                frg: header.frg,
                data: data.subrange(start, end),
            };
            let (s, stats) = accepted(s, stats, header.conv, segment, now);
            received(s, stats, data, end, now)
        } else {
            received(s, stats, data, end, now)
        }
    }
}

/// The payloads of some segments, one behind the other.
pub open spec fn joined(segments: Seq<SegmentView>) -> Seq<u8>
    decreases segments.len(),
{
    if segments.len() == 0 {
        Seq::empty()
    } else {
        joined(segments.drop_last()) + segments.last().data
    }
}

/// How many segments the message at the front has.
pub open spec fn front_count(queue: Seq<SegmentView>) -> int {
    queue[0].frg + 1
}

/// The fragment numbers of the message at the front count down to zero.
pub open spec fn front_complete(queue: Seq<SegmentView>) -> bool {
    forall|i: int| 0 <= i < front_count(queue) ==> (#[trigger] queue[i]).frg == front_count(queue) - 1 - i
}

/// The whole messages at the front of the queue, and what is left behind them. A front
/// segment that cannot start a message is dropped.
pub open spec fn drained(queue: Seq<SegmentView>) -> (Seq<Seq<u8>>, Seq<SegmentView>)
    decreases queue.len(),
{
    if queue.len() == 0 || queue.len() < front_count(queue) {
        (Seq::empty(), queue)
    } else if front_complete(queue) {
        let (messages, rest) = drained(queue.skip(front_count(queue)));
        (seq![joined(queue.take(front_count(queue)))] + messages, rest)
    } else {
        drained(queue.skip(1))
    }
}

/// Both directions and the counters.
pub struct KcpView {
    pub incoming: StreamView,
    pub outgoing: StreamView,
    pub stats: KcpStats,
}

impl KcpView {
    pub open spec fn stream(self, direction: Direction) -> StreamView {
        match direction {
            Direction::Incoming => self.incoming,
            Direction::Outgoing => self.outgoing,
        }
    }

    pub open spec fn with(self, direction: Direction, stream: StreamView, stats: KcpStats) -> KcpView {
        match direction {
            Direction::Incoming => KcpView { incoming: stream, stats, ..self },
            Direction::Outgoing => KcpView { outgoing: stream, stats, ..self },
        }
    }
}

/// A datagram has arrived: the messages it completes, and the state after it.
pub open spec fn fed(k: KcpView, data: Seq<u8>, direction: Direction, now: i64) -> (
    Seq<Seq<u8>>,
    KcpView,
) {
    let (stream, stats) = received(k.stream(direction), k.stats, data, 0, now);
    let (messages, rest) = drained(stream.queue);
    (messages, k.with(direction, StreamView { queue: rest, ..stream }, stats))
}

/// Nothing has arrived yet.
pub open spec fn idle_stream() -> StreamView {
    StreamView {
        buffered: Map::empty(),
        queue: Seq::empty(),
        next: None,
        conv: None,
        last_progress: 0,
    }
}

/// Nothing has arrived yet, in either direction.
pub open spec fn idle() -> KcpView {
    KcpView {
        incoming: idle_stream(),
        outgoing: idle_stream(),
        stats: KcpStats { conv_resets: 0, backlog_overflows: 0, gaps_skipped: 0 },
    }
}

/// What the waiting segments hold.
spec fn buffer_view(buffer: Map<u32, Segment>) -> Map<u32, SegmentView> {
    buffer.map_values(|s: Segment| s@)
}

/// Whether a segment waits under a number.
fn waits(buffer: &BTreeMap<u32, Segment>, sn: u32) -> (r: bool)
    ensures
        r == buffer_view(buffer@).contains_key(sn),
{
    broadcast use vstd::laws_cmp::group_laws_cmp;
    buffer.contains_key(&sn)
}

/// How many segments wait.
fn waiting(buffer: &BTreeMap<u32, Segment>) -> (r: usize)
    ensures
        buffer_view(buffer@).dom().finite(),
        r == buffer_view(buffer@).dom().len(),
{
    broadcast use vstd::laws_cmp::group_laws_cmp;
    assert(buffer_view(buffer@).dom() =~= buffer@.dom());
    buffer.len()
}

/// Lets a segment wait under its number.
fn put(buffer: &mut BTreeMap<u32, Segment>, segment: Segment)
    ensures
        buffer_view(final(buffer)@) == buffer_view(old(buffer)@).insert(segment.sn, segment@),
{
    broadcast use vstd::laws_cmp::group_laws_cmp;
    let _ = buffer.insert(segment.sn, segment);
    assert(buffer_view(buffer@) =~= buffer_view(old(buffer)@).insert(segment.sn, segment@));
}

/// Takes out the segment that waits under a number.
fn take(buffer: &mut BTreeMap<u32, Segment>, sn: u32) -> (r: Option<Segment>)
    ensures
        match r {
            Some(segment) => buffer_view(old(buffer)@).contains_key(sn) && segment@
                == buffer_view(old(buffer)@)[sn],
            None => !buffer_view(old(buffer)@).contains_key(sn),
        },
        buffer_view(final(buffer)@) == buffer_view(old(buffer)@).remove(sn),
{
    broadcast use vstd::laws_cmp::group_laws_cmp;
    let r: Option<Segment> = buffer.remove(&sn);
    assert(buffer_view(buffer@) =~= buffer_view(old(buffer)@).remove(sn));
    r
}

/// The lowest number under which a segment waits.
fn lowest_number(buffer: &BTreeMap<u32, Segment>) -> (r: Option<u32>)
    ensures
        match r {
            Some(sn) => is_lowest(buffer_view(buffer@), sn),
            None => buffer_view(buffer@).dom().len() == 0,
        },
{
    broadcast use vstd::laws_cmp::group_laws_cmp;
    assert(buffer_view(buffer@).dom() =~= buffer@.dom());
    for entry in entries: buffer.iter()
        invariant
            entries.index() == 0,
            entries.seq().len() == buffer@.dom().len(),
            forall|k: u32| #[trigger]
                buffer@.contains_key(k) ==> entries.seq().contains((&k, &buffer@[k])),
            forall|i: int|
                0 <= i < entries.seq().len() ==> buffer@.contains_key(*(#[trigger] entries.seq()[i]).0),
            vstd::std_specs::btree::increasing_seq(
                entries.seq().map_values(|e: (&u32, &Segment)| *e.0),
            ),
    {
        let sn: u32 = *entry.0;
        proof {
            let all = entries.seq();
            let numbers = all.map_values(|e: (&u32, &Segment)| *e.0);
            assert(sn == numbers[0]);
            assert forall|other: u32| #[trigger]
                buffer_view(buffer@).contains_key(other) implies sn <= other by {
                assert(buffer@.contains_key(other));
                let i = choose|i: int| 0 <= i < all.len() && all[i] == (&other, &buffer@[other]);
                assert(numbers[i] == other);
                if i > 0 {
                    assert(vstd::std_specs::cmp::OrdSpec::cmp_spec(&numbers[0], &numbers[i]) is Less);
                }
            }
        }
        return Some(sn);
    }
    None
}

/// One direction of the connection.
#[derive(Debug)]
struct Stream {
    rcv_buf: BTreeMap<u32, Segment>,
    rcv_queue: VecDeque<Segment>,
    rcv_nxt: u32,
    rcv_nxt_known: bool,
    conv: u32,
    conv_known: bool,
    last_progress_sec: i64,
}

spec fn queue_view(queue: Seq<Segment>) -> Seq<SegmentView> {
    queue.map_values(|s: Segment| s@)
}

impl View for Stream {
    type V = StreamView;

    closed spec fn view(&self) -> StreamView {
        StreamView {
            buffered: buffer_view(self.rcv_buf@),
            queue: queue_view(self.rcv_queue@),
            next: if self.rcv_nxt_known {
                Some(self.rcv_nxt)
            } else {
                None
            },
            conv: if self.conv_known {
                Some(self.conv)
            } else {
                None
            },
            last_progress: self.last_progress_sec,
        }
    }
}

impl Stream {
    fn new() -> (r: Stream)
        ensures
            r@ == idle_stream(),
    {
        let r = Stream {
            rcv_buf: BTreeMap::new(),
            rcv_queue: VecDeque::new(),
            rcv_nxt: 0,
            rcv_nxt_known: false,
            conv: 0,
            conv_known: false,
            last_progress_sec: 0,
        };
        assert(buffer_view(r.rcv_buf@) =~= Map::empty());
        assert(queue_view(r.rcv_queue@) =~= Seq::empty());
        r
    }

    /// Moves every segment that is due to the queue.
    fn promote(&mut self, unix_seconds: i64)
        requires
            old(self).rcv_nxt_known,
        ensures
            final(self).rcv_nxt_known,
            final(self)@ == promoted(old(self)@, unix_seconds),
    {
        let _count: usize = waiting(&self.rcv_buf);
        loop
            invariant
                self.rcv_nxt_known,
                promoted(old(self)@, unix_seconds) == promoted(self@, unix_seconds),
                self@.buffered.dom().finite(),
            decreases self@.buffered.dom().len(),
        {
            let ghost before = *self;
            match take(&mut self.rcv_buf, self.rcv_nxt) {
                Some(segment) => {
                    self.rcv_queue.push_back(segment);
                    self.rcv_nxt = self.rcv_nxt.wrapping_add(1);
                    self.last_progress_sec = unix_seconds;
                    proof {
                        assert(queue_view(self.rcv_queue@) =~= queue_view(before.rcv_queue@).push(
                            segment@,
                        ));
                        assert(is_due(before@));
                        assert(self@ == advanced(before@, unix_seconds));
                    }
                },
                None => {
                    assert(self@.buffered =~= before@.buffered);
                    assert(self@ == before@);
                    return;
                },
            }
        }
    }

    /// Skips to the lowest sequence number that waits.
    fn skip_ahead(&mut self, unix_seconds: i64)
        requires
            old(self).rcv_nxt_known,
            old(self)@.buffered.dom().len() > 0,
        ensures
            final(self).rcv_nxt_known,
            final(self)@ == skipped_ahead(old(self)@, unix_seconds),
    {
        if let Some(first) = lowest_number(&self.rcv_buf) {
            assert(is_lowest(self@.buffered, lowest(self@.buffered)));
            assert(self@.buffered.contains_key(lowest(self@.buffered)));
            self.rcv_nxt = first;
            self.promote(unix_seconds);
        }
    }

    /// Takes in one data segment.
    fn accept(
        &mut self,
        stats: &mut KcpStats,
        conv: u32,
        sn: u32,
        frg: u8,
        payload: Vec<u8>,
        unix_seconds: i64,
    )
        ensures
            (final(self)@, *final(stats)) == accepted(
                old(self)@,
                *old(stats),
                conv,
                SegmentView { sn, frg, data: payload@ },
                unix_seconds,
            ),
    {
        let ghost segment = SegmentView { sn, frg, data: payload@ };
        let ghost begun = started(in_conv(self@, conv), sn, unix_seconds);
        if self.conv_known && self.conv != conv {
            // Everything that waits belongs to the connection that ended.
            self.rcv_buf.clear();
            self.rcv_queue.clear();
            self.rcv_nxt_known = false;
            self.conv = conv;
            stats.conv_resets = stats.conv_resets.wrapping_add(1);
            assert(buffer_view(self.rcv_buf@) =~= Map::empty());
            assert(queue_view(self.rcv_queue@) =~= Seq::empty());
        }
        if !self.conv_known {
            self.conv = conv;
            self.conv_known = true;
        }
        if !self.rcv_nxt_known {
            self.rcv_nxt = sn;
            self.rcv_nxt_known = true;
            self.last_progress_sec = unix_seconds;
        }
        assert(self@ == begun);
        // What is behind the number that is due repeats something already delivered.
        if sn.wrapping_sub(self.rcv_nxt) < 0x8000_0000 && !waits(&self.rcv_buf, sn) {
            put(&mut self.rcv_buf, Segment { sn, frg, data: payload });
        }
        assert(self@ == buffered_with(begun, segment));
        self.promote(unix_seconds);
        if waiting(&self.rcv_buf) > MAX_RCV_BUF {
            stats.backlog_overflows = stats.backlog_overflows.wrapping_add(1);
            self.skip_ahead(unix_seconds);
        }
        if waiting(&self.rcv_buf) > 0 && unix_seconds.wrapping_sub(self.last_progress_sec)
            > MAX_GAP_SECONDS {
            stats.gaps_skipped = stats.gaps_skipped.wrapping_add(1);
            self.skip_ahead(unix_seconds);
        }
    }
}

/// What a list of byte strings holds.
pub open spec fn bytes_view(messages: Seq<Vec<u8>>) -> Seq<Seq<u8>> {
    messages.map_values(|m: Vec<u8>| m@)
}

/// Whether the fragment numbers of the message at the front count down to zero.
fn is_front_complete(queue: &VecDeque<Segment>, count: usize) -> (r: bool)
    requires
        0 < count <= queue@.len(),
        count == front_count(queue_view(queue@)),
    ensures
        r == front_complete(queue_view(queue@)),
{
    let ghost q = queue_view(queue@);
    let mut i: usize = 0;
    while i < count
        invariant
            i <= count <= queue@.len(),
            q == queue_view(queue@),
            count == front_count(q),
            count <= 256,
            forall|k: int| 0 <= k < i ==> (#[trigger] q[k]).frg == count - 1 - k,
        decreases count - i,
    {
        assert(q[i as int] == queue@[i as int]@);
        if queue[i].frg as usize != count - 1 - i {
            return false;
        }
        i = i + 1;
    }
    true
}

/// Takes the whole messages off the front of the queue.
fn drain(queue: &mut VecDeque<Segment>) -> (r: Vec<Vec<u8>>)
    ensures
        (bytes_view(r@), queue_view(final(queue)@)) == drained(queue_view(old(queue)@)),
{
    let ghost all = queue_view(queue@);
    let mut messages: Vec<Vec<u8>> = Vec::new();
    assert(bytes_view(messages@) =~= Seq::empty());
    assert(bytes_view(messages@) + drained(all).0 =~= drained(all).0);
    while queue.len() > 0
        invariant
            all == queue_view(old(queue)@),
            drained(all) == (
                bytes_view(messages@) + drained(queue_view(queue@)).0,
                drained(queue_view(queue@)).1,
            ),
        decreases queue@.len(),
    {
        let ghost q = queue_view(queue@);
        assert(q[0] == queue@[0]@);
        let count: usize = queue[0].frg as usize + 1;
        if queue.len() < count {
            assert(bytes_view(messages@) + drained(q).0 =~= bytes_view(messages@));
            return messages;
        }
        if is_front_complete(queue, count) {
            let mut payload: Vec<u8> = Vec::new();
            let mut taken: usize = 0;
            assert(q.take(0) =~= Seq::empty());
            assert(q.skip(0) =~= q);
            while taken < count
                invariant
                    taken <= count <= q.len(),
                    queue_view(queue@) == q.skip(taken as int),
                    payload@ == joined(q.take(taken as int)),
                decreases count - taken,
            {
                assert(queue@.len() == q.skip(taken as int).len());
                assert(queue@[0]@ == q.skip(taken as int)[0]);
                let ghost left = queue@;
                let segment: Segment = queue.pop_front().unwrap();
                let ghost before = payload@;
                payload.extend_from_slice(segment.data.as_slice());
                assert(payload@ =~= before + segment@.data);
                assert(queue_view(queue@) =~= q.skip(taken + 1)) by {
                    assert(queue@ =~= left.skip(1));
                    assert forall|k: int| 0 <= k < queue@.len() implies queue@[k]@ == q.skip(
                        taken + 1,
                    )[k] by {
                        assert(left[k + 1]@ == q.skip(taken as int)[k + 1]);
                    }
                }
                assert(q.take(taken + 1).drop_last() =~= q.take(taken as int));
                assert(q.take(taken + 1).last() == segment@);
                taken = taken + 1;
            }
            let ghost before = bytes_view(messages@);
            messages.push(payload);
            proof {
                let rest = drained(q.skip(count as int)).0;
                assert(bytes_view(messages@) =~= before.push(joined(q.take(count as int))));
                assert(before + (seq![joined(q.take(count as int))] + rest) =~= bytes_view(messages@)
                    + rest);
            }
        } else {
            let ghost left = queue@;
            let _ = queue.pop_front();
            assert(queue@ =~= left.skip(1));
            assert(queue_view(queue@) =~= q.skip(1));
        }
    }
    assert(bytes_view(messages@) + drained(queue_view(queue@)).0 =~= bytes_view(messages@));
    messages
}

/// One reassembler per direction.
#[derive(Debug)]
pub struct Kcp {
    incoming: Stream,
    outgoing: Stream,
    stats: KcpStats,
}

impl View for Kcp {
    type V = KcpView;

    closed spec fn view(&self) -> KcpView {
        KcpView { incoming: self.incoming@, outgoing: self.outgoing@, stats: self.stats }
    }
}

impl Kcp {
    pub fn new() -> (r: Kcp)
        ensures
            r@ == idle(),
    {
        Kcp { incoming: Stream::new(), outgoing: Stream::new(), stats: KcpStats::default() }
    }

    pub fn stats(&self) -> (r: &KcpStats)
        ensures
            *r == self@.stats,
    {
        &self.stats
    }

    /// Takes in one UDP payload and hands out the messages it completes, usually none or one.
    pub fn receive(&mut self, data: &[u8], direction: Direction, unix_seconds: i64) -> (r: Vec<
        Vec<u8>,
    >)
        ensures
            (bytes_view(r@), final(self)@) == fed(old(self)@, data@, direction, unix_seconds),
    {
        let mut stream: Stream = Stream::new();
        match direction {
            Direction::Incoming => {
                std::mem::swap(&mut stream, &mut self.incoming);
            },
            Direction::Outgoing => {
                std::mem::swap(&mut stream, &mut self.outgoing);
            },
        }
        let mut stats: KcpStats = self.stats;
        let ghost whole = received(stream@, stats, data@, 0, unix_seconds);
        let mut offset: usize = 0;
        while data.len() - offset >= SEGMENT_HEADER_SIZE
            invariant_except_break
                offset <= data.len(),
                received(stream@, stats, data@, offset as int, unix_seconds) == whole,
            ensures
                (stream@, stats) == whole,
            decreases data.len() - offset,
        {
            let ghost at = offset as int;
            let rest: &[u8] = vstd::slice::slice_subrange(data, offset, data.len());
            let header: SegmentHeader = match SegmentHeader::decode(rest) {
                Ok(header) => header,
                Err(_) => {
                    assert(false);
                    break;
                },
            };
            assert(header == segment_header_at(data@, at)) by {
                assert(forall|k: int| 0 <= k < rest@.len() ==> rest@[k] == data@[at + k]);
            }
            let remaining: usize = data.len() - offset - SEGMENT_HEADER_SIZE;
            // The capture cut this segment off: stop rather than go on in the middle of it.
            if header.len as u64 > remaining as u64 {
                break;
            }
            let start: usize = offset + SEGMENT_HEADER_SIZE;
            let end: usize = start + header.len as usize;
            if header.cmd == CMD_PUSH && header.len > 0 {
                let payload: Vec<u8> = vstd::slice::slice_to_vec(
                    vstd::slice::slice_subrange(data, start, end),
                );
                stream.accept(&mut stats, header.conv, header.sn, header.frg, payload, unix_seconds);
            }
            offset = end;
        }
        let messages: Vec<Vec<u8>> = drain(&mut stream.rcv_queue);
        self.stats = stats;
        match direction {
            Direction::Incoming => {
                std::mem::swap(&mut stream, &mut self.incoming);
            },
            Direction::Outgoing => {
                std::mem::swap(&mut stream, &mut self.outgoing);
            },
        }
        messages
    }
}

impl Default for Kcp {
    fn default() -> (r: Kcp)
        ensures
            r@ == idle(),
    {
        Kcp::new()
    }
}

/// A stream between two datagrams: at most [`MAX_RCV_BUF`] segments wait, each under its own
/// number, and none of them is due.
pub open spec fn settled(s: StreamView) -> bool {
    &&& s.buffered.dom().finite()
    &&& s.buffered.dom().len() <= MAX_RCV_BUF
    &&& numbered(s)
    &&& !is_due(s)
}

/// Each segment waits under its own number.
pub open spec fn numbered(s: StreamView) -> bool {
    forall|sn: u32| #[trigger] s.buffered.contains_key(sn) ==> s.buffered[sn].sn == sn
}

/// Segments move to the queue in the order of their numbers, one after the other from the
/// number that is due; what was queued stays in front, and in the end nothing is due.
pub proof fn law_promoted_in_order(s: StreamView, now: i64)
    requires
        s.buffered.dom().finite(),
        numbered(s),
        s.next is Some,
    ensures
        ({
            let p = promoted(s, now);
            let moved = p.queue.len() - s.queue.len();
            &&& moved >= 0
            &&& p.queue.take(s.queue.len() as int) == s.queue
            &&& forall|i: int|
                0 <= i < moved ==> (#[trigger] p.queue[s.queue.len() + i]).sn == (s.next->Some_0 + i)
                    % 0x1_0000_0000
            &&& p.next is Some
            &&& p.next->Some_0 == (s.next->Some_0 + moved) % 0x1_0000_0000
            &&& p.buffered.dom().finite()
            &&& p.buffered.dom().len() == s.buffered.dom().len() - moved
            &&& p.conv == s.conv
            &&& numbered(p)
            &&& !is_due(p)
        }),
    decreases s.buffered.dom().len(),
{
    if is_due(s) {
        let a = advanced(s, now);
        law_promoted_in_order(a, now);
        let p = promoted(s, now);
        let n = s.queue.len() as int;
        assert(p.queue.take(n) =~= s.queue) by {
            assert(p.queue.take(n + 1) == a.queue);
            assert forall|i: int| 0 <= i < n implies p.queue[i] == s.queue[i] by {
                assert(p.queue.take(n + 1)[i] == a.queue[i]);
            }
        }
        let moved = p.queue.len() - n;
        assert forall|i: int| 0 <= i < moved implies (#[trigger] p.queue[n + i]).sn == (
        s.next->Some_0 + i) % 0x1_0000_0000 by {
            if i == 0 {
                assert(p.queue.take(n + 1)[n] == a.queue[n]);
            } else {
                assert(p.queue[a.queue.len() + (i - 1)].sn == (a.next->Some_0 + (i - 1))
                    % 0x1_0000_0000);
            }
        }
    } else {
        assert(s.queue.take(s.queue.len() as int) =~= s.queue);
    }
}

proof fn lemma_lowest(buffered: Map<u32, SegmentView>)
    requires
        buffered.dom().finite(),
        buffered.dom().len() > 0,
    ensures
        is_lowest(buffered, lowest(buffered)),
    decreases buffered.dom().len(),
{
    let any = buffered.dom().choose();
    assert(buffered.dom().contains(any));
    lemma_lowest_from(buffered, any);
}

proof fn lemma_lowest_from(buffered: Map<u32, SegmentView>, from: u32)
    requires
        buffered.contains_key(from),
    ensures
        exists|sn: u32| is_lowest(buffered, sn),
    decreases from,
{
    if !is_lowest(buffered, from) {
        let less = choose|other: u32| #[trigger] buffered.contains_key(other) && other < from;
        lemma_lowest_from(buffered, less);
    }
}

proof fn lemma_skipped_ahead(s: StreamView, now: i64)
    requires
        s.buffered.dom().finite(),
        s.buffered.dom().len() > 0,
        numbered(s),
    ensures
        ({
            let p = skipped_ahead(s, now);
            &&& p.buffered.dom().finite()
            &&& p.buffered.dom().len() < s.buffered.dom().len()
            &&& numbered(p)
            &&& !is_due(p)
            &&& p.next is Some
            &&& p.last_progress == now
        }),
{
    lemma_lowest(s.buffered);
    let t = StreamView { next: Some(lowest(s.buffered)), ..s };
    assert(is_due(t));
    let a = advanced(t, now);
    assert(numbered(a));
    law_promoted_in_order(a, now);
    lemma_progress(a, now);
}

proof fn lemma_accepted_settled(
    s: StreamView,
    stats: KcpStats,
    conv: u32,
    segment: SegmentView,
    now: i64,
)
    requires
        settled(s),
    ensures
        settled(accepted(s, stats, conv, segment, now).0),
{
    let begun = started(in_conv(s, conv), segment.sn, now);
    let with = buffered_with(begun, segment);
    assert(with.buffered.dom().finite() && with.buffered.dom().len() <= MAX_RCV_BUF + 1);
    assert(numbered(with));
    law_promoted_in_order(with, now);
    let p = placed(begun, segment, now);
    let b = without_backlog(p, stats, now).0;
    if p.buffered.dom().len() > MAX_RCV_BUF {
        lemma_skipped_ahead(p, now);
    }
    if b.buffered.dom().len() > 0 {
        lemma_skipped_ahead(b, now);
    }
}

proof fn lemma_received_settled(s: StreamView, stats: KcpStats, data: Seq<u8>, offset: int, now: i64)
    requires
        settled(s),
        0 <= offset,
    ensures
        settled(received(s, stats, data, offset, now).0),
    decreases data.len() - offset,
{
    if data.len() - offset >= SEGMENT_HEADER_SIZE {
        let header = segment_header_at(data, offset);
        let start = offset + SEGMENT_HEADER_SIZE;
        let end = start + header.len;
        if end <= data.len() {
            if header.cmd == CMD_PUSH && header.len > 0 {
                let segment = SegmentView {
                    sn: header.sn,
                    frg: header.frg,
                    data: data.subrange(start, end),
                };
                lemma_accepted_settled(s, stats, header.conv, segment, now);
                let (t, more) = accepted(s, stats, header.conv, segment, now);
                lemma_received_settled(t, more, data, end, now);
            } else {
                lemma_received_settled(s, stats, data, end, now);
            }
        }
    }
}

/// A datagram leaves both directions settled, does not touch the other direction, and
/// leaves no whole message in the queue.
pub proof fn law_fed_settles(k: KcpView, data: Seq<u8>, direction: Direction, now: i64)
    requires
        settled(k.incoming),
        settled(k.outgoing),
    ensures
        ({
            let after = fed(k, data, direction, now).1;
            &&& settled(after.incoming)
            &&& settled(after.outgoing)
            &&& direction == Direction::Incoming ==> after.outgoing == k.outgoing
            &&& direction == Direction::Outgoing ==> after.incoming == k.incoming
            &&& drained(after.stream(direction).queue) == (
                Seq::<Seq<u8>>::empty(),
                after.stream(direction).queue,
            )
        }),
{
    lemma_received_settled(k.stream(direction), k.stats, data, 0, now);
    lemma_drained_rest(received(k.stream(direction), k.stats, data, 0, now).0.queue);
}

proof fn lemma_drained_rest(queue: Seq<SegmentView>)
    ensures
        drained(drained(queue).1) == (Seq::<Seq<u8>>::empty(), drained(queue).1),
    decreases queue.len(),
{
    if queue.len() == 0 || queue.len() < front_count(queue) {
    } else if front_complete(queue) {
        lemma_drained_rest(queue.skip(front_count(queue)));
    } else {
        lemma_drained_rest(queue.skip(1));
    }
}

/// A segment can be put in before or after others have been moved on.
proof fn lemma_placed_after_promoted(s: StreamView, segment: SegmentView, now: i64)
    requires
        s.buffered.dom().finite(),
        numbered(s),
        s.next is Some,
        s.buffered.dom().len() < 0x8000_0000,
        is_ahead(segment.sn, s.next->Some_0),
        !s.buffered.contains_key(segment.sn),
    ensures
        placed(promoted(s, now), segment, now) == placed(s, segment, now),
    decreases s.buffered.dom().len(),
{
    if is_due(s) {
        let a = advanced(s, now);
        assert(is_ahead(segment.sn, a.next->Some_0));
        lemma_placed_after_promoted(a, segment, now);
        let with = buffered_with(s, segment);
        assert(is_due(with));
        assert(advanced(with, now).buffered =~= buffered_with(a, segment).buffered);
        assert(advanced(with, now) == buffered_with(a, segment));
    }
}

/// The order in which two segments arrive does not matter, as long as both are new and
/// ahead, no gap has run out and the buffer has room.
pub proof fn law_arrival_order_is_irrelevant(
    s: StreamView,
    stats: KcpStats,
    conv: u32,
    a: SegmentView,
    b: SegmentView,
    now: i64,
)
    requires
        settled(s),
        s.conv == Some(conv),
        s.next is Some,
        a.sn != b.sn,
        is_ahead(a.sn, s.next->Some_0),
        is_ahead(b.sn, s.next->Some_0),
        !s.buffered.contains_key(a.sn),
        !s.buffered.contains_key(b.sn),
        s.buffered.dom().len() + 2 <= MAX_RCV_BUF,
        now.wrapping_sub(s.last_progress) <= MAX_GAP_SECONDS,
    ensures
        ({
            let (sa, ta) = accepted(s, stats, conv, a, now);
            let (sb, tb) = accepted(s, stats, conv, b, now);
            accepted(sa, ta, conv, b, now) == accepted(sb, tb, conv, a, now)
        }),
{
    let with_a = buffered_with(s, a);
    let with_b = buffered_with(s, b);
    assert(numbered(with_a) && numbered(with_b));
    law_promoted_in_order(with_a, now);
    law_promoted_in_order(with_b, now);
    lemma_accepted_quiet(s, stats, conv, a, now);
    lemma_accepted_quiet(s, stats, conv, b, now);
    let sa = placed(s, a, now);
    let sb = placed(s, b, now);
    lemma_ahead_stays(with_a, b.sn, now);
    lemma_ahead_stays(with_b, a.sn, now);
    lemma_accepted_quiet(sa, stats, conv, b, now);
    lemma_accepted_quiet(sb, stats, conv, a, now);
    lemma_placed_after_promoted(with_a, b, now);
    lemma_placed_after_promoted(with_b, a, now);
    assert(buffered_with(with_a, b).buffered =~= buffered_with(with_b, a).buffered);
    assert(buffered_with(with_a, b) == buffered_with(with_b, a));
}

/// Moving segments on leaves a number that is ahead, and does not wait, ahead.
proof fn lemma_ahead_stays(s: StreamView, sn: u32, now: i64)
    requires
        s.buffered.dom().finite(),
        s.next is Some,
        s.buffered.dom().len() < 0x8000_0000,
        is_ahead(sn, s.next->Some_0),
        !s.buffered.contains_key(sn),
    ensures
        promoted(s, now).next is Some,
        is_ahead(sn, promoted(s, now).next->Some_0),
        !promoted(s, now).buffered.contains_key(sn),
        promoted(s, now).last_progress == s.last_progress || promoted(s, now).last_progress == now,
    decreases s.buffered.dom().len(),
{
    if is_due(s) {
        lemma_ahead_stays(advanced(s, now), sn, now);
    }
}

/// Without a backlog, a gap that has run out or a new conversation, a segment is only
/// placed.
proof fn lemma_accepted_quiet(
    s: StreamView,
    stats: KcpStats,
    conv: u32,
    segment: SegmentView,
    now: i64,
)
    requires
        s.buffered.dom().finite(),
        numbered(s),
        s.conv == Some(conv),
        s.next is Some,
        is_ahead(segment.sn, s.next->Some_0),
        !s.buffered.contains_key(segment.sn),
        s.buffered.dom().len() + 1 <= MAX_RCV_BUF,
        now.wrapping_sub(s.last_progress) <= MAX_GAP_SECONDS,
    ensures
        accepted(s, stats, conv, segment, now) == (placed(s, segment, now), stats),
{
    let with = buffered_with(s, segment);
    assert(numbered(with));
    law_promoted_in_order(with, now);
    lemma_progress(with, now);
}

proof fn lemma_progress(s: StreamView, now: i64)
    ensures
        promoted(s, now).last_progress == s.last_progress || promoted(s, now).last_progress == now,
    decreases s.buffered.dom().len(),
{
    if is_due(s) {
        lemma_progress(advanced(s, now), now);
    }
}

/// A hole in a capture does not stall the stream: whatever arrives, afterwards no more
/// segments wait than may, and if any does, the stream moved on within the time a gap may stay
/// open.
pub proof fn law_the_stream_never_stalls(
    s: StreamView,
    stats: KcpStats,
    conv: u32,
    segment: SegmentView,
    now: i64,
)
    requires
        settled(s),
    ensures
        ({
            let after = accepted(s, stats, conv, segment, now).0;
            &&& after.buffered.dom().len() <= MAX_RCV_BUF
            &&& after.buffered.dom().len() > 0 ==> now.wrapping_sub(after.last_progress)
                <= MAX_GAP_SECONDS
        }),
{
    lemma_accepted_settled(s, stats, conv, segment, now);
    let begun = started(in_conv(s, conv), segment.sn, now);
    let with = buffered_with(begun, segment);
    assert(numbered(with));
    law_promoted_in_order(with, now);
    let p = placed(begun, segment, now);
    let b = without_backlog(p, stats, now).0;
    if p.buffered.dom().len() > MAX_RCV_BUF {
        lemma_skipped_ahead(p, now);
    }
    if b.buffered.dom().len() > 0 {
        lemma_skipped_ahead(b, now);
    }
}

/// A segment that was delivered before, or that waits already, changes nothing.
pub proof fn law_repeated_segments_change_nothing(
    s: StreamView,
    stats: KcpStats,
    conv: u32,
    segment: SegmentView,
    now: i64,
)
    requires
        settled(s),
        s.conv == Some(conv),
        s.next is Some,
        !is_ahead(segment.sn, s.next->Some_0) || s.buffered.contains_key(segment.sn),
        s.buffered.dom().len() == 0 || now.wrapping_sub(s.last_progress) <= MAX_GAP_SECONDS,
    ensures
        accepted(s, stats, conv, segment, now) == (s, stats),
{
}

/// A segment of another conversation drops what the old one left, and is the first of the new
/// one.
pub proof fn law_a_new_conversation_starts_over(
    s: StreamView,
    stats: KcpStats,
    conv: u32,
    segment: SegmentView,
    now: i64,
)
    requires
        s.conv is Some,
        s.conv != Some(conv),
    ensures
        accepted(s, stats, conv, segment, now).0 == (StreamView {
            buffered: Map::empty(),
            queue: seq![segment],
            next: Some(segment.sn.wrapping_add(1)),
            conv: Some(conv),
            last_progress: now,
        }),
        accepted(s, stats, conv, segment, now).1 == (KcpStats {
            conv_resets: stats.conv_resets.wrapping_add(1),
            ..stats
        }),
{
    lemma_in_turn(in_conv(s, conv), segment, now);
    assert(Seq::<SegmentView>::empty().push(segment) =~= seq![segment]);
}

/// Where nothing waits, the segment that is due goes straight to the queue.
proof fn lemma_in_turn(s: StreamView, segment: SegmentView, now: i64)
    requires
        s.buffered == Map::<u32, SegmentView>::empty(),
        s.next is None || s.next == Some(segment.sn),
    ensures
        placed(started(s, segment.sn, now), segment, now) == (StreamView {
            buffered: Map::empty(),
            queue: s.queue.push(segment),
            next: Some(segment.sn.wrapping_add(1)),
            conv: s.conv,
            last_progress: now,
        }),
{
    let with = buffered_with(started(s, segment.sn, now), segment);
    assert(with.buffered == Map::<u32, SegmentView>::empty().insert(segment.sn, segment));
    assert(is_due(with));
    let a = advanced(with, now);
    assert(a.buffered =~= Map::empty());
    assert(!is_due(a));
    assert(promoted(a, now) == a);
}

/// A message at the front of the queue is taken off it whole.
pub proof fn law_a_split_message_is_joined(segments: Seq<SegmentView>, rest: Seq<SegmentView>)
    requires
        segments.len() > 0,
        forall|i: int|
            0 <= i < segments.len() ==> (#[trigger] segments[i]).frg == segments.len() - 1 - i,
    ensures
        drained(segments + rest) == (
            seq![joined(segments)] + drained(rest).0,
            drained(rest).1,
        ),
{
    let queue = segments + rest;
    assert(queue[0] == segments[0]);
    assert(front_count(queue) == segments.len());
    assert forall|i: int| 0 <= i < front_count(queue) implies (#[trigger] queue[i]).frg
        == front_count(queue) - 1 - i by {
        assert(queue[i] == segments[i]);
    }
    assert(queue.take(front_count(queue)) =~= segments);
    assert(queue.skip(front_count(queue)) =~= rest);
}

/// The header a segment is sent with: `h` gives the conversation, the token, the window, the
/// timestamp and the acknowledged number.
pub open spec fn header_of(h: SegmentHeader, segment: SegmentView) -> SegmentHeader {
    SegmentHeader {
        cmd: CMD_PUSH,
        frg: segment.frg,
        sn: segment.sn,
        len: segment.data.len() as u32,
        ..h
    }
}

/// A datagram with the segments from `i` on, each with its own header.
pub open spec fn datagram_from(
    headers: Seq<SegmentHeader>,
    segments: Seq<SegmentView>,
    i: int,
) -> Seq<u8>
    decreases segments.len() - i,
{
    if i >= segments.len() {
        Seq::empty()
    } else {
        segment_header_bytes(header_of(headers[i], segments[i])) + segments[i].data + datagram_from(
            headers,
            segments,
            i + 1,
        )
    }
}

/// A datagram with some segments, each with its own header.
pub open spec fn datagram(headers: Seq<SegmentHeader>, segments: Seq<SegmentView>) -> Seq<u8> {
    datagram_from(headers, segments, 0)
}

/// A header for each of `n` segments, all of one conversation. The other fields may differ.
pub open spec fn of_one_conv(headers: Seq<SegmentHeader>, conv: u32, n: nat) -> bool {
    &&& headers.len() == n
    &&& forall|i: int| 0 <= i < n ==> (#[trigger] headers[i]).conv == conv
}

/// Each segment has a payload, and its length can be written down.
pub open spec fn sendable(segments: Seq<SegmentView>) -> bool {
    forall|i: int|
        0 <= i < segments.len() ==> 0 < (#[trigger] segments[i]).data.len() < 0x1_0000_0000
}

/// The sequence number `i` behind `first`.
pub open spec fn number(first: u32, i: int) -> u32 {
    ((first + i) % 0x1_0000_0000) as u32
}

/// The parts of a message, one behind the other.
pub open spec fn whole(parts: Seq<Seq<u8>>) -> Seq<u8>
    decreases parts.len(),
{
    if parts.len() == 0 {
        Seq::empty()
    } else {
        whole(parts.drop_last()) + parts.last()
    }
}

/// The segments for the first `n` parts of a message: the fragment numbers count down to zero.
pub open spec fn part_segments(first: u32, parts: Seq<Seq<u8>>, n: int) -> Seq<SegmentView> {
    Seq::new(
        n as nat,
        |i: int|
            SegmentView { sn: number(first, i), frg: (parts.len() - 1 - i) as u8, data: parts[i] },
    )
}

proof fn lemma_header_in_place(data: Seq<u8>, at: int, h: SegmentHeader)
    requires
        0 <= at,
        at + SEGMENT_HEADER_SIZE <= data.len(),
        data.subrange(at, at + SEGMENT_HEADER_SIZE) == segment_header_bytes(h),
    ensures
        segment_header_at(data, at) == h,
{
    law_segment_header_round_trip(h);
    let b = segment_header_bytes(h);
    lemma_same_word(data, at, b, 0);
    lemma_same_word(data, at, b, 4);
    lemma_same_word(data, at, b, 8);
    lemma_same_word(data, at, b, 12);
    lemma_same_word(data, at, b, 16);
    lemma_same_word(data, at, b, 20);
    lemma_same_word(data, at, b, 24);
}

/// A piece of some bytes holds the words that stand there.
proof fn lemma_same_word(data: Seq<u8>, at: int, piece: Seq<u8>, offset: int)
    requires
        0 <= at,
        at + SEGMENT_HEADER_SIZE <= data.len(),
        data.subrange(at, at + SEGMENT_HEADER_SIZE) == piece,
        0 <= offset <= SEGMENT_HEADER_SIZE - 4,
    ensures
        endian::le32(data, at + offset) == endian::le32(piece, offset),
        endian::le16(data, at + offset + 2) == endian::le16(piece, offset + 2),
        data[at + offset] == piece[offset],
        data[at + offset + 1] == piece[offset + 1],
{
    assert(piece[offset] == data[at + offset]);
    assert(piece[offset + 1] == data[at + offset + 1]);
    assert(piece[offset + 2] == data[at + offset + 2]);
    assert(piece[offset + 3] == data[at + offset + 3]);
}

proof fn lemma_pieces_in_place(
    data: Seq<u8>,
    offset: int,
    head: Seq<u8>,
    part: Seq<u8>,
    rest: Seq<u8>,
)
    requires
        0 <= offset <= data.len(),
        data.skip(offset) == head + part + rest,
    ensures
        offset + head.len() + part.len() <= data.len(),
        data.subrange(offset, offset + head.len()) == head,
        data.subrange(offset + head.len(), offset + head.len() + part.len()) == part,
        data.skip(offset + head.len() + part.len()) == rest,
{
    let tail = data.skip(offset);
    let from = head.len() as int;
    let to = from + part.len();
    assert(tail.len() == data.len() - offset);
    assert(tail.subrange(0, from) =~= head);
    assert(tail.subrange(0, from) =~= data.subrange(offset, offset + from));
    assert(tail.subrange(from, to) =~= part);
    assert(tail.subrange(from, to) =~= data.subrange(offset + from, offset + to));
    assert(tail.skip(to) =~= rest);
    assert(tail.skip(to) =~= data.skip(offset + to));
}

/// The first segment of a datagram, and what follows it.
proof fn lemma_segment_in_place(
    headers: Seq<SegmentHeader>,
    segments: Seq<SegmentView>,
    i: int,
    data: Seq<u8>,
    offset: int,
)
    requires
        0 <= i < segments.len(),
        0 <= offset <= data.len(),
        data.skip(offset) == datagram_from(headers, segments, i),
    ensures
        ({
            let start = offset + SEGMENT_HEADER_SIZE;
            let end = start + segments[i].data.len();
            &&& end <= data.len()
            &&& segment_header_at(data, offset) == header_of(headers[i], segments[i])
            &&& data.subrange(start, end) == segments[i].data
            &&& data.skip(end) == datagram_from(headers, segments, i + 1)
        }),
{
    let p = header_of(headers[i], segments[i]);
    law_segment_header_round_trip(p);
    lemma_pieces_in_place(
        data,
        offset,
        segment_header_bytes(p),
        segments[i].data,
        datagram_from(headers, segments, i + 1),
    );
    lemma_header_in_place(data, offset, p);
}

/// A data segment is accepted, and reading goes on behind it.
proof fn lemma_segment_received(
    s: StreamView,
    stats: KcpStats,
    data: Seq<u8>,
    offset: int,
    now: i64,
    header: SegmentHeader,
    part: Seq<u8>,
)
    requires
        0 <= offset,
        header == segment_header_at(data, offset),
        header.cmd == CMD_PUSH,
        header.len == part.len(),
        part.len() > 0,
        offset + SEGMENT_HEADER_SIZE + part.len() <= data.len(),
        data.subrange(
            offset + SEGMENT_HEADER_SIZE,
            offset + SEGMENT_HEADER_SIZE + part.len(),
        ) == part,
    ensures
        ({
            let segment = SegmentView { sn: header.sn, frg: header.frg, data: part };
            let (after, more) = accepted(s, stats, header.conv, segment, now);
            received(s, stats, data, offset, now) == received(
                after,
                more,
                data,
                offset + SEGMENT_HEADER_SIZE + part.len(),
                now,
            )
        }),
{
}

/// Where nothing waits, the part that is due goes straight to the queue.
proof fn lemma_part_accepted(
    s: StreamView,
    stats: KcpStats,
    conv: u32,
    segment: SegmentView,
    now: i64,
)
    requires
        s.buffered == Map::<u32, SegmentView>::empty(),
        s.conv is None || s.conv == Some(conv),
        s.next is None || s.next == Some(segment.sn),
    ensures
        accepted(s, stats, conv, segment, now) == (
            StreamView {
                buffered: Map::empty(),
                queue: s.queue.push(segment),
                next: Some(segment.sn.wrapping_add(1)),
                conv: Some(conv),
                last_progress: now,
            },
            stats,
        ),
{
    lemma_in_turn(in_conv(s, conv), segment, now);
    assert(Map::<u32, SegmentView>::empty().dom().len() == 0);
}

/// Segments are accepted one after the other.
spec fn accepted_from(
    s: StreamView,
    stats: KcpStats,
    conv: u32,
    segments: Seq<SegmentView>,
    i: int,
    now: i64,
) -> (StreamView, KcpStats)
    decreases segments.len() - i,
{
    if i >= segments.len() {
        (s, stats)
    } else {
        let (after, more) = accepted(s, stats, conv, segments[i], now);
        accepted_from(after, more, conv, segments, i + 1, now)
    }
}

/// Reading a datagram is accepting its segments.
proof fn lemma_segments_read(
    s: StreamView,
    stats: KcpStats,
    headers: Seq<SegmentHeader>,
    conv: u32,
    segments: Seq<SegmentView>,
    i: int,
    data: Seq<u8>,
    offset: int,
    now: i64,
)
    requires
        0 <= i <= segments.len(),
        of_one_conv(headers, conv, segments.len()),
        sendable(segments),
        0 <= offset <= data.len(),
        data.skip(offset) == datagram_from(headers, segments, i),
    ensures
        received(s, stats, data, offset, now) == accepted_from(s, stats, conv, segments, i, now),
    decreases segments.len() - i,
{
    if i == segments.len() {
        assert(data.skip(offset).len() == 0);
    } else {
        lemma_segment_in_place(headers, segments, i, data, offset);
        let p = header_of(headers[i], segments[i]);
        lemma_segment_received(s, stats, data, offset, now, p, segments[i].data);
        let (after, more) = accepted(s, stats, conv, segments[i], now);
        let end = offset + SEGMENT_HEADER_SIZE + segments[i].data.len();
        lemma_segments_read(after, more, headers, conv, segments, i + 1, data, end, now);
    }
}

/// Where nothing waits, segments that come in turn are queued in turn.
proof fn lemma_in_turns(
    s: StreamView,
    stats: KcpStats,
    conv: u32,
    segments: Seq<SegmentView>,
    i: int,
    now: i64,
)
    requires
        0 <= i <= segments.len(),
        forall|k: int|
            0 <= k < segments.len() - 1 ==> (#[trigger] segments[k + 1]).sn == segments[k].sn.wrapping_add(
                1,
            ),
        s.buffered == Map::<u32, SegmentView>::empty(),
        s.conv is None || s.conv == Some(conv),
        s.next is None || (i < segments.len() ==> s.next == Some(segments[i].sn)),
    ensures
        accepted_from(s, stats, conv, segments, i, now).0.queue == s.queue + segments.skip(i),
        accepted_from(s, stats, conv, segments, i, now).1 == stats,
    decreases segments.len() - i,
{
    if i < segments.len() {
        lemma_part_accepted(s, stats, conv, segments[i], now);
        let after = accepted(s, stats, conv, segments[i], now).0;
        if i + 1 < segments.len() {
            assert(segments[i + 1].sn == segments[i].sn.wrapping_add(1));
        }
        lemma_in_turns(after, stats, conv, segments, i + 1, now);
        assert(s.queue.push(segments[i]) + segments.skip(i + 1) =~= s.queue + segments.skip(i));
    } else {
        assert(s.queue + segments.skip(i) =~= s.queue);
    }
}

proof fn lemma_joined_parts(first: u32, parts: Seq<Seq<u8>>, n: int)
    requires
        0 <= n <= parts.len(),
    ensures
        joined(part_segments(first, parts, n)) == whole(parts.take(n)),
    decreases n,
{
    if n > 0 {
        lemma_joined_parts(first, parts, n - 1);
        assert(part_segments(first, parts, n).drop_last() =~= part_segments(first, parts, n - 1));
        assert(parts.take(n).drop_last() =~= parts.take(n - 1));
    }
}

proof fn lemma_parts_queued(
    s: StreamView,
    stats: KcpStats,
    conv: u32,
    first: u32,
    parts: Seq<Seq<u8>>,
    now: i64,
)
    requires
        0 < parts.len() <= 256,
        s.buffered == Map::<u32, SegmentView>::empty(),
        s.queue.len() == 0,
        s.conv is None || s.conv == Some(conv),
        s.next is None || s.next == Some(first),
    ensures
        ({
            let segments = part_segments(first, parts, parts.len() as int);
            let (after, more) = accepted_from(s, stats, conv, segments, 0, now);
            after.queue == segments && more == stats
        }),
{
    let segments = part_segments(first, parts, parts.len() as int);
    assert forall|i: int| 0 <= i < segments.len() - 1 implies (#[trigger] segments[i + 1]).sn
        == segments[i].sn.wrapping_add(1) by {}
    lemma_in_turns(s, stats, conv, segments, 0, now);
    assert(s.queue + segments.skip(0) =~= segments);
}

proof fn lemma_parts_joined(first: u32, parts: Seq<Seq<u8>>)
    requires
        0 < parts.len() <= 256,
    ensures
        drained(part_segments(first, parts, parts.len() as int)).0 == seq![whole(parts)],
{
    let segments = part_segments(first, parts, parts.len() as int);
    law_a_split_message_is_joined(segments, Seq::empty());
    assert(segments + Seq::empty() =~= segments);
    lemma_joined_parts(first, parts, parts.len() as int);
    assert(parts.take(parts.len() as int) =~= parts);
    assert(seq![joined(segments)] + Seq::<Seq<u8>>::empty() =~= seq![whole(parts)]);
}

/// A message that is sent in parts is delivered as it was sent: where nothing waits and its
/// first segment is due, a datagram with its segments gives the parts back, put together, and
/// nothing else.
pub proof fn law_a_sent_message_is_delivered(
    k: KcpView,
    direction: Direction,
    headers: Seq<SegmentHeader>,
    conv: u32,
    first: u32,
    parts: Seq<Seq<u8>>,
    now: i64,
)
    requires
        0 < parts.len() <= 256,
        of_one_conv(headers, conv, parts.len()),
        forall|i: int| 0 <= i < parts.len() ==> 0 < (#[trigger] parts[i]).len() < 0x1_0000_0000,
        k.stream(direction).buffered == Map::<u32, SegmentView>::empty(),
        k.stream(direction).queue.len() == 0,
        k.stream(direction).conv is None || k.stream(direction).conv == Some(conv),
        k.stream(direction).next is None || k.stream(direction).next == Some(first),
    ensures
        ({
            let segments = part_segments(first, parts, parts.len() as int);
            let (messages, after) = fed(k, datagram(headers, segments), direction, now);
            messages == seq![whole(parts)] && after.stats == k.stats
        }),
{
    let segments = part_segments(first, parts, parts.len() as int);
    let data = datagram(headers, segments);
    assert(data.skip(0) =~= data);
    assert(sendable(segments));
    lemma_segments_read(k.stream(direction), k.stats, headers, conv, segments, 0, data, 0, now);
    lemma_parts_queued(k.stream(direction), k.stats, conv, first, parts, now);
    lemma_parts_joined(first, parts);
}

/// Two datagrams that differ, from `at` on, in nothing that is read: in the tokens, the
/// windows, the timestamps and the acknowledged numbers of their segments, and behind the last
/// whole segment.
pub open spec fn read_alike(a: Seq<u8>, b: Seq<u8>, at: int) -> bool
    decreases a.len() - at,
{
    &&& a.len() == b.len()
    &&& a.len() - at >= SEGMENT_HEADER_SIZE ==> {
        let x = segment_header_at(a, at);
        let y = segment_header_at(b, at);
        let start = at + SEGMENT_HEADER_SIZE;
        let end = start + x.len;
        &&& y == (SegmentHeader { token: y.token, wnd: y.wnd, ts: y.ts, una: y.una, ..x })
        &&& end <= a.len() ==> a.subrange(start, end) == b.subrange(start, end) && read_alike(
            a,
            b,
            end,
        )
    }
}

proof fn lemma_read_alike(
    s: StreamView,
    stats: KcpStats,
    a: Seq<u8>,
    b: Seq<u8>,
    at: int,
    now: i64,
)
    requires
        0 <= at,
        read_alike(a, b, at),
    ensures
        received(s, stats, a, at, now) == received(s, stats, b, at, now),
    decreases a.len() - at,
{
    if a.len() - at >= SEGMENT_HEADER_SIZE {
        let header = segment_header_at(a, at);
        let start = at + SEGMENT_HEADER_SIZE;
        let end = start + header.len;
        if end <= a.len() {
            if header.cmd == CMD_PUSH && header.len > 0 {
                let segment = SegmentView {
                    sn: header.sn,
                    frg: header.frg,
                    data: a.subrange(start, end),
                };
                let (t, more) = accepted(s, stats, header.conv, segment, now);
                lemma_read_alike(t, more, a, b, end, now);
            } else {
                lemma_read_alike(s, stats, a, b, end, now);
            }
        }
    }
}

/// The tokens, windows, timestamps and acknowledged numbers of segments do not matter, in
/// whatever they differ from one segment to the next: datagrams that differ in these alone give
/// the same messages and leave the same state.
pub proof fn law_unread_fields_do_not_matter(
    k: KcpView,
    a: Seq<u8>,
    b: Seq<u8>,
    direction: Direction,
    now: i64,
)
    requires
        read_alike(a, b, 0),
    ensures
        fed(k, a, direction, now) == fed(k, b, direction, now),
{
    lemma_read_alike(k.stream(direction), k.stats, a, b, 0, now);
}

/// Datagrams whose segments have the same conversations, numbers and payloads are read alike.
pub proof fn law_headers_are_read_alike(
    headers: Seq<SegmentHeader>,
    others: Seq<SegmentHeader>,
    segments: Seq<SegmentView>,
)
    requires
        headers.len() == segments.len(),
        others.len() == segments.len(),
        forall|i: int| 0 <= i < segments.len() ==> (#[trigger] headers[i]).conv == others[i].conv,
        sendable(segments),
    ensures
        read_alike(datagram(headers, segments), datagram(others, segments), 0),
{
    let a = datagram(headers, segments);
    let b = datagram(others, segments);
    assert(a.skip(0) =~= a && b.skip(0) =~= b);
    lemma_headers_read_alike(headers, others, segments, 0, a, b, 0);
}

proof fn lemma_headers_read_alike(
    headers: Seq<SegmentHeader>,
    others: Seq<SegmentHeader>,
    segments: Seq<SegmentView>,
    i: int,
    a: Seq<u8>,
    b: Seq<u8>,
    at: int,
)
    requires
        0 <= i <= segments.len(),
        headers.len() == segments.len(),
        others.len() == segments.len(),
        forall|j: int| 0 <= j < segments.len() ==> (#[trigger] headers[j]).conv == others[j].conv,
        sendable(segments),
        0 <= at <= a.len(),
        at <= b.len(),
        a.skip(at) == datagram_from(headers, segments, i),
        b.skip(at) == datagram_from(others, segments, i),
    ensures
        read_alike(a, b, at),
    decreases segments.len() - i,
{
    if i == segments.len() {
        assert(a.skip(at).len() == 0 && b.skip(at).len() == 0);
    } else {
        lemma_segment_in_place(headers, segments, i, a, at);
        lemma_segment_in_place(others, segments, i, b, at);
        let end = at + SEGMENT_HEADER_SIZE + segments[i].data.len();
        lemma_headers_read_alike(headers, others, segments, i + 1, a, b, end);
    }
}

/// A datagram of a sequence: when it arrives, the places of its segments in the sequence, and
/// the headers they come with.
pub struct Arrival {
    pub now: i64,
    pub places: Seq<int>,
    pub headers: Seq<SegmentHeader>,
}

/// The segments of a datagram, by their places.
pub open spec fn picked(segments: Seq<SegmentView>, places: Seq<int>) -> Seq<SegmentView> {
    Seq::new(places.len(), |j: int| segments[places[j]])
}

/// Datagrams with some of the segments arrive: the messages they complete, one behind the
/// other, and the state after them.
pub open spec fn fed_all(
    k: KcpView,
    segments: Seq<SegmentView>,
    arrivals: Seq<Arrival>,
    direction: Direction,
) -> (Seq<Seq<u8>>, KcpView)
    decreases arrivals.len(),
{
    if arrivals.len() == 0 {
        (Seq::empty(), k)
    } else {
        let (earlier, before) = fed_all(k, segments, arrivals.drop_last(), direction);
        let last = arrivals.last();
        let data = datagram(last.headers, picked(segments, last.places));
        let (messages, after) = fed(before, data, direction, last.now);
        (earlier + messages, after)
    }
}

/// The places of the segments that have arrived.
pub open spec fn arrived(arrivals: Seq<Arrival>) -> Set<int>
    decreases arrivals.len(),
{
    if arrivals.len() == 0 {
        Set::empty()
    } else {
        arrived(arrivals.drop_last()).union(arrivals.last().places.to_set())
    }
}

/// How far the segments from `m` on have arrived without a gap.
spec fn reach(here: Set<int>, m: int, n: int) -> int
    decreases n - m,
{
    if m < n && here.contains(m) {
        reach(here, m + 1, n)
    } else {
        m
    }
}

/// The segments that have arrived, from `m` on.
spec fn kept(first: u32, segments: Seq<SegmentView>, here: Set<int>, m: int) -> Map<
    u32,
    SegmentView,
> {
    Map::new(
        |sn: u32|
            m <= sn.wrapping_sub(first) < segments.len() && here.contains(
                sn.wrapping_sub(first) as int,
            ),
        |sn: u32| segments[sn.wrapping_sub(first) as int],
    )
}

/// Each segment has the number that goes with its place.
pub open spec fn in_sequence(first: u32, segments: Seq<SegmentView>) -> bool {
    forall|i: int| 0 <= i < segments.len() ==> (#[trigger] segments[i]).sn == number(first, i)
}

proof fn lemma_number(first: u32, i: int)
    requires
        0 <= i < 0x1_0000_0000,
    ensures
        number(first, i).wrapping_sub(first) == i,
        number(first, i).wrapping_add(1) == number(first, i + 1),
{
}

proof fn lemma_number_of(first: u32, sn: u32)
    ensures
        number(first, sn.wrapping_sub(first) as int) == sn,
{
}

proof fn lemma_ahead(first: u32, i: int, m: int)
    requires
        0 <= i <= MAX_RCV_BUF,
        0 <= m <= MAX_RCV_BUF,
    ensures
        is_ahead(number(first, i), number(first, m)) == (i >= m),
{
}

proof fn lemma_reach(here: Set<int>, m: int, n: int)
    requires
        m <= n,
    ensures
        m <= reach(here, m, n) <= n,
        forall|j: int| m <= j < reach(here, m, n) ==> here.contains(j),
        reach(here, m, n) < n ==> !here.contains(reach(here, m, n)),
    decreases n - m,
{
    if m < n && here.contains(m) {
        lemma_reach(here, m + 1, n);
    }
}

proof fn lemma_reach_from(here: Set<int>, from: int, m: int, n: int)
    requires
        from <= m <= n,
        forall|j: int| from <= j < m ==> here.contains(j),
    ensures
        reach(here, from, n) == reach(here, m, n),
    decreases m - from,
{
    if from < m {
        lemma_reach_from(here, from + 1, m, n);
    }
}

/// No more segments wait than are still to come.
proof fn lemma_kept_few(first: u32, segments: Seq<SegmentView>, here: Set<int>, m: int)
    requires
        0 <= m <= segments.len() <= MAX_RCV_BUF,
    ensures
        kept(first, segments, here, m).dom().finite(),
        kept(first, segments, here, m).dom().len() <= segments.len() - m,
    decreases segments.len() - m,
{
    let dom = kept(first, segments, here, m).dom();
    if m == segments.len() {
        assert(dom =~= Set::empty());
    } else {
        lemma_kept_few(first, segments, here, m + 1);
        let less = kept(first, segments, here, m + 1).dom();
        lemma_number(first, m);
        if here.contains(m) {
            assert forall|sn: u32| dom.contains(sn) == less.insert(number(first, m)).contains(sn) by {
                lemma_number_of(first, sn);
            }
            assert(dom =~= less.insert(number(first, m)));
        } else {
            assert(dom =~= less);
        }
    }
}

/// Of the segments that wait, those up to the next gap move to the queue.
proof fn lemma_kept_promoted(
    s: StreamView,
    first: u32,
    segments: Seq<SegmentView>,
    here: Set<int>,
    m: int,
    now: i64,
)
    requires
        in_sequence(first, segments),
        0 <= m <= segments.len() <= MAX_RCV_BUF,
        s.next == Some(number(first, m)),
        s.buffered == kept(first, segments, here, m),
    ensures
        ({
            let p = promoted(s, now);
            let to = reach(here, m, segments.len() as int);
            &&& p.next == Some(number(first, to))
            &&& p.buffered == kept(first, segments, here, to)
            &&& p.queue == s.queue + segments.subrange(m, to)
            &&& p.conv == s.conv
        }),
    decreases segments.len() - m,
{
    let n = segments.len() as int;
    lemma_kept_few(first, segments, here, m);
    lemma_number(first, m);
    lemma_reach(here, m, n);
    if m < n && here.contains(m) {
        assert(is_due(s));
        let a = advanced(s, now);
        assert forall|sn: u32| a.buffered.contains_key(sn) == kept(
            first,
            segments,
            here,
            m + 1,
        ).contains_key(sn) by {
            lemma_number_of(first, sn);
        }
        assert(a.buffered =~= kept(first, segments, here, m + 1));
        lemma_kept_promoted(a, first, segments, here, m + 1, now);
        lemma_reach(here, m + 1, n);
        let to = reach(here, m, n);
        assert(s.queue.push(segments[m]) + segments.subrange(m + 1, to) =~= s.queue
            + segments.subrange(m, to));
    } else {
        assert(!is_due(s));
        assert(s.queue + segments.subrange(m, m) =~= s.queue);
    }
}

/// A stream on which the segments at the places `here` have arrived, of a sequence that begins
/// with the number `first`.
spec fn partway(
    s: StreamView,
    conv: u32,
    first: u32,
    segments: Seq<SegmentView>,
    here: Set<int>,
) -> bool {
    let m = reach(here, 0, segments.len() as int);
    &&& s.conv == Some(conv)
    &&& s.next == Some(number(first, m))
    &&& s.buffered == kept(first, segments, here, m)
}

/// A segment arrives, new or once more.
proof fn lemma_arrives(
    s: StreamView,
    stats: KcpStats,
    conv: u32,
    first: u32,
    segments: Seq<SegmentView>,
    here: Set<int>,
    i: int,
    now: i64,
)
    requires
        in_sequence(first, segments),
        0 <= i < segments.len() <= MAX_RCV_BUF,
        partway(s, conv, first, segments, here),
        now.wrapping_sub(s.last_progress) <= MAX_GAP_SECONDS,
    ensures
        ({
            let (after, more) = accepted(s, stats, conv, segments[i], now);
            let n = segments.len() as int;
            &&& partway(after, conv, first, segments, here.insert(i))
            &&& reach(here, 0, n) <= reach(here.insert(i), 0, n)
            &&& after.queue == s.queue + segments.subrange(
                reach(here, 0, n),
                reach(here.insert(i), 0, n),
            )
            &&& more == stats
            &&& after.last_progress == s.last_progress || after.last_progress == now
        }),
{
    let n = segments.len() as int;
    let m = reach(here, 0, n);
    lemma_reach(here, 0, n);
    lemma_kept_few(first, segments, here, m);
    lemma_number(first, i);
    lemma_number(first, m);
    lemma_ahead(first, i, m);
    assert forall|sn: u32| #[trigger] s.buffered.contains_key(sn) implies s.buffered[sn].sn == sn by {
        lemma_number_of(first, sn);
    }
    assert(!is_due(s));
    assert(settled(s));
    if here.contains(i) {
        assert(here.insert(i) =~= here);
        law_repeated_segments_change_nothing(s, stats, conv, segments[i], now);
        assert(s.queue + segments.subrange(m, m) =~= s.queue);
    } else {
        assert(i >= m);
        assert(!s.buffered.contains_key(number(first, i)));
        if kept(first, segments, here, m).dom().len() == n - m {
            lemma_kept_few(first, segments, here, m + 1);
            assert(kept(first, segments, here, m) =~= kept(first, segments, here, m + 1));
        }
        lemma_accepted_quiet(s, stats, conv, segments[i], now);
        let with = buffered_with(s, segments[i]);
        let more = here.insert(i);
        assert forall|sn: u32| with.buffered.contains_key(sn) == kept(
            first,
            segments,
            more,
            m,
        ).contains_key(sn) by {
            lemma_number_of(first, sn);
        }
        assert(with.buffered =~= kept(first, segments, more, m));
        lemma_kept_promoted(with, first, segments, more, m, now);
        lemma_reach_from(more, 0, m, n);
        lemma_reach(more, m, n);
        lemma_progress(with, now);
    }
}

/// The segments of a datagram from `j` on arrive.
proof fn lemma_datagram_arrives(
    s: StreamView,
    stats: KcpStats,
    conv: u32,
    first: u32,
    segments: Seq<SegmentView>,
    here: Set<int>,
    places: Seq<int>,
    j: int,
    now: i64,
)
    requires
        in_sequence(first, segments),
        segments.len() <= MAX_RCV_BUF,
        forall|l: int| 0 <= l < places.len() ==> 0 <= #[trigger] places[l] < segments.len(),
        0 <= j <= places.len(),
        partway(s, conv, first, segments, here),
        now.wrapping_sub(s.last_progress) <= MAX_GAP_SECONDS,
    ensures
        ({
            let (after, more) = accepted_from(s, stats, conv, picked(segments, places), j, now);
            let n = segments.len() as int;
            let all = here.union(places.skip(j).to_set());
            &&& partway(after, conv, first, segments, all)
            &&& reach(here, 0, n) <= reach(all, 0, n)
            &&& after.queue == s.queue + segments.subrange(reach(here, 0, n), reach(all, 0, n))
            &&& more == stats
            &&& after.last_progress == s.last_progress || after.last_progress == now
        }),
    decreases places.len() - j,
{
    let n = segments.len() as int;
    let all = here.union(places.skip(j).to_set());
    lemma_reach(here, 0, n);
    if j == places.len() {
        assert(all =~= here);
        assert(s.queue + segments.subrange(reach(here, 0, n), reach(here, 0, n)) =~= s.queue);
    } else {
        let i = places[j];
        lemma_arrives(s, stats, conv, first, segments, here, i, now);
        assert(picked(segments, places)[j] == segments[i]);
        let after = accepted(s, stats, conv, segments[i], now).0;
        assert(now.wrapping_sub(now) == 0);
        lemma_datagram_arrives(
            after,
            stats,
            conv,
            first,
            segments,
            here.insert(i),
            places,
            j + 1,
            now,
        );
        lemma_union_step(here, places, j);
        lemma_reach(here.insert(i), 0, n);
        lemma_reach(all, 0, n);
        assert(s.queue + segments.subrange(reach(here, 0, n), reach(here.insert(i), 0, n))
            + segments.subrange(reach(here.insert(i), 0, n), reach(all, 0, n)) =~= s.queue
            + segments.subrange(reach(here, 0, n), reach(all, 0, n)));
    }
}

proof fn lemma_union_step(here: Set<int>, places: Seq<int>, j: int)
    requires
        0 <= j < places.len(),
    ensures
        here.insert(places[j]).union(places.skip(j + 1).to_set()) == here.union(
            places.skip(j).to_set(),
        ),
{
    let tail = places.skip(j);
    let rest = places.skip(j + 1);
    assert forall|i: int| tail.to_set().contains(i) == (i == places[j] || rest.to_set().contains(i)) by {
        if tail.contains(i) {
            let at = choose|at: int| 0 <= at < tail.len() && tail[at] == i;
            if at > 0 {
                assert(rest[at - 1] == i);
            }
        }
        if rest.contains(i) {
            let at = choose|at: int| 0 <= at < rest.len() && rest[at] == i;
            assert(tail[at + 1] == i);
        }
        assert(tail[0] == places[j]);
    }
    assert(here.insert(places[j]).union(rest.to_set()) =~= here.union(tail.to_set()));
}

/// Messages can be taken off a queue before more segments join it.
pub proof fn law_messages_can_be_taken_early(queue: Seq<SegmentView>, more: Seq<SegmentView>)
    ensures
        ({
            let (early, rest) = drained(queue);
            let (late, left) = drained(rest + more);
            drained(queue + more) == (early + late, left)
        }),
    decreases queue.len(),
{
    let all = queue + more;
    if queue.len() == 0 || queue.len() < front_count(queue) {
        assert(Seq::<Seq<u8>>::empty() + drained(all).0 =~= drained(all).0);
    } else {
        let count = front_count(queue);
        assert(all[0] == queue[0]);
        assert(front_complete(all) == front_complete(queue)) by {
            assert forall|i: int| 0 <= i < count implies all[i] == queue[i] by {}
            if front_complete(all) {
                assert forall|i: int| 0 <= i < count implies (#[trigger] queue[i]).frg == count - 1
                    - i by {
                    assert(all[i] == queue[i]);
                }
            }
        }
        if front_complete(queue) {
            law_messages_can_be_taken_early(queue.skip(count), more);
            assert(all.skip(count) =~= queue.skip(count) + more);
            assert(all.take(count) =~= queue.take(count));
            let first = seq![joined(queue.take(count))];
            let (early, rest) = drained(queue.skip(count));
            let late = drained(rest + more).0;
            assert(first + (early + late) =~= first + early + late);
        } else {
            law_messages_can_be_taken_early(queue.skip(1), more);
            assert(all.skip(1) =~= queue.skip(1) + more);
        }
    }
}

/// Datagrams of one conversation, with places of a sequence of `n` segments, that arrive within
/// the time a gap may stay open.
pub open spec fn timely(arrivals: Seq<Arrival>, conv: u32, since: i64, n: int) -> bool {
    &&& forall|a: int|
        0 <= a < arrivals.len() ==> (#[trigger] arrivals[a]).now.wrapping_sub(since)
            <= MAX_GAP_SECONDS
    &&& forall|a: int, b: int|
        0 <= a < b < arrivals.len() ==> (#[trigger] arrivals[b]).now.wrapping_sub(
            (#[trigger] arrivals[a]).now,
        ) <= MAX_GAP_SECONDS
    &&& forall|a: int, j: int|
        0 <= a < arrivals.len() && 0 <= j < arrivals[a].places.len() ==> 0
            <= #[trigger] arrivals[a].places[j] < n
    &&& forall|a: int|
        0 <= a < arrivals.len() ==> of_one_conv(
            (#[trigger] arrivals[a]).headers,
            conv,
            arrivals[a].places.len(),
        )
}

/// When a segment last moved on is when the stream began to wait, or when a datagram came.
spec fn progressed(arrivals: Seq<Arrival>, since: i64, last_progress: i64) -> bool {
    ||| last_progress == since
    ||| exists|a: int| 0 <= a < arrivals.len() && (#[trigger] arrivals[a]).now == last_progress
}

/// One datagram of a sequence arrives.
proof fn lemma_one_arrives(
    k: KcpView,
    headers: Seq<SegmentHeader>,
    conv: u32,
    first: u32,
    segments: Seq<SegmentView>,
    here: Set<int>,
    places: Seq<int>,
    direction: Direction,
    now: i64,
)
    requires
        in_sequence(first, segments),
        sendable(segments),
        of_one_conv(headers, conv, places.len()),
        segments.len() <= MAX_RCV_BUF,
        partway(k.stream(direction), conv, first, segments, here),
        now.wrapping_sub(k.stream(direction).last_progress) <= MAX_GAP_SECONDS,
        forall|l: int| 0 <= l < places.len() ==> 0 <= #[trigger] places[l] < segments.len(),
    ensures
        ({
            let (messages, after) = fed(
                k,
                datagram(headers, picked(segments, places)),
                direction,
                now,
            );
            let n = segments.len() as int;
            let all = here.union(places.to_set());
            let s = after.stream(direction);
            &&& partway(s, conv, first, segments, all)
            &&& 0 <= reach(here, 0, n) <= reach(all, 0, n) <= n
            &&& (messages, s.queue) == drained(
                k.stream(direction).queue + segments.subrange(reach(here, 0, n), reach(all, 0, n)),
            )
            &&& after.stats == k.stats
            &&& s.last_progress == k.stream(direction).last_progress || s.last_progress == now
        }),
{
    let n = segments.len() as int;
    let some = picked(segments, places);
    assert(sendable(some));
    let data = datagram(headers, some);
    assert(data.skip(0) =~= data);
    lemma_segments_read(k.stream(direction), k.stats, headers, conv, some, 0, data, 0, now);
    lemma_datagram_arrives(
        k.stream(direction),
        k.stats,
        conv,
        first,
        segments,
        here,
        places,
        0,
        now,
    );
    assert(places.skip(0) =~= places);
    lemma_reach(here, 0, n);
    lemma_reach(here.union(places.to_set()), 0, n);
}

/// The datagrams of a sequence arrive, one after the other.
proof fn lemma_all_arrive(
    k: KcpView,
    conv: u32,
    first: u32,
    segments: Seq<SegmentView>,
    arrivals: Seq<Arrival>,
    direction: Direction,
)
    requires
        in_sequence(first, segments),
        sendable(segments),
        segments.len() <= MAX_RCV_BUF,
        k.stream(direction).buffered == Map::<u32, SegmentView>::empty(),
        k.stream(direction).conv == Some(conv),
        k.stream(direction).next == Some(first),
        drained(k.stream(direction).queue) == (
            Seq::<Seq<u8>>::empty(),
            k.stream(direction).queue,
        ),
        timely(arrivals, conv, k.stream(direction).last_progress, segments.len() as int),
    ensures
        ({
            let (messages, after) = fed_all(k, segments, arrivals, direction);
            let here = arrived(arrivals);
            let to = reach(here, 0, segments.len() as int);
            let s = after.stream(direction);
            &&& partway(s, conv, first, segments, here)
            &&& (messages, s.queue) == drained(k.stream(direction).queue + segments.take(to))
            &&& after.stats == k.stats
            &&& progressed(arrivals, k.stream(direction).last_progress, s.last_progress)
        }),
    decreases arrivals.len(),
{
    let n = segments.len() as int;
    let queue = k.stream(direction).queue;
    let since = k.stream(direction).last_progress;
    if arrivals.len() == 0 {
        lemma_number(first, 0);
        assert(kept(first, segments, Set::empty(), 0) =~= Map::empty());
        assert(queue + segments.take(0) =~= queue);
    } else {
        let earlier = arrivals.drop_last();
        let last = arrivals.last();
        lemma_timely(arrivals, conv, since, n);
        lemma_all_arrive(k, conv, first, segments, earlier, direction);
        let mid = fed_all(k, segments, earlier, direction).1;
        let here = arrived(earlier);
        let s = mid.stream(direction);
        lemma_in_time(arrivals, conv, since, n, s.last_progress);
        lemma_one_arrives(
            mid,
            last.headers,
            conv,
            first,
            segments,
            here,
            last.places,
            direction,
            last.now,
        );
        let from = reach(here, 0, n);
        let to = reach(arrived(arrivals), 0, n);
        let more = segments.subrange(from, to);
        law_messages_can_be_taken_early(queue + segments.take(from), more);
        assert(queue + segments.take(from) + more =~= queue + segments.take(to));
        lemma_progressed(
            arrivals,
            since,
            s.last_progress,
            fed_all(k, segments, arrivals, direction).1.stream(direction).last_progress,
        );
    }
}

proof fn lemma_timely(arrivals: Seq<Arrival>, conv: u32, since: i64, n: int)
    requires
        arrivals.len() > 0,
        timely(arrivals, conv, since, n),
    ensures
        timely(arrivals.drop_last(), conv, since, n),
        of_one_conv(arrivals.last().headers, conv, arrivals.last().places.len()),
        forall|l: int|
            0 <= l < arrivals.last().places.len() ==> 0 <= #[trigger] arrivals.last().places[l] < n,
{
    let earlier = arrivals.drop_last();
    assert forall|a: int| 0 <= a < earlier.len() implies earlier[a] == arrivals[a] by {}
    assert(arrivals.last() == arrivals[arrivals.len() - 1]);
}

proof fn lemma_in_time(
    arrivals: Seq<Arrival>,
    conv: u32,
    since: i64,
    n: int,
    last_progress: i64,
)
    requires
        arrivals.len() > 0,
        timely(arrivals, conv, since, n),
        progressed(arrivals.drop_last(), since, last_progress),
    ensures
        arrivals.last().now.wrapping_sub(last_progress) <= MAX_GAP_SECONDS,
{
    let earlier = arrivals.drop_last();
    let last = arrivals.len() - 1;
    assert(arrivals.last() == arrivals[last]);
    if last_progress != since {
        let a = choose|a: int| 0 <= a < earlier.len() && (#[trigger] earlier[a]).now == last_progress;
        assert(arrivals[a] == earlier[a]);
    }
}

proof fn lemma_progressed(
    arrivals: Seq<Arrival>,
    since: i64,
    before: i64,
    after: i64,
)
    requires
        arrivals.len() > 0,
        progressed(arrivals.drop_last(), since, before),
        after == before || after == arrivals.last().now,
    ensures
        progressed(arrivals, since, after),
{
    let earlier = arrivals.drop_last();
    let last = arrivals.len() - 1;
    assert(arrivals.last() == arrivals[last]);
    if after == before && before != since {
        let a = choose|a: int| 0 <= a < earlier.len() && (#[trigger] earlier[a]).now == before;
        assert(arrivals[a] == earlier[a]);
    }
}

/// A message does not depend on the order in which its segments come. Segments with
/// consecutive numbers from the one that is due arrive in any order, once or more often, one
/// or several to a datagram, with any other header fields, within the time a gap may stay open: the messages are those of
/// one datagram with all of them in order, each of them once. Nothing is left waiting and no
/// counter moves.
pub proof fn law_segments_come_in_any_order(
    k: KcpView,
    headers: Seq<SegmentHeader>,
    conv: u32,
    first: u32,
    segments: Seq<SegmentView>,
    arrivals: Seq<Arrival>,
    direction: Direction,
    now: i64,
)
    requires
        in_sequence(first, segments),
        sendable(segments),
        of_one_conv(headers, conv, segments.len()),
        segments.len() <= MAX_RCV_BUF,
        k.stream(direction).buffered == Map::<u32, SegmentView>::empty(),
        k.stream(direction).conv == Some(conv),
        k.stream(direction).next == Some(first),
        drained(k.stream(direction).queue) == (
            Seq::<Seq<u8>>::empty(),
            k.stream(direction).queue,
        ),
        timely(arrivals, conv, k.stream(direction).last_progress, segments.len() as int),
        now.wrapping_sub(k.stream(direction).last_progress) <= MAX_GAP_SECONDS,
        forall|i: int| 0 <= i < segments.len() ==> arrived(arrivals).contains(i),
    ensures
        ({
            let (messages, after) = fed_all(k, segments, arrivals, direction);
            let (in_order, straight) = fed(k, datagram(headers, segments), direction, now);
            let s = after.stream(direction);
            let t = straight.stream(direction);
            &&& messages == in_order
            &&& (messages, s.queue) == drained(k.stream(direction).queue + segments)
            &&& s.queue == t.queue
            &&& s.next == Some(number(first, segments.len() as int))
            &&& s.next == t.next
            &&& s.buffered == Map::<u32, SegmentView>::empty()
            &&& s.buffered == t.buffered
            &&& s.conv == t.conv
            &&& after.stats == k.stats
            &&& after.stats == straight.stats
        }),
{
    let n = segments.len() as int;
    let queue = k.stream(direction).queue;
    lemma_all_arrive(k, conv, first, segments, arrivals, direction);
    let here = arrived(arrivals);
    lemma_reach(here, 0, n);
    assert(segments.take(n) =~= segments);
    lemma_number(first, 0);
    assert(kept(first, segments, here, n) =~= Map::empty());
    let nothing = Set::<int>::empty();
    assert(kept(first, segments, nothing, 0) =~= Map::empty());
    let places = Seq::new(n as nat, |i: int| i);
    assert(picked(segments, places) =~= segments);
    lemma_one_arrives(
        k,
        headers,
        conv,
        first,
        segments,
        nothing,
        places,
        direction,
        now,
    );
    let all = nothing.union(places.to_set());
    lemma_reach(all, 0, n);
    assert forall|i: int| 0 <= i < n implies all.contains(i) by {
        assert(places[i] == i);
    }
    assert(segments.subrange(0, n) =~= segments);
    assert(kept(first, segments, all, n) =~= Map::empty());
}

/// A new stream that has seen one segment takes those behind it in any order, and no counter
/// ever moves.
pub proof fn law_a_new_stream_takes_any_order(
    header: SegmentHeader,
    segment: SegmentView,
    headers: Seq<SegmentHeader>,
    segments: Seq<SegmentView>,
    arrivals: Seq<Arrival>,
    direction: Direction,
    now: i64,
)
    requires
        sendable(seq![segment]),
        in_sequence(segment.sn.wrapping_add(1), segments),
        sendable(segments),
        of_one_conv(headers, header.conv, segments.len()),
        segments.len() <= MAX_RCV_BUF,
        timely(arrivals, header.conv, now, segments.len() as int),
        forall|i: int| 0 <= i < segments.len() ==> arrived(arrivals).contains(i),
    ensures
        ({
            let begun = fed(idle(), datagram(seq![header], seq![segment]), direction, now).1;
            let (messages, after) = fed_all(begun, segments, arrivals, direction);
            &&& messages == fed(begun, datagram(headers, segments), direction, now).0
            &&& after.stats == idle().stats
        }),
{
    let one = seq![segment];
    let data = datagram(seq![header], one);
    assert(data.skip(0) =~= data);
    let s = idle_stream();
    lemma_segments_read(s, idle().stats, seq![header], header.conv, one, 0, data, 0, now);
    lemma_part_accepted(s, idle().stats, header.conv, segment, now);
    reveal_with_fuel(accepted_from, 2);
    let begun = fed(idle(), data, direction, now).1;
    lemma_drained_rest(received(s, idle().stats, data, 0, now).0.queue);
    assert(now.wrapping_sub(now) == 0);
    law_segments_come_in_any_order(
        begun,
        headers,
        header.conv,
        segment.sn.wrapping_add(1),
        segments,
        arrivals,
        direction,
        now,
    );
}

/// A segment of any command as it is sent: its header, and as many bytes as the header says.
pub open spec fn sent_segment(header: SegmentHeader, payload: Seq<u8>) -> Seq<u8> {
    segment_header_bytes(header) + payload
}

/// Whole segments of any commands, one behind the other.
pub open spec fn sent_segments(segments: Seq<(SegmentHeader, Seq<u8>)>) -> Seq<u8>
    decreases segments.len(),
{
    if segments.len() == 0 {
        Seq::empty()
    } else {
        sent_segments(segments.drop_last()) + sent_segment(segments.last().0, segments.last().1)
    }
}

/// Each header gives the length of what follows it.
pub open spec fn lengths_fit(segments: Seq<(SegmentHeader, Seq<u8>)>) -> bool {
    forall|i: int|
        0 <= i < segments.len() ==> (#[trigger] segments[i]).0.len == segments[i].1.len()
}

/// A segment that carries data.
pub open spec fn carries_data(segment: (SegmentHeader, Seq<u8>)) -> bool {
    segment.0.cmd == 81 && segment.1.len() > 0
}

/// What one whole segment does, wherever it stands.
#[verifier::opaque]
spec fn segment_taken(
    s: StreamView,
    stats: KcpStats,
    segment: (SegmentHeader, Seq<u8>),
    now: i64,
) -> (StreamView, KcpStats) {
    if carries_data(segment) {
        accepted(
            s,
            stats,
            segment.0.conv,
            SegmentView { sn: segment.0.sn, frg: segment.0.frg, data: segment.1 },
            now,
        )
    } else {
        (s, stats)
    }
}

/// The segment at `at`, if it is whole.
spec fn whole_segment_at(data: Seq<u8>, at: int) -> Option<(SegmentHeader, Seq<u8>)> {
    if data.len() - at < SEGMENT_HEADER_SIZE {
        None
    } else {
        let header = segment_header_at(data, at);
        let start = at + SEGMENT_HEADER_SIZE;
        if start + header.len > data.len() {
            None
        } else {
            Some((header, data.subrange(start, start + header.len)))
        }
    }
}

/// Reading goes from one whole segment to the next.
proof fn lemma_received_step(s: StreamView, stats: KcpStats, data: Seq<u8>, at: int, now: i64)
    requires
        0 <= at <= data.len(),
    ensures
        match whole_segment_at(data, at) {
            None => received(s, stats, data, at, now) == (s, stats),
            Some(segment) => {
                let (t, more) = segment_taken(s, stats, segment, now);
                let end = at + SEGMENT_HEADER_SIZE + segment.1.len();
                &&& end <= data.len()
                &&& received(s, stats, data, at, now) == received(t, more, data, end, now)
            },
        },
{
    reveal(segment_taken);
}

/// A whole segment stands where it was sent.
proof fn lemma_segment_stands(
    segment: (SegmentHeader, Seq<u8>),
    rest: Seq<u8>,
    data: Seq<u8>,
    at: int,
)
    requires
        segment.0.len == segment.1.len(),
        0 <= at <= data.len(),
        data.skip(at) == sent_segment(segment.0, segment.1) + rest,
    ensures
        whole_segment_at(data, at) == Some(segment),
        data.skip(at + SEGMENT_HEADER_SIZE + segment.1.len()) == rest,
{
    let (header, payload) = segment;
    law_segment_header_round_trip(header);
    assert(data.skip(at) =~= segment_header_bytes(header) + payload + rest);
    lemma_pieces_in_place(data, at, segment_header_bytes(header), payload, rest);
    lemma_header_in_place(data, at, header);
}

/// The segment that comes next is the same wherever the same bytes are left.
proof fn lemma_same_segment(a: Seq<u8>, at: int, b: Seq<u8>, from: int)
    requires
        0 <= at <= a.len(),
        0 <= from <= b.len(),
        a.skip(at) == b.skip(from),
    ensures
        a.len() - at == b.len() - from,
        whole_segment_at(a, at) == whole_segment_at(b, from),
        whole_segment_at(a, at) matches Some(segment) ==> {
            let size = SEGMENT_HEADER_SIZE + segment.1.len();
            &&& at + size <= a.len()
            &&& a.skip(at + size) == b.skip(from + size)
        },
{
    let head = SEGMENT_HEADER_SIZE as int;
    lemma_same_piece(a, at, b, from, 0, 0);
    if a.len() - at >= head {
        lemma_same_piece(a, at, b, from, 0, head);
        let piece = a.subrange(at, at + head);
        lemma_header_of_piece(a, at, piece);
        lemma_header_of_piece(b, from, piece);
        let size = head + segment_header_at(a, at).len;
        if at + size <= a.len() {
            lemma_same_piece(a, at, b, from, head, size);
        }
    }
}

proof fn lemma_same_piece(a: Seq<u8>, at: int, b: Seq<u8>, from: int, x: int, y: int)
    requires
        0 <= at <= a.len(),
        0 <= from <= b.len(),
        a.skip(at) == b.skip(from),
        0 <= x <= y <= a.len() - at,
    ensures
        a.len() - at == b.len() - from,
        a.subrange(at + x, at + y) == b.subrange(from + x, from + y),
        a.skip(at + y) == b.skip(from + y),
{
    let rest = a.skip(at);
    assert(rest.len() == a.len() - at && b.skip(from).len() == b.len() - from);
    assert(a.subrange(at + x, at + y) =~= rest.subrange(x, y));
    assert(b.subrange(from + x, from + y) =~= b.skip(from).subrange(x, y));
    assert(a.skip(at + y) =~= rest.skip(y));
    assert(b.skip(from + y) =~= b.skip(from).skip(y));
}

/// Where reading begins in a datagram does not matter, only what is left of it.
proof fn lemma_only_the_rest_is_read(
    s: StreamView,
    stats: KcpStats,
    a: Seq<u8>,
    at: int,
    b: Seq<u8>,
    from: int,
    now: i64,
)
    requires
        0 <= at <= a.len(),
        0 <= from <= b.len(),
        a.skip(at) == b.skip(from),
    ensures
        received(s, stats, a, at, now) == received(s, stats, b, from, now),
    decreases a.len() - at,
{
    lemma_same_segment(a, at, b, from);
    lemma_received_step(s, stats, a, at, now);
    lemma_received_step(s, stats, b, from, now);
    if let Some(segment) = whole_segment_at(a, at) {
        let size = SEGMENT_HEADER_SIZE + segment.1.len();
        let (t, more) = segment_taken(s, stats, segment, now);
        lemma_only_the_rest_is_read(t, more, a, at + size, b, from + size, now);
    }
}

/// A whole segment is taken in, and then what follows it is read.
proof fn lemma_segment_taken(
    s: StreamView,
    stats: KcpStats,
    segment: (SegmentHeader, Seq<u8>),
    rest: Seq<u8>,
    now: i64,
)
    requires
        segment.0.len == segment.1.len(),
    ensures
        ({
            let (t, more) = segment_taken(s, stats, segment, now);
            received(s, stats, sent_segment(segment.0, segment.1) + rest, 0, now) == received(
                t,
                more,
                rest,
                0,
                now,
            )
        }),
{
    let data = sent_segment(segment.0, segment.1) + rest;
    assert(data.skip(0) =~= data);
    lemma_segment_stands(segment, rest, data, 0);
    lemma_received_step(s, stats, data, 0, now);
    let (t, more) = segment_taken(s, stats, segment, now);
    assert(rest.skip(0) =~= rest);
    lemma_only_the_rest_is_read(
        t,
        more,
        data,
        SEGMENT_HEADER_SIZE + segment.1.len(),
        rest,
        0,
        now,
    );
}

proof fn lemma_header_of_piece(data: Seq<u8>, at: int, piece: Seq<u8>)
    requires
        0 <= at,
        at + SEGMENT_HEADER_SIZE <= data.len(),
        data.subrange(at, at + SEGMENT_HEADER_SIZE) == piece,
    ensures
        segment_header_at(data, at) == segment_header_at(piece, 0),
{
    lemma_same_word(data, at, piece, 0);
    lemma_same_word(data, at, piece, 4);
    lemma_same_word(data, at, piece, 8);
    lemma_same_word(data, at, piece, 12);
    lemma_same_word(data, at, piece, 16);
    lemma_same_word(data, at, piece, 20);
    lemma_same_word(data, at, piece, 24);
}

proof fn lemma_regroup(a: Seq<u8>, b: Seq<u8>, c: Seq<u8>)
    ensures
        a + b + c == a + (b + c),
{
    assert(a + b + c =~= a + (b + c));
}

/// What whole segments do, one after the other.
spec fn segments_taken(
    s: StreamView,
    stats: KcpStats,
    segments: Seq<(SegmentHeader, Seq<u8>)>,
    now: i64,
) -> (StreamView, KcpStats)
    decreases segments.len(),
{
    if segments.len() == 0 {
        (s, stats)
    } else {
        let (t, more) = segments_taken(s, stats, segments.drop_last(), now);
        segment_taken(t, more, segments.last(), now)
    }
}

/// Whole segments are taken in one after the other, and then what follows them is read.
proof fn lemma_segments_taken(
    s: StreamView,
    stats: KcpStats,
    segments: Seq<(SegmentHeader, Seq<u8>)>,
    rest: Seq<u8>,
    now: i64,
)
    requires
        lengths_fit(segments),
    ensures
        ({
            let (t, more) = segments_taken(s, stats, segments, now);
            received(s, stats, sent_segments(segments) + rest, 0, now) == received(
                t,
                more,
                rest,
                0,
                now,
            )
        }),
    decreases segments.len(),
{
    if segments.len() == 0 {
        assert(sent_segments(segments) + rest =~= rest);
    } else {
        let init = segments.drop_last();
        let last = segments.last();
        assert(last == segments[segments.len() - 1]);
        let tail = sent_segment(last.0, last.1) + rest;
        lemma_segments_taken(s, stats, init, tail, now);
        lemma_regroup(sent_segments(init), sent_segment(last.0, last.1), rest);
        let (t, more) = segments_taken(s, stats, init, now);
        lemma_segment_taken(t, more, last, rest, now);
    }
}

/// Acknowledgements, window probes and empty segments are stepped over: one that stands in a
/// datagram, behind whole segments and before anything at all, changes neither the messages nor
/// the state.
pub proof fn law_other_segments_are_stepped_over(
    k: KcpView,
    before: Seq<(SegmentHeader, Seq<u8>)>,
    other: (SegmentHeader, Seq<u8>),
    behind: Seq<u8>,
    direction: Direction,
    now: i64,
)
    requires
        lengths_fit(before),
        other.0.len == other.1.len(),
        other.0.cmd != 81 || other.1.len() == 0,
    ensures
        fed(
            k,
            sent_segments(before) + sent_segment(other.0, other.1) + behind,
            direction,
            now,
        ) == fed(k, sent_segments(before) + behind, direction, now),
{
    let s = k.stream(direction);
    let tail = sent_segment(other.0, other.1) + behind;
    lemma_regroup(sent_segments(before), sent_segment(other.0, other.1), behind);
    lemma_segments_taken(s, k.stats, before, tail, now);
    lemma_segments_taken(s, k.stats, before, behind, now);
    let (t, more) = segments_taken(s, k.stats, before, now);
    lemma_segment_taken(t, more, other, behind, now);
    reveal(segment_taken);
}

/// Only the segments that carry data count: a datagram of whole segments gives the messages,
/// and leaves the state, of one with its data segments alone.
pub proof fn law_only_data_counts(
    k: KcpView,
    segments: Seq<(SegmentHeader, Seq<u8>)>,
    direction: Direction,
    now: i64,
)
    requires
        lengths_fit(segments),
    ensures
        fed(k, sent_segments(segments), direction, now) == fed(
            k,
            sent_segments(segments.filter(|x: (SegmentHeader, Seq<u8>)| carries_data(x))),
            direction,
            now,
        ),
{
    let p = |x: (SegmentHeader, Seq<u8>)| carries_data(x);
    let s = k.stream(direction);
    lemma_data_taken(s, k.stats, segments, now);
    let none = Seq::<u8>::empty();
    lemma_filter_fits(segments);
    lemma_segments_taken(s, k.stats, segments, none, now);
    lemma_segments_taken(s, k.stats, segments.filter(p), none, now);
    assert(sent_segments(segments) + none =~= sent_segments(segments));
    assert(sent_segments(segments.filter(p)) + none =~= sent_segments(segments.filter(p)));
}

proof fn lemma_filter_fits(segments: Seq<(SegmentHeader, Seq<u8>)>)
    requires
        lengths_fit(segments),
    ensures
        lengths_fit(segments.filter(|x: (SegmentHeader, Seq<u8>)| carries_data(x))),
    decreases segments.len(),
{
    reveal(Seq::filter);
    if segments.len() > 0 {
        let init = segments.drop_last();
        assert forall|i: int| 0 <= i < init.len() implies (#[trigger] init[i]).0.len
            == init[i].1.len() by {
            assert(init[i] == segments[i]);
        }
        lemma_filter_fits(init);
        assert(segments.last() == segments[segments.len() - 1]);
    }
}

proof fn lemma_data_taken(
    s: StreamView,
    stats: KcpStats,
    segments: Seq<(SegmentHeader, Seq<u8>)>,
    now: i64,
)
    ensures
        segments_taken(s, stats, segments, now) == segments_taken(
            s,
            stats,
            segments.filter(|x: (SegmentHeader, Seq<u8>)| carries_data(x)),
            now,
        ),
    decreases segments.len(),
{
    reveal(Seq::filter);
    if segments.len() > 0 {
        let p = |x: (SegmentHeader, Seq<u8>)| carries_data(x);
        let init = segments.drop_last();
        lemma_data_taken(s, stats, init, now);
        reveal(segment_taken);
        if carries_data(segments.last()) {
            assert(segments.filter(p) == init.filter(p).push(segments.last()));
            assert(segments.filter(p).drop_last() =~= init.filter(p));
        }
    }
}

/// The data segments of a message with their headers.
pub open spec fn with_headers(
    headers: Seq<SegmentHeader>,
    segments: Seq<SegmentView>,
) -> Seq<(SegmentHeader, Seq<u8>)> {
    Seq::new(segments.len(), |i: int| (header_of(headers[i], segments[i]), segments[i].data))
}

proof fn lemma_datagram_is_sent(headers: Seq<SegmentHeader>, segments: Seq<SegmentView>, i: int)
    requires
        0 <= i <= segments.len(),
    ensures
        sent_segments(with_headers(headers, segments).take(i)) + datagram_from(
            headers,
            segments,
            i,
        ) == datagram(headers, segments),
    decreases i,
{
    let all = with_headers(headers, segments);
    if i == 0 {
        assert(all.take(0) =~= Seq::empty());
        assert(Seq::<u8>::empty() + datagram(headers, segments) =~= datagram(headers, segments));
    } else {
        lemma_datagram_is_sent(headers, segments, i - 1);
        assert(all.take(i).drop_last() =~= all.take(i - 1));
        assert(all.take(i).last() == all[i - 1]);
        lemma_regroup(
            sent_segments(all.take(i - 1)),
            sent_segment(all[i - 1].0, all[i - 1].1),
            datagram_from(headers, segments, i),
        );
    }
}

/// A message that is sent in parts is delivered from any datagram that carries its data
/// segments in turn, whatever other segments stand before, between and behind them.
pub proof fn law_a_message_among_other_segments_is_delivered(
    k: KcpView,
    direction: Direction,
    carried: Seq<(SegmentHeader, Seq<u8>)>,
    headers: Seq<SegmentHeader>,
    conv: u32,
    first: u32,
    parts: Seq<Seq<u8>>,
    now: i64,
)
    requires
        0 < parts.len() <= 256,
        of_one_conv(headers, conv, parts.len()),
        forall|i: int| 0 <= i < parts.len() ==> 0 < (#[trigger] parts[i]).len() < 0x1_0000_0000,
        lengths_fit(carried),
        carried.filter(|x: (SegmentHeader, Seq<u8>)| carries_data(x)) == with_headers(
            headers,
            part_segments(first, parts, parts.len() as int),
        ),
        k.stream(direction).buffered == Map::<u32, SegmentView>::empty(),
        k.stream(direction).queue.len() == 0,
        k.stream(direction).conv is None || k.stream(direction).conv == Some(conv),
        k.stream(direction).next is None || k.stream(direction).next == Some(first),
    ensures
        fed(k, sent_segments(carried), direction, now).0 == seq![whole(parts)],
        fed(k, sent_segments(carried), direction, now).1.stats == k.stats,
{
    let segments = part_segments(first, parts, parts.len() as int);
    let all = with_headers(headers, segments);
    law_only_data_counts(k, carried, direction, now);
    lemma_datagram_is_sent(headers, segments, segments.len() as int);
    assert(all.take(segments.len() as int) =~= all);
    assert(sent_segments(all) + Seq::<u8>::empty() =~= sent_segments(all));
    law_a_sent_message_is_delivered(k, direction, headers, conv, first, parts, now);
}

proof fn lemma_goes_on_at_the_lowest(s: StreamView, low: u32, now: i64)
    requires
        s.buffered.dom().finite(),
        numbered(s),
        is_lowest(s.buffered, low),
    ensures
        ({
            let after = skipped_ahead(s, now);
            &&& after.queue.len() > s.queue.len()
            &&& after.queue.take(s.queue.len() as int) == s.queue
            &&& after.queue[s.queue.len() as int] == s.buffered[low]
            &&& after.last_progress == now
            &&& after.conv == s.conv
        }),
{
    assert(is_lowest(s.buffered, lowest(s.buffered)));
    assert(lowest(s.buffered) == low);
    let at = StreamView { next: Some(low), ..s };
    let one = advanced(at, now);
    assert(numbered(one));
    law_promoted_in_order(one, now);
    let after = promoted(one, now);
    assert(is_due(at));
    assert(after == skipped_ahead(s, now));
    assert(after.queue.take(one.queue.len() as int)[s.queue.len() as int] == s.buffered[low]);
    assert(after.queue.take(s.queue.len() as int) =~= after.queue.take(one.queue.len() as int).take(
        s.queue.len() as int,
    ));
    assert(one.queue.take(s.queue.len() as int) =~= s.queue);
    lemma_progress(one, now);
}

/// A segment that comes ahead of the one that is due waits for it. Where the gap has been open
/// for more than two seconds it is given up, and where more than 512 segments wait, too: the
/// stream then goes on at the lowest number that waits, and counts why.
pub proof fn law_gaps_are_waited_for_and_then_given_up(
    s: StreamView,
    stats: KcpStats,
    conv: u32,
    segment: SegmentView,
    low: u32,
    now: i64,
)
    requires
        settled(s),
        s.conv == Some(conv),
        s.next is Some,
        segment.sn != s.next->Some_0,
        segment.sn.wrapping_sub(s.next->Some_0) < 0x8000_0000,
        !s.buffered.contains_key(segment.sn),
        low == segment.sn || s.buffered.contains_key(low),
        low <= segment.sn,
        forall|other: u32| #[trigger] s.buffered.contains_key(other) ==> low <= other,
    ensures
        ({
            let held = s.buffered.insert(segment.sn, segment);
            let (after, told) = accepted(s, stats, conv, segment, now);
            let few = held.dom().len() <= 512;
            let young = now.wrapping_sub(s.last_progress) <= 2;
            &&& few && young ==> after.queue == s.queue && after.buffered == held && after.next
                == s.next && told == stats
            &&& !(few && young) ==> after.queue.len() > s.queue.len() && after.queue.take(
                s.queue.len() as int,
            ) == s.queue && after.queue[s.queue.len() as int] == held[low]
            &&& few && !young ==> told.gaps_skipped == stats.gaps_skipped.wrapping_add(1)
                && told.backlog_overflows == stats.backlog_overflows
            &&& !few ==> told.backlog_overflows == stats.backlog_overflows.wrapping_add(1)
                && told.gaps_skipped == stats.gaps_skipped
            &&& told.conv_resets == stats.conv_resets
        }),
{
    let held = s.buffered.insert(segment.sn, segment);
    let with = buffered_with(started(in_conv(s, conv), segment.sn, now), segment);
    assert(with.buffered == held);
    assert(numbered(with));
    assert(!is_due(with));
    assert(placed(started(in_conv(s, conv), segment.sn, now), segment, now) == with);
    assert(is_lowest(held, low));
    lemma_goes_on_at_the_lowest(with, low, now);
}

/// A segment's header is 28 bytes, its numbers little-endian; a message's header is 12 bytes, its
/// numbers big-endian behind four bytes of magic.
pub proof fn law_the_form_of_the_headers(s: Seq<u8>, at: int)
    requires
        0 <= at,
        at + 28 <= s.len(),
    ensures
        segment_header_at(s, at).conv == endian::le32(s, at),
        segment_header_at(s, at).token == endian::le32(s, at + 4),
        segment_header_at(s, at).cmd == s[at + 8],
        segment_header_at(s, at).frg == s[at + 9],
        segment_header_at(s, at).wnd == endian::le16(s, at + 10),
        segment_header_at(s, at).ts == endian::le32(s, at + 12),
        segment_header_at(s, at).sn == endian::le32(s, at + 16),
        segment_header_at(s, at).una == endian::le32(s, at + 20),
        segment_header_at(s, at).len == endian::le32(s, at + 24),
        message_header_of(s).magic == s.take(4),
        message_header_of(s).command_id == endian::be16(s, 4),
        message_header_of(s).head_length == endian::be16(s, 6),
        message_header_of(s).body_length == endian::be32(s, 8),
{
    assert(s.subrange(0, 4) =~= s.take(4));
}

/// A segment that was cut off by the capture ends its datagram: what came before it counts, and
/// it does not.
pub proof fn law_a_cut_segment_ends_the_datagram(
    k: KcpView,
    before: Seq<(SegmentHeader, Seq<u8>)>,
    header: SegmentHeader,
    payload: Seq<u8>,
    n: int,
    direction: Direction,
    now: i64,
)
    requires
        lengths_fit(before),
        header.len == payload.len(),
        0 <= n < sent_segment(header, payload).len(),
    ensures
        fed(k, sent_segments(before) + sent_segment(header, payload).take(n), direction, now)
            == fed(k, sent_segments(before), direction, now),
{
    let s = k.stream(direction);
    let whole = sent_segment(header, payload);
    let cut = whole.take(n);
    let none = Seq::<u8>::empty();
    lemma_segments_taken(s, k.stats, before, cut, now);
    lemma_segments_taken(s, k.stats, before, none, now);
    assert(sent_segments(before) + none =~= sent_segments(before));
    let (t, more) = segments_taken(s, k.stats, before, now);
    let bytes = segment_header_bytes(header);
    law_segment_header_round_trip(header);
    if n >= 28 {
        assert forall|i: int| 0 <= i < 28 implies cut[i] == bytes[i] by {}
        assert(segment_header_at(cut, 0) == segment_header_at(bytes, 0));
    }
    assert(received(t, more, cut, 0, now) == (t, more));
    assert(received(t, more, none, 0, now) == (t, more));
}

/// A segment whose number lies behind the one that is due, by up to half of all numbers, has
/// come before and is dropped.
pub proof fn law_old_numbers_are_dropped(
    s: StreamView,
    stats: KcpStats,
    conv: u32,
    segment: SegmentView,
    now: i64,
)
    requires
        settled(s),
        s.conv == Some(conv),
        s.next is Some,
        segment.sn.wrapping_sub(s.next->Some_0) >= 0x8000_0000,
        s.buffered.dom().len() == 0 || now.wrapping_sub(s.last_progress) <= 2,
    ensures
        accepted(s, stats, conv, segment, now) == (s, stats),
{
    law_repeated_segments_change_nothing(s, stats, conv, segment, now);
}

} // verus!
