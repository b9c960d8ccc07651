//! WebSocket frames, as far as the live server uses them (RFC 6455, sections 5.2 and 5.5).
//!
//! A frame that is sent is whole and not masked. A frame that arrives may be masked or not;
//! its fin and reserved bits are not looked at.
//!
//! A socket has a read timeout, so that a reader that waits for a quiet client can look up.
//! A wait that ends before the first byte of a frame is idle. One that ends inside a frame,
//! or a connection that closes there, is an error.
use crate::endian;
use crate::text;
use vstd::prelude::*;

pub mod opcode;

verus! {

/// The largest payload that is accepted.
pub const MAX_INBOUND_PAYLOAD: u64 = 67_108_864;

/// A frame.
#[derive(Debug, Clone, PartialEq, Eq)]
pub struct Frame {
    pub opcode: u8,
    pub payload: Vec<u8>,
}

/// What a [`Frame`] holds.
pub struct FrameView {
    pub opcode: u8,
    pub payload: Seq<u8>,
}

impl View for Frame {
    type V = FrameView;

    open spec fn view(&self) -> FrameView {
        FrameView { opcode: self.opcode, payload: self.payload@ }
    }
}

/// What reading a frame came to.
#[derive(Debug, Clone, PartialEq, Eq)]
pub enum FrameRead {
    Frame(Frame),
    /// Nothing arrived, and nothing was consumed.
    Idle,
    /// The connection was closed between two frames.
    Ended,
}

/// What a [`FrameRead`] holds.
pub enum FrameReadView {
    Frame(FrameView),
    Idle,
    Ended,
}

impl View for FrameRead {
    type V = FrameReadView;

    open spec fn view(&self) -> FrameReadView {
        match *self {
            FrameRead::Frame(frame) => FrameReadView::Frame(frame@),
            FrameRead::Idle => FrameReadView::Idle,
            FrameRead::Ended => FrameReadView::Ended,
        }
    }
}

/// The kinds of input errors that make a difference.
#[derive(Debug, Clone, Copy, PartialEq, Eq, Structural)]
pub enum IoKind {
    WouldBlock,
    TimedOut,
    Interrupted,
    UnexpectedEof,
    BrokenPipe,
    Other,
}

/// An input error: what kind it is, and what it says.
#[derive(Debug, Clone, PartialEq, Eq)]
pub struct IoError {
    pub kind: IoKind,
    pub message: String,
}

/// What an [`IoError`] holds.
pub struct IoErrorView {
    pub kind: IoKind,
    pub message: Seq<char>,
}

impl View for IoError {
    type V = IoErrorView;

    open spec fn view(&self) -> IoErrorView {
        IoErrorView { kind: self.kind, message: self.message@ }
    }
}

/// Why a frame cannot be read.
#[derive(Debug, Clone, PartialEq, Eq)]
pub enum FrameError {
    /// Reading failed, the connection was closed inside a frame, or it fell silent there.
    Io(IoError),
    /// A 64-bit length with its highest bit set.
    LengthHasMsbSet,
    /// A payload above [`MAX_INBOUND_PAYLOAD`].
    PayloadTooLarge(u64),
}

/// What a [`FrameError`] holds.
pub enum FrameErrorView {
    Io(IoErrorView),
    LengthHasMsbSet,
    PayloadTooLarge(u64),
}

impl View for FrameError {
    type V = FrameErrorView;

    open spec fn view(&self) -> FrameErrorView {
        match *self {
            FrameError::Io(error) => FrameErrorView::Io(error@),
            FrameError::LengthHasMsbSet => FrameErrorView::LengthHasMsbSet,
            FrameError::PayloadTooLarge(length) => FrameErrorView::PayloadTooLarge(length),
        }
    }
}

impl FrameErrorView {
    /// What went wrong, in words: an input error in its own.
    pub open spec fn text(self) -> Seq<char> {
        match self {
            FrameErrorView::Io(error) => error.message,
            FrameErrorView::LengthHasMsbSet => "frame length has its high bit set"@,
            FrameErrorView::PayloadTooLarge(length) => "frame payload of "@ + text::decimal(
                length as nat,
            ) + " bytes is too large"@,
        }
    }
}

impl FrameError {
    pub fn to_string(&self) -> (r: String)
        ensures
            r@ == self@.text(),
    {
        match self {
            FrameError::Io(error) => error.message.clone(),
            FrameError::LengthHasMsbSet => "frame length has its high bit set".to_owned(),
            FrameError::PayloadTooLarge(length) => {
                let mut out: String = text::with_number("frame payload of ", *length);
                out.push_str(" bytes is too large");
                out
            },
        }
    }
}

/// Whether an error is a timeout: which of the two kinds it is depends on the system.
pub fn is_timeout(error: &IoError) -> (r: bool)
    ensures
        r == (error.kind == IoKind::WouldBlock || error.kind == IoKind::TimedOut),
{
    matches!(error.kind, IoKind::WouldBlock | IoKind::TimedOut)
}

/// Why there are no more bytes for now.
#[derive(Debug, Clone, PartialEq, Eq)]
pub enum SourceEnd {
    /// The connection was closed.
    Closed,
    /// The wait timed out.
    Silent,
    /// Reading failed.
    Failed(IoError),
}

/// What a [`SourceEnd`] holds.
pub enum SourceEndView {
    Closed,
    Silent,
    Failed(IoErrorView),
}

impl View for SourceEnd {
    type V = SourceEndView;

    open spec fn view(&self) -> SourceEndView {
        match *self {
            SourceEnd::Closed => SourceEndView::Closed,
            SourceEnd::Silent => SourceEndView::Silent,
            SourceEnd::Failed(error) => SourceEndView::Failed(error@),
        }
    }
}

/// What a read call that failed means; none where it is to be tried again.
pub open spec fn end_of(error: IoError) -> Option<SourceEnd> {
    if error.kind == IoKind::Interrupted {
        None
    } else if error.kind == IoKind::WouldBlock || error.kind == IoKind::TimedOut {
        Some(SourceEnd::Silent)
    } else {
        Some(SourceEnd::Failed(error))
    }
}

/// What a read call that failed means; none where it is to be tried again.
pub fn source_end(error: IoError) -> (r: Option<SourceEnd>)
    ensures
        r == if error.kind == IoKind::Interrupted {
            None
        } else if error.kind == IoKind::WouldBlock || error.kind == IoKind::TimedOut {
            Some(SourceEnd::Silent)
        } else {
            Some(SourceEnd::Failed(error))
        },
        r == end_of(error),
{
    if matches!(error.kind, IoKind::Interrupted) {
        None
    } else if is_timeout(&error) {
        Some(SourceEnd::Silent)
    } else {
        Some(SourceEnd::Failed(error))
    }
}

/// A length in its shortest form.
pub open spec fn length_bytes(len: nat, mask_bit: u8) -> Seq<u8> {
    if len < 126 {
        seq![(mask_bit + len) as u8]
    } else if len <= 0xFFFF {
        seq![(mask_bit + 126) as u8] + endian::be16_bytes(len as u16)
    } else {
        seq![(mask_bit + 127) as u8] + endian::be64_bytes(len as u64)
    }
}

/// A frame as the server sends it.
pub open spec fn encoded(opcode: u8, payload: Seq<u8>) -> Seq<u8> {
    seq![0x80u8 | opcode] + length_bytes(payload.len(), 0) + payload
}

/// A payload XORed with a mask of four bytes.
pub open spec fn masked(payload: Seq<u8>, mask: Seq<u8>) -> Seq<u8> {
    Seq::new(payload.len(), |i: int| payload[i] ^ mask[i % 4])
}

/// A frame as a client sends it.
pub open spec fn client_encoded(opcode: u8, payload: Seq<u8>, mask: Seq<u8>) -> Seq<u8> {
    seq![0x80u8 | opcode] + length_bytes(payload.len(), 128) + mask + masked(payload, mask)
}

/// How many bytes the length of a frame takes behind its second byte.
pub open spec fn length_size(second: u8) -> int {
    if second % 128 == 126 {
        2
    } else if second % 128 == 127 {
        8
    } else {
        0
    }
}

/// The length that a frame's header declares.
pub open spec fn declared_length(s: Seq<u8>) -> int {
    if s[1] % 128 == 126 {
        endian::be16(s, 2)
    } else if s[1] % 128 == 127 {
        endian::be64(s, 2)
    } else {
        (s[1] % 128) as int
    }
}

/// How many bytes the mask takes.
pub open spec fn mask_size(second: u8) -> int {
    if second >= 128 {
        4
    } else {
        0
    }
}

/// Whether a header whose length is there is refused.
pub open spec fn refused(s: Seq<u8>) -> Option<FrameErrorView> {
    if s[1] % 128 == 127 && s[2] >= 128 {
        Some(FrameErrorView::LengthHasMsbSet)
    } else if declared_length(s) > MAX_INBOUND_PAYLOAD {
        Some(FrameErrorView::PayloadTooLarge(declared_length(s) as u64))
    } else {
        None
    }
}

/// How many bytes have to be there before the frame can be read further: the first two, then
/// the length, then the whole frame.
pub open spec fn needed(s: Seq<u8>) -> Result<int, FrameErrorView> {
    if s.len() < 2 {
        Ok(2)
    } else if s.len() < 2 + length_size(s[1]) {
        Ok(2 + length_size(s[1]))
    } else {
        match refused(s) {
            Some(error) => Err(error),
            None => Ok(2 + length_size(s[1]) + mask_size(s[1]) + declared_length(s)),
        }
    }
}

/// Nothing more comes, inside a frame.
pub open spec fn broken(end: SourceEndView) -> FrameErrorView {
    match end {
        SourceEndView::Closed => FrameErrorView::Io(
            IoErrorView { kind: IoKind::UnexpectedEof, message: "connection closed mid-frame"@ },
        ),
        SourceEndView::Silent => FrameErrorView::Io(
            IoErrorView { kind: IoKind::TimedOut, message: "the peer stalled mid-frame"@ },
        ),
        SourceEndView::Failed(error) => FrameErrorView::Io(error),
    }
}

/// The frame whose bytes are all there.
pub open spec fn whole_frame(s: Seq<u8>) -> FrameView {
    let at = 2 + length_size(s[1]);
    let start = at + mask_size(s[1]);
    let payload = s.subrange(start, start + declared_length(s));
    FrameView {
        opcode: (s[0] % 16) as u8,
        payload: if s[1] >= 128 {
            masked(payload, s.subrange(at, at + 4))
        } else {
            payload
        },
    }
}

/// What the first frame in some bytes is, where nothing but `end` follows them, and how many
/// bytes it takes.
pub open spec fn frame_in(s: Seq<u8>, end: SourceEndView) -> (Result<FrameReadView, FrameErrorView>, int) {
    if s.len() == 0 {
        match end {
            SourceEndView::Closed => (Ok(FrameReadView::Ended), 0),
            SourceEndView::Silent => (Ok(FrameReadView::Idle), 0),
            SourceEndView::Failed(error) => (Err(FrameErrorView::Io(error)), 0),
        }
    } else {
        match needed(s) {
            Err(error) => (Err(error), 2 + length_size(s[1])),
            Ok(n) => if s.len() < n {
                (Err(broken(end)), s.len() as int)
            } else {
                (Ok(FrameReadView::Frame(whole_frame(s))), n)
            },
        }
    }
}

/// What was read, or why nothing was.
pub open spec fn outcome(r: Result<FrameRead, FrameError>) -> Result<
    FrameReadView,
    FrameErrorView,
> {
    match r {
        Ok(read) => Ok(read@),
        Err(e) => Err(e@),
    }
}

/// A server frame.
pub fn encode(opcode: u8, payload: &[u8]) -> (r: Vec<u8>)
    ensures
        r@ == encoded(opcode, payload@),
{
    let mut frame: Vec<u8> = Vec::new();
    frame.push(0x80 | opcode);
    let length: usize = payload.len();
    let ghost first = frame@;
    if length < 126 {
        frame.push(length as u8);
    } else if length <= 0xFFFF {
        frame.push(126);
        endian::push_be16(&mut frame, length as u16);
    } else {
        frame.push(127);
        endian::push_be64(&mut frame, length as u64);
    }
    assert(frame@ =~= seq![0x80u8 | opcode] + length_bytes(payload@.len(), 0));
    frame.extend_from_slice(payload);
    assert(frame@ =~= encoded(opcode, payload@));
    frame
}

/// A text frame.
pub fn encode_text(payload: &str) -> (r: Vec<u8>)
    ensures
        r@ == encoded(opcode::TEXT, vstd::utf8::encode_utf8(payload@)),
{
    encode(opcode::TEXT, payload.as_bytes())
}

/// The answer to a ping: its payload again.
pub fn encode_pong(payload: &[u8]) -> (r: Vec<u8>)
    ensures
        r@ == encoded(opcode::PONG, payload@),
{
    encode(opcode::PONG, payload)
}

/// The answer to a close: a close frame without payload.
pub fn encode_close() -> (r: [u8; 2])
    ensures
        r@ == encoded(opcode::CLOSE, Seq::empty()),
        r@ == seq![0x88u8, 0x00u8],
{
    let r: [u8; 2] = [0x88, 0x00];
    assert(0x80u8 | 0x8u8 == 0x88u8) by (bit_vector);
    assert(r@ =~= encoded(opcode::CLOSE, Seq::empty()));
    assert(r@ =~= seq![0x88u8, 0x00u8]);
    r
}

/// How many bytes have to be there before a frame that begins with `head` can be read
/// further. A length that is refused is refused here, before anything is allocated.
pub fn bytes_needed(head: &[u8]) -> (r: Result<usize, FrameError>)
    ensures
        match r {
            Ok(n) => needed(head@) == Ok::<int, FrameErrorView>(n as int),
            Err(e) => needed(head@) == Err::<int, FrameErrorView>(e@),
        },
{
    if head.len() < 2 {
        return Ok(2);
    }
    let code: u8 = head[1] % 128;
    let mask: usize = if head[1] >= 128 {
        4
    } else {
        0
    };
    let (size, length): (usize, u64) = if code == 126 {
        if head.len() < 4 {
            return Ok(4);
        }
        (2, endian::read_be16(head, 2) as u64)
    } else if code == 127 {
        if head.len() < 10 {
            return Ok(10);
        }
        if head[2] >= 128 {
            return Err(FrameError::LengthHasMsbSet);
        }
        (8, endian::read_be64(head, 2))
    } else {
        (0, code as u64)
    };
    if length > MAX_INBOUND_PAYLOAD {
        return Err(FrameError::PayloadTooLarge(length));
    }
    Ok(2 + size + mask + length as usize)
}

/// Reads the first frame in `source`, behind which nothing but `end` follows. Says how many
/// bytes were consumed.
pub fn read_frame(source: &[u8], end: SourceEnd) -> (r: (Result<FrameRead, FrameError>, usize))
    ensures
        (outcome(r.0), r.1 as int) == frame_in(source@, end@),
{
    if source.len() == 0 {
        return match end {
            SourceEnd::Closed => (Ok(FrameRead::Ended), 0),
            SourceEnd::Silent => (Ok(FrameRead::Idle), 0),
            SourceEnd::Failed(error) => (Err(FrameError::Io(error)), 0),
        };
    }
    let n: usize = match bytes_needed(source) {
        Ok(n) => n,
        Err(e) => {
            let at: usize = if source[1] % 128 == 127 {
                10
            } else if source[1] % 128 == 126 {
                4
            } else {
                2
            };
            return (Err(e), at);
        },
    };
    if source.len() < n {
        let error: FrameError = match end {
            SourceEnd::Closed => FrameError::Io(
                IoError {
                    kind: IoKind::UnexpectedEof,
                    message: "connection closed mid-frame".to_owned(),
                },
            ),
            SourceEnd::Silent => FrameError::Io(
                IoError {
                    kind: IoKind::TimedOut,
                    message: "the peer stalled mid-frame".to_owned(),
                },
            ),
            SourceEnd::Failed(error) => FrameError::Io(error),
        };
        return (Err(error), source.len());
    }
    let code: u8 = source[1] % 128;
    let at: usize = if code == 127 {
        10
    } else if code == 126 {
        4
    } else {
        2
    };
    let is_masked: bool = source[1] >= 128;
    let start: usize = if is_masked {
        at + 4
    } else {
        at
    };
    let ghost body = source@.subrange(start as int, n as int);
    let ghost mask = source@.subrange(at as int, at + 4);
    let mut payload: Vec<u8> = Vec::new();
    let mut i: usize = start;
    while i < n
        invariant
            start <= i <= n <= source@.len(),
            at + 4 <= source@.len() || !is_masked,
            is_masked ==> start == at + 4,
            n <= usize::MAX,
            body == source@.subrange(start as int, n as int),
            mask == source@.subrange(at as int, at + 4),
            payload@.len() == i - start,
            is_masked ==> forall|k: int| 0 <= k < i - start ==> payload@[k] == body[k] ^ mask[k % 4],
            !is_masked ==> forall|k: int| 0 <= k < i - start ==> payload@[k] == body[k],
        decreases n - i,
    {
        if is_masked {
            let j: usize = at + (i - start) % 4;
            assert(mask[(i - start) % 4] == source@[j as int]);
            payload.push(source[i] ^ source[j]);
        } else {
            payload.push(source[i]);
        }
        i = i + 1;
    }
    proof {
        if is_masked {
            assert(payload@ =~= masked(body, mask));
        } else {
            assert(payload@ =~= body);
        }
    }
    (Ok(FrameRead::Frame(Frame { opcode: source[0] % 16, payload })), n)
}

/// The declared length of a frame that was encoded.
proof fn lemma_length_round_trip(s: Seq<u8>, len: nat, mask_bit: u8)
    requires
        mask_bit == 0 || mask_bit == 128,
        len <= u64::MAX,
        s.len() >= 1 + length_bytes(len, mask_bit).len(),
        s.subrange(1, 1int + length_bytes(len, mask_bit).len()) == length_bytes(len, mask_bit),
    ensures
        declared_length(s) == len,
        length_bytes(len, mask_bit).len() == 1 + length_size(s[1]),
        mask_size(s[1]) == if mask_bit == 128 {
            4int
        } else {
            0int
        },
        s[1] >= 128 <==> mask_bit == 128,
{
    let form = length_bytes(len, mask_bit);
    assert(form[0] == s[1]);
    if len < 126 {
    } else if len <= 0xFFFF {
        assert(s.subrange(2, 4) =~= endian::be16_bytes(len as u16)) by {
            assert(form.subrange(1, 3) =~= endian::be16_bytes(len as u16));
            assert(s.subrange(2, 4) =~= form.subrange(1, 3));
        }
        endian::lemma_round_trip_16(s, 2, len as u16);
    } else {
        assert(s.subrange(2, 10) =~= endian::be64_bytes(len as u64)) by {
            assert(form.subrange(1, 9) =~= endian::be64_bytes(len as u64));
            assert(s.subrange(2, 10) =~= form.subrange(1, 9));
        }
        endian::lemma_round_trip_64(s, 2, len as u64);
    }
}

/// A frame that was encoded is read back, whatever follows it, and nothing behind it is
/// consumed.
pub proof fn law_reading_undoes_encoding(opcode: u8, payload: Seq<u8>, rest: Seq<u8>, end: SourceEndView)
    requires
        opcode < 16,
        payload.len() <= MAX_INBOUND_PAYLOAD,
    ensures
        frame_in(encoded(opcode, payload) + rest, end) == (
            Ok::<FrameReadView, FrameErrorView>(FrameReadView::Frame(FrameView { opcode, payload })),
            encoded(opcode, payload).len() as int,
        ),
{
    let s = encoded(opcode, payload) + rest;
    let form = length_bytes(payload.len(), 0);
    assert((0x80u8 | opcode) % 16 == opcode) by (bit_vector)
        requires
            opcode < 16,
    ;
    assert(s.subrange(1, 1int + form.len()) =~= form);
    lemma_length_round_trip(s, payload.len(), 0);
    lemma_small_length_has_no_msb(s, payload.len());
    let start = 2 + length_size(s[1]);
    assert(s.subrange(start, start + payload.len()) =~= payload);
}

/// A length up to the limit has no highest bit.
proof fn lemma_small_length_has_no_msb(s: Seq<u8>, len: nat)
    requires
        declared_length(s) == len,
        len <= MAX_INBOUND_PAYLOAD,
        s.len() >= 2,
        s[1] % 128 == 127 ==> s.len() >= 10,
    ensures
        refused(s) is None,
{
    if s[1] % 128 == 127 && s[2] >= 128 {
        assert(endian::be64(s, 2) >= 128 * 0x100_0000_0000_0000);
    }
}

/// A masked frame is read back without its mask.
pub proof fn law_reading_unmasks(
    opcode: u8,
    payload: Seq<u8>,
    mask: Seq<u8>,
    rest: Seq<u8>,
    end: SourceEndView,
)
    requires
        opcode < 16,
        mask.len() == 4,
        payload.len() <= MAX_INBOUND_PAYLOAD,
    ensures
        frame_in(client_encoded(opcode, payload, mask) + rest, end) == (
            Ok::<FrameReadView, FrameErrorView>(FrameReadView::Frame(FrameView { opcode, payload })),
            client_encoded(opcode, payload, mask).len() as int,
        ),
{
    let s = client_encoded(opcode, payload, mask) + rest;
    let form = length_bytes(payload.len(), 128);
    assert((0x80u8 | opcode) % 16 == opcode) by (bit_vector)
        requires
            opcode < 16,
    ;
    assert(s.subrange(1, 1int + form.len()) =~= form);
    lemma_length_round_trip(s, payload.len(), 128);
    lemma_small_length_has_no_msb(s, payload.len());
    let at = 2 + length_size(s[1]);
    assert(s.subrange(at, at + 4) =~= mask);
    let hidden = masked(payload, mask);
    assert(s.subrange(at + 4, at + 4 + payload.len()) =~= hidden);
    assert forall|i: int| 0 <= i < payload.len() implies #[trigger] masked(hidden, mask)[i]
        == payload[i] by {
        let a = payload[i];
        let b = mask[i % 4];
        assert((a ^ b) ^ b == a) by (bit_vector);
    }
    assert(masked(hidden, mask) =~= payload);
}

/// A frame that is cut short is an error, and never a frame.
pub proof fn law_a_cut_frame_is_an_error(opcode: u8, payload: Seq<u8>, n: int, end: SourceEndView)
    requires
        opcode < 16,
        payload.len() <= MAX_INBOUND_PAYLOAD,
        0 < n < encoded(opcode, payload).len(),
    ensures
        frame_in(encoded(opcode, payload).take(n), end).0 == Err::<FrameReadView, FrameErrorView>(
            broken(end),
        ),
{
    let whole = encoded(opcode, payload);
    let s = whole.take(n);
    law_reading_undoes_encoding(opcode, payload, Seq::empty(), end);
    assert(whole + Seq::<u8>::empty() =~= whole);
    if n >= 2 {
        assert(s[1] == whole[1]);
        if n >= 2 + length_size(s[1]) {
            assert(declared_length(s) == declared_length(whole));
            assert(refused(s) == refused(whole));
        }
    }
}

/// A frame as the server sends it is whole and has no mask: the length stands in the second
/// byte up to 125, in two more bytes up to 65535, and in eight more beyond, the highest byte
/// first, and the payload follows as it is.
pub proof fn law_the_form_of_a_frame(opcode: u8, payload: Seq<u8>)
    requires
        opcode < 16,
        payload.len() <= u64::MAX,
    ensures
        ({
            let s = encoded(opcode, payload);
            let n = payload.len();
            &&& s[0] == 128 + opcode
            &&& n <= 125 ==> s.len() == 2 + n && s[1] == n && s.skip(2) == payload
            &&& 126 <= n <= 65535 ==> s.len() == 4 + n && s[1] == 126 && s[2] * 256 + s[3] == n
                && s.skip(4) == payload
            &&& n > 65535 ==> s.len() == 10 + n && s[1] == 127 && endian::be64(s, 2) == n && s.skip(
                10,
            ) == payload
        }),
{
    assert(0x80u8 | opcode == 128 + opcode) by (bit_vector)
        requires
            opcode < 16,
    ;
    let s = encoded(opcode, payload);
    let form = length_bytes(payload.len(), 0);
    assert(s.subrange(1, 1int + form.len()) =~= form);
    lemma_length_round_trip(s, payload.len(), 0);
    assert(s.skip(1int + form.len()) =~= payload);
}

/// The flags of a frame do not matter: the upper half of its first byte is not looked at.
pub proof fn law_flags_do_not_matter(s: Seq<u8>, flags: u8, end: SourceEndView)
    requires
        s.len() > 0,
        flags < 16,
    ensures
        frame_in(s.update(0, (flags * 16 + s[0] % 16) as u8), end) == frame_in(s, end),
{
    let t = s.update(0, (flags * 16 + s[0] % 16) as u8);
    if s.len() >= 2 && s.len() >= 2 + length_size(s[1]) {
        assert(declared_length(t) == declared_length(s));
        assert(refused(t) == refused(s));
        if let Ok(n) = needed(s) {
            if s.len() >= n {
                let at = 2 + length_size(s[1]);
                let start = at + mask_size(s[1]);
                assert(t.subrange(start, start + declared_length(s)) =~= s.subrange(
                    start,
                    start + declared_length(s),
                ));
                if s[1] >= 128 {
                    assert(t.subrange(at, at + 4) =~= s.subrange(at, at + 4));
                }
            }
        }
    }
}

/// A frame that declares more than 64 MiB is refused before any of its payload is there, and
/// one whose length has its highest bit set too.
pub proof fn law_large_frames_are_refused(s: Seq<u8>, end: SourceEndView)
    requires
        s.len() >= 10,
        s[1] % 128 == 127,
    ensures
        s[2] >= 128 ==> frame_in(s, end).0 == Err::<FrameReadView, FrameErrorView>(
            FrameErrorView::LengthHasMsbSet,
        ),
        s[2] < 128 && endian::be64(s, 2) > 67_108_864 ==> frame_in(s, end).0 == Err::<
            FrameReadView,
            FrameErrorView,
        >(FrameErrorView::PayloadTooLarge(endian::be64(s, 2) as u64)),
        s[2] < 128 && endian::be64(s, 2) <= 67_108_864 ==> frame_in(s, end).0 is Ok || frame_in(
            s,
            end,
        ).0 == Err::<FrameReadView, FrameErrorView>(broken(end)),
{
}

/// Between two frames an end is no error, and a silence neither; inside a frame both are.
pub proof fn law_ends_are_told_apart(s: Seq<u8>)
    requires
        s.len() == 1,
    ensures
        frame_in(Seq::empty(), SourceEndView::Closed).0 == Ok::<FrameReadView, FrameErrorView>(
            FrameReadView::Ended,
        ),
        frame_in(Seq::empty(), SourceEndView::Silent).0 == Ok::<FrameReadView, FrameErrorView>(
            FrameReadView::Idle,
        ),
        frame_in(s, SourceEndView::Closed).0 is Err,
        frame_in(s, SourceEndView::Closed).0->Err_0 is Io,
        frame_in(s, SourceEndView::Closed).0->Err_0->Io_0.kind is UnexpectedEof,
        frame_in(s, SourceEndView::Silent).0 is Err,
        frame_in(s, SourceEndView::Silent).0->Err_0 is Io,
        frame_in(s, SourceEndView::Silent).0->Err_0->Io_0.kind is TimedOut,
{
}

/// A read that was interrupted is tried again, one that timed out is a silence, and any other
/// failure is told as it is.
pub proof fn law_failed_reads_are_told_apart(error: IoError)
    ensures
        end_of(error) is None <==> error.kind is Interrupted,
        end_of(error) == Some(SourceEnd::Silent) <==> error.kind is WouldBlock
            || error.kind is TimedOut,
        !(error.kind is Interrupted || error.kind is WouldBlock || error.kind is TimedOut) ==> end_of(
            error,
        ) == Some(SourceEnd::Failed(error)),
{
}

} // verus!
