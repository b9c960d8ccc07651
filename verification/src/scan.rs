//! From captured UDP payloads to game data: reassembly, decryption, decoding and
//! extraction.
//!
//! A [`Scanner`] owns all of its state, so a replay is a function of the packets, and
//! several can run side by side: that is how the region of a capture is found.
use crate::datamine::Datamine;
use crate::kcp;
use crate::kcp::{Direction, Kcp, KcpStats, KcpView, MessageHeader};
use crate::proto;
use crate::proto::{FieldView, Message};
use crate::protonap;
use crate::protonap::{ProtoEntryView, Protonap};
use crate::rsa::{Key, KeyView};
use crate::session;
use crate::session::{BruteForceMatch, Session, SessionError, SessionView};
use crate::snapshot;
use crate::snapshot::{
    ExtractEvent, ExtractEventView, ExtractSummary, Inventory, InventoryView, ItemChange, SummaryView,
};
use crate::xor_fields;
use crate::xorpad;
use crate::xorpad::XorPad;
use std::collections::BTreeMap;
use vstd::prelude::*;

verus! {

/// How many of the first messages are remembered.
pub const REMEMBERED_MESSAGES: usize = 8;

/// A body must be declared this long to be tried for the client's half of the key.
pub const MIN_CARRIER_BODY: u32 = 32;

/// What decoding one message gave.
#[derive(Debug, Clone)]
pub enum DecodeEvent {
    /// The token response carried the server's half of the session key.
    ServerRandKey { key: u64 },
    /// The token response carried no usable key.
    ServerRandKeyFailed { error: SessionError },
    /// The client's half was recovered and the session pad adopted.
    SessionKey { found: BruteForceMatch },
    /// No second in the window made the body decode.
    SessionKeyNotFound,
    /// A body was decrypted and decoded.
    Message { command_id: u16, message: Message, bytes: usize },
    /// A body does not decode after decryption.
    ProtoFailed { command_id: u16, bytes: usize },
}

/// What a [`DecodeEvent`] holds.
pub enum DecodeEventView {
    ServerRandKey { key: u64 },
    ServerRandKeyFailed { error: SessionError },
    SessionKey { found: BruteForceMatch },
    SessionKeyNotFound,
    Message { command_id: u16, message: Seq<FieldView>, bytes: usize },
    ProtoFailed { command_id: u16, bytes: usize },
}

impl View for DecodeEvent {
    type V = DecodeEventView;

    open spec fn view(&self) -> DecodeEventView {
        match *self {
            DecodeEvent::ServerRandKey { key } => DecodeEventView::ServerRandKey { key },
            DecodeEvent::ServerRandKeyFailed { error } => DecodeEventView::ServerRandKeyFailed {
                error,
            },
            DecodeEvent::SessionKey { found } => DecodeEventView::SessionKey { found },
            DecodeEvent::SessionKeyNotFound => DecodeEventView::SessionKeyNotFound,
            DecodeEvent::Message { command_id, message, bytes } => DecodeEventView::Message {
                command_id,
                message: message@,
                bytes,
            },
            DecodeEvent::ProtoFailed { command_id, bytes } => DecodeEventView::ProtoFailed {
                command_id,
                bytes,
            },
        }
    }
}

pub open spec fn decode_events_view(events: Seq<DecodeEvent>) -> Seq<DecodeEventView> {
    events.map_values(|e: DecodeEvent| e@)
}

/// Counters of a replay. They wrap.
#[derive(Debug, Clone, Copy, PartialEq, Eq, Structural)]
pub struct DecodeStats {
    /// Messages that were reassembled.
    pub messages: u64,
    /// Messages whose body decoded.
    pub decoded: u64,
    /// Messages whose body did not decode.
    pub proto_failures: u64,
    /// Messages whose body was empty.
    pub empty_bodies: u64,
}

/// Nothing was counted.
pub open spec fn no_stats() -> DecodeStats {
    DecodeStats { messages: 0, decoded: 0, proto_failures: 0, empty_bodies: 0 }
}

impl Default for DecodeStats {
    fn default() -> (r: DecodeStats)
        ensures
            r == no_stats(),
    {
        DecodeStats { messages: 0, decoded: 0, proto_failures: 0, empty_bodies: 0 }
    }
}

/// One of the first decoded messages.
#[derive(Debug, Clone, Copy, PartialEq, Eq, Structural)]
pub struct DecodedMessage {
    pub command_id: u16,
    pub bytes: usize,
    pub fields: usize,
}

/// What a [`Decoder`] works with: the key, the field numbers and the descriptors.
pub struct Context {
    pub key: KeyView,
    pub datamine: Datamine,
    pub nap: Seq<ProtoEntryView>,
}

/// The state of a [`Decoder`].
pub struct DecoderView {
    pub session: SessionView,
    pub stats: DecodeStats,
}

/// The body of a message: as many of the declared bytes as are there.
pub open spec fn body_of(message: Seq<u8>) -> Seq<u8> {
    let header = kcp::message_header_of(message);
    let start = kcp::MESSAGE_HEADER_SIZE + header.head_length;
    let end = start + header.body_length;
    if start > message.len() {
        Seq::empty()
    } else if end > message.len() {
        message.subrange(start, message.len() as int)
    } else {
        message.subrange(start, end)
    }
}

/// Whether a message is the token response of a session that has none yet.
pub open spec fn is_token_response(d: DecoderView, command_id: u16, c: Context) -> bool {
    d.session.server_rand_key is None && command_id as u32 == c.datamine.cmd_player_get_token_sc_rsp
}

/// Whether a message is tried for the client's half of the key.
pub open spec fn is_carrier(d: DecoderView, body_length: u32) -> bool {
    d.session.server_rand_key is Some && !d.session.pad_ready && body_length >= MIN_CARRIER_BODY
}

/// The event of a message that is tried for the client's half of the key.
pub open spec fn carrier_events(d: DecoderView, body_length: u32, body: Seq<u8>, now: i64) -> Seq<
    DecodeEventView,
> {
    if is_carrier(d, body_length) {
        match session::derived(d.session, body, now) {
            Some(found) => seq![DecodeEventView::SessionKey { found }],
            None => seq![DecodeEventView::SessionKeyNotFound],
        }
    } else {
        Seq::empty()
    }
}

/// The session after a message that is tried for the client's half of the key.
pub open spec fn carrier_session(d: DecoderView, body_length: u32, body: Seq<u8>, now: i64) -> SessionView {
    if is_carrier(d, body_length) {
        match session::derived(d.session, body, now) {
            Some(found) => session::adopted(d.session, found),
            None => d.session,
        }
    } else {
        d.session
    }
}

/// One message is decoded: its events, and the state after it. The body is decrypted with
/// the pad in use before the message, so the one that completes the handshake is read with
/// the region pad.
pub open spec fn message_decoded(d: DecoderView, c: Context, bytes: Seq<u8>, now: i64) -> (
    Seq<DecodeEventView>,
    DecoderView,
) {
    if bytes.len() < kcp::MESSAGE_HEADER_SIZE {
        (Seq::empty(), d)
    } else {
        let header = kcp::message_header_of(bytes);
        let command_id = header.command_id;
        let body = body_of(bytes);
        let decrypted = xorpad::xor_with(body, d.session.pad);
        let stats = DecodeStats { messages: d.stats.messages.wrapping_add(1), ..d.stats };
        if is_token_response(d, command_id, c) {
            match session::server_key_in(decrypted, c.key) {
                Ok(key) => (
                    seq![DecodeEventView::ServerRandKey { key }],
                    DecoderView {
                        session: SessionView { server_rand_key: Some(key), ..d.session },
                        stats,
                    },
                ),
                Err(error) => (
                    seq![DecodeEventView::ServerRandKeyFailed { error }],
                    DecoderView { session: d.session, stats },
                ),
            }
        } else {
            let events = carrier_events(d, header.body_length, body, now);
            let after = carrier_session(d, header.body_length, body, now);
            if decrypted.len() == 0 {
                (
                    events,
                    DecoderView {
                        session: after,
                        stats: DecodeStats {
                            empty_bodies: stats.empty_bodies.wrapping_add(1),
                            ..stats
                        },
                    },
                )
            } else {
                match proto::decoded(decrypted) {
                    Ok(fields) => (
                        events.push(
                            DecodeEventView::Message {
                                command_id,
                                message: xor_fields::xored(
                                    fields,
                                    protonap::by_cmd(c.nap, command_id),
                                    c.nap,
                                ),
                                bytes: decrypted.len() as usize,
                            },
                        ),
                        DecoderView {
                            session: after,
                            stats: DecodeStats { decoded: stats.decoded.wrapping_add(1), ..stats },
                        },
                    ),
                    Err(_) => (
                        events.push(
                            DecodeEventView::ProtoFailed {
                                command_id,
                                bytes: decrypted.len() as usize,
                            },
                        ),
                        DecoderView {
                            session: after,
                            stats: DecodeStats {
                                proto_failures: stats.proto_failures.wrapping_add(1),
                                ..stats
                            },
                        },
                    ),
                }
            }
        }
    }
}

/// Turns reassembled messages into events.
pub struct Decoder<'a> {
    session: Session,
    key: &'a Key,
    datamine: &'a Datamine,
    nap: &'a Protonap,
    stats: DecodeStats,
}

impl<'a> View for Decoder<'a> {
    type V = DecoderView;

    closed spec fn view(&self) -> DecoderView {
        DecoderView { session: self.session@, stats: self.stats }
    }
}

impl<'a> Decoder<'a> {
    /// What the decoder works with.
    pub closed spec fn context(&self) -> Context {
        Context { key: self.key@, datamine: *self.datamine, nap: self.nap@ }
    }

    pub fn new(session: Session, key: &'a Key, datamine: &'a Datamine, nap: &'a Protonap) -> (r: Self)
        ensures
            r@ == (DecoderView { session: session@, stats: no_stats() }),
            r.context() == (Context { key: key@, datamine: *datamine, nap: nap@ }),
    {
        Decoder { session, key, datamine, nap, stats: DecodeStats::default() }
    }

    pub fn session(&self) -> (r: &Session)
        ensures
            r@ == self@.session,
    {
        &self.session
    }

    pub fn stats(&self) -> (r: &DecodeStats)
        ensures
            *r == self@.stats,
    {
        &self.stats
    }

    /// The field numbers and command ids in use.
    pub fn datamine(&self) -> (r: &'a Datamine)
        ensures
            *r == self.context().datamine,
    {
        self.datamine
    }

    /// Decodes one message. The one that completes the handshake gives two events: it is a
    /// message like any other too.
    pub fn feed(&mut self, message_bytes: &[u8], unix_seconds: i64) -> (r: Vec<DecodeEvent>)
        ensures
            (decode_events_view(r@), final(self)@) == message_decoded(
                old(self)@,
                old(self).context(),
                message_bytes@,
                unix_seconds,
            ),
            final(self).context() == old(self).context(),
    {
        let ghost before = self@;
        let ghost c = self.context();
        let ghost expected = message_decoded(before, c, message_bytes@, unix_seconds);
        let mut events: Vec<DecodeEvent> = Vec::new();
        assert(decode_events_view(events@) =~= Seq::empty());
        let header: MessageHeader = match MessageHeader::decode(message_bytes) {
            Ok(header) => header,
            Err(_) => {
                return events;
            },
        };
        let total: usize = message_bytes.len();
        let start: usize = kcp::MESSAGE_HEADER_SIZE + header.head_length as usize;
        let body: &[u8] = if start > total {
            vstd::slice::slice_subrange(message_bytes, total, total)
        } else if header.body_length as u64 > (total - start) as u64 {
            vstd::slice::slice_subrange(message_bytes, start, total)
        } else {
            vstd::slice::slice_subrange(message_bytes, start, start + header.body_length as usize)
        };
        assert(body@ =~= body_of(message_bytes@));
        let decrypted: Vec<u8> = self.session.decrypt_body(body);
        self.stats.messages = self.stats.messages.wrapping_add(1);
        let command_id: u16 = header.command_id;
        if self.session.server_rand_key().is_none() && command_id as u32
            == self.datamine.cmd_player_get_token_sc_rsp {
            match Session::extract_server_rand_key(decrypted.as_slice(), self.key) {
                Ok(key) => {
                    self.session.accept_server_rand_key(key);
                    events.push(DecodeEvent::ServerRandKey { key });
                },
                Err(error) => {
                    events.push(DecodeEvent::ServerRandKeyFailed { error });
                },
            }
            assert(decode_events_view(events@) =~= expected.0);
            return events;
        }
        if self.session.server_rand_key().is_some() && !self.session.pad_ready() && header.body_length
            >= MIN_CARRIER_BODY {
            match self.session.derive_session_key(body, unix_seconds) {
                Some(found) => {
                    events.push(DecodeEvent::SessionKey { found });
                },
                None => {
                    events.push(DecodeEvent::SessionKeyNotFound);
                },
            }
        }
        assert(decode_events_view(events@) =~= carrier_events(
            before,
            header.body_length,
            body@,
            unix_seconds,
        ));
        if decrypted.len() == 0 {
            self.stats.empty_bodies = self.stats.empty_bodies.wrapping_add(1);
            return events;
        }
        let ghost so_far = events@;
        match Message::decode(decrypted.as_slice()) {
            Ok(message) => {
                let mut message: Message = message;
                xor_fields::xor_proto_fields(
                    &mut message,
                    self.nap.entry_by_cmd(command_id),
                    self.nap,
                );
                self.stats.decoded = self.stats.decoded.wrapping_add(1);
                let event = DecodeEvent::Message { command_id, message, bytes: decrypted.len() };
                events.push(event);
                assert(decode_events_view(events@) =~= decode_events_view(so_far).push(event@));
            },
            Err(_) => {
                self.stats.proto_failures = self.stats.proto_failures.wrapping_add(1);
                let event = DecodeEvent::ProtoFailed { command_id, bytes: decrypted.len() };
                events.push(event);
                assert(decode_events_view(events@) =~= decode_events_view(so_far).push(event@));
            },
        }
        events
    }
}

/// How often a command was counted.
pub open spec fn count_of(counts: Map<u16, u64>, command_id: u16) -> u64 {
    if counts.contains_key(command_id) {
        counts[command_id]
    } else {
        0
    }
}

/// One more message of a command is counted.
pub open spec fn command_counted(counts: Map<u16, u64>, command_id: u16) -> Map<u16, u64> {
    counts.insert(command_id, count_of(counts, command_id).wrapping_add(1))
}

/// Whether some events hold a response with the whole inventory.
pub open spec fn holds_load(events: Seq<ExtractEventView>) -> bool {
    exists|i: int|
        0 <= i < events.len() && (#[trigger] events[i] is Discs || events[i] is Weapons || events[i] is Avatars)
}

/// The changes in some events, in order.
pub open spec fn changes_in(events: Seq<ExtractEventView>) -> Seq<ItemChange>
    decreases events.len(),
{
    if events.len() == 0 {
        Seq::empty()
    } else {
        match events.last() {
            ExtractEventView::Changes(changes) => changes_in(events.drop_last()) + changes,
            _ => changes_in(events.drop_last()),
        }
    }
}

/// The state of a [`Scanner`].
pub struct ScannerView {
    pub kcp: KcpView,
    pub decoder: DecoderView,
    pub inventory: InventoryView,
    pub extract: SummaryView,
    /// The changes of the last packet.
    pub last_changes: Seq<ItemChange>,
    /// Whether the last packet held a response with the whole inventory.
    pub last_had_load: bool,
    /// How many messages of each command were decoded.
    pub commands: Map<u16, u64>,
    /// The first decoded messages.
    pub first: Seq<DecodedMessage>,
}

/// A decoded message reaches the inventory.
pub open spec fn event_scanned(s: ScannerView, event: DecodeEventView, datamine: Datamine) -> ScannerView {
    match event {
        DecodeEventView::Message { command_id, message, bytes } => {
            let (inventory, events) = snapshot::applied(s.inventory, command_id, message, datamine);
            ScannerView {
                inventory,
                extract: snapshot::events_counted(s.extract, events),
                last_changes: s.last_changes + changes_in(events),
                last_had_load: s.last_had_load || holds_load(events),
                commands: command_counted(s.commands, command_id),
                first: if s.first.len() < REMEMBERED_MESSAGES {
                    s.first.push(
                        DecodedMessage { command_id, bytes, fields: message.len() as usize },
                    )
                } else {
                    s.first
                },
                ..s
            }
        },
        _ => s,
    }
}

/// Events are scanned in order.
pub open spec fn events_scanned(s: ScannerView, events: Seq<DecodeEventView>, datamine: Datamine) -> ScannerView
    decreases events.len(),
{
    if events.len() == 0 {
        s
    } else {
        event_scanned(events_scanned(s, events.drop_last(), datamine), events.last(), datamine)
    }
}

/// Messages are decoded and scanned in order.
pub open spec fn messages_scanned(s: ScannerView, c: Context, messages: Seq<Seq<u8>>, now: i64) -> (
    Seq<DecodeEventView>,
    ScannerView,
)
    decreases messages.len(),
{
    if messages.len() == 0 {
        (Seq::empty(), s)
    } else {
        let (events, s) = messages_scanned(s, c, messages.drop_last(), now);
        let (more, decoder) = message_decoded(s.decoder, c, messages.last(), now);
        (events + more, events_scanned(ScannerView { decoder, ..s }, more, c.datamine))
    }
}

/// A packet is scanned.
pub open spec fn packet_scanned(
    s: ScannerView,
    c: Context,
    data: Seq<u8>,
    direction: Direction,
    now: i64,
) -> (Seq<DecodeEventView>, ScannerView) {
    let (messages, kcp) = kcp::fed(s.kcp, data, direction, now);
    messages_scanned(
        ScannerView { kcp, last_changes: Seq::empty(), last_had_load: false, ..s },
        c,
        messages,
        now,
    )
}

/// Before the first packet.
pub open spec fn nothing_scanned(pad: Seq<u8>) -> ScannerView {
    ScannerView {
        kcp: KcpView {
            incoming: kcp::idle_stream(),
            outgoing: kcp::idle_stream(),
            stats: KcpStats { conv_resets: 0, backlog_overflows: 0, gaps_skipped: 0 },
        },
        decoder: DecoderView { session: session::fresh(pad), stats: no_stats() },
        inventory: snapshot::nothing_held(),
        extract: snapshot::empty_summary(),
        last_changes: Seq::empty(),
        last_had_load: false,
        commands: Map::empty(),
        first: Seq::empty(),
    }
}

/// The reassembler, the decoder and what they have seen of one capture.
pub struct Scanner<'a> {
    kcp: Kcp,
    decoder: Decoder<'a>,
    inventory: Inventory,
    extract: ExtractSummary,
    last_changes: Vec<ItemChange>,
    last_had_load: bool,
    /// How many messages of each command were decoded.
    pub commands: BTreeMap<u16, u64>,
    /// The first decoded messages.
    pub first: Vec<DecodedMessage>,
}

impl<'a> View for Scanner<'a> {
    type V = ScannerView;

    closed spec fn view(&self) -> ScannerView {
        ScannerView {
            kcp: self.kcp@,
            decoder: self.decoder@,
            inventory: self.inventory@,
            extract: self.extract@,
            last_changes: self.last_changes@,
            last_had_load: self.last_had_load,
            commands: self.commands@,
            first: self.first@,
        }
    }
}

impl<'a> Scanner<'a> {
    /// What the scanner works with.
    pub closed spec fn context(&self) -> Context {
        self.decoder.context()
    }

    pub fn new(region_pad: XorPad, key: &'a Key, datamine: &'a Datamine, nap: &'a Protonap) -> (r: Self)
        ensures
            r@ == nothing_scanned(region_pad@),
            r.context() == (Context { key: key@, datamine: *datamine, nap: nap@ }),
    {
        Scanner {
            kcp: Kcp::new(),
            decoder: Decoder::new(Session::new(region_pad), key, datamine, nap),
            inventory: Inventory::new(),
            extract: ExtractSummary::default(),
            last_changes: Vec::new(),
            last_had_load: false,
            commands: BTreeMap::new(),
            first: Vec::new(),
        }
    }

    /// Counts one more message of a command.
    fn count_command(&mut self, command_id: u16)
        ensures
            final(self)@ == (ScannerView {
                commands: command_counted(old(self)@.commands, command_id),
                ..old(self)@
            }),
            final(self).context() == old(self).context(),
    {
        broadcast use vstd::laws_cmp::group_laws_cmp;
        let count: u64 = match self.commands.get(&command_id) {
            Some(count) => *count,
            None => 0,
        };
        let _ = self.commands.insert(command_id, count.wrapping_add(1));
    }

    /// Applies what one message extracted to the reports of the packet.
    fn note_extracted(&mut self, extracted: &Vec<ExtractEvent>)
        ensures
            final(self)@ == (ScannerView {
                last_changes: old(self)@.last_changes + changes_in(
                    snapshot::events_view(extracted@),
                ),
                last_had_load: old(self)@.last_had_load || holds_load(
                    snapshot::events_view(extracted@),
                ),
                ..old(self)@
            }),
            final(self).context() == old(self).context(),
    {
        let ghost before = *self;
        let ghost all = snapshot::events_view(extracted@);
        let mut i: usize = 0;
        assert(all.take(0) =~= Seq::empty());
        assert(self.last_changes@ =~= before.last_changes@ + changes_in(all.take(0)));
        while i < extracted.len()
            invariant
                i <= extracted@.len(),
                all == snapshot::events_view(extracted@),
                self.last_changes@ == before.last_changes@ + changes_in(all.take(i as int)),
                self.last_had_load == (before.last_had_load || exists|k: int|
                    0 <= k < i && (#[trigger] all[k] is Discs || all[k] is Weapons || all[k] is Avatars)),
                self.kcp == before.kcp,
                self.decoder == before.decoder,
                self.inventory == before.inventory,
                self.extract == before.extract,
                self.commands == before.commands,
                self.first == before.first,
            decreases extracted@.len() - i,
        {
            assert(all[i as int] == extracted@[i as int]@);
            assert(all.take(i + 1).drop_last() =~= all.take(i as int));
            assert(all.take(i + 1).last() == all[i as int]);
            match &extracted[i] {
                ExtractEvent::Discs { .. } => {
                    self.last_had_load = true;
                },
                ExtractEvent::Weapons { .. } => {
                    self.last_had_load = true;
                },
                ExtractEvent::Avatars { .. } => {
                    self.last_had_load = true;
                },
                ExtractEvent::Changes(changes) => {
                    let ghost so_far = self.last_changes@;
                    self.last_changes.extend_from_slice(changes.as_slice());
                    assert(self.last_changes@ =~= so_far + changes@);
                    assert(so_far + changes@ =~= before.last_changes@ + (changes_in(
                        all.take(i as int),
                    ) + changes@));
                },
                _ => {},
            }
            i = i + 1;
        }
        assert(all.take(i as int) =~= all);
    }

    /// Hands a decoded message to the inventory.
    fn absorb(&mut self, event: &DecodeEvent)
        ensures
            final(self)@ == event_scanned(old(self)@, event@, old(self).context().datamine),
            final(self).context() == old(self).context(),
    {
        if let DecodeEvent::Message { command_id, message, bytes } = event {
            self.count_command(*command_id);
            if self.first.len() < REMEMBERED_MESSAGES {
                self.first.push(
                    DecodedMessage {
                        command_id: *command_id,
                        bytes: *bytes,
                        fields: message.fields.len(),
                    },
                );
            }
            let extracted: Vec<ExtractEvent> = self.inventory.apply(
                *command_id,
                message,
                self.decoder.datamine(),
            );
            self.extract.absorb(extracted.as_slice());
            self.note_extracted(&extracted);
        }
    }

    /// Takes in one captured UDP payload and decodes the messages it completes.
    pub fn feed(&mut self, data: &[u8], direction: Direction, unix_seconds: i64) -> (r: Vec<DecodeEvent>)
        ensures
            (decode_events_view(r@), final(self)@) == packet_scanned(
                old(self)@,
                old(self).context(),
                data@,
                direction,
                unix_seconds,
            ),
            final(self).context() == old(self).context(),
    {
        let ghost c = self.context();
        let messages: Vec<Vec<u8>> = self.kcp.receive(data, direction, unix_seconds);
        let ghost all = kcp::bytes_view(messages@);
        let mut events: Vec<DecodeEvent> = Vec::new();
        self.last_changes.clear();
        self.last_had_load = false;
        let ghost start = self@;
        let mut i: usize = 0;
        assert(all.take(0) =~= Seq::empty());
        assert(decode_events_view(events@) =~= Seq::empty());
        while i < messages.len()
            invariant
                i <= messages@.len(),
                all == kcp::bytes_view(messages@),
                self.context() == c,
                (decode_events_view(events@), self@) == messages_scanned(
                    start,
                    c,
                    all.take(i as int),
                    unix_seconds,
                ),
            decreases messages@.len() - i,
        {
            assert(all[i as int] == messages@[i as int]@);
            assert(all.take(i + 1).drop_last() =~= all.take(i as int));
            assert(all.take(i + 1).last() == all[i as int]);
            let ghost before = self@;
            let mut batch: Vec<DecodeEvent> = self.decoder.feed(messages[i].as_slice(), unix_seconds);
            let ghost more = decode_events_view(batch@);
            let ghost begun = self@;
            let mut k: usize = 0;
            assert(more.take(0) =~= Seq::empty());
            while k < batch.len()
                invariant
                    k <= batch@.len(),
                    more == decode_events_view(batch@),
                    self.context() == c,
                    self@ == events_scanned(begun, more.take(k as int), c.datamine),
                decreases batch@.len() - k,
            {
                assert(more[k as int] == batch@[k as int]@);
                assert(more.take(k + 1).drop_last() =~= more.take(k as int));
                assert(more.take(k + 1).last() == more[k as int]);
                self.absorb(&batch[k]);
                k = k + 1;
            }
            assert(more.take(k as int) =~= more);
            let ghost so_far = events@;
            let ghost added = batch@;
            events.append(&mut batch);
            assert(decode_events_view(events@) =~= decode_events_view(so_far) + more) by {
                assert(events@ =~= so_far + added);
            }
            i = i + 1;
        }
        assert(all.take(i as int) =~= all);
        events
    }

    /// Hands out the changes of the last packet.
    pub fn take_changes(&mut self) -> (r: Vec<ItemChange>)
        ensures
            r@ == old(self)@.last_changes,
            final(self)@ == (ScannerView { last_changes: Seq::empty(), ..old(self)@ }),
            final(self).context() == old(self).context(),
    {
        let mut taken: Vec<ItemChange> = Vec::new();
        std::mem::swap(&mut taken, &mut self.last_changes);
        taken
    }

    /// Whether the last packet held a response with the whole inventory. Its changes are the
    /// baseline, and no news.
    pub fn last_feed_had_load(&self) -> (r: bool)
        ensures
            r == self@.last_had_load,
    {
        self.last_had_load
    }

    pub fn inventory(&self) -> (r: &Inventory)
        ensures
            r@ == self@.inventory,
    {
        &self.inventory
    }

    pub fn extract(&self) -> (r: &ExtractSummary)
        ensures
            r@ == self@.extract,
    {
        &self.extract
    }

    pub fn session(&self) -> (r: &Session)
        ensures
            r@ == self@.decoder.session,
    {
        self.decoder.session()
    }

    pub fn stats(&self) -> (r: &DecodeStats)
        ensures
            *r == self@.decoder.stats,
    {
        self.decoder.stats()
    }

    pub fn kcp_stats(&self) -> (r: &KcpStats)
        ensures
            *r == self@.kcp.stats,
    {
        self.kcp.stats()
    }

    /// Whether the session pad has been recovered.
    pub fn handshake_complete(&self) -> (r: bool)
        ensures
            r == self@.decoder.session.pad_ready,
    {
        self.decoder.session.pad_ready()
    }

    /// Whether anything decoded at all: under a wrong region seed nothing does.
    pub fn decoded_anything(&self) -> (r: bool)
        ensures
            r == (self@.decoder.stats.decoded > 0 || self@.decoder.session.server_rand_key is Some),
    {
        self.decoder.stats.decoded > 0 || self.decoder.session.server_rand_key().is_some()
    }
}

/// The states a handshake goes through: nothing is known, the server's half is known, or the
/// whole key is known and its pad in use.
pub open spec fn handshake_orderly(s: SessionView) -> bool {
    &&& s.pad_ready <==> s.session_key is Some
    &&& s.pad_ready <==> s.client_rand_key is Some
    &&& s.pad_ready ==> s.server_rand_key is Some
    &&& s.pad_ready ==> s.pad == xorpad::pad_of(s.session_key->Some_0, true)
}

/// A handshake starts orderly, and no message takes it out of order. The region pad stays in
/// use until the key is known.
pub proof fn law_the_handshake_is_orderly(
    pad: Seq<u8>,
    d: DecoderView,
    c: Context,
    bytes: Seq<u8>,
    now: i64,
)
    requires
        handshake_orderly(d.session),
    ensures
        handshake_orderly(session::fresh(pad)),
        handshake_orderly(message_decoded(d, c, bytes, now).1.session),
        !message_decoded(d, c, bytes, now).1.session.pad_ready ==> message_decoded(
            d,
            c,
            bytes,
            now,
        ).1.session.pad == d.session.pad,
{
}

/// The server's half of the key is taken once, and a complete handshake stays as it is.
pub proof fn law_keys_are_kept(d: DecoderView, c: Context, bytes: Seq<u8>, now: i64)
    requires
        d.session.server_rand_key is Some,
    ensures
        message_decoded(d, c, bytes, now).1.session.server_rand_key == d.session.server_rand_key,
        d.session.pad_ready ==> message_decoded(d, c, bytes, now).1.session == d.session,
{
}

/// Every message is counted once, and so is what became of it: it was decoded, failed to
/// decode, was empty, or was tried for the server's key.
pub proof fn law_every_message_is_accounted_for(d: DecoderView, c: Context, bytes: Seq<u8>, now: i64)
    requires
        bytes.len() >= kcp::MESSAGE_HEADER_SIZE,
    ensures
        ({
            let before = d.stats;
            let after = message_decoded(d, c, bytes, now).1.stats;
            &&& after.messages == before.messages.wrapping_add(1)
            &&& {
                ||| after == (DecodeStats {
                    messages: after.messages,
                    decoded: before.decoded.wrapping_add(1),
                    ..before
                })
                ||| after == (DecodeStats {
                    messages: after.messages,
                    proto_failures: before.proto_failures.wrapping_add(1),
                    ..before
                })
                ||| after == (DecodeStats {
                    messages: after.messages,
                    empty_bodies: before.empty_bodies.wrapping_add(1),
                    ..before
                })
                ||| after == (DecodeStats { messages: after.messages, ..before })
                    && is_token_response(d, kcp::message_header_of(bytes).command_id, c)
            }
        }),
{
}

/// A message as the game sends it: its header, some bytes that are skipped, and its encoded
/// fields under the pad.
pub open spec fn sent_message(
    h: kcp::MessageHeaderView,
    head: Seq<u8>,
    fields: Seq<FieldView>,
    pad: Seq<u8>,
) -> Seq<u8> {
    kcp::message_header_bytes(h) + head + xorpad::xor_with(proto::encoded(fields), pad)
}

pub proof fn lemma_sent_body(h: kcp::MessageHeaderView, head: Seq<u8>, body: Seq<u8>)
    requires
        h.magic.len() == 4,
        h.head_length == head.len(),
        h.body_length == body.len(),
    ensures
        kcp::message_header_of(kcp::message_header_bytes(h) + head + body) == h,
        body_of(kcp::message_header_bytes(h) + head + body) == body,
{
    let start = kcp::message_header_bytes(h);
    let bytes = start + head + body;
    kcp::law_message_header_round_trip(h);
    assert(bytes.subrange(0, 4) =~= start.subrange(0, 4));
    assert forall|k: int| 0 <= k < kcp::MESSAGE_HEADER_SIZE implies bytes[k] == start[k] by {}
    assert(kcp::message_header_of(bytes) == kcp::message_header_of(start));
    assert(bytes.subrange((start.len() + head.len()) as int, bytes.len() as int) =~= body);
}

/// A message that was encoded and put under the pad in use is decoded to what it was, with
/// the obfuscation of its integers taken off.
pub proof fn law_a_sent_message_is_decoded(
    d: DecoderView,
    c: Context,
    h: kcp::MessageHeaderView,
    head: Seq<u8>,
    fields: Seq<FieldView>,
    now: i64,
)
    requires
        proto::valid_fields(fields),
        h.magic.len() == 4,
        h.head_length == head.len(),
        h.body_length == proto::encoded(fields).len(),
        h.body_length > 0,
        d.session.pad.len() > 0,
        !is_token_response(d, h.command_id, c),
    ensures
        ({
            let (events, after) = message_decoded(
                d,
                c,
                sent_message(h, head, fields, d.session.pad),
                now,
            );
            &&& events.len() > 0
            &&& events.last() == (DecodeEventView::Message {
                command_id: h.command_id,
                message: xor_fields::xored(fields, protonap::by_cmd(c.nap, h.command_id), c.nap),
                bytes: h.body_length as usize,
            })
            &&& after.stats.decoded == d.stats.decoded.wrapping_add(1)
        }),
{
    let plain = proto::encoded(fields);
    let body = xorpad::xor_with(plain, d.session.pad);
    lemma_sent_body(h, head, body);
    kcp::law_message_header_round_trip(h);
    xorpad::law_xor_is_its_own_inverse(plain, d.session.pad);
    proto::law_decode_undoes_encode(fields);
}

/// Counting a command adds one to its count and leaves the others.
pub proof fn law_commands_are_counted(counts: Map<u16, u64>, command_id: u16, other: u16)
    requires
        other != command_id,
    ensures
        ({
            let after = command_counted(counts, command_id);
            &&& count_of(after, command_id) == count_of(counts, command_id).wrapping_add(1)
            &&& count_of(after, other) == count_of(counts, other)
        }),
{
}

/// What holds of a scanner at any time: the handshake is in order, no two items of the inventory
/// have one id, and only the first few messages are remembered.
pub open spec fn scanner_orderly(s: ScannerView) -> bool {
    &&& handshake_orderly(s.decoder.session)
    &&& snapshot::ids_distinct(s.inventory)
    &&& s.first.len() <= REMEMBERED_MESSAGES
}

proof fn lemma_events_orderly(s: ScannerView, events: Seq<DecodeEventView>, datamine: Datamine)
    requires
        scanner_orderly(s),
    ensures
        scanner_orderly(events_scanned(s, events, datamine)),
        events_scanned(s, events, datamine).decoder == s.decoder,
    decreases events.len(),
{
    if events.len() > 0 {
        lemma_events_orderly(s, events.drop_last(), datamine);
        let before = events_scanned(s, events.drop_last(), datamine);
        match events.last() {
            DecodeEventView::Message { command_id, message, bytes } => {
                snapshot::law_ids_stay_distinct(before.inventory, command_id, message, datamine);
            },
            _ => {},
        }
    }
}

proof fn lemma_messages_orderly(s: ScannerView, c: Context, messages: Seq<Seq<u8>>, now: i64)
    requires
        scanner_orderly(s),
    ensures
        scanner_orderly(messages_scanned(s, c, messages, now).1),
    decreases messages.len(),
{
    if messages.len() > 0 {
        lemma_messages_orderly(s, c, messages.drop_last(), now);
        let before = messages_scanned(s, c, messages.drop_last(), now).1;
        let (more, decoder) = message_decoded(before.decoder, c, messages.last(), now);
        law_the_handshake_is_orderly(Seq::empty(), before.decoder, c, messages.last(), now);
        lemma_events_orderly(ScannerView { decoder, ..before }, more, c.datamine);
    }
}

/// A scanner starts in order and stays so, whatever the packets hold.
pub proof fn law_a_scanner_stays_orderly(
    pad: Seq<u8>,
    s: ScannerView,
    c: Context,
    data: Seq<u8>,
    direction: Direction,
    now: i64,
)
    requires
        scanner_orderly(s),
    ensures
        scanner_orderly(nothing_scanned(pad)),
        scanner_orderly(packet_scanned(s, c, data, direction, now).1),
{
    let (messages, kcp) = kcp::fed(s.kcp, data, direction, now);
    lemma_messages_orderly(
        ScannerView { kcp, last_changes: Seq::empty(), last_had_load: false, ..s },
        c,
        messages,
        now,
    );
}

} // verus!
