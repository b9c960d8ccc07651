//! What decoding and scanning promise of every capture: the handshake is followed, no body is
//! lost, and what was decoded reaches the inventory.
use crate::b64;
use crate::endian;
use crate::kcp;
use crate::kcp::Direction;
use crate::netrand;
use crate::proto;
use crate::proto::{FieldView, ValueView};
use crate::rsa;
use crate::rsa::KeyView;
use crate::scan;
use crate::scan::{Context, DecodeEventView, DecodedMessage, DecoderView, ScannerView};
use crate::session;
use crate::session::SessionView;
use crate::snapshot;
use crate::snapshot::{ExtractEventView, ItemChange};
use crate::xorpad;
use vstd::prelude::*;

verus! {

/// The server's half of a key as it is sent: its eight little-endian bytes, encrypted, as the
/// bytes of a base64 text.
pub open spec fn sent_key(k: KeyView, key: u64) -> Seq<u8> {
    vstd::utf8::encode_utf8(
        b64::b64_encoded(rsa::block_encrypted(k, endian::le64_bytes(key))->Ok_0),
    )
}

proof fn lemma_sent_key(k: KeyView, key: u64)
    requires
        rsa::is_key_pair(k),
    ensures
        session::key_in_value(ValueView::LengthDelimited(sent_key(k, key)), k) == Some(key),
{
    let plain = endian::le64_bytes(key);
    rsa::law_decrypt_undoes_encrypt(k, plain);
    let sealed = rsa::block_encrypted(k, plain)->Ok_0;
    b64::law_b64_round_trip(sealed);
    vstd::utf8::encode_utf8_valid_utf8(b64::b64_encoded(sealed));
    assert(plain.subrange(0, 8) =~= plain);
    endian::lemma_round_trip_64(plain, 0, key);
}

proof fn lemma_key_in_fields(k: KeyView, key: u64, fields: Seq<FieldView>, i: int)
    requires
        rsa::is_key_pair(k),
        0 <= i < fields.len(),
        fields[i].value == ValueView::LengthDelimited(sent_key(k, key)),
        forall|j: int| 0 <= j < i ==> !(#[trigger] fields[j].value is LengthDelimited),
    ensures
        session::key_in_fields(fields, k) == Some(key),
    decreases i,
{
    if i == 0 {
        lemma_sent_key(k, key);
    } else {
        let rest = fields.skip(1);
        assert(rest[i - 1] == fields[i]);
        assert forall|j: int| 0 <= j < i - 1 implies !(#[trigger] rest[j].value is LengthDelimited) by {
            assert(rest[j] == fields[j + 1]);
        }
        lemma_key_in_fields(k, key, rest, i - 1);
        assert(!(fields[0].value is LengthDelimited));
    }
}

/// The server's half of the key is found in the reply to a login, whichever field carries it.
pub proof fn law_the_servers_key_is_read(k: KeyView, key: u64, fields: Seq<FieldView>, i: int)
    requires
        rsa::is_key_pair(k),
        proto::valid_fields(fields),
        0 <= i < fields.len(),
        fields[i].value == ValueView::LengthDelimited(sent_key(k, key)),
        forall|j: int| 0 <= j < i ==> !(#[trigger] fields[j].value is LengthDelimited),
    ensures
        session::server_key_in(proto::encoded(fields), k) == Ok::<u64, session::SessionError>(key),
{
    lemma_key_in_fields(k, key, fields, i);
    proto::law_decode_undoes_encode(fields);
}

proof fn lemma_key_under_pad(k: KeyView, key: u64, fields: Seq<FieldView>, i: int, pad: Seq<u8>)
    requires
        rsa::is_key_pair(k),
        proto::valid_fields(fields),
        0 <= i < fields.len(),
        fields[i].value == ValueView::LengthDelimited(sent_key(k, key)),
        forall|j: int| 0 <= j < i ==> !(#[trigger] fields[j].value is LengthDelimited),
        pad.len() > 0,
    ensures
        session::server_key_in(
            xorpad::xor_with(xorpad::xor_with(proto::encoded(fields), pad), pad),
            k,
        ) == Ok::<u64, session::SessionError>(key),
{
    xorpad::law_xor_is_its_own_inverse(proto::encoded(fields), pad);
    law_the_servers_key_is_read(k, key, fields, i);
}

proof fn lemma_key_taken(d: DecoderView, c: Context, bytes: Seq<u8>, key: u64, now: i64)
    requires
        bytes.len() >= kcp::MESSAGE_HEADER_SIZE,
        kcp::message_header_of(bytes).command_id as u32 == c.datamine.cmd_player_get_token_sc_rsp,
        d.session.server_rand_key is None,
        session::server_key_in(xorpad::xor_with(scan::body_of(bytes), d.session.pad), c.key) == Ok::<
            u64,
            session::SessionError,
        >(key),
    ensures
        scan::message_decoded(d, c, bytes, now).0 == seq![DecodeEventView::ServerRandKey { key }],
        scan::message_decoded(d, c, bytes, now).1.session == (SessionView {
            server_rand_key: Some(key),
            ..d.session
        }),
        scan::message_decoded(d, c, bytes, now).1.stats == (scan::DecodeStats {
            messages: d.stats.messages.wrapping_add(1),
            ..d.stats
        }),
{
}

/// The reply to a login, as it is sent, gives the decoder the server's half of the key, and
/// changes nothing else but the count of messages.
pub proof fn law_a_token_reply_gives_the_key(
    d: DecoderView,
    c: Context,
    h: kcp::MessageHeaderView,
    head: Seq<u8>,
    fields: Seq<FieldView>,
    i: int,
    key: u64,
    now: i64,
)
    requires
        rsa::is_key_pair(c.key),
        proto::valid_fields(fields),
        0 <= i < fields.len(),
        fields[i].value == ValueView::LengthDelimited(sent_key(c.key, key)),
        forall|j: int| 0 <= j < i ==> !(#[trigger] fields[j].value is LengthDelimited),
        h.magic.len() == 4,
        h.head_length == head.len(),
        h.body_length == proto::encoded(fields).len(),
        h.command_id as u32 == c.datamine.cmd_player_get_token_sc_rsp,
        d.session.server_rand_key is None,
        d.session.pad.len() > 0,
    ensures
        ({
            let (events, after) = scan::message_decoded(
                d,
                c,
                scan::sent_message(h, head, fields, d.session.pad),
                now,
            );
            &&& events == seq![DecodeEventView::ServerRandKey { key }]
            &&& after.session.server_rand_key == Some(key)
            &&& after.session.pad == d.session.pad
            &&& after.session.pad_ready == d.session.pad_ready
            &&& after.session.client_rand_key == d.session.client_rand_key
            &&& after.session.session_key == d.session.session_key
            &&& after.stats.messages == d.stats.messages.wrapping_add(1)
            &&& after.stats.decoded == d.stats.decoded
            &&& after.stats.proto_failures == d.stats.proto_failures
            &&& after.stats.empty_bodies == d.stats.empty_bodies
        }),
{
    let plain = proto::encoded(fields);
    let body = xorpad::xor_with(plain, d.session.pad);
    scan::lemma_sent_body(h, head, body);
    lemma_key_under_pad(c.key, key, fields, i, d.session.pad);
    lemma_header_first(h, head + body);
    let bytes = kcp::message_header_bytes(h) + head + body;
    assert(kcp::message_header_bytes(h) + (head + body) =~= bytes);
    lemma_key_taken(d, c, bytes, key, now);
}

/// The first long message under the session pad of a login within half an hour of the capture
/// completes the handshake: the event comes first, and from then on the pad of the match is in
/// use.
pub proof fn law_the_handshake_completes(
    d: DecoderView,
    c: Context,
    h: kcp::MessageHeaderView,
    head: Seq<u8>,
    server: u64,
    plain: Seq<u8>,
    now: i64,
    delta: i64,
)
    requires
        d.session.server_rand_key == Some(server),
        !d.session.pad_ready,
        proto::decoded(plain) is Ok,
        -1800 <= delta <= 1800,
        h.magic.len() == 4,
        h.head_length == head.len(),
        h.body_length == plain.len(),
        plain.len() >= 32,
    ensures
        ({
            let client = netrand::key_of(netrand::seed_of(now.wrapping_add(delta)));
            let wire = xorpad::xor_with(plain, xorpad::pad_of(server ^ client, true));
            let (events, after) = scan::message_decoded(
                d,
                c,
                kcp::message_header_bytes(h) + head + wire,
                now,
            );
            &&& events.len() >= 1
            &&& events[0] is SessionKey
            &&& -1800 <= events[0]->found.delta <= delta
            &&& events[0]->found.session_key == server ^ events[0]->found.client_rand_key
            &&& after.session.pad_ready
            &&& after.session.pad == xorpad::pad_of(events[0]->found.session_key, true)
            &&& after.session.session_key == Some(events[0]->found.session_key)
            &&& after.session.client_rand_key == Some(events[0]->found.client_rand_key)
            &&& after.session.server_rand_key == Some(server)
        }),
{
    let client = netrand::key_of(netrand::seed_of(now.wrapping_add(delta)));
    let wire = xorpad::xor_with(plain, xorpad::pad_of(server ^ client, true));
    scan::lemma_sent_body(h, head, wire);
    session::law_a_login_is_recovered(d.session, server, plain, now, delta);
}

/// Whether an event tells of a search for the client's half of the key.
pub open spec fn tells_of_a_search(event: DecodeEventView) -> bool {
    event is SessionKey || event is SessionKeyNotFound
}

/// While only the server's half is known, every message that declares a body of at least 32
/// bytes is tried, and says so first; no other message is tried, and leaves the session as it
/// is.
pub proof fn law_only_long_bodies_are_tried(
    d: DecoderView,
    c: Context,
    h: kcp::MessageHeaderView,
    rest: Seq<u8>,
    now: i64,
)
    requires
        h.magic.len() == 4,
        d.session.server_rand_key is Some,
    ensures
        ({
            let (events, after) = scan::message_decoded(d, c, kcp::message_header_bytes(h) + rest, now);
            &&& !d.session.pad_ready && h.body_length >= 32 ==> events.len() >= 1 && tells_of_a_search(
                events[0],
            )
            &&& d.session.pad_ready || h.body_length < 32 ==> after.session == d.session && forall|i: int|
                0 <= i < events.len() ==> !tells_of_a_search(#[trigger] events[i])
        }),
{
    lemma_header_first(h, rest);
}

proof fn lemma_header_first(h: kcp::MessageHeaderView, rest: Seq<u8>)
    requires
        h.magic.len() == 4,
    ensures
        kcp::message_header_of(kcp::message_header_bytes(h) + rest) == h,
        (kcp::message_header_bytes(h) + rest).len() == kcp::MESSAGE_HEADER_SIZE + rest.len(),
{
    let start = kcp::message_header_bytes(h);
    let bytes = start + rest;
    kcp::law_message_header_round_trip(h);
    assert(bytes.subrange(0, 4) =~= start.subrange(0, 4));
    assert forall|k: int| 0 <= k < kcp::MESSAGE_HEADER_SIZE implies bytes[k] == start[k] by {}
}

/// What stands behind the declared body does not matter.
pub proof fn law_what_follows_a_body_is_ignored(
    d: DecoderView,
    c: Context,
    h: kcp::MessageHeaderView,
    head: Seq<u8>,
    body: Seq<u8>,
    more: Seq<u8>,
    now: i64,
)
    requires
        h.magic.len() == 4,
        h.head_length == head.len(),
        h.body_length == body.len(),
    ensures
        scan::message_decoded(d, c, kcp::message_header_bytes(h) + head + body + more, now)
            == scan::message_decoded(d, c, kcp::message_header_bytes(h) + head + body, now),
{
    let start = kcp::message_header_bytes(h);
    lemma_header_first(h, head + body + more);
    lemma_header_first(h, head + body);
    assert(start + (head + body + more) =~= start + head + body + more);
    assert(start + (head + body) =~= start + head + body);
    let long = start + head + body + more;
    let short = start + head + body;
    let from = start.len() + head.len();
    assert(long.subrange(from as int, (from + body.len()) as int) =~= body);
    assert(short.subrange(from as int, (from + body.len()) as int) =~= body);
}

/// A body that is not the reply to a login is counted as what it is: as empty, as decoded, or
/// as one that does not decode. Of a body that was cut short, what is there is read.
pub proof fn law_a_body_is_counted_as_what_it_is(
    d: DecoderView,
    c: Context,
    h: kcp::MessageHeaderView,
    head: Seq<u8>,
    part: Seq<u8>,
    now: i64,
)
    requires
        h.magic.len() == 4,
        h.head_length == head.len(),
        part.len() <= h.body_length,
        part.len() <= usize::MAX,
        d.session.server_rand_key is Some || h.command_id as u32
            != c.datamine.cmd_player_get_token_sc_rsp,
    ensures
        ({
            let (events, after) = scan::message_decoded(
                d,
                c,
                kcp::message_header_bytes(h) + head + part,
                now,
            );
            let plain = xorpad::xor_with(part, d.session.pad);
            let empty = part.len() == 0;
            let sound = proto::decoded(plain) is Ok;
            &&& after.stats.messages == d.stats.messages.wrapping_add(1)
            &&& after.stats.empty_bodies == if empty {
                d.stats.empty_bodies.wrapping_add(1)
            } else {
                d.stats.empty_bodies
            }
            &&& after.stats.decoded == if !empty && sound {
                d.stats.decoded.wrapping_add(1)
            } else {
                d.stats.decoded
            }
            &&& after.stats.proto_failures == if !empty && !sound {
                d.stats.proto_failures.wrapping_add(1)
            } else {
                d.stats.proto_failures
            }
            &&& !empty && sound ==> events.len() > 0 && events.last() is Message
                && events.last()->Message_command_id == h.command_id && events.last()->Message_bytes
                == part.len()
            &&& !empty && !sound ==> events.len() > 0 && events.last() == (
            DecodeEventView::ProtoFailed { command_id: h.command_id, bytes: part.len() as usize })
            &&& forall|i: int|
                0 <= i < events.len() - 1 ==> tells_of_a_search(#[trigger] events[i])
            &&& empty ==> forall|i: int|
                0 <= i < events.len() ==> tells_of_a_search(#[trigger] events[i])
        }),
{
    let start = kcp::message_header_bytes(h);
    lemma_header_first(h, head + part);
    assert(start + (head + part) =~= start + head + part);
    let bytes = start + head + part;
    assert(bytes.subrange((start.len() + head.len()) as int, bytes.len() as int) =~= part);
    assert(scan::body_of(bytes) == part);
}

/// A message shorter than its header is no message: nothing comes of it.
pub proof fn law_a_cut_header_changes_nothing(d: DecoderView, c: Context, bytes: Seq<u8>, now: i64)
    requires
        bytes.len() < 12,
    ensures
        scan::message_decoded(d, c, bytes, now) == (Seq::<DecodeEventView>::empty(), d),
{
}

/// Messages are scanned one after the other: scanning some and then others is scanning all.
pub proof fn law_messages_are_scanned_in_order(
    s: ScannerView,
    c: Context,
    first: Seq<Seq<u8>>,
    then: Seq<Seq<u8>>,
    now: i64,
)
    ensures
        ({
            let (events, between) = scan::messages_scanned(s, c, first, now);
            let (more, after) = scan::messages_scanned(between, c, then, now);
            scan::messages_scanned(s, c, first + then, now) == (events + more, after)
        }),
    decreases then.len(),
{
    let (events, between) = scan::messages_scanned(s, c, first, now);
    let (more, after) = scan::messages_scanned(between, c, then, now);
    if then.len() == 0 {
        assert(first + then =~= first);
        assert(events + more =~= events);
    } else {
        law_messages_are_scanned_in_order(s, c, first, then.drop_last(), now);
        assert((first + then).drop_last() =~= first + then.drop_last());
        assert((first + then).last() == then.last());
        let (some, at) = scan::messages_scanned(between, c, then.drop_last(), now);
        let (last, _decoder) = scan::message_decoded(at.decoder, c, then.last(), now);
        assert(events + some + last =~= events + (some + last));
    }
}

/// The changes are passed on in order, and nothing else is one.
pub proof fn law_changes_are_passed_on(
    first: Seq<ExtractEventView>,
    then: Seq<ExtractEventView>,
    event: ExtractEventView,
)
    ensures
        scan::changes_in(first + then) == scan::changes_in(first) + scan::changes_in(then),
        event is Changes ==> scan::changes_in(seq![event]) == event->Changes_0,
        !(event is Changes) ==> scan::changes_in(seq![event]) == Seq::<ItemChange>::empty(),
    decreases then.len(),
{
    assert(seq![event].drop_last() =~= Seq::empty());
    reveal_with_fuel(scan::changes_in, 2);
    if event is Changes {
        assert(Seq::<ItemChange>::empty() + event->Changes_0 =~= event->Changes_0);
    }
    if then.len() == 0 {
        assert(first + then =~= first);
        assert(scan::changes_in(first) + Seq::<ItemChange>::empty() =~= scan::changes_in(first));
    } else {
        law_changes_are_passed_on(first, then.drop_last(), event);
        assert((first + then).drop_last() =~= first + then.drop_last());
        if let ExtractEventView::Changes(changes) = then.last() {
            assert(scan::changes_in(first) + scan::changes_in(then.drop_last()) + changes
                =~= scan::changes_in(first) + (scan::changes_in(then.drop_last()) + changes));
        }
    }
}

/// A decoded message reaches the inventory: what it changes is held, its events are counted,
/// its command counts one more, and it is remembered while it is one of the first eight.
pub proof fn law_a_decoded_message_is_scanned(
    s: ScannerView,
    c: Context,
    command_id: u16,
    other: u16,
    message: Seq<FieldView>,
    bytes: usize,
)
    requires
        other != command_id,
    ensures
        ({
            let event = DecodeEventView::Message { command_id, message, bytes };
            let after = scan::event_scanned(s, event, c.datamine);
            let (inventory, events) = snapshot::applied(
                s.inventory,
                command_id,
                message,
                c.datamine,
            );
            &&& after.inventory == inventory
            &&& after.extract == snapshot::events_counted(s.extract, events)
            &&& after.last_changes == s.last_changes + scan::changes_in(events)
            &&& after.last_had_load <==> s.last_had_load || exists|i: int|
                0 <= i < events.len() && (#[trigger] events[i] is Discs || events[i] is Weapons
                    || events[i] is Avatars)
            &&& after.commands.contains_key(command_id)
            &&& after.commands[command_id] == if s.commands.contains_key(command_id) {
                s.commands[command_id].wrapping_add(1)
            } else {
                1
            }
            &&& after.commands.contains_key(other) == s.commands.contains_key(other)
            &&& s.commands.contains_key(other) ==> after.commands[other] == s.commands[other]
            &&& s.first.len() < 8 ==> after.first == s.first.push(
                DecodedMessage { command_id, bytes, fields: message.len() as usize },
            )
            &&& s.first.len() >= 8 ==> after.first == s.first
            &&& after.kcp == s.kcp
            &&& after.decoder == s.decoder
        }),
{
}

/// The events of one message are scanned in order, and only a decoded message changes what was
/// seen so far.
pub proof fn law_one_message_is_scanned(s: ScannerView, c: Context, message: Seq<u8>, now: i64)
    ensures
        ({
            let (events, decoder) = scan::message_decoded(s.decoder, c, message, now);
            let (all, after) = scan::messages_scanned(s, c, seq![message], now);
            let before = ScannerView { decoder, ..s };
            &&& all == events
            &&& events.len() > 0 && events.last() is Message ==> after == scan::event_scanned(
                before,
                events.last(),
                c.datamine,
            )
            &&& events.len() == 0 || !(events.last() is Message) ==> after == before
        }),
{
    let one = seq![message];
    assert(one.drop_last() =~= Seq::empty());
    let (events, decoder) = scan::message_decoded(s.decoder, c, message, now);
    let before = ScannerView { decoder, ..s };
    assert(scan::messages_scanned(s, c, one.drop_last(), now) == (
        Seq::<DecodeEventView>::empty(),
        s,
    ));
    assert(Seq::<DecodeEventView>::empty() + events =~= events);
    reveal_with_fuel(scan::events_scanned, 3);
    if events.len() == 2 {
        assert(events.drop_last().drop_last() =~= Seq::empty());
        assert(!(events.drop_last().last() is Message));
    } else if events.len() == 1 {
        assert(events.drop_last() =~= Seq::empty());
    }
    assert(events.len() <= 2);
}

/// What one packet brought is told of that packet alone, and does not depend on what the last
/// one brought.
pub proof fn law_a_packet_starts_afresh(
    s: ScannerView,
    c: Context,
    data: Seq<u8>,
    direction: Direction,
    now: i64,
    changes: Seq<ItemChange>,
    had_load: bool,
)
    ensures
        scan::packet_scanned(
            ScannerView { last_changes: changes, last_had_load: had_load, ..s },
            c,
            data,
            direction,
            now,
        ) == scan::packet_scanned(s, c, data, direction, now),
        kcp::fed(s.kcp, data, direction, now).0.len() == 0 ==> {
            let after = scan::packet_scanned(s, c, data, direction, now).1;
            &&& after.last_changes == Seq::<ItemChange>::empty()
            &&& !after.last_had_load
            &&& after.inventory == s.inventory
            &&& after.decoder == s.decoder
        },
{
}

/// Whether a state is that of a session before the handshake, with the region pad in use.
pub open spec fn is_fresh(s: SessionView, pad: Seq<u8>) -> bool {
    s.pad == pad && !s.pad_ready && s.server_rand_key is None && s.client_rand_key is None
        && s.session_key is None
}

/// A scanner starts with nothing seen, under the region pad.
pub proof fn law_a_scanner_starts_empty(pad: Seq<u8>)
    ensures
        ({
            let s = scan::nothing_scanned(pad);
            &&& is_fresh(s.decoder.session, pad)
            &&& s.inventory.discs.len() == 0
            &&& s.inventory.engines.len() == 0
            &&& s.inventory.agents.len() == 0
            &&& s.decoder.stats.messages == 0
            &&& s.decoder.stats.decoded == 0
            &&& s.first.len() == 0
            &&& s.last_changes.len() == 0
            &&& !s.last_had_load
            &&& forall|id: u16| !s.commands.contains_key(id)
        }),
{
}

proof fn lemma_first_key(fields: Seq<FieldView>, k: KeyView, i: int)
    requires
        0 <= i <= fields.len(),
        forall|j: int|
            0 <= j < i ==> session::key_in_value((#[trigger] fields[j]).value, k) is None,
    ensures
        i < fields.len() && session::key_in_value(fields[i].value, k) is Some
            ==> session::key_in_fields(fields, k) == session::key_in_value(fields[i].value, k),
        i == fields.len() ==> session::key_in_fields(fields, k) is None,
    decreases i,
{
    if i > 0 {
        let rest = fields.skip(1);
        assert forall|j: int| 0 <= j < i - 1 implies session::key_in_value(
            (#[trigger] rest[j]).value,
            k,
        ) is None by {
            assert(rest[j] == fields[j + 1]);
        }
        lemma_first_key(rest, k, i - 1);
        assert(session::key_in_value(fields[0].value, k) is None);
        if i < fields.len() {
            assert(rest[i - 1] == fields[i]);
        }
    }
}

/// Of the fields of a reply the first that holds a key gives it, and fields that hold none are
/// passed over. A reply without a key, or one that does not decode, is told as that, and the
/// session stays as it is.
pub proof fn law_a_reply_without_a_key_changes_nothing(
    d: DecoderView,
    c: Context,
    bytes: Seq<u8>,
    fields: Seq<FieldView>,
    i: int,
    now: i64,
)
    requires
        bytes.len() >= 12,
        kcp::message_header_of(bytes).command_id as u32 == c.datamine.cmd_player_get_token_sc_rsp,
        d.session.server_rand_key is None,
    ensures
        ({
            let plain = xorpad::xor_with(scan::body_of(bytes), d.session.pad);
            let (events, after) = scan::message_decoded(d, c, bytes, now);
            &&& proto::decoded(plain) matches Err(e) ==> after.session == d.session && events == seq![
                DecodeEventView::ServerRandKeyFailed { error: session::SessionError::Protobuf(e) },
            ]
            &&& proto::decoded(plain) == Ok::<Seq<FieldView>, proto::ProtoError>(fields) && (
            forall|j: int|
                0 <= j < fields.len() ==> session::key_in_value(
                    (#[trigger] fields[j]).value,
                    c.key,
                ) is None) ==> after.session == d.session && events == seq![
                DecodeEventView::ServerRandKeyFailed {
                    error: session::SessionError::ServerRandKeyNotFound,
                },
            ]
            &&& proto::decoded(plain) == Ok::<Seq<FieldView>, proto::ProtoError>(fields) && 0 <= i
                < fields.len() && session::key_in_value(fields[i].value, c.key) is Some && (
            forall|j: int|
                0 <= j < i ==> session::key_in_value((#[trigger] fields[j]).value, c.key) is None)
                ==> after.session.server_rand_key == session::key_in_value(fields[i].value, c.key)
        }),
{
    let plain = xorpad::xor_with(scan::body_of(bytes), d.session.pad);
    if proto::decoded(plain) == Ok::<Seq<FieldView>, proto::ProtoError>(fields) {
        if forall|j: int|
            0 <= j < fields.len() ==> session::key_in_value((#[trigger] fields[j]).value, c.key) is None {
            lemma_first_key(fields, c.key, fields.len() as int);
        }
        if 0 <= i < fields.len() && session::key_in_value(fields[i].value, c.key) is Some && (forall|
            j: int,
        |
            0 <= j < i ==> session::key_in_value((#[trigger] fields[j]).value, c.key) is None) {
            lemma_first_key(fields, c.key, i);
        }
    }
}

} // verus!
