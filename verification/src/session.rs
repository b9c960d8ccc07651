//! The handshake that turns two random halves into the pad every later message is XORed
//! with.
//!
//! The region pad covers the token response, which carries the server's half as an RSA
//! block in base64. The client's half comes from a generator seeded with the second of the
//! login. It is recovered by trying every second around the capture time and keeping the
//! first whose pad makes a body decode.
use crate::b64;
use crate::endian;
use crate::netrand;
use crate::proto;
use crate::proto::{FieldView, Message, ProtoError, Value, ValueView};
use crate::rsa;
use crate::rsa::{Key, KeyView};
use crate::text;
use crate::xorpad;
use crate::xorpad::XorPad;
use vstd::prelude::*;

verus! {

/// How far from the capture time the second of the login is looked for.
pub const BRUTE_FORCE_WINDOW_SECONDS: i64 = 1800;

/// Why the token response gave no key.
#[derive(Debug, Clone, Copy, PartialEq, Eq, Structural)]
pub enum SessionError {
    /// The response does not decode.
    Protobuf(ProtoError),
    /// No field of it decrypts to a key of eight bytes.
    ServerRandKeyNotFound,
}

impl SessionError {
    /// What went wrong, in words.
    pub open spec fn text(self) -> Seq<char> {
        match self {
            SessionError::Protobuf(e) => "token response is not protobuf: "@ + e.text(),
            SessionError::ServerRandKeyNotFound =>
                "server_rand_key field not found in PlayerGetTokenScRsp"@,
        }
    }

    pub fn to_string(&self) -> (r: String)
        ensures
            r@ == self.text(),
    {
        match *self {
            SessionError::Protobuf(e) => {
                let mut out: String = "token response is not protobuf: ".to_owned();
                out.push_str(e.to_string().as_str());
                out
            },
            SessionError::ServerRandKeyNotFound =>
                "server_rand_key field not found in PlayerGetTokenScRsp".to_owned(),
        }
    }
}

/// A second that made a body decode, and what follows from it.
#[derive(Debug, Clone, Copy, PartialEq, Eq, Structural)]
pub struct BruteForceMatch {
    pub client_rand_key: u64,
    /// Both halves XORed: what seeds the session pad.
    pub session_key: u64,
    /// Seconds from the capture time to the second of the login.
    pub delta: i64,
    /// The low half of the client's key.
    pub seed: i32,
}

/// `core::str::from_utf8`: the bytes as a text, if and only if they are valid UTF-8.
#[verifier::external_body]
fn as_text(bytes: &[u8]) -> (r: Option<&str>)
    ensures
        match r {
            Some(s) => vstd::utf8::valid_utf8(bytes@) && vstd::utf8::encode_utf8(s@) == bytes@,
            None => !vstd::utf8::valid_utf8(bytes@),
        },
{
    core::str::from_utf8(bytes).ok()
}

/// The server's key in a value: base64 text of one block that decrypts to eight bytes.
pub open spec fn key_in_value(value: ValueView, k: KeyView) -> Option<u64> {
    match value {
        ValueView::LengthDelimited(b) => if vstd::utf8::valid_utf8(b) {
            match rsa::block_decrypted(k, b64::packed(b64::sextets(b))) {
                Ok(plain) => if plain.len() == 8 {
                    Some(endian::le64(plain, 0) as u64)
                } else {
                    None
                },
                Err(_) => None,
            }
        } else {
            None
        },
        _ => None,
    }
}

/// The first key in some fields.
pub open spec fn key_in_fields(fields: Seq<FieldView>, k: KeyView) -> Option<u64>
    decreases fields.len(),
{
    if fields.len() == 0 {
        None
    } else {
        match key_in_value(fields[0].value, k) {
            Some(key) => Some(key),
            None => key_in_fields(fields.skip(1), k),
        }
    }
}

/// The server's key in a decrypted token response.
pub open spec fn server_key_in(body: Seq<u8>, k: KeyView) -> Result<u64, SessionError> {
    match proto::decoded(body) {
        Err(e) => Err(SessionError::Protobuf(e)),
        Ok(fields) => match key_in_fields(fields, k) {
            Some(key) => Ok(key),
            None => Err(SessionError::ServerRandKeyNotFound),
        },
    }
}

/// What follows from a login `delta` seconds after the capture time.
pub open spec fn match_at(server_rand_key: u64, unix_seconds: i64, delta: i64) -> BruteForceMatch {
    let seed = netrand::seed_of(unix_seconds.wrapping_add(delta));
    let client_rand_key = netrand::key_of(seed);
    BruteForceMatch {
        client_rand_key,
        session_key: server_rand_key ^ client_rand_key,
        delta,
        seed,
    }
}

/// Whether a body decodes under the pad of a login `delta` seconds after the capture time.
pub open spec fn decodes_at(
    server_rand_key: u64,
    body: Seq<u8>,
    unix_seconds: i64,
    delta: i64,
) -> bool {
    let session_key = match_at(server_rand_key, unix_seconds, delta).session_key;
    proto::decoded(xorpad::xor_with(body, xorpad::pad_of(session_key, true))) is Ok
}

/// The first second from `from` to `to` under which a body decodes.
pub open spec fn first_match(
    server_rand_key: u64,
    body: Seq<u8>,
    unix_seconds: i64,
    from: int,
    to: int,
) -> Option<BruteForceMatch>
    decreases to - from + 1,
{
    if from > to {
        None
    } else if decodes_at(server_rand_key, body, unix_seconds, from as i64) {
        Some(match_at(server_rand_key, unix_seconds, from as i64))
    } else {
        first_match(server_rand_key, body, unix_seconds, from + 1, to)
    }
}

/// What a [`Session`] holds.
pub struct SessionView {
    pub server_rand_key: Option<u64>,
    pub client_rand_key: Option<u64>,
    pub session_key: Option<u64>,
    /// The region pad until the handshake is complete, the session pad after.
    pub pad: Seq<u8>,
    pub pad_ready: bool,
}

/// The state of the handshake, and the pad in use.
#[derive(Debug, Clone, Copy)]
pub struct Session {
    pub server_rand_key: Option<u64>,
    pub client_rand_key: Option<u64>,
    pub session_key: Option<u64>,
    pad: XorPad,
    pad_ready: bool,
}

impl View for Session {
    type V = SessionView;

    closed spec fn view(&self) -> SessionView {
        SessionView {
            server_rand_key: self.server_rand_key,
            client_rand_key: self.client_rand_key,
            session_key: self.session_key,
            pad: self.pad@,
            pad_ready: self.pad_ready,
        }
    }
}

/// A session before its token response.
pub open spec fn fresh(pad: Seq<u8>) -> SessionView {
    SessionView {
        server_rand_key: None,
        client_rand_key: None,
        session_key: None,
        pad,
        pad_ready: false,
    }
}

/// The match that a body gives a session, if the server's half is known.
pub open spec fn derived(s: SessionView, body: Seq<u8>, unix_seconds: i64) -> Option<
    BruteForceMatch,
> {
    match s.server_rand_key {
        Some(server) => first_match(
            server,
            body,
            unix_seconds,
            -BRUTE_FORCE_WINDOW_SECONDS as int,
            BRUTE_FORCE_WINDOW_SECONDS as int,
        ),
        None => None,
    }
}

/// The session once a match was found.
pub open spec fn adopted(s: SessionView, found: BruteForceMatch) -> SessionView {
    SessionView {
        server_rand_key: s.server_rand_key,
        client_rand_key: Some(found.client_rand_key),
        session_key: Some(found.session_key),
        pad: xorpad::pad_of(found.session_key, true),
        pad_ready: true,
    }
}

/// The session after a search: it has adopted the match, or is as it was.
pub open spec fn after_deriving(s: SessionView, body: Seq<u8>, unix_seconds: i64) -> SessionView {
    match derived(s, body, unix_seconds) {
        Some(found) => adopted(s, found),
        None => s,
    }
}

impl Session {
    pub fn new(region_pad: XorPad) -> (r: Session)
        ensures
            r@ == fresh(region_pad@),
    {
        Session {
            server_rand_key: None,
            client_rand_key: None,
            session_key: None,
            pad: region_pad,
            pad_ready: false,
        }
    }

    /// The server's half, once the token response was read.
    pub fn server_rand_key(&self) -> (r: Option<u64>)
        ensures
            r == self@.server_rand_key,
    {
        self.server_rand_key
    }

    /// Whether the session pad has replaced the region pad.
    pub fn pad_ready(&self) -> (r: bool)
        ensures
            r == self@.pad_ready,
    {
        self.pad_ready
    }

    /// The pad in use.
    pub fn pad(&self) -> (r: &XorPad)
        ensures
            r@ == self@.pad,
    {
        &self.pad
    }

    /// XORs a body with the pad in use.
    pub fn decrypt_body(&self, body: &[u8]) -> (r: Vec<u8>)
        ensures
            r@ == xorpad::xor_with(body@, self@.pad),
    {
        let pad: &[u8] = self.pad.bytes().as_slice();
        xorpad::xor_bytes(body, pad)
    }

    /// Takes in the server's half.
    pub fn accept_server_rand_key(&mut self, key: u64)
        ensures
            final(self)@ == (SessionView { server_rand_key: Some(key), ..old(self)@ }),
    {
        self.server_rand_key = Some(key);
    }

    /// Reads the server's half from a decrypted token response. A field that is not base64
    /// text is skipped.
    pub fn extract_server_rand_key(body: &[u8], key: &Key) -> (r: Result<u64, SessionError>)
        ensures
            r == server_key_in(body@, key@),
    {
        let message: Message = match Message::decode(body) {
            Ok(message) => message,
            Err(e) => {
                return Err(SessionError::Protobuf(e));
            },
        };
        let mut i: usize = 0;
        assert(message@.skip(0) =~= message@);
        while i < message.fields.len()
            invariant
                i <= message.fields@.len(),
                message@.len() == message.fields@.len(),
                proto::decoded(body@) == Ok::<Seq<FieldView>, ProtoError>(message@),
                key_in_fields(message@, key@) == key_in_fields(message@.skip(i as int), key@),
            decreases message.fields@.len() - i,
        {
            assert(message@[i as int] == message.fields@[i as int].model());
            assert(message@.skip(i as int)[0] == message@[i as int]);
            assert(message@.skip(i as int).skip(1) =~= message@.skip(i + 1));
            if let Value::LengthDelimited(bytes) = &message.fields[i].value {
                if let Some(text) = as_text(bytes.as_slice()) {
                    let block: Vec<u8> = b64::b64_decode(text);
                    if let Ok(plain) = rsa::decrypt_block(key, block.as_slice()) {
                        if plain.len() == 8 {
                            return Ok(endian::read_le64(plain.as_slice(), 0));
                        }
                    }
                }
            }
            i = i + 1;
        }
        Err(SessionError::ServerRandKeyNotFound)
    }

    /// Tries every second around the capture time, the earliest first.
    pub fn brute_force_client_rand_key(
        server_rand_key: u64,
        target_body: &[u8],
        unix_seconds: i64,
        window_seconds: i64,
    ) -> (r: Option<BruteForceMatch>)
        ensures
            r == first_match(
                server_rand_key,
                target_body@,
                unix_seconds,
                -window_seconds as int,
                window_seconds as int,
            ),
    {
        if window_seconds < 0 {
            return None;
        }
        let mut delta: i64 = -window_seconds;
        loop
            invariant
                0 <= window_seconds,
                -window_seconds <= delta <= window_seconds,
                first_match(
                    server_rand_key,
                    target_body@,
                    unix_seconds,
                    -window_seconds as int,
                    window_seconds as int,
                ) == first_match(
                    server_rand_key,
                    target_body@,
                    unix_seconds,
                    delta as int,
                    window_seconds as int,
                ),
            decreases window_seconds - delta,
        {
            let seed: i32 = netrand::seed_from_unix_seconds(unix_seconds.wrapping_add(delta));
            let client: u64 = netrand::client_rand_key(seed);
            let session_key: u64 = server_rand_key ^ client;
            let pad: [u8; xorpad::PAD_SIZE] = xorpad::session(session_key);
            let decrypted: Vec<u8> = xorpad::xor_bytes(target_body, pad.as_slice());
            if Message::decode(decrypted.as_slice()).is_ok() {
                return Some(
                    BruteForceMatch { client_rand_key: client, session_key, delta, seed },
                );
            }
            if delta == window_seconds {
                assert(first_match(
                    server_rand_key,
                    target_body@,
                    unix_seconds,
                    delta + 1,
                    window_seconds as int,
                ) is None);
                return None;
            }
            delta = delta + 1;
        }
    }

    /// Recovers the client's half from a body as it arrived, and adopts the session pad.
    pub fn derive_session_key(&mut self, body: &[u8], unix_seconds: i64) -> (r: Option<
        BruteForceMatch,
    >)
        ensures
            r == derived(old(self)@, body@, unix_seconds),
            final(self)@ == after_deriving(old(self)@, body@, unix_seconds),
    {
        let server: u64 = match self.server_rand_key {
            Some(server) => server,
            None => {
                return None;
            },
        };
        match Self::brute_force_client_rand_key(
            server,
            body,
            unix_seconds,
            BRUTE_FORCE_WINDOW_SECONDS,
        ) {
            Some(found) => {
                self.client_rand_key = Some(found.client_rand_key);
                self.session_key = Some(found.session_key);
                self.pad = XorPad::for_session(found.session_key);
                self.pad_ready = true;
                Some(found)
            },
            None => None,
        }
    }
}

/// A match is inside the window, the body decodes under it, and under no earlier second.
pub proof fn law_first_match_is_first(
    server_rand_key: u64,
    body: Seq<u8>,
    unix_seconds: i64,
    from: int,
    to: int,
)
    requires
        i64::MIN <= from,
        to <= i64::MAX,
    ensures
        match first_match(server_rand_key, body, unix_seconds, from, to) {
            Some(found) => {
                &&& from <= found.delta <= to
                &&& found == match_at(server_rand_key, unix_seconds, found.delta)
                &&& decodes_at(server_rand_key, body, unix_seconds, found.delta)
                &&& forall|d: i64|
                    from <= d < found.delta ==> !#[trigger] decodes_at(
                        server_rand_key,
                        body,
                        unix_seconds,
                        d,
                    )
            },
            None => forall|d: i64|
                from <= d <= to ==> !#[trigger] decodes_at(server_rand_key, body, unix_seconds, d),
        },
    decreases to - from + 1,
{
    if from <= to && !decodes_at(server_rand_key, body, unix_seconds, from as i64) {
        law_first_match_is_first(server_rand_key, body, unix_seconds, from + 1, to);
    }
}

/// A message that was XORed with the session pad of a second inside the window is not
/// missed: the search stops at that second, or before.
pub proof fn law_search_finds_the_login(
    server_rand_key: u64,
    plain: Seq<u8>,
    unix_seconds: i64,
    delta: i64,
    window: i64,
)
    requires
        -window <= delta <= window,
        proto::decoded(plain) is Ok,
    ensures
        ({
            let session_key = match_at(server_rand_key, unix_seconds, delta).session_key;
            let wire = xorpad::xor_with(plain, xorpad::pad_of(session_key, true));
            let found = first_match(server_rand_key, wire, unix_seconds, -window as int, window as int);
            found is Some && found->Some_0.delta <= delta
        }),
{
    let session_key = match_at(server_rand_key, unix_seconds, delta).session_key;
    let pad = xorpad::pad_of(session_key, true);
    let wire = xorpad::xor_with(plain, pad);
    xorpad::law_xor_is_its_own_inverse(plain, pad);
    assert(decodes_at(server_rand_key, wire, unix_seconds, delta));
    law_first_match_is_first(server_rand_key, wire, unix_seconds, -window as int, window as int);
}

/// Once the session pad is adopted, a body that was XORed with it decrypts.
pub proof fn law_adopted_pad_decrypts(s: SessionView, found: BruteForceMatch, plain: Seq<u8>)
    ensures
        xorpad::xor_with(
            xorpad::xor_with(plain, xorpad::pad_of(found.session_key, true)),
            adopted(s, found).pad,
        ) == plain,
{
    xorpad::law_xor_is_its_own_inverse(plain, xorpad::pad_of(found.session_key, true));
}

/// A login is recovered: where the server's half is known and the client seeded its own within
/// half an hour of the capture, either way, a message that was sent under the session pad of
/// that second gives a match, no later than it, and the session goes on with the pad of the
/// match, under which the message decodes.
pub proof fn law_a_login_is_recovered(
    s: SessionView,
    server: u64,
    plain: Seq<u8>,
    unix_seconds: i64,
    delta: i64,
)
    requires
        s.server_rand_key == Some(server),
        -1800 <= delta <= 1800,
        proto::decoded(plain) is Ok,
    ensures
        ({
            let client = netrand::key_of(netrand::seed_of(unix_seconds.wrapping_add(delta)));
            let wire = xorpad::xor_with(plain, xorpad::pad_of(server ^ client, true));
            let found = derived(s, wire, unix_seconds);
            let after = after_deriving(s, wire, unix_seconds);
            &&& found is Some
            &&& -1800 <= found->Some_0.delta <= delta
            &&& found->Some_0.session_key == server ^ found->Some_0.client_rand_key
            &&& after.pad_ready
            &&& after.pad == xorpad::pad_of(found->Some_0.session_key, true)
            &&& after.session_key == Some(found->Some_0.session_key)
            &&& after.client_rand_key == Some(found->Some_0.client_rand_key)
            &&& after.server_rand_key == Some(server)
            &&& proto::decoded(xorpad::xor_with(wire, after.pad)) is Ok
            &&& found->Some_0.delta == delta ==> xorpad::xor_with(wire, after.pad) == plain
        }),
{
    law_search_finds_the_login(server, plain, unix_seconds, delta, 1800);
    let client = netrand::key_of(netrand::seed_of(unix_seconds.wrapping_add(delta)));
    let pad = xorpad::pad_of(server ^ client, true);
    let wire = xorpad::xor_with(plain, pad);
    law_first_match_is_first(server, wire, unix_seconds, -1800, 1800);
    xorpad::law_xor_is_its_own_inverse(plain, pad);
}

/// Where no second of the half hour around the capture makes the body a message, or the
/// server's half is not known, nothing is found and the session stays as it is.
pub proof fn law_a_failed_search_changes_nothing(s: SessionView, body: Seq<u8>, unix_seconds: i64)
    requires
        s.server_rand_key is None || forall|d: i64|
            -1800 <= d <= 1800 ==> #[trigger] proto::decoded(
                xorpad::xor_with(
                    body,
                    xorpad::pad_of(
                        s.server_rand_key->Some_0 ^ netrand::key_of(
                            netrand::seed_of(unix_seconds.wrapping_add(d)),
                        ),
                        true,
                    ),
                ),
            ) is Err,
    ensures
        derived(s, body, unix_seconds) is None,
        after_deriving(s, body, unix_seconds) == s,
{
    if let Some(server) = s.server_rand_key {
        law_first_match_is_first(server, body, unix_seconds, -1800, 1800);
        if let Some(found) = derived(s, body, unix_seconds) {
            assert(decodes_at(server, body, unix_seconds, found.delta));
        }
    }
}

} // verus!
