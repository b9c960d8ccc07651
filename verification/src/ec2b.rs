//! The scrambled blob of the dispatch gateway, from which the XOR seed of a region is
//! derived.
//!
//! The magic is big-endian, the two length fields little-endian. The round keys of the
//! inverse cipher and the pad over the key are given by the caller.
use crate::b64;
use crate::ec2b_tables::{G11, G13, G14, G9, SBOX_INV, SHIFT_ROWS_INV};
use crate::endian;
use crate::text;
use vstd::prelude::*;

verus! {

/// "Ec2b".
pub const MAGIC: u32 = 0x4563_3262;

pub const KEY_SIZE: usize = 16;

pub const SEED_SIZE: usize = 2048;

pub const FINAL_XOR: u64 = 0xCEAC_3B5A_8678_37AC;

/// Eleven round keys.
pub const ROUND_KEYS_SIZE: usize = 176;

/// Magic, key size, key and payload size.
pub const MIN_LEN: usize = 28;

/// The constants that the blob's key is recovered with.
#[derive(Debug, Clone, Copy)]
pub struct Ec2bKeys {
    /// The round keys of the inverse cipher, in the order they are added.
    pub round_keys: [u8; ROUND_KEYS_SIZE],
    /// What the key is XORed with in the end.
    pub key_xor_pad: [u8; KEY_SIZE],
}

#[derive(Debug, Clone, Copy, PartialEq, Eq, Structural)]
pub enum Ec2bError {
    TooShort(usize),
    BadMagic(u32),
    BadKeySize(u32),
    BadPayloadSize(u32),
    PayloadOutOfBounds,
}

impl Ec2bError {
    /// What went wrong, in words.
    pub open spec fn text(self) -> Seq<char> {
        match self {
            Ec2bError::TooShort(len) => "Ec2b: too short ("@ + text::decimal(len as nat)
                + " bytes)"@,
            Ec2bError::BadMagic(m) => "Ec2b: bad magic 0x"@ + text::hex(m as nat, 8),
            Ec2bError::BadKeySize(s) => "Ec2b: bad key size "@ + text::decimal(s as nat),
            Ec2bError::BadPayloadSize(s) => "Ec2b: bad payload size "@ + text::decimal(s as nat),
            Ec2bError::PayloadOutOfBounds => "Ec2b: payload out of bounds"@,
        }
    }

    pub fn to_string(&self) -> (r: String)
        ensures
            r@ == self.text(),
    {
        match *self {
            Ec2bError::TooShort(len) => {
                let mut out: String = text::with_number("Ec2b: too short (", len as u64);
                out.push_str(" bytes)");
                out
            },
            Ec2bError::BadMagic(m) => {
                let mut out: String = "Ec2b: bad magic 0x".to_owned();
                text::push_hex(&mut out, m as u64, 8);
                out
            },
            Ec2bError::BadKeySize(s) => text::with_number("Ec2b: bad key size ", s as u64),
            Ec2bError::BadPayloadSize(s) => text::with_number("Ec2b: bad payload size ", s as u64),
            Ec2bError::PayloadOutOfBounds => "Ec2b: payload out of bounds".to_owned(),
        }
    }
}

/// The state with 16 bytes of `keys`, from `at` on, added to it.
pub open spec fn with_key(state: Seq<u8>, keys: Seq<u8>, at: int) -> Seq<u8> {
    Seq::new(16, |i: int| state[i] ^ keys[at + i])
}

/// Each byte through the inverse substitution box.
pub open spec fn substituted(state: Seq<u8>) -> Seq<u8> {
    Seq::new(16, |i: int| SBOX_INV@[state[i] as int])
}

/// The rows shifted back.
pub open spec fn shifted(state: Seq<u8>) -> Seq<u8> {
    Seq::new(16, |i: int| state[SHIFT_ROWS_INV@[i] as int])
}

/// One byte of an unmixed column.
pub open spec fn unmixed_byte(a: u8, b: u8, c: u8, d: u8) -> u8 {
    G14@[a as int] ^ G9@[d as int] ^ G13@[c as int] ^ G11@[b as int]
}

/// The columns unmixed.
pub open spec fn unmixed(state: Seq<u8>) -> Seq<u8> {
    Seq::new(
        16,
        |i: int|
            {
                let col = i / 4 * 4;
                unmixed_byte(
                    state[i],
                    state[col + (i + 1) % 4],
                    state[col + (i + 2) % 4],
                    state[col + (i + 3) % 4],
                )
            },
    )
}

/// The state after the first key and `rounds` whole rounds.
pub open spec fn after_rounds(key: Seq<u8>, keys: Seq<u8>, rounds: nat) -> Seq<u8>
    decreases rounds,
{
    if rounds == 0 {
        with_key(key, keys, 0)
    } else {
        let state = after_rounds(key, keys, (rounds - 1) as nat);
        with_key(unmixed(shifted(substituted(state))), keys, 16 * rounds as int)
    }
}

/// The inverse cipher applied to a scrambled key.
pub open spec fn unscrambled(key: Seq<u8>, keys: Seq<u8>) -> Seq<u8> {
    with_key(shifted(substituted(after_rounds(key, keys, 9))), keys, 160)
}

fn add_key(state: &mut [u8; KEY_SIZE], keys: &[u8; ROUND_KEYS_SIZE], at: usize)
    requires
        at <= 160,
    ensures
        final(state)@ == with_key(old(state)@, keys@, at as int),
{
    let ghost before = state@;
    let mut i: usize = 0;
    while i < 16
        invariant
            i <= 16,
            at <= 160,
            forall|k: int| 0 <= k < i ==> #[trigger] state@[k] == before[k] ^ keys@[at + k],
            forall|k: int| i <= k < 16 ==> #[trigger] state@[k] == before[k],
        decreases 16 - i,
    {
        state[i] = state[i] ^ keys[at + i];
        i = i + 1;
    }
    assert(state@ =~= with_key(before, keys@, at as int));
}

/// Substitutes the bytes and shifts the rows back.
fn substitute_and_shift(state: &[u8; KEY_SIZE]) -> (r: [u8; KEY_SIZE])
    ensures
        r@ == shifted(substituted(state@)),
{
    let mut out: [u8; KEY_SIZE] = [0;KEY_SIZE];
    let mut i: usize = 0;
    while i < 16
        invariant
            i <= 16,
            forall|k: int| 0 <= k < i ==> #[trigger] out@[k] == shifted(substituted(state@))[k],
        decreases 16 - i,
    {
        let from: usize = SHIFT_ROWS_INV[i] as usize;
        assert(from < 16);
        out[i] = SBOX_INV[state[from] as usize];
        i = i + 1;
    }
    assert(out@ =~= shifted(substituted(state@)));
    out
}

fn unmix_byte(a: u8, b: u8, c: u8, d: u8) -> (r: u8)
    ensures
        r == unmixed_byte(a, b, c, d),
{
    G14[a as usize] ^ G9[d as usize] ^ G13[c as usize] ^ G11[b as usize]
}

fn unmix(state: &[u8; KEY_SIZE]) -> (r: [u8; KEY_SIZE])
    ensures
        r@ == unmixed(state@),
{
    let mut out: [u8; KEY_SIZE] = [0;KEY_SIZE];
    let mut i: usize = 0;
    while i < 16
        invariant
            i <= 16,
            forall|k: int| 0 <= k < i ==> #[trigger] out@[k] == unmixed(state@)[k],
        decreases 16 - i,
    {
        let col: usize = i / 4 * 4;
        out[i] = unmix_byte(
            state[i],
            state[col + (i + 1) % 4],
            state[col + (i + 2) % 4],
            state[col + (i + 3) % 4],
        );
        i = i + 1;
    }
    assert(out@ =~= unmixed(state@));
    out
}

/// Applies the inverse cipher to a scrambled key.
pub fn unscramble_aes_key(key: &[u8; KEY_SIZE], round_keys: &[u8; ROUND_KEYS_SIZE]) -> (r: [u8;
    KEY_SIZE])
    ensures
        r@ == unscrambled(key@, round_keys@),
{
    let mut chip: [u8; KEY_SIZE] = *key;
    add_key(&mut chip, round_keys, 0);
    let mut round: usize = 1;
    while round < 10
        invariant
            1 <= round <= 10,
            chip@ == after_rounds(key@, round_keys@, (round - 1) as nat),
        decreases 10 - round,
    {
        let shifted_back: [u8; KEY_SIZE] = substitute_and_shift(&chip);
        chip = unmix(&shifted_back);
        add_key(&mut chip, round_keys, round * 16);
        round = round + 1;
    }
    let mut last: [u8; KEY_SIZE] = substitute_and_shift(&chip);
    add_key(&mut last, round_keys, 160);
    last
}

/// A blob with its key recovered.
#[derive(Debug, Clone, Copy, PartialEq, Eq)]
pub struct Parsed {
    pub key: [u8; KEY_SIZE],
    pub seed: [u8; SEED_SIZE],
}

/// What a [`Parsed`] holds.
pub struct ParsedView {
    pub key: Seq<u8>,
    pub seed: Seq<u8>,
}

impl View for Parsed {
    type V = ParsedView;

    open spec fn view(&self) -> ParsedView {
        ParsedView { key: self.key@, seed: self.seed@ }
    }
}

/// What a blob holds. The first thing that is wrong decides the error.
pub open spec fn parsed(data: Seq<u8>, keys: Ec2bKeys) -> Result<ParsedView, Ec2bError> {
    if data.len() < MIN_LEN {
        Err(Ec2bError::TooShort(data.len() as usize))
    } else if endian::be32(data, 0) != MAGIC {
        Err(Ec2bError::BadMagic(endian::be32(data, 0) as u32))
    } else if endian::le32(data, 4) != KEY_SIZE {
        Err(Ec2bError::BadKeySize(endian::le32(data, 4) as u32))
    } else if endian::le32(data, 24) != SEED_SIZE {
        Err(Ec2bError::BadPayloadSize(endian::le32(data, 24) as u32))
    } else if data.len() < MIN_LEN + SEED_SIZE {
        Err(Ec2bError::PayloadOutOfBounds)
    } else {
        Ok(
            ParsedView {
                key: with_key(
                    unscrambled(data.subrange(8, 24), keys.round_keys@),
                    keys.key_xor_pad@,
                    0,
                ),
                seed: data.subrange(28, 28 + SEED_SIZE),
            },
        )
    }
}

/// Reads a blob and recovers its key.
pub fn parse(data: &[u8], keys: &Ec2bKeys) -> (r: Result<Parsed, Ec2bError>)
    ensures
        match parsed(data@, *keys) {
            Ok(p) => r is Ok && r->Ok_0@ == p,
            Err(e) => r == Err::<Parsed, Ec2bError>(e),
        },
{
    if data.len() < MIN_LEN {
        return Err(Ec2bError::TooShort(data.len()));
    }
    let magic: u32 = endian::read_be32(data, 0);
    if magic != MAGIC {
        return Err(Ec2bError::BadMagic(magic));
    }
    let key_size: u32 = endian::read_le32(data, 4);
    if key_size != KEY_SIZE as u32 {
        return Err(Ec2bError::BadKeySize(key_size));
    }
    let payload_size: u32 = endian::read_le32(data, 24);
    if payload_size != SEED_SIZE as u32 {
        return Err(Ec2bError::BadPayloadSize(payload_size));
    }
    if data.len() < MIN_LEN + SEED_SIZE {
        return Err(Ec2bError::PayloadOutOfBounds);
    }
    let mut scrambled: [u8; KEY_SIZE] = [0;KEY_SIZE];
    let mut i: usize = 0;
    while i < KEY_SIZE
        invariant
            i <= KEY_SIZE,
            data@.len() >= MIN_LEN,
            forall|k: int| 0 <= k < i ==> #[trigger] scrambled@[k] == data@[8 + k],
        decreases KEY_SIZE - i,
    {
        scrambled[i] = data[8 + i];
        i = i + 1;
    }
    assert(scrambled@ =~= data@.subrange(8, 24));
    let mut seed: [u8; SEED_SIZE] = [0;SEED_SIZE];
    let mut i: usize = 0;
    while i < SEED_SIZE
        invariant
            i <= SEED_SIZE,
            data@.len() >= MIN_LEN + SEED_SIZE,
            forall|k: int| 0 <= k < i ==> #[trigger] seed@[k] == data@[28 + k],
        decreases SEED_SIZE - i,
    {
        seed[i] = data[28 + i];
        i = i + 1;
    }
    assert(seed@ =~= data@.subrange(28, 28 + SEED_SIZE));
    let mut key: [u8; KEY_SIZE] = unscramble_aes_key(&scrambled, &keys.round_keys);
    let ghost recovered = key@;
    let mut i: usize = 0;
    while i < KEY_SIZE
        invariant
            i <= KEY_SIZE,
            forall|k: int|
                0 <= k < i ==> #[trigger] key@[k] == recovered[k] ^ keys.key_xor_pad@[k],
            forall|k: int| i <= k < 16 ==> #[trigger] key@[k] == recovered[k],
        decreases KEY_SIZE - i,
    {
        key[i] = key[i] ^ keys.key_xor_pad[i];
        i = i + 1;
    }
    assert(key@ =~= with_key(recovered, keys.key_xor_pad@, 0));
    Ok(Parsed { key, seed })
}

/// All ones XORed with the first `words` little-endian words of `seed`.
pub open spec fn folded(seed: Seq<u8>, words: nat) -> u64
    decreases words,
{
    if words == 0 {
        u64::MAX
    } else {
        folded(seed, (words - 1) as nat) ^ (endian::le64(seed, 8 * (words - 1)) as u64)
    }
}

/// The seed that a blob stands for.
pub open spec fn scrambled(p: ParsedView) -> u64 {
    folded(p.seed, 256) ^ (endian::le64(p.key, 0) as u64) ^ (endian::le64(p.key, 8) as u64)
        ^ FINAL_XOR
}

/// XORs every word of the payload, both halves of the key and the final constant.
pub fn scramble(parsed: &Parsed) -> (r: u64)
    ensures
        r == scrambled(parsed@),
{
    let seed: &[u8] = parsed.seed.as_slice();
    let key: &[u8] = parsed.key.as_slice();
    let mut value: u64 = u64::MAX;
    let mut word: usize = 0;
    while word < 256
        invariant
            word <= 256,
            seed@ == parsed.seed@,
            seed.len() == SEED_SIZE,
            value == folded(parsed.seed@, word as nat),
        decreases 256 - word,
    {
        value = value ^ endian::read_le64(seed, 8 * word);
        word = word + 1;
    }
    value ^ endian::read_le64(key, 0) ^ endian::read_le64(key, 8) ^ FINAL_XOR
}

/// The seed that a blob stands for, or why it stands for none.
pub open spec fn seed_of(data: Seq<u8>, keys: Ec2bKeys) -> Result<u64, Ec2bError> {
    match parsed(data, keys) {
        Ok(p) => Ok(scrambled(p)),
        Err(e) => Err(e),
    }
}

/// Derives the seed of a region from a blob.
pub fn derive_seed(data: &[u8], keys: &Ec2bKeys) -> (r: Result<u64, Ec2bError>)
    ensures
        r == seed_of(data@, *keys),
{
    match parse(data, keys) {
        Ok(parsed) => Ok(scramble(&parsed)),
        Err(e) => Err(e),
    }
}

/// Derives the seed of a region from a blob in base64, as the gateway sends it.
pub fn derive_seed_from_b64(client_secret_key: &str, keys: &Ec2bKeys) -> (r: Result<u64, Ec2bError>)
    ensures
        r == seed_of(b64::b64_decoded(client_secret_key@), *keys),
{
    let data: Vec<u8> = b64::b64_decode(client_secret_key);
    derive_seed(data.as_slice(), keys)
}

/// A blob as the gateway sends it: the letters `Ec2b`, the size of the key and the key, the size
/// of the payload and the payload.
pub open spec fn blob(key: Seq<u8>, payload: Seq<u8>) -> Seq<u8> {
    seq![69u8, 99u8, 50u8, 98u8] + endian::le32_bytes(16) + key + endian::le32_bytes(2048) + payload
}

/// A blob is read whole: the payload as it is, and the key behind the inverse cipher and the pad.
/// What follows it does not matter.
pub proof fn law_a_blob_is_read(key: Seq<u8>, payload: Seq<u8>, rest: Seq<u8>, keys: Ec2bKeys)
    requires
        key.len() == 16,
        payload.len() == 2048,
    ensures
        ({
            let r = parsed(blob(key, payload) + rest, keys);
            &&& r is Ok
            &&& r->Ok_0.seed == payload
            &&& r->Ok_0.key.len() == 16
            &&& forall|i: int|
                0 <= i < 16 ==> #[trigger] r->Ok_0.key[i] == unscrambled(key, keys.round_keys@)[i]
                    ^ keys.key_xor_pad@[i]
        }),
{
    let data = blob(key, payload) + rest;
    assert(data[0] == 69 && data[1] == 99 && data[2] == 50 && data[3] == 98);
    assert(data.subrange(4, 8) =~= endian::le32_bytes(16));
    endian::lemma_round_trip_32(data, 4, 16);
    assert(data.subrange(24, 28) =~= endian::le32_bytes(2048));
    endian::lemma_round_trip_32(data, 24, 2048);
    assert(data.subrange(8, 24) =~= key);
    assert(data.subrange(28, 2076) =~= payload);
}

/// A blob that lacks its header, has another magic or other sizes, or is cut short is refused.
pub proof fn law_other_blobs_are_refused(key: Seq<u8>, payload: Seq<u8>, n: int, keys: Ec2bKeys)
    requires
        key.len() == 16,
        payload.len() == 2048,
        0 <= n < 28 + 2048,
    ensures
        n < 28 ==> parsed(blob(key, payload).take(n), keys) == Err::<ParsedView, Ec2bError>(
            Ec2bError::TooShort(n as usize),
        ),
        n >= 28 ==> parsed(blob(key, payload).take(n), keys) == Err::<ParsedView, Ec2bError>(
            Ec2bError::PayloadOutOfBounds,
        ),
{
    let data = blob(key, payload).take(n);
    if n >= 28 {
        assert(data[0] == 69 && data[1] == 99 && data[2] == 50 && data[3] == 98);
        assert(data.subrange(4, 8) =~= endian::le32_bytes(16));
        endian::lemma_round_trip_32(data, 4, 16);
        assert(data.subrange(24, 28) =~= endian::le32_bytes(2048));
        endian::lemma_round_trip_32(data, 24, 2048);
    }
}

proof fn lemma_fold_changes(a: Seq<u8>, b: Seq<u8>, at: int, words: nat, mask: u64)
    requires
        0 <= at,
        forall|w: int|
            0 <= w < words && w != at ==> #[trigger] endian::le64(a, 8 * w) == endian::le64(b, 8 * w),
        endian::le64(b, 8 * at) as u64 == (endian::le64(a, 8 * at) as u64) ^ mask,
    ensures
        at < words ==> folded(b, words) == folded(a, words) ^ mask,
        at >= words ==> folded(b, words) == folded(a, words),
    decreases words,
{
    if words > 0 {
        let w = words - 1;
        lemma_fold_changes(a, b, at, w as nat, mask);
        let fa = folded(a, w as nat);
        let wa = endian::le64(a, 8 * w) as u64;
        if w != at {
            assert(endian::le64(a, 8 * w) == endian::le64(b, 8 * w));
            assert((fa ^ mask) ^ wa == (fa ^ wa) ^ mask) by (bit_vector);
        } else {
            assert(fa ^ (wa ^ mask) == (fa ^ wa) ^ mask) by (bit_vector);
        }
    }
}

/// Each of the 256 words of the payload counts: a change of its bits changes the same bits of the
/// seed.
pub proof fn law_every_word_counts(p: ParsedView, q: ParsedView, at: int, mask: u64)
    requires
        p.key == q.key,
        0 <= at < 256,
        forall|w: int|
            0 <= w < 256 && w != at ==> #[trigger] endian::le64(p.seed, 8 * w) == endian::le64(
                q.seed,
                8 * w,
            ),
        endian::le64(q.seed, 8 * at) as u64 == (endian::le64(p.seed, 8 * at) as u64) ^ mask,
    ensures
        scrambled(q) == scrambled(p) ^ mask,
{
    lemma_fold_changes(p.seed, q.seed, at, 256, mask);
    let f = folded(p.seed, 256);
    let a = endian::le64(p.key, 0) as u64;
    let b = endian::le64(p.key, 8) as u64;
    assert((f ^ mask) ^ a ^ b ^ FINAL_XOR == (f ^ a ^ b ^ FINAL_XOR) ^ mask) by (bit_vector);
}

} // verus!
