//! RSA-1024 with PKCS#1 v1.5 padding, from a modulus and two exponents.
use crate::b64;
use crate::b64::B64Error;
use crate::text;
use num_bigint::BigUint;
use vstd::prelude::*;

verus! {

/// A block: RSA-1024 is 128 bytes.
pub const KEY_SIZE: usize = 128;

pub const PUBLIC_EXPONENT: u64 = 65537;

/// The longest message a block holds: the padding takes at least eleven bytes.
pub const MAX_MESSAGE: usize = 117;

#[derive(Debug, Clone, Copy, PartialEq, Eq)]
pub enum RsaError {
    Key(B64Error),
    /// Key material that is not [`KEY_SIZE`] bytes long.
    BadKeySize { name: &'static str, len: usize },
    /// A ciphertext that is not [`KEY_SIZE`] bytes, or not a multiple of it.
    BadCiphertextSize(usize),
    /// A ciphertext that is not less than the modulus.
    DecryptFailed,
    /// A block that is not padded, or a message that leaves no room for the padding.
    PaddingInvalid,
}

impl RsaError {
    /// What went wrong, in words.
    pub open spec fn text(self) -> Seq<char> {
        match self {
            RsaError::Key(e) => "RSA key: "@ + e.text(),
            RsaError::BadKeySize { name, len } => "RSA key: "@ + name@ + " is "@ + text::decimal(
                len as nat,
            ) + " bytes, expected 128"@,
            RsaError::BadCiphertextSize(len) => "RSA: input of "@ + text::decimal(len as nat)
                + " bytes is not a multiple of 128"@,
            RsaError::DecryptFailed => "RSA decrypt failed"@,
            RsaError::PaddingInvalid => "RSA decrypt failed (invalid padding)"@,
        }
    }

    pub fn to_string(&self) -> (r: String)
        ensures
            r@ == self.text(),
    {
        match *self {
            RsaError::Key(e) => {
                let mut out: String = "RSA key: ".to_owned();
                out.push_str(e.to_string().as_str());
                out
            },
            RsaError::BadKeySize { name, len } => {
                let mut out: String = "RSA key: ".to_owned();
                out.push_str(name);
                out.push_str(" is ");
                text::push_decimal(&mut out, len as u64);
                out.push_str(" bytes, expected 128");
                out
            },
            RsaError::BadCiphertextSize(len) => {
                let mut out: String = text::with_number("RSA: input of ", len as u64);
                out.push_str(" bytes is not a multiple of 128");
                out
            },
            RsaError::DecryptFailed => "RSA decrypt failed".to_owned(),
            RsaError::PaddingInvalid => "RSA decrypt failed (invalid padding)".to_owned(),
        }
    }
}

/// The number that big-endian bytes stand for.
pub open spec fn be_value(s: Seq<u8>) -> nat
    decreases s.len(),
{
    if s.len() == 0 {
        0
    } else {
        be_value(s.drop_last()) * 256 + s.last() as nat
    }
}

/// The lowest `width` bytes of a number, big-endian.
pub open spec fn be_bytes(v: nat, width: nat) -> Seq<u8>
    decreases width,
{
    if width == 0 {
        Seq::empty()
    } else {
        be_bytes(v / 256, (width - 1) as nat).push((v % 256) as u8)
    }
}

/// 256 to the power `n`.
pub open spec fn pow256(n: nat) -> nat
    decreases n,
{
    if n == 0 {
        1
    } else {
        256 * pow256((n - 1) as nat)
    }
}

proof fn lemma_be_value_bound(s: Seq<u8>)
    ensures
        be_value(s) < pow256(s.len()),
        pow256(s.len()) >= 1,
    decreases s.len(),
{
    if s.len() > 0 {
        lemma_be_value_bound(s.drop_last());
    }
}

/// Bytes are what their number and their length say.
proof fn lemma_be_bytes_of_value(s: Seq<u8>)
    ensures
        be_bytes(be_value(s), s.len()) == s,
    decreases s.len(),
{
    if s.len() > 0 {
        lemma_be_bytes_of_value(s.drop_last());
        assert(s.drop_last().push(s.last()) =~= s);
    } else {
        assert(be_bytes(be_value(s), 0) =~= s);
    }
}

proof fn lemma_be_value_of_bytes(v: nat, width: nat)
    requires
        v < pow256(width),
    ensures
        be_value(be_bytes(v, width)) == v,
        be_bytes(v, width).len() == width,
    decreases width,
{
    if width > 0 {
        lemma_be_value_of_bytes(v / 256, (width - 1) as nat);
        assert(be_bytes(v, width).drop_last() =~= be_bytes(v / 256, (width - 1) as nat));
    }
}

proof fn lemma_be_value_zeros(n: nat, s: Seq<u8>)
    ensures
        be_value(Seq::new(n, |i: int| 0u8) + s) == be_value(s),
    decreases n + s.len(),
{
    let zeros = Seq::new(n, |i: int| 0u8);
    if s.len() > 0 {
        assert((zeros + s).drop_last() =~= zeros + s.drop_last());
        lemma_be_value_zeros(n, s.drop_last());
    } else if n > 0 {
        let fewer = Seq::new((n - 1) as nat, |i: int| 0u8);
        assert((zeros + s).drop_last() =~= fewer + s);
        lemma_be_value_zeros((n - 1) as nat, s);
    } else {
        assert(zeros + s =~= s);
    }
}

proof fn lemma_be_value_leading(s: Seq<u8>)
    requires
        s.len() > 0,
        s[0] != 0,
    ensures
        be_value(s) >= pow256((s.len() - 1) as nat),
    decreases s.len(),
{
    if s.len() > 1 {
        lemma_be_value_leading(s.drop_last());
    }
}

proof fn lemma_pow256_monotone(a: nat, b: nat)
    requires
        a <= b,
    ensures
        pow256(a) <= pow256(b),
    decreases b,
{
    if a < b {
        lemma_pow256_monotone(a, (b - 1) as nat);
    }
}

/// `BigUint::modpow`: the power of the base modulo the modulus, all three as big-endian
/// bytes. The bytes that come back have no leading zero, except that zero is one zero byte.
#[verifier::external_body]
fn modpow(base: &[u8], exponent: &[u8], modulus: &[u8]) -> (r: Vec<u8>)
    requires
        be_value(modulus@) > 0,
    ensures
        be_value(r@) as int == vstd::arithmetic::power::pow(be_value(base@) as int, be_value(exponent@)) % be_value(modulus@) as int,
        r@.len() >= 1,
        r@.len() == 1 || r@[0] != 0,
{
    let exponent = BigUint::from_bytes_be(exponent);
    let modulus = BigUint::from_bytes_be(modulus);
    BigUint::from_bytes_be(base).modpow(&exponent, &modulus).to_bytes_be()
}

/// A power modulo a modulus.
pub open spec fn mod_power(base: nat, exponent: nat, modulus: nat) -> nat {
    (vstd::arithmetic::power::pow(base as int, exponent) % modulus as int) as nat
}

/// A key: a modulus and two exponents.
pub struct KeyView {
    pub n: nat,
    pub e: nat,
    pub d: nat,
}

/// A modulus of [`KEY_SIZE`] bytes with its public and its private exponent.
#[derive(Debug)]
pub struct Key {
    n: Vec<u8>,
    e: Vec<u8>,
    d: Vec<u8>,
}

impl View for Key {
    type V = KeyView;

    closed spec fn view(&self) -> KeyView {
        KeyView { n: be_value(self.n@), e: be_value(self.e@), d: be_value(self.d@) }
    }
}

impl Key {
    #[verifier::type_invariant]
    spec fn wf(self) -> bool {
        self.n@.len() == KEY_SIZE
    }
}

/// The key in an XML key file: base64 in the tags `Modulus` and `D`.
pub open spec fn key_in(xml: Seq<char>) -> Result<KeyView, RsaError> {
    match b64::between(xml, "<Modulus>"@, "</Modulus>"@) {
        Err(e) => Err(RsaError::Key(e)),
        Ok(modulus) => match b64::between(xml, "<D>"@, "</D>"@) {
            Err(e) => Err(RsaError::Key(e)),
            Ok(exponent) => {
                let n = b64::b64_decoded(modulus);
                let d = b64::b64_decoded(exponent);
                if n.len() != KEY_SIZE {
                    Err(RsaError::BadKeySize { name: "Modulus", len: n.len() as usize })
                } else if d.len() != KEY_SIZE {
                    Err(RsaError::BadKeySize { name: "D", len: d.len() as usize })
                } else {
                    Ok(KeyView { n: be_value(n), e: PUBLIC_EXPONENT as nat, d: be_value(d) })
                }
            },
        },
    }
}

/// Reads a key from an XML key file.
pub fn key(xml: &str) -> (r: Result<Key, RsaError>)
    ensures
        match key_in(xml@) {
            Ok(k) => r is Ok && r->Ok_0@ == k,
            Err(e) => r == Err::<Key, RsaError>(e),
        },
{
    let modulus: &str = match b64::extract_xml_tag(xml, "<Modulus>", "</Modulus>") {
        Ok(inner) => inner,
        Err(e) => {
            return Err(RsaError::Key(e));
        },
    };
    let exponent: &str = match b64::extract_xml_tag(xml, "<D>", "</D>") {
        Ok(inner) => inner,
        Err(e) => {
            return Err(RsaError::Key(e));
        },
    };
    let n: Vec<u8> = b64::b64_decode(modulus);
    let d: Vec<u8> = b64::b64_decode(exponent);
    if n.len() != KEY_SIZE {
        return Err(RsaError::BadKeySize { name: "Modulus", len: n.len() });
    }
    if d.len() != KEY_SIZE {
        return Err(RsaError::BadKeySize { name: "D", len: d.len() });
    }
    // 65537 is 01 00 01.
    let mut e: Vec<u8> = Vec::new();
    e.push(1);
    e.push(0);
    e.push(1);
    proof {
        assert(e@.drop_last() =~= seq![1u8, 0u8]);
        assert(e@.drop_last().drop_last() =~= seq![1u8]);
        assert(e@.drop_last().drop_last().drop_last() =~= Seq::empty());
        reveal_with_fuel(be_value, 4);
    }
    Ok(Key { n, e, d })
}

/// The position of the first zero byte at or behind `from`, or the length.
pub open spec fn zero_from(em: Seq<u8>, from: int) -> int
    decreases em.len() - from,
{
    if from >= em.len() {
        em.len() as int
    } else if em[from] == 0 {
        from
    } else {
        zero_from(em, from + 1)
    }
}

/// The message in a padded block: `00 02`, at least eight bytes that are not zero, `00`, and
/// the message.
pub open spec fn unpadded(em: Seq<u8>) -> Result<Seq<u8>, RsaError> {
    if em.len() < 11 || em[0] != 0 || em[1] != 2 {
        Err(RsaError::PaddingInvalid)
    } else {
        let sep = zero_from(em, 2);
        if sep == em.len() || sep < 10 {
            Err(RsaError::PaddingInvalid)
        } else {
            Ok(em.skip(sep + 1))
        }
    }
}

/// The bytes between the block type and the separator.
pub open spec fn filler(len: nat) -> Seq<u8> {
    Seq::new(len, |i: int| (i % 255 + 1) as u8)
}

/// A message padded to a block.
pub open spec fn padded(message: Seq<u8>) -> Seq<u8> {
    seq![0u8, 2u8] + filler((KEY_SIZE - 3 - message.len()) as nat) + seq![0u8] + message
}

/// What one block decrypts to.
pub open spec fn block_decrypted(k: KeyView, ciphertext: Seq<u8>) -> Result<Seq<u8>, RsaError> {
    if ciphertext.len() != KEY_SIZE {
        Err(RsaError::BadCiphertextSize(ciphertext.len() as usize))
    } else if be_value(ciphertext) >= k.n {
        Err(RsaError::DecryptFailed)
    } else {
        unpadded(be_bytes(mod_power(be_value(ciphertext), k.d, k.n), KEY_SIZE as nat))
    }
}

/// What a block becomes under the public exponent.
pub open spec fn enciphered(k: KeyView, em: Seq<u8>) -> Seq<u8> {
    be_bytes(mod_power(be_value(em), k.e, k.n), KEY_SIZE as nat)
}

/// What a message encrypts to.
pub open spec fn block_encrypted(k: KeyView, message: Seq<u8>) -> Result<Seq<u8>, RsaError> {
    if message.len() > MAX_MESSAGE {
        Err(RsaError::PaddingInvalid)
    } else {
        Ok(enciphered(k, padded(message)))
    }
}

/// What the blocks from `at` on decrypt to, one behind the other. The first error decides.
pub open spec fn blocks_decrypted(k: KeyView, data: Seq<u8>, at: int) -> Result<Seq<u8>, RsaError>
    decreases data.len() - at,
{
    if at + KEY_SIZE > data.len() {
        Ok(Seq::empty())
    } else {
        match block_decrypted(k, data.subrange(at, at + KEY_SIZE)) {
            Err(e) => Err(e),
            Ok(block) => match blocks_decrypted(k, data, at + KEY_SIZE) {
                Err(e) => Err(e),
                Ok(rest) => Ok(block + rest),
            },
        }
    }
}

/// Whether one number is less than another of the same width.
fn is_less(a: &[u8], b: &[u8]) -> (r: bool)
    requires
        a@.len() == b@.len(),
    ensures
        r == (be_value(a@) < be_value(b@)),
{
    let mut less: bool = false;
    let mut greater: bool = false;
    let mut i: usize = 0;
    while i < a.len()
        invariant
            i <= a@.len(),
            a@.len() == b@.len(),
            less == (be_value(a@.take(i as int)) < be_value(b@.take(i as int))),
            greater == (be_value(a@.take(i as int)) > be_value(b@.take(i as int))),
        decreases a@.len() - i,
    {
        assert(a@.take(i + 1).drop_last() =~= a@.take(i as int));
        assert(b@.take(i + 1).drop_last() =~= b@.take(i as int));
        if !less && !greater {
            less = a[i] < b[i];
            greater = a[i] > b[i];
        }
        i = i + 1;
    }
    assert(a@.take(i as int) =~= a@);
    assert(b@.take(i as int) =~= b@);
    less
}

/// A power modulo the key's modulus, as a whole block.
fn power_block(base: &[u8], exponent: &[u8], modulus: &[u8]) -> (r: Vec<u8>)
    requires
        modulus@.len() == KEY_SIZE,
        be_value(modulus@) > 0,
    ensures
        r@ == be_bytes(
            mod_power(be_value(base@), be_value(exponent@), be_value(modulus@)),
            KEY_SIZE as nat,
        ),
        r@.len() == KEY_SIZE,
{
    let raw: Vec<u8> = modpow(base, exponent, modulus);
    proof {
        lemma_be_value_bound(modulus@);
        vstd::arithmetic::div_mod::lemma_mod_bound(
            vstd::arithmetic::power::pow(be_value(base@) as int, be_value(exponent@)),
            be_value(modulus@) as int,
        );
        if raw@.len() > KEY_SIZE {
            lemma_be_value_leading(raw@);
            lemma_pow256_monotone(KEY_SIZE as nat, (raw@.len() - 1) as nat);
        }
    }
    // A number shorter than the block has lost its leading zeros.
    let mut out: Vec<u8> = Vec::new();
    let missing: usize = KEY_SIZE - raw.len();
    let ghost zeros = Seq::new(missing as nat, |i: int| 0u8);
    while out.len() < missing
        invariant
            missing <= KEY_SIZE,
            out@.len() <= missing,
            forall|k: int| 0 <= k < out@.len() ==> #[trigger] out@[k] == 0,
        decreases missing - out@.len(),
    {
        out.push(0);
    }
    assert(out@ =~= zeros);
    out.extend_from_slice(raw.as_slice());
    assert(out@ =~= zeros + raw@);
    proof {
        lemma_be_value_zeros(missing as nat, raw@);
        lemma_be_bytes_of_value(out@);
    }
    out
}

/// Takes the message out of a padded block.
fn unpad_pkcs1_v15(em: &[u8]) -> (r: Result<Vec<u8>, RsaError>)
    ensures
        match unpadded(em@) {
            Ok(m) => r is Ok && r->Ok_0@ == m,
            Err(e) => r == Err::<Vec<u8>, RsaError>(e),
        },
{
    if em.len() < 11 || em[0] != 0x00 || em[1] != 0x02 {
        return Err(RsaError::PaddingInvalid);
    }
    let mut sep: usize = 2;
    while sep < em.len() && em[sep] != 0
        invariant
            2 <= sep <= em@.len(),
            zero_from(em@, 2) == zero_from(em@, sep as int),
        decreases em@.len() - sep,
    {
        sep = sep + 1;
    }
    if sep == em.len() || sep < 10 {
        return Err(RsaError::PaddingInvalid);
    }
    let message: Vec<u8> = vstd::slice::slice_to_vec(
        vstd::slice::slice_subrange(em, sep + 1, em.len()),
    );
    assert(message@ =~= em@.skip(sep + 1));
    Ok(message)
}

/// Decrypts one block.
pub fn decrypt_block(key: &Key, ciphertext: &[u8]) -> (r: Result<Vec<u8>, RsaError>)
    ensures
        match block_decrypted(key@, ciphertext@) {
            Ok(m) => r is Ok && r->Ok_0@ == m,
            Err(e) => r == Err::<Vec<u8>, RsaError>(e),
        },
{
    proof {
        use_type_invariant(key);
    }
    if ciphertext.len() != KEY_SIZE {
        return Err(RsaError::BadCiphertextSize(ciphertext.len()));
    }
    if !is_less(ciphertext, key.n.as_slice()) {
        return Err(RsaError::DecryptFailed);
    }
    let em: Vec<u8> = power_block(ciphertext, key.d.as_slice(), key.n.as_slice());
    unpad_pkcs1_v15(em.as_slice())
}

/// What whole blocks decrypt to.
pub open spec fn multi_decrypted(k: KeyView, data: Seq<u8>) -> Result<Seq<u8>, RsaError> {
    if data.len() % 128 != 0 {
        Err(RsaError::BadCiphertextSize(data.len() as usize))
    } else {
        blocks_decrypted(k, data, 0)
    }
}

/// Decrypts independently padded blocks and joins what they hold.
pub fn decrypt_multi(key: &Key, data: &[u8]) -> (r: Result<Vec<u8>, RsaError>)
    ensures
        if data@.len() % 128 != 0 {
            r == Err::<Vec<u8>, RsaError>(RsaError::BadCiphertextSize(data@.len() as usize))
        } else {
            match blocks_decrypted(key@, data@, 0) {
                Ok(m) => r is Ok && r->Ok_0@ == m,
                Err(e) => r == Err::<Vec<u8>, RsaError>(e),
            }
        },
        match multi_decrypted(key@, data@) {
            Ok(m) => r is Ok && r->Ok_0@ == m,
            Err(e) => r == Err::<Vec<u8>, RsaError>(e),
        },
{
    if data.len() % KEY_SIZE != 0 {
        return Err(RsaError::BadCiphertextSize(data.len()));
    }
    let mut out: Vec<u8> = Vec::new();
    let mut at: usize = 0;
    let ghost whole = blocks_decrypted(key@, data@, 0);
    proof {
        if let Ok(rest) = whole {
            assert(out@ + rest =~= rest);
        }
    }
    while data.len() - at >= KEY_SIZE
        invariant
            at <= data.len(),
            whole == blocks_decrypted(key@, data@, 0),
            data@.len() % 128 == 0,
            whole == match blocks_decrypted(key@, data@, at as int) {
                Ok(rest) => Ok::<Seq<u8>, RsaError>(out@ + rest),
                Err(e) => Err(e),
            },
        decreases data.len() - at,
    {
        let block: &[u8] = vstd::slice::slice_subrange(data, at, at + KEY_SIZE);
        match decrypt_block(key, block) {
            Ok(message) => {
                let ghost before = out@;
                out.extend_from_slice(message.as_slice());
                proof {
                    assert(out@ =~= before + message@);
                    if let Ok(rest) = blocks_decrypted(key@, data@, at + KEY_SIZE) {
                        assert(before + (message@ + rest) =~= out@ + rest);
                    }
                }
            },
            Err(e) => {
                return Err(e);
            },
        }
        at = at + KEY_SIZE;
    }
    assert(out@ + Seq::<u8>::empty() =~= out@);
    Ok(out)
}

/// Pads a message to a block.
fn pkcs1_v15_pad(message: &[u8]) -> (r: Vec<u8>)
    requires
        message@.len() <= MAX_MESSAGE,
    ensures
        r@ == padded(message@),
        r@.len() == KEY_SIZE,
{
    let fill: usize = KEY_SIZE - 3 - message.len();
    let mut em: Vec<u8> = Vec::new();
    em.push(0x00);
    em.push(0x02);
    let mut i: usize = 0;
    assert(em@ =~= seq![0u8, 2u8] + filler(0));
    while i < fill
        invariant
            i <= fill <= KEY_SIZE,
            em@ == seq![0u8, 2u8] + filler(i as nat),
        decreases fill - i,
    {
        em.push((i % 255 + 1) as u8);
        i = i + 1;
        assert(em@ =~= seq![0u8, 2u8] + filler(i as nat));
    }
    em.push(0x00);
    em.extend_from_slice(message);
    assert(em@ =~= padded(message@));
    em
}

/// Raises a block to the public exponent.
pub fn encipher_em(key: &Key, em: &[u8]) -> (r: Vec<u8>)
    requires
        key@.n > 0,
    ensures
        r@ == enciphered(key@, em@),
{
    proof {
        use_type_invariant(key);
    }
    power_block(em, key.e.as_slice(), key.n.as_slice())
}

/// Encrypts one message.
pub fn encrypt_block(key: &Key, message: &[u8]) -> (r: Result<Vec<u8>, RsaError>)
    requires
        key@.n > 0,
    ensures
        match block_encrypted(key@, message@) {
            Ok(c) => r is Ok && r->Ok_0@ == c,
            Err(e) => r == Err::<Vec<u8>, RsaError>(e),
        },
{
    if message.len() > MAX_MESSAGE {
        return Err(RsaError::PaddingInvalid);
    }
    let em: Vec<u8> = pkcs1_v15_pad(message);
    Ok(encipher_em(key, em.as_slice()))
}

proof fn lemma_filler_has_no_zero(em: Seq<u8>, message: Seq<u8>, from: int)
    requires
        message.len() <= MAX_MESSAGE,
        em == padded(message),
        2 <= from <= KEY_SIZE - 1 - message.len(),
    ensures
        zero_from(em, from) == KEY_SIZE - 1 - message.len(),
    decreases KEY_SIZE - from,
{
    let sep = KEY_SIZE - 1 - message.len();
    if from < sep {
        assert(em[from] == filler((KEY_SIZE - 3 - message.len()) as nat)[from - 2]);
        lemma_filler_has_no_zero(em, message, from + 1);
    } else {
        assert(em[sep] == 0);
    }
}

/// Unpadding a padded message gives it back.
pub proof fn law_unpad_undoes_pad(message: Seq<u8>)
    requires
        message.len() <= MAX_MESSAGE,
    ensures
        padded(message).len() == KEY_SIZE,
        unpadded(padded(message)) == Ok::<Seq<u8>, RsaError>(message),
{
    let em = padded(message);
    lemma_filler_has_no_zero(em, message, 2);
    assert(em.skip(KEY_SIZE - message.len()) =~= message);
}

/// The two exponents undo each other, and the modulus fills a block.
pub open spec fn is_key_pair(k: KeyView) -> bool {
    &&& pow256(127) <= k.n
    &&& k.n <= pow256(128)
    &&& forall|x: nat| x < k.n ==> #[trigger] mod_power(mod_power(x, k.e, k.n), k.d, k.n) == x
}

/// Under a key pair, decrypting what was encrypted gives the message back.
pub proof fn law_decrypt_undoes_encrypt(k: KeyView, message: Seq<u8>)
    requires
        is_key_pair(k),
        message.len() <= MAX_MESSAGE,
    ensures
        block_encrypted(k, message) is Ok,
        block_decrypted(k, block_encrypted(k, message)->Ok_0) == Ok::<Seq<u8>, RsaError>(message),
{
    let em = padded(message);
    law_unpad_undoes_pad(message);
    let tail = em.skip(1);
    assert(em =~= Seq::new(1, |i: int| 0u8) + tail);
    lemma_be_value_zeros(1, tail);
    lemma_be_value_bound(tail);
    let x = be_value(em);
    assert(x < k.n);
    let c = mod_power(x, k.e, k.n);
    lemma_be_value_bound(em);
    vstd::arithmetic::div_mod::lemma_mod_bound(vstd::arithmetic::power::pow(x as int, k.e), k.n as int);
    assert(c < k.n);
    lemma_be_value_of_bytes(c, KEY_SIZE as nat);
    assert(mod_power(c, k.d, k.n) == x);
    lemma_be_bytes_of_value(em);
}

proof fn lemma_zero_found(em: Seq<u8>, from: int, at: int)
    requires
        0 <= from <= at < em.len(),
        em[at] == 0,
        forall|i: int| from <= i < at ==> #[trigger] em[i] != 0,
    ensures
        zero_from(em, from) == at,
    decreases at - from,
{
    if from < at {
        lemma_zero_found(em, from + 1, at);
    }
}

proof fn lemma_no_zero(em: Seq<u8>, from: int)
    requires
        0 <= from <= em.len(),
        forall|i: int| from <= i < em.len() ==> #[trigger] em[i] != 0,
    ensures
        zero_from(em, from) == em.len(),
    decreases em.len() - from,
{
    if from < em.len() {
        lemma_no_zero(em, from + 1);
    }
}

/// The padding comes off whatever the eight or more bytes are that fill it, as long as none is
/// zero. Fewer than eight are refused, and so is a block that is not of the right type, or has no
/// end of its padding.
pub proof fn law_padding_comes_off(fill: Seq<u8>, message: Seq<u8>, first: u8, second: u8)
    requires
        forall|i: int| 0 <= i < fill.len() ==> #[trigger] fill[i] != 0,
    ensures
        fill.len() >= 8 ==> unpadded(seq![0u8, 2u8] + fill + seq![0u8] + message) == Ok::<
            Seq<u8>,
            RsaError,
        >(message),
        fill.len() < 8 ==> unpadded(seq![0u8, 2u8] + fill + seq![0u8] + message) == Err::<
            Seq<u8>,
            RsaError,
        >(RsaError::PaddingInvalid),
        unpadded(seq![0u8, 2u8] + fill) == Err::<Seq<u8>, RsaError>(RsaError::PaddingInvalid),
        first != 0 || second != 2 ==> unpadded(seq![first, second] + fill + seq![0u8] + message)
            == Err::<Seq<u8>, RsaError>(RsaError::PaddingInvalid),
{
    let em = seq![0u8, 2u8] + fill + seq![0u8] + message;
    let at = fill.len() + 2;
    assert forall|i: int| 2 <= i < at implies #[trigger] em[i] != 0 by {
        assert(em[i] == fill[i - 2]);
    }
    assert(em[at as int] == 0);
    lemma_zero_found(em, 2, at as int);
    assert(em.skip(at as int + 1) =~= message);
    let open = seq![0u8, 2u8] + fill;
    assert forall|i: int| 2 <= i < open.len() implies #[trigger] open[i] != 0 by {
        assert(open[i] == fill[i - 2]);
    }
    lemma_no_zero(open, 2);
    let other = seq![first, second] + fill + seq![0u8] + message;
    assert(other[0] == first && other[1] == second);
}

/// Blocks are decrypted one behind the other: what the first gives comes first, and what is left
/// of a block at the end is dropped.
pub proof fn law_blocks_are_decrypted_in_order(k: KeyView, block: Seq<u8>, rest: Seq<u8>)
    requires
        block.len() == 128,
    ensures
        ({
            let all = blocks_decrypted(k, block + rest, 0);
            let first = block_decrypted(k, block);
            let others = blocks_decrypted(k, rest, 0);
            &&& first is Err ==> all == first
            &&& first is Ok && others is Err ==> all == others
            &&& first is Ok && others is Ok ==> all == Ok::<Seq<u8>, RsaError>(
                first->Ok_0 + others->Ok_0,
            )
        }),
        rest.len() < 128 ==> blocks_decrypted(k, rest, 0) == Ok::<Seq<u8>, RsaError>(Seq::empty()),
{
    let data = block + rest;
    assert(data.subrange(0, 128) =~= block);
    lemma_blocks_shifted(k, block, rest, 0);
}

proof fn lemma_blocks_shifted(k: KeyView, block: Seq<u8>, rest: Seq<u8>, at: int)
    requires
        0 <= at,
        block.len() == 128,
    ensures
        blocks_decrypted(k, block + rest, at + 128) == blocks_decrypted(k, rest, at),
    decreases rest.len() - at,
{
    if at + 128 <= rest.len() {
        lemma_blocks_shifted(k, block, rest, at + 128);
        assert((block + rest).subrange(at + 128, at + 256) =~= rest.subrange(at, at + 128));
    }
}

/// A key file is read: the modulus and the private exponent from their tags, with the public
/// exponent 65537. A number that does not fill a block is refused under its name.
pub proof fn law_a_key_file_is_read(xml: Seq<char>, n: Seq<u8>, d: Seq<u8>)
    requires
        b64::between(xml, "<Modulus>"@, "</Modulus>"@) == Ok::<Seq<char>, b64::B64Error>(
            b64::b64_encoded(n),
        ),
        b64::between(xml, "<D>"@, "</D>"@) == Ok::<Seq<char>, b64::B64Error>(b64::b64_encoded(d)),
    ensures
        n.len() == 128 && d.len() == 128 ==> key_in(xml) == Ok::<KeyView, RsaError>(
            KeyView { n: be_value(n), e: 65537, d: be_value(d) },
        ),
        n.len() != 128 ==> key_in(xml) == Err::<KeyView, RsaError>(
            RsaError::BadKeySize { name: "Modulus", len: n.len() as usize },
        ),
        n.len() == 128 && d.len() != 128 ==> key_in(xml) == Err::<KeyView, RsaError>(
            RsaError::BadKeySize { name: "D", len: d.len() as usize },
        ),
{
    b64::law_b64_round_trip(n);
    b64::law_b64_round_trip(d);
}

/// Each byte of a number weighs 256 times the one behind it.
pub proof fn law_numbers_are_big_endian(s: Seq<u8>, b: u8)
    ensures
        be_value(s.push(b)) == 256 * be_value(s) + b,
        be_value(Seq::empty()) == 0,
{
    assert(s.push(b).drop_last() =~= s);
}

/// Two messages that were encrypted one after the other are decrypted to the two messages, one
/// behind the other; what is no whole number of blocks is refused.
pub proof fn law_encrypted_blocks_are_joined(k: KeyView, a: Seq<u8>, b: Seq<u8>, part: Seq<u8>)
    requires
        is_key_pair(k),
        a.len() <= MAX_MESSAGE,
        b.len() <= MAX_MESSAGE,
        0 < part.len() < 128,
    ensures
        ({
            let first = block_encrypted(k, a)->Ok_0;
            let second = block_encrypted(k, b)->Ok_0;
            &&& multi_decrypted(k, first + second) == Ok::<Seq<u8>, RsaError>(a + b)
            &&& multi_decrypted(k, first + part) == Err::<Seq<u8>, RsaError>(
                RsaError::BadCiphertextSize((first + part).len() as usize),
            )
            &&& multi_decrypted(k, Seq::empty()) == Ok::<Seq<u8>, RsaError>(Seq::empty())
        }),
{
    law_decrypt_undoes_encrypt(k, a);
    law_decrypt_undoes_encrypt(k, b);
    let first = block_encrypted(k, a)->Ok_0;
    let second = block_encrypted(k, b)->Ok_0;
    assert(first.len() == 128 && second.len() == 128);
    law_blocks_are_decrypted_in_order(k, second, Seq::empty());
    assert(second + Seq::<u8>::empty() =~= second);
    assert(b + Seq::<u8>::empty() =~= b);
    law_blocks_are_decrypted_in_order(k, first, second);
}

} // verus!
