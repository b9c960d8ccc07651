//! Base64, the one XML tag that key files need, and the names the export writes.
use crate::text;
use vstd::prelude::*;
use vstd::string::StrSliceExecFns;

verus! {

/// The value of a base64 character; a byte outside the alphabet counts as 0.
pub open spec fn value_of(c: u8) -> u8 {
    if 0x41 <= c <= 0x5A {
        (c - 0x41) as u8
    } else if 0x61 <= c <= 0x7A {
        (c - 0x61 + 26) as u8
    } else if 0x30 <= c <= 0x39 {
        (c - 0x30 + 52) as u8
    } else if c == 0x2B {
        62
    } else if c == 0x2F {
        63
    } else {
        0
    }
}

pub fn b64_val(c: u8) -> (r: u8)
    ensures
        r == value_of(c),
{
    if 0x41 <= c && c <= 0x5A {
        c - 0x41
    } else if 0x61 <= c && c <= 0x7A {
        c - 0x61 + 26
    } else if 0x30 <= c && c <= 0x39 {
        c - 0x30 + 52
    } else if c == 0x2B {
        62
    } else if c == 0x2F {
        63
    } else {
        0
    }
}

#[derive(Debug, Clone, Copy, PartialEq, Eq, Structural)]
pub enum B64Error {
    OpenTagNotFound,
    CloseTagNotFound,
    SizeMismatch { expected: usize, actual: usize },
}

impl B64Error {
    /// What went wrong, in words.
    pub open spec fn text(self) -> Seq<char> {
        match self {
            B64Error::OpenTagNotFound => "open tag not found"@,
            B64Error::CloseTagNotFound => "close tag not found"@,
            B64Error::SizeMismatch { expected, actual } => "b64 size mismatch: expected "@
                + text::decimal(expected as nat) + ", got "@ + text::decimal(actual as nat),
        }
    }

    pub fn to_string(&self) -> (r: String)
        ensures
            r@ == self.text(),
    {
        match *self {
            B64Error::OpenTagNotFound => "open tag not found".to_owned(),
            B64Error::CloseTagNotFound => "close tag not found".to_owned(),
            B64Error::SizeMismatch { expected, actual } => {
                let mut out: String = text::with_number(
                    "b64 size mismatch: expected ",
                    expected as u64,
                );
                out.push_str(", got ");
                text::push_decimal(&mut out, actual as u64);
                out
            },
        }
    }
}

/// Whether `needle` stands in `hay` at `at`.
pub open spec fn stands_at(hay: Seq<char>, needle: Seq<char>, at: int) -> bool {
    0 <= at && at + needle.len() <= hay.len() && hay.subrange(at, at + needle.len()) == needle
}

/// The first place at or behind `from` where `needle` stands.
pub open spec fn find_from(hay: Seq<char>, needle: Seq<char>, from: int) -> Option<int>
    decreases hay.len() + 1 - from,
{
    if from + needle.len() > hay.len() {
        None
    } else if stands_at(hay, needle, from) {
        Some(from)
    } else {
        find_from(hay, needle, from + 1)
    }
}

/// What stands between the first `open_tag` and the first `close_tag` behind it.
pub open spec fn between(xml: Seq<char>, open_tag: Seq<char>, close_tag: Seq<char>) -> Result<
    Seq<char>,
    B64Error,
> {
    match find_from(xml, open_tag, 0) {
        None => Err(B64Error::OpenTagNotFound),
        Some(open) => {
            let start = open + open_tag.len();
            match find_from(xml, close_tag, start) {
                None => Err(B64Error::CloseTagNotFound),
                Some(end) => Ok(xml.subrange(start, end)),
            }
        },
    }
}

fn find(hay: &[char], needle: &[char], from: usize) -> (r: Option<usize>)
    requires
        from <= hay@.len(),
    ensures
        match find_from(hay@, needle@, from as int) {
            Some(at) => r is Some && r->Some_0 == at && from <= at && at + needle@.len() <= hay.len(),
            None => r is None,
        },
{
    let mut at: usize = from;
    while needle.len() <= hay.len() - at
        invariant
            from <= at <= hay@.len(),
            find_from(hay@, needle@, from as int) == find_from(hay@, needle@, at as int),
        decreases hay@.len() - at,
    {
        let mut k: usize = 0;
        while k < needle.len() && hay[at + k] == needle[k]
            invariant
                k <= needle@.len(),
                at + needle@.len() <= hay.len(),
                forall|m: int| 0 <= m < k ==> hay@[at + m] == #[trigger] needle@[m],
            decreases needle@.len() - k,
        {
            k = k + 1;
        }
        if k == needle.len() {
            assert(hay@.subrange(at as int, at + needle@.len()) =~= needle@);
            return Some(at);
        }
        assert(!stands_at(hay@, needle@, at as int)) by {
            if stands_at(hay@, needle@, at as int) {
                assert(hay@.subrange(at as int, at + needle@.len())[k as int] == needle@[k as int]);
            }
        }
        if at == hay.len() {
            return None;
        }
        at = at + 1;
    }
    None
}

/// What stands between the first `open_tag` and the first `close_tag` behind it.
pub fn extract_xml_tag<'a>(xml: &'a str, open_tag: &str, close_tag: &str) -> (r: Result<
    &'a str,
    B64Error,
>)
    ensures
        match between(xml@, open_tag@, close_tag@) {
            Ok(inner) => r is Ok && r->Ok_0@ == inner,
            Err(e) => r == Err::<&'a str, B64Error>(e),
        },
{
    let chars: Vec<char> = text::chars_of(xml);
    let open: Vec<char> = text::chars_of(open_tag);
    let close: Vec<char> = text::chars_of(close_tag);
    let start: usize = match find(chars.as_slice(), open.as_slice(), 0) {
        Some(at) => at + open.len(),
        None => {
            return Err(B64Error::OpenTagNotFound);
        },
    };
    match find(chars.as_slice(), close.as_slice(), start) {
        Some(end) => Ok(xml.substring_char(start, end)),
        None => Err(B64Error::CloseTagNotFound),
    }
}

/// Padding and whitespace are skipped.
pub open spec fn is_skipped(c: u8) -> bool {
    c == 0x3D || c == 0x0A || c == 0x0D || c == 0x20 || c == 0x09
}

/// The values of the characters that count, six bits each.
pub open spec fn sextets(bytes: Seq<u8>) -> Seq<u8>
    decreases bytes.len(),
{
    if bytes.len() == 0 {
        Seq::empty()
    } else if is_skipped(bytes.last()) {
        sextets(bytes.drop_last())
    } else {
        sextets(bytes.drop_last()).push(value_of(bytes.last()))
    }
}

/// Byte `i` of a string of sextets: four of them hold three bytes.
pub open spec fn byte_at(s: Seq<u8>, i: int) -> u8 {
    let j = i / 3 * 4;
    if i % 3 == 0 {
        (s[j] * 4 + s[j + 1] / 16) as u8
    } else if i % 3 == 1 {
        (s[j + 1] % 16 * 16 + s[j + 2] / 4) as u8
    } else {
        (s[j + 2] % 4 * 64 + s[j + 3]) as u8
    }
}

/// The whole bytes in a string of sextets.
pub open spec fn packed(s: Seq<u8>) -> Seq<u8> {
    Seq::new((s.len() * 3 / 4) as nat, |i: int| byte_at(s, i))
}

/// What a base64 text decodes to.
pub open spec fn b64_decoded(text: Seq<char>) -> Seq<u8> {
    packed(sextets(vstd::utf8::encode_utf8(text)))
}

/// The bits that stand behind the last whole byte.
spec fn pending(s: Seq<u8>) -> int {
    let n = s.len() as int;
    if n % 4 == 0 {
        0
    } else if n % 4 == 1 {
        s[n - 1] as int
    } else if n % 4 == 2 {
        s[n - 1] as int % 16
    } else {
        s[n - 1] as int % 4
    }
}

/// How many values the bits behind the last whole byte can have.
spec fn pending_range(n: int) -> int {
    if n % 4 == 0 {
        1
    } else if n % 4 == 1 {
        64
    } else if n % 4 == 2 {
        16
    } else {
        4
    }
}

proof fn lemma_sextets_small(bytes: Seq<u8>)
    ensures
        forall|i: int| 0 <= i < sextets(bytes).len() ==> #[trigger] sextets(bytes)[i] < 64,
        sextets(bytes).len() <= bytes.len(),
    decreases bytes.len(),
{
    if bytes.len() > 0 {
        lemma_sextets_small(bytes.drop_last());
    }
}

/// Decodes base64. Padding and whitespace are skipped; any other byte outside the alphabet
/// counts as zero bits.
pub fn b64_decode(s: &str) -> (r: Vec<u8>)
    ensures
        r@ == b64_decoded(s@),
{
    let bytes: &[u8] = s.as_bytes();
    let mut out: Vec<u8> = Vec::new();
    let mut buf: u32 = 0;
    // How many values `buf` can have: a power of two.
    let mut range: u32 = 1;
    let mut i: usize = 0;
    assert(bytes@.take(0) =~= Seq::empty());
    while i < bytes.len()
        invariant
            i <= bytes@.len(),
            out@ == packed(sextets(bytes@.take(i as int))),
            buf == pending(sextets(bytes@.take(i as int))),
            range == pending_range(sextets(bytes@.take(i as int)).len() as int),
            buf < range,
        decreases bytes@.len() - i,
    {
        let c: u8 = bytes[i];
        let ghost before = sextets(bytes@.take(i as int));
        let ghost after = sextets(bytes@.take(i + 1));
        proof {
            assert(bytes@.take(i + 1).drop_last() =~= bytes@.take(i as int));
            assert(bytes@.take(i + 1).last() == c);
            lemma_sextets_small(bytes@.take(i as int));
            lemma_sextets_small(bytes@.take(i + 1));
        }
        if !(c == 0x3D || c == 0x0A || c == 0x0D || c == 0x20 || c == 0x09) {
            let v: u8 = b64_val(c);
            let ghost n = before.len() as int;
            assert(after =~= before.push(v));
            assert(after[n] == v && v < 64);
            let ghost so_far = out@;
            if range == 1 {
                buf = v as u32;
                range = 64;
                assert(out@ =~= packed(after));
            } else {
                let total: u32 = buf * 64 + v as u32;
                assert(n >= 1);
                assert(before[n - 1] < 64 && after[n - 1] == before[n - 1]);
                range = range / 4;
                if range == 16 {
                    out.push((total / 16) as u8);
                    buf = total % 16;
                    assert(n % 4 == 1);
                    assert(so_far.len() == n * 3 / 4 && so_far.len() % 3 == 0 && so_far.len() / 3 * 4
                        == n - 1);
                    assert(byte_at(after, so_far.len() as int) == (total / 16) as u8);
                } else if range == 4 {
                    out.push((total / 4) as u8);
                    buf = total % 4;
                    assert(n % 4 == 2);
                    assert(so_far.len() == n * 3 / 4 && so_far.len() % 3 == 1 && so_far.len() / 3 * 4
                        == n - 2);
                    assert(byte_at(after, so_far.len() as int) == (total / 4) as u8);
                } else {
                    out.push(total as u8);
                    buf = 0;
                    assert(n % 4 == 3);
                    assert(so_far.len() == n * 3 / 4 && so_far.len() % 3 == 2 && so_far.len() / 3 * 4
                        == n - 3);
                    assert(byte_at(after, so_far.len() as int) == total as u8);
                }
                assert forall|k: int| 0 <= k < so_far.len() implies byte_at(after, k) == #[trigger] so_far[k] by {
                    assert(so_far[k] == byte_at(before, k));
                    assert(k / 3 * 4 + k % 3 + 1 < n);
                }
                assert(out@ =~= packed(after));
            }
        }
        i = i + 1;
    }
    assert(bytes@.take(i as int) =~= bytes@);
    out
}

/// The character for a value below 64.
pub open spec fn symbol(v: int) -> char {
    if v < 26 {
        (v + 0x41) as u8 as char
    } else if v < 52 {
        (v - 26 + 0x61) as u8 as char
    } else if v < 62 {
        (v - 52 + 0x30) as u8 as char
    } else if v == 62 {
        '+'
    } else {
        '/'
    }
}

/// `bytes` in base64, padded with `=`.
pub open spec fn b64_encoded(bytes: Seq<u8>) -> Seq<char>
    decreases bytes.len(),
{
    if bytes.len() == 0 {
        Seq::empty()
    } else if bytes.len() == 1 {
        seq![symbol(bytes[0] as int / 4), symbol(bytes[0] as int % 4 * 16), '=', '=']
    } else if bytes.len() == 2 {
        seq![
            symbol(bytes[0] as int / 4),
            symbol(bytes[0] as int % 4 * 16 + bytes[1] as int / 16),
            symbol(bytes[1] as int % 16 * 4),
            '=',
        ]
    } else {
        seq![
            symbol(bytes[0] as int / 4),
            symbol(bytes[0] as int % 4 * 16 + bytes[1] as int / 16),
            symbol(bytes[1] as int % 16 * 4 + bytes[2] as int / 64),
            symbol(bytes[2] as int % 64),
        ] + b64_encoded(bytes.skip(3))
    }
}

fn symbol_of(v: u8) -> (c: char)
    requires
        v < 64,
    ensures
        c == symbol(v as int),
{
    if v < 26 {
        (v + 0x41) as char
    } else if v < 52 {
        (v - 26 + 0x61) as char
    } else if v < 62 {
        (v - 52 + 0x30) as char
    } else if v == 62 {
        '+'
    } else {
        '/'
    }
}

/// Encodes base64 with `=` padding.
pub fn b64_encode(bytes: &[u8]) -> (r: String)
    ensures
        r@ == b64_encoded(bytes@),
{
    let mut out: String = String::new();
    let mut i: usize = 0;
    assert(bytes@.skip(0) =~= bytes@);
    assert(out@ + b64_encoded(bytes@) =~= b64_encoded(bytes@));
    while bytes.len() - i >= 3
        invariant
            i <= bytes.len(),
            out@ + b64_encoded(bytes@.skip(i as int)) == b64_encoded(bytes@),
        decreases bytes.len() - i,
    {
        let ghost before = out@;
        let ghost rest = bytes@.skip(i as int);
        let a: u8 = bytes[i];
        let b: u8 = bytes[i + 1];
        let c: u8 = bytes[i + 2];
        assert(rest[0] == a && rest[1] == b && rest[2] == c);
        out.push(symbol_of(a / 4));
        out.push(symbol_of(a % 4 * 16 + b / 16));
        out.push(symbol_of(b % 16 * 4 + c / 64));
        out.push(symbol_of(c % 64));
        assert(rest.skip(3) =~= bytes@.skip(i + 3));
        assert(out@ + b64_encoded(rest.skip(3)) =~= before + b64_encoded(rest));
        i = i + 3;
    }
    let ghost before = out@;
    let ghost rest = bytes@.skip(i as int);
    if bytes.len() - i == 1 {
        let a: u8 = bytes[i];
        assert(rest[0] == a);
        out.push(symbol_of(a / 4));
        out.push(symbol_of(a % 4 * 16));
        out.push('=');
        out.push('=');
    } else if bytes.len() - i == 2 {
        let a: u8 = bytes[i];
        let b: u8 = bytes[i + 1];
        assert(rest[0] == a && rest[1] == b);
        out.push(symbol_of(a / 4));
        out.push(symbol_of(a % 4 * 16 + b / 16));
        out.push(symbol_of(b % 16 * 4));
        out.push('=');
    }
    assert(out@ =~= before + b64_encoded(rest));
    out
}

/// Decodes base64 that must hold exactly `N` bytes.
pub fn b64_decode_fixed<const N: usize>(s: &str) -> (r: Result<[u8; N], B64Error>)
    ensures
        if b64_decoded(s@).len() == N {
            r is Ok && r->Ok_0@ == b64_decoded(s@)
        } else {
            r == Err::<[u8; N], B64Error>(
                B64Error::SizeMismatch { expected: N, actual: b64_decoded(s@).len() as usize },
            )
        },
{
    let decoded: Vec<u8> = b64_decode(s);
    if decoded.len() != N {
        return Err(B64Error::SizeMismatch { expected: N, actual: decoded.len() });
    }
    let mut out: [u8; N] = [0;N];
    let mut i: usize = 0;
    while i < N
        invariant
            i <= N,
            decoded@.len() == N,
            forall|k: int| 0 <= k < i ==> #[trigger] out@[k] == decoded@[k],
        decreases N - i,
    {
        out[i] = decoded[i];
        i = i + 1;
    }
    assert(out@ =~= decoded@);
    Ok(out)
}


proof fn lemma_sextets_add(a: Seq<u8>, b: Seq<u8>)
    ensures
        sextets(a + b) == sextets(a) + sextets(b),
    decreases b.len(),
{
    if b.len() == 0 {
        assert(a + b =~= a);
        assert(sextets(a) + sextets(b) =~= sextets(a));
    } else {
        assert((a + b).drop_last() =~= a + b.drop_last());
        assert((a + b).last() == b.last());
        lemma_sextets_add(a, b.drop_last());
        assert(sextets(a + b) =~= sextets(a) + sextets(b));
    }
}

proof fn lemma_packed_add(a: Seq<u8>, b: Seq<u8>)
    requires
        a.len() == 4,
    ensures
        packed(a + b) == packed(a) + packed(b),
{
    let s = a + b;
    let left = packed(s);
    let right = packed(a) + packed(b);
    assert(left.len() == right.len());
    assert forall|i: int| 0 <= i < left.len() implies left[i] == right[i] by {
        if i < 3 {
            assert(i / 3 * 4 == 0);
            assert(left[i] == byte_at(s, i) && right[i] == byte_at(a, i));
        } else {
            let k = i - 3;
            assert(i / 3 == k / 3 + 1 && i % 3 == k % 3);
            assert(right[i] == byte_at(b, k));
            let j = k / 3 * 4;
            assert(j + k % 3 + 1 < b.len());
            assert(s[j + 4] == b[j]);
            assert(s[j + 5] == b[j + 1]);
            if k % 3 >= 1 {
                assert(s[j + 6] == b[j + 2]);
            }
            if k % 3 == 2 {
                assert(s[j + 7] == b[j + 3]);
            }
        }
    }
    assert(left =~= right);
}

/// The characters of a base64 text as bytes.
pub open spec fn as_ascii(chars: Seq<char>) -> Seq<u8> {
    Seq::new(chars.len(), |i: int| chars[i] as u8)
}

proof fn lemma_symbol(v: int)
    requires
        0 <= v < 64,
    ensures
        '\0' <= symbol(v) <= '\u{7f}',
        value_of(symbol(v) as u8) == v,
        !is_skipped(symbol(v) as u8),
{
}

proof fn lemma_four_sextets(s: Seq<u8>)
    requires
        s.len() == 4,
    ensures
        sextets(s) == sextets(seq![s[0]]) + sextets(seq![s[1]]) + sextets(seq![s[2]]) + sextets(
            seq![s[3]],
        ),
{
    let a = seq![s[0]];
    let b = seq![s[1]];
    let c = seq![s[2]];
    let d = seq![s[3]];
    assert(s =~= a + b + c + d);
    lemma_sextets_add(a, b);
    lemma_sextets_add(a + b, c);
    lemma_sextets_add(a + b + c, d);
}

proof fn lemma_one_sextet(c: u8)
    ensures
        sextets(seq![c]) == if is_skipped(c) {
            Seq::<u8>::empty()
        } else {
            seq![value_of(c)]
        },
{
    assert(seq![c].drop_last() =~= Seq::empty());
    assert(sextets(Seq::empty()) =~= Seq::empty());
    assert(sextets(seq![c]) =~= if is_skipped(c) {
        Seq::<u8>::empty()
    } else {
        seq![value_of(c)]
    });
}

proof fn lemma_decode_ascii(bytes: Seq<u8>)
    ensures
        forall|i: int| 0 <= i < b64_encoded(bytes).len() ==> '\0' <= #[trigger] b64_encoded(bytes)[i] <= '\u{7f}',
        packed(sextets(as_ascii(b64_encoded(bytes)))) == bytes,
    decreases bytes.len(),
{
    let chars = b64_encoded(bytes);
    let ascii = as_ascii(chars);
    if bytes.len() == 0 {
        assert(ascii =~= Seq::empty());
        assert(packed(sextets(ascii)) =~= bytes);
    } else {
        let head = ascii.take(4);
        lemma_four_sextets(head);
        lemma_one_sextet(head[0]);
        lemma_one_sextet(head[1]);
        lemma_one_sextet(head[2]);
        lemma_one_sextet(head[3]);
        lemma_symbol(bytes[0] as int / 4);
        if bytes.len() == 1 {
            lemma_symbol(bytes[0] as int % 4 * 16);
            assert(ascii =~= head);
            let s = sextets(ascii);
            assert(s =~= seq![(bytes[0] as int / 4) as u8, (bytes[0] as int % 4 * 16) as u8]);
            assert(packed(s) =~= bytes) by {
                assert(byte_at(s, 0) == bytes[0]);
            }
        } else if bytes.len() == 2 {
            lemma_symbol(bytes[0] as int % 4 * 16 + bytes[1] as int / 16);
            lemma_symbol(bytes[1] as int % 16 * 4);
            assert(ascii =~= head);
            let s = sextets(ascii);
            assert(s =~= seq![
                (bytes[0] as int / 4) as u8,
                (bytes[0] as int % 4 * 16 + bytes[1] as int / 16) as u8,
                (bytes[1] as int % 16 * 4) as u8,
            ]);
            assert(packed(s) =~= bytes) by {
                assert(byte_at(s, 0) == bytes[0]);
                assert(byte_at(s, 1) == bytes[1]);
            }
        } else {
            lemma_symbol(bytes[0] as int % 4 * 16 + bytes[1] as int / 16);
            lemma_symbol(bytes[1] as int % 16 * 4 + bytes[2] as int / 64);
            lemma_symbol(bytes[2] as int % 64);
            let tail = bytes.skip(3);
            lemma_decode_ascii(tail);
            assert(chars.skip(4) =~= b64_encoded(tail));
            assert(ascii =~= head + as_ascii(b64_encoded(tail))) by {
                assert forall|i: int| 4 <= i < ascii.len() implies ascii[i] == as_ascii(
                    b64_encoded(tail),
                )[i - 4] by {
                    assert(chars.skip(4)[i - 4] == chars[i]);
                }
            }
            assert forall|i: int| 0 <= i < chars.len() implies '\0'
                <= #[trigger] chars[i] <= '\u{7f}' by {
                if i >= 4 {
                    assert(chars[i] == b64_encoded(tail)[i - 4]);
                }
            }
            lemma_sextets_add(head, as_ascii(b64_encoded(tail)));
            let s = sextets(head);
            assert(s =~= seq![
                (bytes[0] as int / 4) as u8,
                (bytes[0] as int % 4 * 16 + bytes[1] as int / 16) as u8,
                (bytes[1] as int % 16 * 4 + bytes[2] as int / 64) as u8,
                (bytes[2] as int % 64) as u8,
            ]);
            lemma_packed_add(s, sextets(as_ascii(b64_encoded(tail))));
            assert(packed(s) =~= bytes.take(3)) by {
                assert(byte_at(s, 0) == bytes[0]);
                assert(byte_at(s, 1) == bytes[1]);
                assert(byte_at(s, 2) == bytes[2]);
            }
            assert(bytes.take(3) + tail =~= bytes);
        }
    }
}

/// Decoding what was encoded gives the bytes back.
pub proof fn law_b64_round_trip(bytes: Seq<u8>)
    ensures
        b64_decoded(b64_encoded(bytes)) == bytes,
{
    let chars = b64_encoded(bytes);
    lemma_decode_ascii(bytes);
    assert(vstd::utf8::is_ascii_chars(chars));
    vstd::utf8::is_ascii_chars_encode_utf8(chars);
    assert(vstd::utf8::encode_utf8(chars) =~= as_ascii(chars));
}

/// Padding and whitespace, as characters.
pub open spec fn is_filler(c: char) -> bool {
    c == '=' || c == '\n' || c == '\r' || c == ' ' || c == '\t'
}

/// A text without its padding and whitespace.
pub open spec fn without_filler(text: Seq<char>) -> Seq<char>
    decreases text.len(),
{
    if text.len() == 0 {
        Seq::empty()
    } else if is_filler(text[0]) {
        without_filler(text.drop_first())
    } else {
        seq![text[0]] + without_filler(text.drop_first())
    }
}

proof fn lemma_filler_is_skipped(c: char)
    requires
        is_filler(c),
    ensures
        sextets(vstd::utf8::encode_scalar(c as u32)) == Seq::<u8>::empty(),
{
    let one = seq![c];
    assert(vstd::utf8::is_ascii_chars(one));
    vstd::utf8::is_ascii_chars_encode_utf8(one);
    let bytes = vstd::utf8::encode_scalar(c as u32);
    assert(one.drop_first() =~= Seq::empty());
    assert(vstd::utf8::encode_utf8(one) =~= bytes);
    assert(bytes.len() == 1);
    assert(bytes[0] == one[0] as u8);
    assert(is_skipped(bytes.last()));
    assert(bytes.drop_last() =~= Seq::empty());
    assert(sextets(bytes.drop_last()) =~= Seq::empty());
}

proof fn lemma_without_filler(text: Seq<char>)
    ensures
        sextets(vstd::utf8::encode_utf8(text)) == sextets(
            vstd::utf8::encode_utf8(without_filler(text)),
        ),
    decreases text.len(),
{
    if text.len() > 0 {
        let rest = text.drop_first();
        lemma_without_filler(rest);
        let first = vstd::utf8::encode_scalar(text[0] as u32);
        lemma_sextets_add(first, vstd::utf8::encode_utf8(rest));
        if is_filler(text[0]) {
            lemma_filler_is_skipped(text[0]);
            assert(Seq::<u8>::empty() + sextets(vstd::utf8::encode_utf8(rest)) =~= sextets(
                vstd::utf8::encode_utf8(rest),
            ));
        } else {
            let kept = without_filler(text);
            assert(kept[0] == text[0]);
            assert(kept.drop_first() =~= without_filler(rest));
            lemma_sextets_add(first, vstd::utf8::encode_utf8(without_filler(rest)));
        }
    }
}

/// Padding and whitespace do not count, wherever they stand: texts that differ in nothing else
/// decode to the same bytes, and one that differs in nothing else from what some bytes are
/// encoded to decodes to these bytes.
pub proof fn law_filler_does_not_count(text: Seq<char>, other: Seq<char>, bytes: Seq<u8>)
    requires
        without_filler(text) == without_filler(other),
    ensures
        b64_decoded(text) == b64_decoded(other),
        other == b64_encoded(bytes) ==> b64_decoded(text) == bytes,
{
    lemma_without_filler(text);
    lemma_without_filler(other);
    law_b64_round_trip(bytes);
}

/// An ASCII letter or digit.
pub open spec fn is_letter_or_digit(c: char) -> bool {
    ||| 'a' <= c <= 'z'
    ||| 'A' <= c <= 'Z'
    ||| '0' <= c <= '9'
}

/// `c` with an ASCII letter in upper case.
pub open spec fn upper(c: char) -> char {
    if 'a' <= c <= 'z' {
        (c as u32 - 32) as u8 as char
    } else {
        c
    }
}

/// The export key for a name: apostrophes and hyphens are dropped, the ASCII letters and
/// digits are kept, and whatever else stands between them starts a new word. Only the
/// first letter of a word is made upper case.
pub open spec fn zod_key(name: Seq<char>, starts_word: bool) -> Seq<char>
    decreases name.len(),
{
    if name.len() == 0 {
        Seq::empty()
    } else if name[0] == '\'' || name[0] == '-' {
        zod_key(name.skip(1), starts_word)
    } else if is_letter_or_digit(name[0]) {
        seq![
            if starts_word {
                upper(name[0])
            } else {
                name[0]
            },
        ] + zod_key(name.skip(1), false)
    } else {
        zod_key(name.skip(1), true)
    }
}

fn to_upper(c: char) -> (r: char)
    ensures
        r == upper(c),
{
    if c >= 'a' && c <= 'z' {
        (c as u32 - 32) as u8 as char
    } else {
        c
    }
}

/// The export key for a name: `"Jane Doe"` becomes `"JaneDoe"`.
pub fn to_zod_key(name: &str) -> (r: String)
    ensures
        r@ == zod_key(name@, true),
{
    let chars: Vec<char> = text::chars_of(name);
    let mut out: String = String::new();
    let mut starts_word: bool = true;
    let mut i: usize = 0;
    assert(chars@.skip(0) =~= chars@);
    assert(out@ + zod_key(chars@, true) =~= zod_key(chars@, true));
    while i < chars.len()
        invariant
            i <= chars@.len(),
            out@ + zod_key(chars@.skip(i as int), starts_word) == zod_key(chars@, true),
        decreases chars@.len() - i,
    {
        let c: char = chars[i];
        let ghost rest = chars@.skip(i as int);
        let ghost before = out@;
        assert(rest[0] == c);
        assert(rest.skip(1) =~= chars@.skip(i + 1));
        if c == '\'' || c == '-' {
        } else if (c >= 'a' && c <= 'z') || (c >= 'A' && c <= 'Z') || (c >= '0' && c <= '9') {
            if starts_word {
                out.push(to_upper(c));
            } else {
                out.push(c);
            }
            starts_word = false;
            assert(out@ + zod_key(rest.skip(1), false) =~= before + (seq![out@.last()] + zod_key(
                rest.skip(1),
                false,
            )));
        } else {
            starts_word = true;
        }
        i = i + 1;
    }
    assert(out@ + Seq::<char>::empty() =~= out@);
    out
}

/// A key goes word by word: what was made of the first words does not depend on those behind
/// them, whatever blank parts them.
pub proof fn law_keys_go_word_by_word(first: Seq<char>, blank: char, then: Seq<char>, starts: bool)
    requires
        !is_letter_or_digit(blank),
        blank != '\'',
        blank != '-',
    ensures
        zod_key(first.push(blank) + then, starts) == zod_key(first, starts) + zod_key(then, true),
    decreases first.len(),
{
    let all = first.push(blank) + then;
    if first.len() == 0 {
        assert(all[0] == blank);
        assert(all.skip(1) =~= then);
        assert(zod_key(first, starts) + zod_key(then, true) =~= zod_key(then, true));
    } else {
        let c = first[0];
        let rest = first.skip(1);
        assert(all[0] == c);
        assert(all.skip(1) =~= rest.push(blank) + then);
        if c == '\'' || c == '-' {
            law_keys_go_word_by_word(rest, blank, then, starts);
        } else if is_letter_or_digit(c) {
            law_keys_go_word_by_word(rest, blank, then, false);
            let head = seq![
                if starts {
                    upper(c)
                } else {
                    c
                },
            ];
            assert(head + (zod_key(rest, false) + zod_key(then, true)) =~= head + zod_key(rest, false)
                + zod_key(then, true));
        } else {
            law_keys_go_word_by_word(rest, blank, then, true);
        }
    }
}

/// A word of letters and digits stays as it is, but for its first letter, which is made upper
/// case.
pub proof fn law_a_word_keeps_its_letters(word: Seq<char>)
    requires
        word.len() > 0,
        forall|i: int| 0 <= i < word.len() ==> is_letter_or_digit(#[trigger] word[i]),
    ensures
        zod_key(word, true).len() == word.len(),
        forall|i: int| 0 < i < word.len() ==> #[trigger] zod_key(word, true)[i] == word[i],
        'a' <= word[0] <= 'z' ==> zod_key(word, true)[0] as int == word[0] as int - 32,
        !('a' <= word[0] <= 'z') ==> zod_key(word, true)[0] == word[0],
{
    let rest = word.skip(1);
    assert forall|i: int| 0 <= i < rest.len() implies is_letter_or_digit(#[trigger] rest[i]) by {
        assert(rest[i] == word[i + 1]);
    }
    lemma_plain_word(rest);
}

proof fn lemma_plain_word(word: Seq<char>)
    requires
        forall|i: int| 0 <= i < word.len() ==> is_letter_or_digit(#[trigger] word[i]),
    ensures
        zod_key(word, false) == word,
    decreases word.len(),
{
    if word.len() == 0 {
        assert(word =~= Seq::empty());
    } else {
        let rest = word.skip(1);
        assert forall|i: int| 0 <= i < rest.len() implies is_letter_or_digit(#[trigger] rest[i]) by {
            assert(rest[i] == word[i + 1]);
        }
        lemma_plain_word(rest);
        assert(is_letter_or_digit(word[0]));
        assert(seq![word[0]] + rest =~= word);
    }
}

/// Apostrophes and hyphens make no difference to a key, wherever they stand.
pub proof fn law_apostrophes_and_hyphens_do_not_count(
    first: Seq<char>,
    mark: char,
    then: Seq<char>,
    starts: bool,
)
    requires
        mark == '\'' || mark == '-',
    ensures
        zod_key(first.push(mark) + then, starts) == zod_key(first + then, starts),
    decreases first.len(),
{
    let all = first.push(mark) + then;
    let plain = first + then;
    if first.len() == 0 {
        assert(all[0] == mark);
        assert(all.skip(1) =~= then);
        assert(plain =~= then);
    } else {
        let rest = first.skip(1);
        assert(all[0] == first[0] && plain[0] == first[0]);
        assert(all.skip(1) =~= rest.push(mark) + then);
        assert(plain.skip(1) =~= rest + then);
        law_apostrophes_and_hyphens_do_not_count(rest, mark, then, starts);
        law_apostrophes_and_hyphens_do_not_count(rest, mark, then, false);
        law_apostrophes_and_hyphens_do_not_count(rest, mark, then, true);
    }
}

proof fn lemma_found_first(hay: Seq<char>, needle: Seq<char>, from: int, at: int)
    requires
        0 <= from <= at,
        stands_at(hay, needle, at),
        forall|k: int| from <= k < at ==> !#[trigger] stands_at(hay, needle, k),
    ensures
        find_from(hay, needle, from) == Some(at),
    decreases at - from,
{
    if from < at {
        assert(!stands_at(hay, needle, from));
        lemma_found_first(hay, needle, from + 1, at);
    }
}

proof fn lemma_found_nowhere(hay: Seq<char>, needle: Seq<char>, from: int)
    requires
        0 <= from,
        forall|k: int| from <= k ==> !#[trigger] stands_at(hay, needle, k),
    ensures
        find_from(hay, needle, from) is None,
    decreases hay.len() + 1 - from,
{
    if from + needle.len() <= hay.len() {
        assert(!stands_at(hay, needle, from));
        lemma_found_nowhere(hay, needle, from + 1);
    }
}

/// What stands between two tags is found, and neither tag is a part of it; a tag that is missing
/// is told.
pub proof fn law_what_stands_between_tags_is_found(
    before: Seq<char>,
    open_tag: Seq<char>,
    inner: Seq<char>,
    close_tag: Seq<char>,
    behind: Seq<char>,
)
    ensures
        ({
            let xml = before + open_tag + inner + close_tag + behind;
            let open = before.len() as int;
            let start = open + open_tag.len();
            let end = start + inner.len();
            (forall|k: int| 0 <= k < open ==> !#[trigger] stands_at(xml, open_tag, k)) && (forall|
                k: int,
            |
                start <= k < end ==> !#[trigger] stands_at(xml, close_tag, k)) ==> between(
                xml,
                open_tag,
                close_tag,
            ) == Ok::<Seq<char>, B64Error>(inner)
        }),
        (forall|k: int| 0 <= k ==> !#[trigger] stands_at(before, open_tag, k)) ==> between(
            before,
            open_tag,
            close_tag,
        ) == Err::<Seq<char>, B64Error>(B64Error::OpenTagNotFound),
{
    let xml = before + open_tag + inner + close_tag + behind;
    let open = before.len() as int;
    let start = open + open_tag.len();
    let end = start + inner.len();
    assert(xml.subrange(open, start) =~= open_tag);
    assert(xml.subrange(end, end + close_tag.len()) =~= close_tag);
    assert(xml.subrange(start, end) =~= inner);
    if (forall|k: int| 0 <= k < open ==> !#[trigger] stands_at(xml, open_tag, k)) && (forall|k: int|
        start <= k < end ==> !#[trigger] stands_at(xml, close_tag, k)) {
        lemma_found_first(xml, open_tag, 0, open);
        lemma_found_first(xml, close_tag, start, end);
    }
    if forall|k: int| 0 <= k ==> !#[trigger] stands_at(before, open_tag, k) {
        lemma_found_nowhere(before, open_tag, 0);
    }
}

/// The alphabet is the letters from A to Z, those from a to z, the digits, plus and slash, in
/// this order.
pub proof fn law_the_alphabet(v: int)
    requires
        0 <= v < 64,
    ensures
        v < 26 ==> symbol(v) as int == 'A' as int + v,
        26 <= v < 52 ==> symbol(v) as int == 'a' as int + v - 26,
        52 <= v < 62 ==> symbol(v) as int == '0' as int + v - 52,
        v == 62 ==> symbol(v) == '+',
        v == 63 ==> symbol(v) == '/',
        value_of(symbol(v) as u8) == v,
{
    lemma_symbol(v);
}

/// Three bytes take four characters, and what is left over at the end is filled up with equals
/// signs.
pub proof fn law_the_form_of_base64(a: u8, b: u8, c: u8, rest: Seq<u8>)
    ensures
        b64_encoded(seq![a, b, c] + rest).len() == 4 + b64_encoded(rest).len(),
        b64_encoded(seq![a, b, c] + rest).skip(4) == b64_encoded(rest),
        b64_encoded(seq![a, b]).len() == 4 && b64_encoded(seq![a, b])[3] == '=',
        b64_encoded(seq![a]).len() == 4 && b64_encoded(seq![a])[2] == '=' && b64_encoded(seq![a])[3]
            == '=',
        b64_encoded(seq![a, b, c] + rest)[0] == symbol(a as int / 4),
        b64_encoded(seq![a, b, c] + rest)[3] == symbol(c as int % 64),
{
    let all = seq![a, b, c] + rest;
    assert(all.skip(3) =~= rest);
    assert(all[0] == a && all[1] == b && all[2] == c);
    assert(b64_encoded(all).skip(4) =~= b64_encoded(rest));
}

} // verus!
