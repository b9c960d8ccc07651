//! Building and reading text.
use vstd::prelude::*;

verus! {

/// `String::push`: appends one character.
pub assume_specification[ String::push ](s: &mut String, c: char)
    ensures
        final(s)@ == old(s)@.push(c),
;

/// `String::push_str`: appends a string slice.
pub assume_specification[ String::push_str ](s: &mut String, other: &str)
    ensures
        final(s)@ == old(s)@ + other@,
;

/// The decimal digit with value `d`.
pub open spec fn digit(d: int) -> char {
    if d == 0 {
        '0'
    } else if d == 1 {
        '1'
    } else if d == 2 {
        '2'
    } else if d == 3 {
        '3'
    } else if d == 4 {
        '4'
    } else if d == 5 {
        '5'
    } else if d == 6 {
        '6'
    } else if d == 7 {
        '7'
    } else if d == 8 {
        '8'
    } else {
        '9'
    }
}

/// `n` in decimal, without leading zeros.
pub open spec fn decimal(n: nat) -> Seq<char>
    decreases n,
{
    if n < 10 {
        seq![digit(n as int)]
    } else {
        decimal(n / 10).push(digit((n % 10) as int))
    }
}

/// `i` in decimal, with a sign where it is negative.
pub open spec fn decimal_int(i: int) -> Seq<char> {
    if i < 0 {
        seq!['-'] + decimal((-i) as nat)
    } else {
        decimal(i as nat)
    }
}

/// Appends `n` in decimal.
pub fn push_decimal(out: &mut String, n: u64)
    ensures
        final(out)@ == old(out)@ + decimal(n as nat),
    decreases n,
{
    let ghost before = out@;
    if n >= 10 {
        push_decimal(out, n / 10);
    }
    let c: char = match n % 10 {
        0 => '0',
        1 => '1',
        2 => '2',
        3 => '3',
        4 => '4',
        5 => '5',
        6 => '6',
        7 => '7',
        8 => '8',
        _ => '9',
    };
    out.push(c);
    assert(out@ =~= before + decimal(n as nat));
}

/// The characters of `s`.
pub fn chars_of(s: &str) -> (r: Vec<char>)
    ensures
        r@ == s@,
{
    let mut out: Vec<char> = Vec::new();
    for c in iter: s.chars()
        invariant
            out@ == s@.take(iter.index()),
            iter.seq() == s@,
    {
        out.push(c);
        assert(out@ =~= s@.take(iter.index() + 1));
    }
    assert(s@.take(s@.len() as int) =~= s@);
    out
}

/// Whether two strings have the same characters.
pub fn same(a: &str, b: &str) -> (r: bool)
    ensures
        r == (a@ == b@),
{
    let left: &[u8] = a.as_bytes();
    let right: &[u8] = b.as_bytes();
    proof {
        vstd::utf8::encode_utf8_decode_utf8(a@);
        vstd::utf8::encode_utf8_decode_utf8(b@);
    }
    if left.len() != right.len() {
        return false;
    }
    let mut i: usize = 0;
    while i < left.len()
        invariant
            i <= left.len(),
            left.len() == right.len(),
            left@ == vstd::utf8::encode_utf8(a@),
            right@ == vstd::utf8::encode_utf8(b@),
            forall|k: int| 0 <= k < i ==> left@[k] == right@[k],
        decreases left.len() - i,
    {
        if left[i] != right[i] {
            return false;
        }
        i = i + 1;
    }
    assert(left@ =~= right@);
    true
}

/// A string with the characters of `chars`.
pub fn string_of(chars: &[char]) -> (r: String)
    ensures
        r@ == chars@,
{
    let mut out: String = String::new();
    let mut i: usize = 0;
    while i < chars.len()
        invariant
            i <= chars.len(),
            out@ == chars@.take(i as int),
        decreases chars.len() - i,
    {
        out.push(chars[i]);
        i = i + 1;
        assert(out@ =~= chars@.take(i as int));
    }
    assert(chars@.take(i as int) =~= chars@);
    out
}

/// `text` with `n` in decimal behind it.
pub fn with_number(text: &str, n: u64) -> (r: String)
    ensures
        r@ == text@ + decimal(n as nat),
{
    let mut out: String = text.to_owned();
    push_decimal(&mut out, n);
    out
}


/// The upper-case hexadecimal digit with value `d`.
pub open spec fn hex_digit(d: int) -> char {
    if d < 10 {
        digit(d)
    } else if d == 10 {
        'A'
    } else if d == 11 {
        'B'
    } else if d == 12 {
        'C'
    } else if d == 13 {
        'D'
    } else if d == 14 {
        'E'
    } else {
        'F'
    }
}

/// The lowest `width` hexadecimal digits of `n`, upper case.
pub open spec fn hex(n: nat, width: nat) -> Seq<char>
    decreases width,
{
    if width == 0 {
        Seq::empty()
    } else {
        hex(n / 16, (width - 1) as nat).push(hex_digit((n % 16) as int))
    }
}

/// Appends the lowest `width` hexadecimal digits of `n`.
pub fn push_hex(out: &mut String, n: u64, width: u32)
    ensures
        final(out)@ == old(out)@ + hex(n as nat, width as nat),
    decreases width,
{
    let ghost before = out@;
    if width > 0 {
        push_hex(out, n / 16, width - 1);
        let c: char = match n % 16 {
            0 => '0',
            1 => '1',
            2 => '2',
            3 => '3',
            4 => '4',
            5 => '5',
            6 => '6',
            7 => '7',
            8 => '8',
            9 => '9',
            10 => 'A',
            11 => 'B',
            12 => 'C',
            13 => 'D',
            14 => 'E',
            _ => 'F',
        };
        out.push(c);
    }
    assert(out@ =~= before + hex(n as nat, width as nat));
}


/// White space, as Unicode has it.
pub open spec fn is_space(c: char) -> bool {
    let n = c as u32;
    ||| 0x09 <= n <= 0x0D
    ||| n == 0x20
    ||| n == 0x85
    ||| n == 0xA0
    ||| n == 0x1680
    ||| 0x2000 <= n <= 0x200A
    ||| n == 0x2028
    ||| n == 0x2029
    ||| n == 0x202F
    ||| n == 0x205F
    ||| n == 0x3000
}

/// `s` without the white space at its start.
pub open spec fn trimmed_start(s: Seq<char>) -> Seq<char>
    decreases s.len(),
{
    if s.len() > 0 && is_space(s[0]) {
        trimmed_start(s.skip(1))
    } else {
        s
    }
}

/// `s` without the white space at its end.
pub open spec fn trimmed_end(s: Seq<char>) -> Seq<char>
    decreases s.len(),
{
    if s.len() > 0 && is_space(s.last()) {
        trimmed_end(s.drop_last())
    } else {
        s
    }
}

/// `s` without the white space around it.
pub open spec fn trimmed(s: Seq<char>) -> Seq<char> {
    trimmed_end(trimmed_start(s))
}

fn space(c: char) -> (r: bool)
    ensures
        r == is_space(c),
{
    let n: u32 = c as u32;
    (0x09 <= n && n <= 0x0D) || n == 0x20 || n == 0x85 || n == 0xA0 || n == 0x1680 || (0x2000 <= n && n
        <= 0x200A) || n == 0x2028 || n == 0x2029 || n == 0x202F || n == 0x205F || n == 0x3000
}

/// The part of `s` without the white space around it: from the first position to before the
/// second.
pub fn trim(s: &[char]) -> (r: (usize, usize))
    ensures
        r.0 <= r.1 <= s@.len(),
        s@.subrange(r.0 as int, r.1 as int) == trimmed(s@),
{
    let mut start: usize = 0;
    assert(s@.skip(0) =~= s@);
    while start < s.len() && space(s[start])
        invariant
            start <= s@.len(),
            trimmed_start(s@) == trimmed_start(s@.skip(start as int)),
        decreases s@.len() - start,
    {
        assert(s@.skip(start as int)[0] == s@[start as int]);
        assert(s@.skip(start as int).skip(1) =~= s@.skip(start + 1));
        start = start + 1;
    }
    proof {
        if start < s@.len() {
            assert(s@.skip(start as int)[0] == s@[start as int]);
        }
        assert(trimmed_start(s@) == s@.skip(start as int));
    }
    let mut end: usize = s.len();
    assert(s@.subrange(start as int, end as int) =~= s@.skip(start as int));
    while end > start && space(s[end - 1])
        invariant
            start <= end <= s@.len(),
            trimmed(s@) == trimmed_end(s@.subrange(start as int, end as int)),
        decreases end,
    {
        assert(s@.subrange(start as int, end as int).last() == s@[end - 1]);
        assert(s@.subrange(start as int, end as int).drop_last() =~= s@.subrange(
            start as int,
            end - 1,
        ));
        end = end - 1;
    }
    proof {
        if end > start {
            assert(s@.subrange(start as int, end as int).last() == s@[end - 1]);
        }
    }
    (start, end)
}

/// The value of a hexadecimal digit of either case.
pub open spec fn hex_digit_value(c: char) -> Option<nat> {
    let n = c as u32;
    if 0x30 <= n <= 0x39 {
        Some((n - 0x30) as nat)
    } else if 0x41 <= n <= 0x46 {
        Some((n - 0x41 + 10) as nat)
    } else if 0x61 <= n <= 0x66 {
        Some((n - 0x61 + 10) as nat)
    } else {
        None
    }
}

/// The value of a string of hexadecimal digits.
pub open spec fn hex_value(s: Seq<char>) -> Option<nat>
    decreases s.len(),
{
    if s.len() == 0 {
        Some(0)
    } else {
        match (hex_value(s.drop_last()), hex_digit_value(s.last())) {
            (Some(high), Some(low)) => Some(16 * high + low),
            _ => None,
        }
    }
}

/// The 64-bit number that a hexadecimal text stands for: digits of either case, at least
/// one, behind an optional plus sign.
pub open spec fn parsed_hex(s: Seq<char>) -> Option<u64> {
    let digits = if s.len() > 0 && s[0] == '+' {
        s.skip(1)
    } else {
        s
    };
    match hex_value(digits) {
        Some(v) => if digits.len() > 0 && v <= u64::MAX {
            Some(v as u64)
        } else {
            None
        },
        None => None,
    }
}

proof fn lemma_hex_value_prefix(s: Seq<char>, i: int)
    requires
        0 <= i <= s.len(),
    ensures
        hex_value(s.take(i)) is None ==> hex_value(s) is None,
        hex_value(s.take(i)) is Some && hex_value(s) is Some ==> hex_value(s.take(i))->Some_0
            <= hex_value(s)->Some_0,
    decreases s.len() - i,
{
    if i < s.len() {
        assert(s.take(i + 1).drop_last() =~= s.take(i));
        lemma_hex_value_prefix(s, i + 1);
    } else {
        assert(s.take(i) =~= s);
    }
}

/// Reads a hexadecimal number.
pub fn parse_hex(s: &[char]) -> (r: Option<u64>)
    ensures
        r == parsed_hex(s@),
{
    let start: usize = if s.len() > 0 && s[0] == '+' {
        1
    } else {
        0
    };
    let ghost digits = s@.skip(start as int);
    assert(s@.skip(0) =~= s@);
    if start == s.len() {
        return None;
    }
    let mut value: u64 = 0;
    let mut i: usize = start;
    assert(digits.take(0) =~= Seq::empty());
    while i < s.len()
        invariant
            start <= i <= s@.len(),
            start < s@.len(),
            digits == s@.skip(start as int),
            parsed_hex(s@) == (match hex_value(digits) {
                Some(v) => if v <= u64::MAX {
                    Some(v as u64)
                } else {
                    None
                },
                None => None,
            }),
            hex_value(digits.take(i - start)) == Some(value as nat),
        decreases s@.len() - i,
    {
        let n: u32 = s[i] as u32;
        proof {
            assert(digits[i - start] == s@[i as int]);
            assert(digits.take(i + 1 - start).drop_last() =~= digits.take(i - start));
            assert(digits.take(i + 1 - start).last() == s@[i as int]);
            lemma_hex_value_prefix(digits, i + 1 - start);
        }
        let low: u64 = if 0x30 <= n && n <= 0x39 {
            (n - 0x30) as u64
        } else if 0x41 <= n && n <= 0x46 {
            (n - 0x41 + 10) as u64
        } else if 0x61 <= n && n <= 0x66 {
            (n - 0x61 + 10) as u64
        } else {
            return None;
        };
        if value > 0x0FFF_FFFF_FFFF_FFFF {
            return None;
        }
        value = value * 16 + low;
        i = i + 1;
    }
    assert(digits.take(i - start) =~= digits);
    Some(value)
}


/// A text with its part from `from` to before `to`.
pub fn string_between(s: &[char], from: usize, to: usize) -> (r: String)
    requires
        from <= to <= s.len(),
    ensures
        r@ == s@.subrange(from as int, to as int),
{
    let part: &[char] = vstd::slice::slice_subrange(s, from, to);
    string_of(part)
}

/// How a value of an integer type is written in decimal.
pub trait Decimal: Sized {
    /// The value.
    spec fn value(&self) -> int;

    fn push_to(&self, out: &mut String)
        ensures
            final(out)@ == old(out)@ + decimal_int(self.value()),
    ;
}

impl Decimal for u8 {
    open spec fn value(&self) -> int {
        *self as int
    }

    fn push_to(&self, out: &mut String) {
        push_decimal(out, *self as u64);
    }
}

impl Decimal for u16 {
    open spec fn value(&self) -> int {
        *self as int
    }

    fn push_to(&self, out: &mut String) {
        push_decimal(out, *self as u64);
    }
}

impl Decimal for u32 {
    open spec fn value(&self) -> int {
        *self as int
    }

    fn push_to(&self, out: &mut String) {
        push_decimal(out, *self as u64);
    }
}

impl Decimal for u64 {
    open spec fn value(&self) -> int {
        *self as int
    }

    fn push_to(&self, out: &mut String) {
        push_decimal(out, *self);
    }
}

impl Decimal for usize {
    open spec fn value(&self) -> int {
        *self as int
    }

    fn push_to(&self, out: &mut String) {
        push_decimal(out, *self as u64);
    }
}

impl Decimal for i32 {
    open spec fn value(&self) -> int {
        *self as int
    }

    fn push_to(&self, out: &mut String) {
        let wide: i64 = *self as i64;
        wide.push_to(out);
    }
}

impl Decimal for i64 {
    open spec fn value(&self) -> int {
        *self as int
    }

    fn push_to(&self, out: &mut String) {
        let v: i64 = *self;
        if v >= 0 {
            push_decimal(out, v as u64);
        } else {
            let ghost before = out@;
            out.push('-');
            let magnitude: u64 = if v == i64::MIN {
                0x8000_0000_0000_0000
            } else {
                (-v) as u64
            };
            push_decimal(out, magnitude);
            assert(out@ =~= before + (seq!['-'] + decimal((-v) as nat)));
        }
    }
}

/// `s` with as many spaces behind it as bring it to `width` characters.
pub open spec fn padded(s: Seq<char>, width: nat) -> Seq<char>
    decreases width - s.len(),
{
    if s.len() >= width {
        s
    } else {
        padded(s.push(' '), width)
    }
}

/// Appends a text and as many spaces as bring it to `width` characters.
pub fn push_padded(out: &mut String, s: &str, width: usize)
    ensures
        final(out)@ == old(out)@ + padded(s@, width as nat),
{
    let ghost before = out@;
    let mut written: usize = 0;
    let mut held: String = String::new();
    for c in iter: s.chars()
        invariant
            iter.seq() == s@,
            held@ == s@.take(iter.index()),
            written == if iter.index() < width {
                iter.index()
            } else {
                width as int
            },
    {
        held.push(c);
        if written < width {
            written = written + 1;
        }
        assert(held@ =~= s@.take(iter.index() + 1));
    }
    assert(s@.take(s@.len() as int) =~= s@);
    while written < width
        invariant
            written <= width,
            written == if held@.len() < width {
                held@.len() as int
            } else {
                width as int
            },
            padded(s@, width as nat) == padded(held@, width as nat),
        decreases width - written,
    {
        held.push(' ');
        written = written + 1;
    }
    out.push_str(held.as_str());
}

/// The texts of some strings.
pub open spec fn texts(strings: Seq<String>) -> Seq<Seq<char>> {
    strings.map_values(|s: String| s@)
}

/// Copies of some strings.
pub fn copy_all(strings: &[String]) -> (r: Vec<String>)
    ensures
        texts(r@) == texts(strings@),
{
    let mut out: Vec<String> = Vec::new();
    let mut i: usize = 0;
    while i < strings.len()
        invariant
            i <= strings@.len(),
            out@.len() == i,
            forall|k: int| 0 <= k < i ==> (#[trigger] out@[k])@ == strings@[k]@,
        decreases strings@.len() - i,
    {
        out.push(strings[i].clone());
        i = i + 1;
    }
    assert(texts(out@) =~= texts(strings@));
    out
}

/// Texts behind each other, with `separator` between two of them.
pub open spec fn joined(parts: Seq<Seq<char>>, separator: Seq<char>) -> Seq<char>
    decreases parts.len(),
{
    if parts.len() == 0 {
        Seq::empty()
    } else if parts.len() == 1 {
        parts[0]
    } else {
        joined(parts.drop_last(), separator) + separator + parts.last()
    }
}

/// Joins texts.
pub fn join(parts: &[String], separator: &str) -> (r: String)
    ensures
        r@ == joined(texts(parts@), separator@),
{
    let ghost all = texts(parts@);
    let mut out: String = String::new();
    let mut i: usize = 0;
    assert(all.take(0) =~= Seq::empty());
    assert(out@ =~= joined(all.take(0), separator@));
    while i < parts.len()
        invariant
            i <= parts@.len(),
            all == texts(parts@),
            out@ == joined(all.take(i as int), separator@),
        decreases parts@.len() - i,
    {
        let ghost before = out@;
        if i > 0 {
            out.push_str(separator);
        }
        out.push_str(parts[i].as_str());
        assert(all.take(i + 1).drop_last() =~= all.take(i as int));
        assert(all.take(i + 1).last() == parts@[i as int]@);
        if i == 0 {
            assert(out@ =~= parts@[0]@);
        }
        i = i + 1;
    }
    assert(all.take(i as int) =~= all);
    out
}

/// The parts of `s` between separators.
pub open spec fn split(s: Seq<char>, separator: char) -> Seq<Seq<char>>
    decreases s.len(),
{
    if s.len() == 0 {
        seq![Seq::<char>::empty()]
    } else {
        let parts = split(s.drop_last(), separator);
        if s.last() == separator {
            parts.push(Seq::empty())
        } else {
            parts.update(parts.len() - 1, parts.last().push(s.last()))
        }
    }
}

/// There is always a part.
pub proof fn lemma_split_len(s: Seq<char>, separator: char)
    ensures
        split(s, separator).len() > 0,
    decreases s.len(),
{
    if s.len() > 0 {
        lemma_split_len(s.drop_last(), separator);
    }
}

pub open spec fn char_lists(parts: Seq<Vec<char>>) -> Seq<Seq<char>> {
    parts.map_values(|p: Vec<char>| p@)
}

/// Splits a text.
pub fn split_chars(s: &str, separator: char) -> (r: Vec<Vec<char>>)
    ensures
        char_lists(r@) == split(s@, separator),
        r@.len() > 0,
{
    let chars: Vec<char> = chars_of(s);
    let mut done: Vec<Vec<char>> = Vec::new();
    let mut part: Vec<char> = Vec::new();
    let mut i: usize = 0;
    assert(chars@.take(0) =~= Seq::empty());
    assert(char_lists(done@).push(part@) =~= split(chars@.take(0), separator));
    while i < chars.len()
        invariant
            i <= chars@.len(),
            char_lists(done@).push(part@) == split(chars@.take(i as int), separator),
        decreases chars@.len() - i,
    {
        assert(chars@.take(i + 1).drop_last() =~= chars@.take(i as int));
        assert(chars@.take(i + 1).last() == chars@[i as int]);
        let ghost before = char_lists(done@);
        let ghost held = part@;
        if chars[i] == separator {
            let mut finished: Vec<char> = Vec::new();
            std::mem::swap(&mut finished, &mut part);
            done.push(finished);
            assert(char_lists(done@) =~= before.push(held));
            assert(char_lists(done@).push(part@) =~= before.push(held).push(Seq::empty()));
        } else {
            part.push(chars[i]);
            assert(before.push(part@) =~= before.push(held).update(
                before.len() as int,
                held.push(chars@[i as int]),
            ));
        }
        i = i + 1;
    }
    assert(chars@.take(i as int) =~= chars@);
    let ghost before = char_lists(done@);
    let ghost held = part@;
    done.push(part);
    assert(char_lists(done@) =~= before.push(held));
    done
}

/// The value of a decimal digit.
pub open spec fn digit_value(c: char) -> Option<nat> {
    let n = c as u32;
    if 0x30 <= n <= 0x39 {
        Some((n - 0x30) as nat)
    } else {
        None
    }
}

/// The value of a string of decimal digits.
pub open spec fn decimal_value(s: Seq<char>) -> Option<nat>
    decreases s.len(),
{
    if s.len() == 0 {
        Some(0)
    } else {
        match (decimal_value(s.drop_last()), digit_value(s.last())) {
            (Some(high), Some(low)) => Some(10 * high + low),
            _ => None,
        }
    }
}

/// The number up to `limit` that a decimal text stands for: at least one digit, behind an
/// optional plus sign.
pub open spec fn parsed_decimal(s: Seq<char>, limit: u64) -> Option<u64> {
    let digits = if s.len() > 0 && s[0] == '+' {
        s.skip(1)
    } else {
        s
    };
    match decimal_value(digits) {
        Some(v) => if digits.len() > 0 && v <= limit {
            Some(v as u64)
        } else {
            None
        },
        None => None,
    }
}

proof fn lemma_decimal_value_prefix(s: Seq<char>, i: int)
    requires
        0 <= i <= s.len(),
    ensures
        decimal_value(s.take(i)) is None ==> decimal_value(s) is None,
        decimal_value(s.take(i)) is Some && decimal_value(s) is Some ==> decimal_value(
            s.take(i),
        )->Some_0 <= decimal_value(s)->Some_0,
    decreases s.len() - i,
{
    if i < s.len() {
        assert(s.take(i + 1).drop_last() =~= s.take(i));
        lemma_decimal_value_prefix(s, i + 1);
    } else {
        assert(s.take(i) =~= s);
    }
}

/// Reads a decimal number.
pub fn parse_decimal(s: &[char], limit: u64) -> (r: Option<u64>)
    ensures
        r == parsed_decimal(s@, limit),
{
    let start: usize = if s.len() > 0 && s[0] == '+' {
        1
    } else {
        0
    };
    let ghost digits = s@.skip(start as int);
    assert(s@.skip(0) =~= s@);
    if start == s.len() {
        return None;
    }
    let mut value: u64 = 0;
    let mut i: usize = start;
    assert(digits.take(0) =~= Seq::empty());
    while i < s.len()
        invariant
            start <= i <= s@.len(),
            start < s@.len(),
            digits == s@.skip(start as int),
            parsed_decimal(s@, limit) == (match decimal_value(digits) {
                Some(v) => if v <= limit {
                    Some(v as u64)
                } else {
                    None
                },
                None => None,
            }),
            decimal_value(digits.take(i - start)) == Some(value as nat),
            value <= limit,
        decreases s@.len() - i,
    {
        let n: u32 = s[i] as u32;
        proof {
            assert(digits[i - start] == s@[i as int]);
            assert(digits.take(i + 1 - start).drop_last() =~= digits.take(i - start));
            assert(digits.take(i + 1 - start).last() == s@[i as int]);
            lemma_decimal_value_prefix(digits, i + 1 - start);
        }
        let low: u64 = if 0x30 <= n && n <= 0x39 {
            (n - 0x30) as u64
        } else {
            return None;
        };
        if low > limit || value > (limit - low) / 10 {
            return None;
        }
        value = value * 10 + low;
        i = i + 1;
    }
    assert(digits.take(i - start) =~= digits);
    Some(value)
}

/// Whether one text stands before another: by the first character that differs, and a
/// beginning before the whole.
pub open spec fn before(a: Seq<char>, b: Seq<char>) -> bool
    decreases a.len(),
{
    if b.len() == 0 {
        false
    } else if a.len() == 0 {
        true
    } else if a[0] != b[0] {
        (a[0] as u32) < (b[0] as u32)
    } else {
        before(a.skip(1), b.skip(1))
    }
}

/// Compares two texts.
pub fn is_before(a: &str, b: &str) -> (r: bool)
    ensures
        r == before(a@, b@),
{
    let left: Vec<char> = chars_of(a);
    let right: Vec<char> = chars_of(b);
    let mut i: usize = 0;
    assert(left@.skip(0) =~= left@);
    assert(right@.skip(0) =~= right@);
    loop
        invariant
            i <= left@.len(),
            i <= right@.len(),
            before(a@, b@) == before(left@.skip(i as int), right@.skip(i as int)),
        decreases left@.len() - i,
    {
        if i == right.len() {
            return false;
        }
        if i == left.len() {
            return true;
        }
        assert(left@.skip(i as int)[0] == left@[i as int]);
        assert(right@.skip(i as int)[0] == right@[i as int]);
        assert(left@.skip(i as int).skip(1) =~= left@.skip(i + 1));
        assert(right@.skip(i as int).skip(1) =~= right@.skip(i + 1));
        if left[i] != right[i] {
            return (left[i] as u32) < (right[i] as u32);
        }
        i = i + 1;
    }
}

/// No text stands before itself, and of two different texts one stands before the other.
pub proof fn lemma_before_total(a: Seq<char>, b: Seq<char>)
    ensures
        !before(a, a),
        a != b ==> before(a, b) || before(b, a),
        before(a, b) ==> !before(b, a),
    decreases a.len(),
{
    if a.len() > 0 {
        if b.len() > 0 {
            lemma_before_total(a.skip(1), b.skip(1));
            vstd::utf8::char_u32_cast(a[0], a[0] as u32);
            vstd::utf8::char_u32_cast(b[0], b[0] as u32);
            if a[0] == b[0] && a.skip(1) == b.skip(1) {
                assert(a =~= seq![a[0]] + a.skip(1));
                assert(b =~= seq![b[0]] + b.skip(1));
                assert(a == b);
            }
        } else {
            lemma_before_total(a.skip(1), b);
        }
    } else {
        assert(b.len() == 0 ==> a =~= b);
    }
}

/// The order of texts is transitive.
pub proof fn lemma_before_transitive(a: Seq<char>, b: Seq<char>, c: Seq<char>)
    requires
        before(a, b),
        before(b, c),
    ensures
        before(a, c),
    decreases a.len(),
{
    if a.len() > 0 && b.len() > 0 && c.len() > 0 && a[0] == b[0] && b[0] == c[0] {
        lemma_before_transitive(a.skip(1), b.skip(1), c.skip(1));
    }
}

/// A lower-case letter for an upper-case letter; other characters stay.
pub open spec fn lower_char(c: char) -> char {
    if 0x41 <= c as u32 <= 0x5A {
        ((c as u32) + 0x20) as char
    } else {
        c
    }
}

/// The letters A to Z in lower case.
pub open spec fn lower(s: Seq<char>) -> Seq<char> {
    s.map_values(|c: char| lower_char(c))
}

fn lower_of(c: char) -> (r: char)
    ensures
        r == lower_char(c),
{
    let n: u32 = c as u32;
    if 0x41 <= n && n <= 0x5A {
        (n as u8 + 0x20) as char
    } else {
        c
    }
}

/// Writes the letters A to Z in lower case.
pub fn to_lower(s: &str) -> (r: String)
    ensures
        r@ == lower(s@),
{
    let mut out: String = String::new();
    for c in iter: s.chars()
        invariant
            iter.seq() == s@,
            out@ == lower(s@.take(iter.index())),
    {
        let ghost taken = s@.take(iter.index());
        out.push(lower_of(c));
        assert(s@.take(iter.index() + 1) =~= taken.push(c));
        assert(out@ =~= lower(s@.take(iter.index() + 1)));
    }
    assert(s@.take(s@.len() as int) =~= s@);
    out
}

/// Whether `s` begins with `prefix`.
pub open spec fn begins(s: Seq<char>, prefix: Seq<char>) -> bool {
    prefix.len() <= s.len() && s.take(prefix.len() as int) == prefix
}

/// Whether the characters from `at` on begin with `prefix`.
pub fn begins_at(s: &[char], at: usize, prefix: &[char]) -> (r: bool)
    requires
        at <= s.len(),
    ensures
        r == begins(s@.skip(at as int), prefix@),
{
    if prefix.len() > s.len() - at {
        return false;
    }
    let mut i: usize = 0;
    while i < prefix.len()
        invariant
            i <= prefix@.len(),
            at + prefix@.len() <= s@.len(),
            s@.len() <= usize::MAX,
            forall|k: int| 0 <= k < i ==> s@[at + k] == prefix@[k],
        decreases prefix@.len() - i,
    {
        if s[at + i] != prefix[i] {
            assert(s@.skip(at as int).take(prefix@.len() as int)[i as int] == s@[at + i]);
            return false;
        }
        i = i + 1;
    }
    assert(s@.skip(at as int).take(prefix@.len() as int) =~= prefix@);
    true
}

/// `s` without every occurrence of `prefix` at its start.
pub open spec fn without_prefix(s: Seq<char>, prefix: Seq<char>) -> Seq<char>
    decreases s.len(),
{
    if prefix.len() > 0 && begins(s, prefix) {
        without_prefix(s.skip(prefix.len() as int), prefix)
    } else {
        s
    }
}

/// Where `s` goes on behind every occurrence of `prefix` at its start.
pub fn skip_prefix(s: &[char], prefix: &[char]) -> (r: usize)
    requires
        prefix.len() > 0,
    ensures
        r <= s.len(),
        s@.skip(r as int) == without_prefix(s@, prefix@),
{
    let mut at: usize = 0;
    assert(s@.skip(0) =~= s@);
    while begins_at(s, at, prefix)
        invariant
            at <= s.len(),
            prefix.len() > 0,
            without_prefix(s@, prefix@) == without_prefix(s@.skip(at as int), prefix@),
        decreases s.len() - at,
    {
        assert(s@.skip(at as int).skip(prefix@.len() as int) =~= s@.skip(at + prefix@.len()));
        at = at + prefix.len();
    }
    at
}

/// How `str` writes a text in quotes: the result of its `Debug` implementation.
pub uninterp spec fn quoted_text(s: Seq<char>) -> Seq<char>;

/// `<str as Debug>::fmt`: the text between quotes, with what is not printable escaped. Which
/// characters are escaped follows Unicode tables and is not stated.
#[verifier::external_body]
pub(crate) fn quoted(s: &str) -> (r: String)
    ensures
        r@ == quoted_text(s@),
{
    format!("{s:?}")
}

/// Splitting two texts with a separator between them is splitting each.
pub proof fn lemma_split_at_separator(s: Seq<char>, t: Seq<char>, separator: char)
    ensures
        split(s.push(separator) + t, separator) == split(s, separator) + split(t, separator),
    decreases t.len(),
{
    let whole = s.push(separator) + t;
    if t.len() == 0 {
        assert(whole =~= s.push(separator));
        assert(whole.drop_last() =~= s);
        assert(split(s, separator).push(Seq::empty()) =~= split(s, separator) + split(t, separator));
    } else {
        let init = t.drop_last();
        lemma_split_at_separator(s, init, separator);
        lemma_split_len(init, separator);
        assert(whole.drop_last() =~= s.push(separator) + init);
        let front = split(s, separator);
        let back = split(init, separator);
        let parts = front + back;
        assert(parts.last() == back.last());
        if t.last() == separator {
            assert(parts.push(Seq::empty()) =~= front + back.push(Seq::empty()));
        } else {
            assert(parts.update(parts.len() - 1, parts.last().push(t.last())) =~= front
                + back.update(back.len() - 1, back.last().push(t.last())));
        }
    }
}

/// A text without separators is one part.
pub proof fn lemma_split_plain(s: Seq<char>, separator: char)
    requires
        !s.contains(separator),
    ensures
        split(s, separator) == seq![s],
    decreases s.len(),
{
    if s.len() > 0 {
        let init = s.drop_last();
        assert(!init.contains(separator)) by {
            if init.contains(separator) {
                let i = choose|i: int| 0 <= i < init.len() && init[i] == separator;
                assert(s[i] == separator);
            }
        }
        lemma_split_plain(init, separator);
        assert(s[s.len() - 1] != separator);
        assert(init.push(s.last()) =~= s);
        assert(split(s, separator) =~= seq![s]);
    } else {
        assert(s =~= Seq::<char>::empty());
    }
}

/// A number in decimal is digits, and stands for the number.
pub proof fn lemma_decimal_digits(n: nat)
    ensures
        decimal(n).len() > 0,
        decimal_value(decimal(n)) == Some(n),
        forall|i: int| 0 <= i < decimal(n).len() ==> digit_value(#[trigger] decimal(n)[i]) is Some,
    decreases n,
{
    if n >= 10 {
        lemma_decimal_digits(n / 10);
        let high = decimal(n / 10);
        let low = digit((n % 10) as int);
        assert(digit_value(low) == Some(n % 10));
        assert(high.push(low).drop_last() =~= high);
        assert forall|i: int| 0 <= i < decimal(n).len() implies digit_value(
            #[trigger] decimal(n)[i],
        ) is Some by {
            if i < high.len() {
                assert(decimal(n)[i] == high[i]);
            }
        }
    } else {
        let one = seq![digit(n as int)];
        assert(one.drop_last() =~= Seq::empty());
        assert(decimal_value(one.drop_last()) == Some(0nat));
        assert(digit_value(digit(n as int)) == Some(n));
        assert(decimal(n) == one);
    }
}

/// Reading a number that was written in decimal gives the number.
pub proof fn lemma_parse_decimal_round_trip(n: u64, limit: u64)
    requires
        n <= limit,
    ensures
        parsed_decimal(decimal(n as nat), limit) == Some(n),
{
    lemma_decimal_digits(n as nat);
    assert(digit_value(decimal(n as nat)[0]) is Some);
}

/// A character that is no digit does not stand in a number.
pub proof fn lemma_decimal_lacks(n: nat, c: char)
    requires
        digit_value(c) is None,
    ensures
        !decimal(n).contains(c),
{
    lemma_decimal_digits(n);
    if decimal(n).contains(c) {
        let i = choose|i: int| 0 <= i < decimal(n).len() && decimal(n)[i] == c;
        assert(digit_value(decimal(n)[i]) is Some);
    }
}

/// A text without white space at either end is trimmed already.
pub proof fn lemma_trimmed_plain(s: Seq<char>)
    requires
        s.len() > 0,
        !is_space(s[0]),
        !is_space(s.last()),
    ensures
        trimmed(s) == s,
{
}

/// How many numbers have at most `width` hexadecimal digits.
pub open spec fn hex_span(width: nat) -> nat
    decreases width,
{
    if width == 0 {
        1
    } else {
        16 * hex_span((width - 1) as nat)
    }
}

/// A number in hexadecimal is digits, and stands for the number.
pub proof fn lemma_hex_digits(n: nat, width: nat)
    requires
        n < hex_span(width),
    ensures
        hex(n, width).len() == width,
        hex_value(hex(n, width)) == Some(n),
        forall|i: int| 0 <= i < width ==> hex_digit_value(#[trigger] hex(n, width)[i]) is Some,
    decreases width,
{
    if width > 0 {
        let fewer = (width - 1) as nat;
        lemma_hex_digits(n / 16, fewer);
        let high = hex(n / 16, fewer);
        let low = hex_digit((n % 16) as int);
        assert(hex_digit_value(low) == Some(n % 16));
        assert(high.push(low).drop_last() =~= high);
        assert forall|i: int| 0 <= i < width implies hex_digit_value(
            #[trigger] hex(n, width)[i],
        ) is Some by {
            if i < high.len() {
                assert(hex(n, width)[i] == high[i]);
            }
        }
    }
}

/// Reading a number that was written in hexadecimal gives the number. Neither blanks nor `0x`
/// are a part of what was written, and `0x` in front of it can be taken off.
pub proof fn law_hex_is_read_back(n: u64)
    ensures
        parsed_hex(hex(n as nat, 16)) == Some(n),
        trimmed(hex(n as nat, 16)) == hex(n as nat, 16),
        without_prefix(hex(n as nat, 16), seq!['0', 'x']) == hex(n as nat, 16),
        without_prefix(seq!['0', 'x'] + hex(n as nat, 16), seq!['0', 'x']) == hex(n as nat, 16),
{
    reveal_with_fuel(hex_span, 17);
    assert(hex_span(16) == 0x1_0000_0000_0000_0000);
    lemma_hex_digits(n as nat, 16);
    let digits = hex(n as nat, 16);
    let mark = seq!['0', 'x'];
    assert(hex_digit_value(digits[0]) is Some);
    assert(hex_digit_value(digits[1]) is Some);
    assert(mark[1] == 'x');
    assert(!begins(digits, mark)) by {
        if begins(digits, mark) {
            assert(digits.take(2)[1] == digits[1]);
        }
    }
    let both = mark + digits;
    assert(both.take(2) =~= mark);
    assert(both.skip(2) =~= digits);
    assert(begins(both, mark));
    assert(without_prefix(digits, mark) == digits);
    assert(hex_digit_value(digits[15]) is Some);
    lemma_trimmed_plain(digits);
}

proof fn lemma_front_trimmed(blanks: Seq<char>, s: Seq<char>)
    requires
        forall|i: int| 0 <= i < blanks.len() ==> is_space(#[trigger] blanks[i]),
        s.len() > 0,
        !is_space(s[0]),
    ensures
        trimmed_start(blanks + s) == s,
    decreases blanks.len(),
{
    if blanks.len() == 0 {
        assert(blanks + s =~= s);
    } else {
        let rest = blanks.skip(1);
        assert forall|i: int| 0 <= i < rest.len() implies is_space(#[trigger] rest[i]) by {
            assert(rest[i] == blanks[i + 1]);
        }
        lemma_front_trimmed(rest, s);
        assert((blanks + s)[0] == blanks[0]);
        assert((blanks + s).skip(1) =~= rest + s);
    }
}

proof fn lemma_end_trimmed(s: Seq<char>, blanks: Seq<char>)
    requires
        forall|i: int| 0 <= i < blanks.len() ==> is_space(#[trigger] blanks[i]),
        s.len() > 0,
        !is_space(s.last()),
    ensures
        trimmed_end(s + blanks) == s,
    decreases blanks.len(),
{
    if blanks.len() == 0 {
        assert(s + blanks =~= s);
    } else {
        let rest = blanks.drop_last();
        assert forall|i: int| 0 <= i < rest.len() implies is_space(#[trigger] rest[i]) by {
            assert(rest[i] == blanks[i]);
        }
        lemma_end_trimmed(s, rest);
        assert((s + blanks).last() == blanks.last());
        assert((s + blanks).drop_last() =~= s + rest);
    }
}

/// Blanks around a text come off, and nothing else: neither a blank inside it, nor a text that
/// has none around it.
pub proof fn law_blanks_come_off(front: Seq<char>, s: Seq<char>, behind: Seq<char>)
    requires
        forall|i: int| 0 <= i < front.len() ==> is_space(#[trigger] front[i]),
        forall|i: int| 0 <= i < behind.len() ==> is_space(#[trigger] behind[i]),
        s.len() > 0,
        !is_space(s[0]),
        !is_space(s.last()),
    ensures
        trimmed(front + s + behind) == s,
{
    let tail = s + behind;
    assert(front + s + behind =~= front + tail);
    assert(tail[0] == s[0]);
    lemma_front_trimmed(front, tail);
    lemma_end_trimmed(s, behind);
}

/// A text is padded with spaces behind it up to the width, and a longer one stays as it is.
pub proof fn law_padding_stands_behind(s: Seq<char>, width: nat)
    ensures
        padded(s, width).len() == if s.len() < width {
            width
        } else {
            s.len()
        },
        padded(s, width).take(s.len() as int) == s,
        forall|i: int| s.len() <= i < padded(s, width).len() ==> #[trigger] padded(s, width)[i] == ' ',
    decreases width - s.len(),
{
    if s.len() < width {
        let more = s.push(' ');
        law_padding_stands_behind(more, width);
        let p = padded(s, width);
        assert(p.take(more.len() as int)[s.len() as int] == ' ');
        assert(p.take(s.len() as int) =~= p.take(more.len() as int).take(s.len() as int));
        assert(more.take(s.len() as int) =~= s);
        assert forall|i: int| s.len() <= i < p.len() implies #[trigger] p[i] == ' ' by {
            if i == s.len() {
                assert(p[i] == p.take(more.len() as int)[i]);
            }
        }
    } else {
        assert(s.take(s.len() as int) =~= s);
    }
}

/// What was joined with a character that stands in none of the parts is split into the parts
/// again.
pub proof fn law_splitting_undoes_joining(parts: Seq<Seq<char>>, separator: char)
    requires
        parts.len() > 0,
        forall|i: int| 0 <= i < parts.len() ==> !(#[trigger] parts[i]).contains(separator),
    ensures
        split(joined(parts, seq![separator]), separator) == parts,
    decreases parts.len(),
{
    if parts.len() == 1 {
        assert(!parts[0].contains(separator));
        lemma_split_plain(parts[0], separator);
        assert(parts =~= seq![parts[0]]);
    } else {
        let init = parts.drop_last();
        let last = parts.last();
        assert forall|i: int| 0 <= i < init.len() implies !(#[trigger] init[i]).contains(separator) by {
            assert(init[i] == parts[i]);
        }
        law_splitting_undoes_joining(init, separator);
        assert(!parts[parts.len() - 1].contains(separator));
        let front = joined(init, seq![separator]);
        lemma_split_plain(last, separator);
        lemma_split_at_separator(front, last, separator);
        assert(front + seq![separator] + last =~= front.push(separator) + last);
        assert(parts =~= init + seq![last]);
    }
}

/// Letters from A to Z are written in lower case, and every other character stays.
pub proof fn law_only_capitals_change(s: Seq<char>, i: int, c: char)
    requires
        0 <= i < s.len(),
        s[i] == c,
    ensures
        lower(s).len() == s.len(),
        'A' <= c <= 'Z' ==> lower(s)[i] as int == c as int + 32,
        c < 'A' || c > 'Z' ==> lower(s)[i] == c,
{
}

} // verus!
