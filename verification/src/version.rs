//! Versions of the data files.
//!
//! They only decide whether the files at hand are older than the published ones, so reading
//! is loose: a part that is no number counts as zero.
use crate::text;
use core::cmp::Ordering;
use vstd::prelude::*;

verus! {

#[derive(Debug, Clone, Copy, PartialEq, Eq, Ord, Structural)]
pub struct Version {
    pub major: u32,
    pub minor: u32,
    pub patch: u32,
}

/// The version 0.0.0.
pub open spec fn zero() -> Version {
    Version { major: 0, minor: 0, patch: 0 }
}

/// The number that stands at a position of a dotted version; zero where there is none.
pub open spec fn number_at(parts: Seq<Seq<char>>, i: int) -> u32 {
    if 0 <= i < parts.len() {
        match text::parsed_decimal(text::trimmed(parts[i]), u32::MAX as u64) {
            Some(n) => n as u32,
            None => 0,
        }
    } else {
        0
    }
}

/// The version that a text stands for.
pub open spec fn parsed(version: Seq<char>) -> Version {
    let parts = text::split(version, '.');
    Version {
        major: number_at(parts, 0),
        minor: number_at(parts, 1),
        patch: number_at(parts, 2),
    }
}

/// Whether one version is older than another.
pub open spec fn older(a: Version, b: Version) -> bool {
    ||| a.major < b.major
    ||| a.major == b.major && a.minor < b.minor
    ||| a.major == b.major && a.minor == b.minor && a.patch < b.patch
}

impl Default for Version {
    fn default() -> (r: Version)
        ensures
            r == zero(),
    {
        Version { major: 0, minor: 0, patch: 0 }
    }
}

fn read_part(parts: &Vec<Vec<char>>, i: usize) -> (r: u32)
    ensures
        r == number_at(text::char_lists(parts@), i as int),
{
    if i >= parts.len() {
        return 0;
    }
    let part: &[char] = parts[i].as_slice();
    assert(text::char_lists(parts@)[i as int] == part@);
    let (from, to): (usize, usize) = text::trim(part);
    match text::parse_decimal(vstd::slice::slice_subrange(part, from, to), u32::MAX as u64) {
        Some(n) => n as u32,
        None => 0,
    }
}

impl Version {
    pub fn parse(version: &str) -> (r: Version)
        ensures
            r == parsed(version@),
    {
        let parts: Vec<Vec<char>> = text::split_chars(version, '.');
        Version {
            major: read_part(&parts, 0),
            minor: read_part(&parts, 1),
            patch: read_part(&parts, 2),
        }
    }

    /// The three numbers with dots between them.
    pub open spec fn text(self) -> Seq<char> {
        text::decimal(self.major as nat) + "."@ + text::decimal(self.minor as nat) + "."@ + text::decimal(
            self.patch as nat,
        )
    }

    pub fn to_string(&self) -> (r: String)
        ensures
            r@ == self.text(),
    {
        let mut out: String = String::new();
        text::push_decimal(&mut out, self.major as u64);
        assert(out@ =~= text::decimal(self.major as nat));
        out.push_str(".");
        text::push_decimal(&mut out, self.minor as u64);
        out.push_str(".");
        text::push_decimal(&mut out, self.patch as u64);
        out
    }
}

impl PartialOrd for Version {
    fn partial_cmp(&self, other: &Self) -> (r: Option<Ordering>) {
        if self.major < other.major {
            Some(Ordering::Less)
        } else if self.major > other.major {
            Some(Ordering::Greater)
        } else if self.minor < other.minor {
            Some(Ordering::Less)
        } else if self.minor > other.minor {
            Some(Ordering::Greater)
        } else if self.patch < other.patch {
            Some(Ordering::Less)
        } else if self.patch > other.patch {
            Some(Ordering::Greater)
        } else {
            Some(Ordering::Equal)
        }
    }
}

impl vstd::std_specs::cmp::PartialOrdSpecImpl for Version {
    open spec fn obeys_partial_cmp_spec() -> bool {
        true
    }

    open spec fn partial_cmp_spec(&self, other: &Self) -> Option<Ordering> {
        if older(*self, *other) {
            Some(Ordering::Less)
        } else if older(*other, *self) {
            Some(Ordering::Greater)
        } else {
            Some(Ordering::Equal)
        }
    }
}

/// Versions are ordered: none is older than itself, of two different ones exactly one is
/// older, and what is older than an older one is older.
pub proof fn law_versions_are_ordered(a: Version, b: Version, c: Version)
    ensures
        !older(a, a),
        a != b ==> older(a, b) != older(b, a),
        older(a, b) && older(b, c) ==> older(a, c),
{
}

/// A version that is written out is read back.
pub proof fn law_written_versions_are_read_back(v: Version)
    ensures
        parsed(v.text()) == v,
{
    reveal_strlit(".");
    let dot = "."@;
    assert(dot =~= seq!['.']);
    let (a, b, c) = (
        text::decimal(v.major as nat),
        text::decimal(v.minor as nat),
        text::decimal(v.patch as nat),
    );
    text::lemma_decimal_lacks(v.major as nat, '.');
    text::lemma_decimal_lacks(v.minor as nat, '.');
    text::lemma_decimal_lacks(v.patch as nat, '.');
    text::lemma_split_plain(a, '.');
    text::lemma_split_plain(b, '.');
    text::lemma_split_plain(c, '.');
    text::lemma_split_at_separator(b, c, '.');
    let tail = b.push('.') + c;
    text::lemma_split_at_separator(a, tail, '.');
    assert(v.text() =~= a.push('.') + tail);
    let parts = text::split(v.text(), '.');
    assert(parts =~= seq![a, b, c]);
    lemma_number_of_decimal(v.major);
    lemma_number_of_decimal(v.minor);
    lemma_number_of_decimal(v.patch);
}

proof fn lemma_number_of_decimal(n: u32)
    ensures
        text::parsed_decimal(text::trimmed(text::decimal(n as nat)), u32::MAX as u64) == Some(
            n as u64,
        ),
{
    let s = text::decimal(n as nat);
    text::lemma_decimal_digits(n as nat);
    assert(text::digit_value(s[0]) is Some);
    assert(text::digit_value(s[s.len() - 1]) is Some);
    text::lemma_trimmed_plain(s);
    text::lemma_parse_decimal_round_trip(n as u64, u32::MAX as u64);
}

/// What a version does not say counts as zero.
pub proof fn law_missing_numbers_are_zero(a: u32, b: u32)
    ensures
        parsed(text::decimal(a as nat)) == (Version { major: a, minor: 0, patch: 0 }),
        parsed(text::decimal(a as nat).push('.') + text::decimal(b as nat)) == (Version {
            major: a,
            minor: b,
            patch: 0,
        }),
{
    let (x, y) = (text::decimal(a as nat), text::decimal(b as nat));
    text::lemma_decimal_lacks(a as nat, '.');
    text::lemma_decimal_lacks(b as nat, '.');
    text::lemma_split_plain(x, '.');
    text::lemma_split_plain(y, '.');
    text::lemma_split_at_separator(x, y, '.');
    lemma_number_of_decimal(a);
    lemma_number_of_decimal(b);
    assert(text::split(x.push('.') + y, '.') =~= seq![x, y]);
}

} // verus!
