//! The pads that message bodies are XORed with.
//!
//! The region pad comes from the seed of a region and covers every message body until the
//! handshake is complete; the session pad comes from the session key and covers the rest.
//! They differ in the byte order of each word.
use crate::endian;
use crate::mt19937;
use crate::mt19937::Mt19937_64;
use vstd::prelude::*;

verus! {

pub const PAD_SIZE: usize = 4096;

/// The bytes of one word of a pad.
pub open spec fn word_bytes(word: u64, big_endian: bool) -> Seq<u8> {
    if big_endian {
        endian::be64_bytes(word)
    } else {
        endian::le64_bytes(word)
    }
}

/// The pad that `seed` gives: the generator's words, one behind the other.
pub open spec fn pad_of(seed: u64, big_endian: bool) -> Seq<u8> {
    Seq::new(
        PAD_SIZE as nat,
        |k: int| word_bytes(mt19937::output(seed, (k / 8) as nat), big_endian)[k % 8],
    )
}

/// `data` XORed with a pad that repeats.
pub open spec fn xor_with(data: Seq<u8>, pad: Seq<u8>) -> Seq<u8> {
    Seq::new(data.len(), |i: int| data[i] ^ pad[i % pad.len() as int])
}

/// The pad that `seed` gives, each word in the given byte order.
pub fn generate(seed: u64, big_endian: bool) -> (r: [u8; PAD_SIZE])
    ensures
        r@ == pad_of(seed, big_endian),
{
    let mut mt: Mt19937_64 = Mt19937_64::new(seed);
    let mut pad: [u8; PAD_SIZE] = [0;PAD_SIZE];
    let mut i: usize = 0;
    while i < PAD_SIZE / 8
        invariant
            i <= 512,
            forall|j: nat| #[trigger] mt.upcoming(j) == mt19937::output(seed, i as nat + j),
            forall|k: int|
                0 <= k < 8 * i ==> #[trigger] pad@[k] == word_bytes(
                    mt19937::output(seed, (k / 8) as nat),
                    big_endian,
                )[k % 8],
        decreases 512 - i,
    {
        assert(mt.upcoming(0) == mt19937::output(seed, i as nat));
        let ghost before = mt;
        let word: u64 = mt.next_u64();
        proof {
            assert forall|j: nat| #[trigger] mt.upcoming(j) == mt19937::output(
                seed,
                (i + 1) as nat + j,
            ) by {
                assert(before.upcoming(j + 1) == mt19937::output(seed, i as nat + (j + 1)));
            }
        }
        let mut bytes: Vec<u8> = Vec::new();
        if big_endian {
            endian::push_be64(&mut bytes, word);
        } else {
            endian::push_le64(&mut bytes, word);
        }
        assert(bytes@ =~= word_bytes(word, big_endian));
        let mut k: usize = 0;
        while k < 8
            invariant
                k <= 8,
                i < 512,
                bytes@ == word_bytes(word, big_endian),
                bytes@.len() == 8,
                word == mt19937::output(seed, i as nat),
                forall|m: int|
                    0 <= m < 8 * i + k ==> #[trigger] pad@[m] == word_bytes(
                        mt19937::output(seed, (m / 8) as nat),
                        big_endian,
                    )[m % 8],
            decreases 8 - k,
        {
            pad[i * 8 + k] = bytes[k];
            k = k + 1;
        }
        i = i + 1;
    }
    assert(pad@ =~= pad_of(seed, big_endian));
    pad
}

/// The region pad: little-endian words.
pub fn region(seed: u64) -> (r: [u8; PAD_SIZE])
    ensures
        r@ == pad_of(seed, false),
{
    generate(seed, false)
}

/// The session pad: big-endian words.
pub fn session(session_key: u64) -> (r: [u8; PAD_SIZE])
    ensures
        r@ == pad_of(session_key, true),
{
    generate(session_key, true)
}

/// A pad, ready to use.
#[derive(Debug, Clone, Copy, PartialEq, Eq)]
pub struct XorPad {
    bytes: [u8; PAD_SIZE],
}

impl View for XorPad {
    type V = Seq<u8>;

    closed spec fn view(&self) -> Seq<u8> {
        self.bytes@
    }
}

impl XorPad {
    pub fn for_region(seed: u64) -> (r: XorPad)
        ensures
            r@ == pad_of(seed, false),
    {
        XorPad { bytes: region(seed) }
    }

    pub fn for_session(session_key: u64) -> (r: XorPad)
        ensures
            r@ == pad_of(session_key, true),
    {
        XorPad { bytes: session(session_key) }
    }

    pub fn bytes(&self) -> (r: &[u8; PAD_SIZE])
        ensures
            r@ == self@,
            r@.len() == PAD_SIZE,
    {
        &self.bytes
    }
}

/// XORs `data` with a pad that repeats.
pub fn xor_in_place(data: &mut [u8], pad: &[u8])
    requires
        pad@.len() > 0,
    ensures
        final(data)@ == xor_with(old(data)@, pad@),
{
    let ghost before = data@;
    let mut i: usize = 0;
    while i < data.len()
        invariant
            pad@.len() > 0,
            i <= data@.len(),
            data@.len() == before.len(),
            forall|k: int| 0 <= k < i ==> #[trigger] data@[k] == xor_with(before, pad@)[k],
            forall|k: int| i <= k < before.len() ==> #[trigger] data@[k] == before[k],
        decreases data.len() - i,
    {
        data[i] = data[i] ^ pad[i % pad.len()];
        i = i + 1;
    }
    assert(data@ =~= xor_with(before, pad@));
}

/// `data` XORed with a pad that repeats.
pub fn xor_bytes(data: &[u8], pad: &[u8]) -> (r: Vec<u8>)
    requires
        pad@.len() > 0,
    ensures
        r@ == xor_with(data@, pad@),
{
    let mut out: Vec<u8> = vstd::slice::slice_to_vec(data);
    xor_in_place(out.as_mut_slice(), pad);
    out
}

/// XORing twice with one pad gives the data back.
pub proof fn law_xor_is_its_own_inverse(data: Seq<u8>, pad: Seq<u8>)
    requires
        pad.len() > 0,
    ensures
        xor_with(xor_with(data, pad), pad) == data,
{
    let twice = xor_with(xor_with(data, pad), pad);
    assert forall|i: int| 0 <= i < data.len() implies twice[i] == data[i] by {
        let d = data[i];
        let p = pad[i % pad.len() as int];
        assert((d ^ p) ^ p == d) by (bit_vector);
    }
    assert(twice =~= data);
}

/// The pad starts over at its end.
pub proof fn law_pad_wraps(data: Seq<u8>, pad: Seq<u8>, i: int)
    requires
        pad.len() > 0,
        0 <= i,
        i + pad.len() < data.len(),
    ensures
        xor_with(data, pad)[i + pad.len()] == data[i + pad.len()] ^ pad[i % pad.len() as int],
{
    vstd::arithmetic::div_mod::lemma_mod_add_multiples_vanish(i, pad.len() as int);
}

/// The region pad and the session pad of one seed are byte reversals of each other, word
/// by word.
pub proof fn law_pads_are_byte_reversals(seed: u64, word: int)
    requires
        0 <= word < 512,
    ensures
        pad_of(seed, true).subrange(8 * word, 8 * word + 8) == pad_of(seed, false).subrange(
            8 * word,
            8 * word + 8,
        ).reverse(),
{
    let v = mt19937::output(seed, word as nat);
    let le = pad_of(seed, false).subrange(8 * word, 8 * word + 8);
    let be = pad_of(seed, true).subrange(8 * word, 8 * word + 8);
    assert forall|k: int| 0 <= k < 8 implies le[k] == word_bytes(v, false)[k] && be[k] == word_bytes(
        v,
        true,
    )[k] by {
        assert((8 * word + k) / 8 == word && (8 * word + k) % 8 == k);
    }
    assert(be =~= le.reverse());
}

/// Every byte is XORed, with the byte of the pad that stands under it, and none is lost. Under
/// the same pad equal data stays equal, and different data different.
pub proof fn law_every_byte_is_under_the_pad(data: Seq<u8>, other: Seq<u8>, pad: Seq<u8>, i: int)
    requires
        pad.len() > 0,
        0 <= i < data.len(),
    ensures
        xor_with(data, pad).len() == data.len(),
        i < pad.len() ==> xor_with(data, pad)[i] == data[i] ^ pad[i],
        pad[i % pad.len() as int] != 0 ==> xor_with(data, pad)[i] != data[i],
        xor_with(data, pad) == xor_with(other, pad) ==> data == other,
{
    if i < pad.len() {
        vstd::arithmetic::div_mod::lemma_small_mod(i as nat, pad.len());
    }
    let d = data[i];
    let p = pad[i % pad.len() as int];
    assert(p != 0 ==> d ^ p != d) by (bit_vector);
    law_xor_is_its_own_inverse(data, pad);
    law_xor_is_its_own_inverse(other, pad);
}

/// A pad is 4096 bytes: 512 outputs of the generator in order, the highest byte of each first for
/// a session, and the lowest for a region.
pub proof fn law_a_pad_is_the_generators_output(seed: u64, word: int)
    requires
        0 <= word < 512,
    ensures
        pad_of(seed, true).len() == 4096,
        pad_of(seed, false).len() == 4096,
        endian::be64(pad_of(seed, true), 8 * word) == mt19937::output(seed, word as nat),
        endian::le64(pad_of(seed, false), 8 * word) == mt19937::output(seed, word as nat),
{
    let v = mt19937::output(seed, word as nat);
    let at = 8 * word;
    let be = pad_of(seed, true).subrange(at, at + 8);
    let le = pad_of(seed, false).subrange(at, at + 8);
    assert forall|k: int| 0 <= k < 8 implies be[k] == endian::be64_bytes(v)[k] && le[k]
        == endian::le64_bytes(v)[k] by {
        assert((at + k) / 8 == word && (at + k) % 8 == k);
    }
    assert(be =~= endian::be64_bytes(v));
    assert(le =~= endian::le64_bytes(v));
    endian::lemma_round_trip_64(pad_of(seed, true), at, v);
    endian::lemma_round_trip_64(pad_of(seed, false), at, v);
}

} // verus!
