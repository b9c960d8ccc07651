//! SHA-1, which the WebSocket handshake prescribes.
use crate::endian;
use vstd::prelude::*;

verus! {

/// The five words of a hash state.
#[derive(Debug, Clone, Copy, PartialEq, Eq, Structural)]
pub struct Words {
    pub a: u32,
    pub b: u32,
    pub c: u32,
    pub d: u32,
    pub e: u32,
}

/// The state before the first block.
pub open spec fn initial() -> Words {
    Words {
        a: 0x6745_2301,
        b: 0xEFCD_AB89,
        c: 0x98BA_DCFE,
        d: 0x1032_5476,
        e: 0xC3D2_E1F0,
    }
}

/// Word `i` of the schedule of a block.
pub open spec fn word(block: Seq<u8>, i: int) -> u32
    decreases i,
{
    if i < 16 {
        endian::be32(block, 4 * i) as u32
    } else {
        let x = word(block, i - 3) ^ word(block, i - 8) ^ word(block, i - 14) ^ word(block, i - 16);
        (x << 1) | (x >> 31)
    }
}

/// The function of round `i`.
pub open spec fn mix(i: int, b: u32, c: u32, d: u32) -> u32 {
    if i < 20 {
        (b & c) | (!b & d)
    } else if i < 40 {
        b ^ c ^ d
    } else if i < 60 {
        (b & c) | (b & d) | (c & d)
    } else {
        b ^ c ^ d
    }
}

/// The constant of round `i`.
pub open spec fn constant(i: int) -> u32 {
    if i < 20 {
        0x5A82_7999
    } else if i < 40 {
        0x6ED9_EBA1
    } else if i < 60 {
        0x8F1B_BCDC
    } else {
        0xCA62_C1D6
    }
}

/// One round.
pub open spec fn round(s: Words, i: int, w: u32) -> Words {
    Words {
        a: ((s.a << 5) | (s.a >> 27)).wrapping_add(mix(i, s.b, s.c, s.d)).wrapping_add(
            s.e,
        ).wrapping_add(constant(i)).wrapping_add(w),
        b: s.a,
        c: (s.b << 30) | (s.b >> 2),
        d: s.c,
        e: s.d,
    }
}

/// The first `n` rounds on a block.
pub open spec fn rounds(s: Words, block: Seq<u8>, n: nat) -> Words
    decreases n,
{
    if n == 0 {
        s
    } else {
        round(rounds(s, block, (n - 1) as nat), n - 1, word(block, n - 1))
    }
}

/// The state after a block.
pub open spec fn compressed(s: Words, block: Seq<u8>) -> Words {
    let r = rounds(s, block, 80);
    Words {
        a: s.a.wrapping_add(r.a),
        b: s.b.wrapping_add(r.b),
        c: s.c.wrapping_add(r.c),
        d: s.d.wrapping_add(r.d),
        e: s.e.wrapping_add(r.e),
    }
}

/// The state after every whole block of some bytes.
pub open spec fn absorbed(s: Words, bytes: Seq<u8>) -> Words
    decreases bytes.len(),
{
    if bytes.len() < 64 {
        s
    } else {
        absorbed(compressed(s, bytes.take(64)), bytes.skip(64))
    }
}

/// What is appended to a message of `len` bytes, whose length counts as `counted`: a one bit,
/// zeros up to eight bytes before the end of a block, and the number of bits.
pub open spec fn padding(len: nat, counted: u64) -> Seq<u8> {
    seq![0x80u8] + Seq::new(((119 - len % 64) % 64) as nat, |i: int| 0u8) + endian::be64_bytes(
        counted.wrapping_mul(8),
    )
}

/// The five words of a state as bytes.
pub open spec fn digest_of(s: Words) -> Seq<u8> {
    endian::be32_bytes(s.a) + endian::be32_bytes(s.b) + endian::be32_bytes(s.c)
        + endian::be32_bytes(s.d) + endian::be32_bytes(s.e)
}

/// The hash of a message.
pub open spec fn hash(message: Seq<u8>) -> Seq<u8> {
    digest_of(
        absorbed(initial(), message + padding(message.len(), message.len() as u64)),
    )
}

/// The state of a [`Sha1`].
pub struct Sha1View {
    pub state: Words,
    /// The bytes that do not fill a block yet.
    pub pending: Seq<u8>,
    /// How many bytes were fed. It wraps.
    pub length: u64,
}

/// Before the first byte.
pub open spec fn fresh() -> Sha1View {
    Sha1View { state: initial(), pending: Seq::empty(), length: 0 }
}

/// How many bytes whole blocks take.
pub open spec fn whole(len: nat) -> int {
    (len / 64 * 64) as int
}

/// Bytes are absorbed, and not counted.
pub open spec fn poured(s: Sha1View, data: Seq<u8>) -> Sha1View {
    let all = s.pending + data;
    Sha1View {
        state: absorbed(s.state, all),
        pending: all.skip(whole(all.len())),
        length: s.length,
    }
}

/// Bytes are fed.
pub open spec fn updated(s: Sha1View, data: Seq<u8>) -> Sha1View {
    Sha1View { length: s.length.wrapping_add(data.len() as u64), ..poured(s, data) }
}

/// The hash of what was fed.
pub open spec fn finished(s: Sha1View) -> Seq<u8> {
    digest_of(poured(s, padding(s.pending.len(), s.length)).state)
}

/// Absorbing whole blocks and then the rest is absorbing everything.
proof fn lemma_absorbed_split(s: Words, bytes: Seq<u8>, n: int)
    requires
        0 <= n <= bytes.len(),
        n % 64 == 0,
    ensures
        absorbed(s, bytes) == absorbed(absorbed(s, bytes.take(n)), bytes.skip(n)),
    decreases bytes.len(),
{
    if n == 0 {
        assert(bytes.skip(0) =~= bytes);
    } else {
        let next = compressed(s, bytes.take(64));
        let rest = bytes.skip(64);
        assert(bytes.take(n).take(64) =~= bytes.take(64));
        assert(bytes.take(n).skip(64) =~= rest.take(n - 64));
        assert(rest.skip(n - 64) =~= bytes.skip(n));
        lemma_absorbed_split(next, rest, n - 64);
    }
}

/// What does not fill a block makes no difference.
proof fn lemma_absorbed_whole(s: Words, bytes: Seq<u8>)
    ensures
        absorbed(s, bytes) == absorbed(s, bytes.take(whole(bytes.len()))),
{
    let n = whole(bytes.len());
    lemma_absorbed_split(s, bytes, n);
}

/// Pouring in two pieces is pouring in one.
proof fn lemma_poured_twice(s: Sha1View, a: Seq<u8>, b: Seq<u8>)
    ensures
        poured(poured(s, a), b) == poured(s, a + b),
{
    let first = s.pending + a;
    let n = whole(first.len());
    let all = s.pending + (a + b);
    assert(all =~= first + b);
    let rest = first.skip(n) + b;
    assert(rest =~= all.skip(n));
    lemma_absorbed_split(s.state, all, n);
    lemma_absorbed_whole(s.state, first);
    assert(all.take(n) =~= first.take(n));
    let m = whole(rest.len());
    assert(whole(all.len()) == n + m);
    assert(rest.skip(m) =~= all.skip(n + m));
}

/// Feeding a message in pieces is feeding it at once.
pub proof fn law_pieces_make_the_whole(s: Sha1View, a: Seq<u8>, b: Seq<u8>)
    requires
        a.len() + b.len() <= u64::MAX,
    ensures
        updated(updated(s, a), b) == updated(s, a + b),
{
    lemma_poured_twice(s, a, b);
    assert(poured(updated(s, a), b).state == poured(poured(s, a), b).state);
    assert(poured(updated(s, a), b).pending == poured(poured(s, a), b).pending);
}

/// A streamed message has the hash of the message.
pub proof fn law_streaming_is_hashing(message: Seq<u8>)
    ensures
        finished(updated(fresh(), message)) == hash(message),
{
    let s = updated(fresh(), message);
    assert(fresh().pending + message =~= message);
    let pad = padding(s.pending.len(), s.length);
    assert(s.pending.len() % 64 == message.len() % 64);
    assert(pad == padding(message.len(), message.len() as u64));
    lemma_poured_twice(fresh(), message, pad);
    assert(fresh().pending + (message + pad) =~= message + pad);
    assert(poured(s, pad).state == poured(poured(fresh(), message), pad).state);
}

/// A SHA-1 that is fed piece by piece.
pub struct Sha1 {
    state: Words,
    block: [u8; 64],
    filled: usize,
    length: u64,
}

impl View for Sha1 {
    type V = Sha1View;

    closed spec fn view(&self) -> Sha1View {
        Sha1View {
            state: self.state,
            pending: self.block@.take(self.filled as int),
            length: self.length,
        }
    }
}

impl Clone for Sha1 {
    fn clone(&self) -> (r: Sha1)
        ensures
            r@ == self@,
    {
        proof {
            use_type_invariant(self);
        }
        Sha1 { state: self.state, block: self.block, filled: self.filled, length: self.length }
    }
}

impl Default for Sha1 {
    fn default() -> (r: Sha1)
        ensures
            r@ == fresh(),
    {
        Sha1::new()
    }
}

impl Sha1 {
    #[verifier::type_invariant]
    spec fn part_of_a_block(&self) -> bool {
        self.filled < 64
    }

    pub fn new() -> (r: Sha1)
        ensures
            r@ == fresh(),
    {
        let r = Sha1 {
            state: Words {
                a: 0x6745_2301,
                b: 0xEFCD_AB89,
                c: 0x98BA_DCFE,
                d: 0x1032_5476,
                e: 0xC3D2_E1F0,
            },
            block: [0;64],
            filled: 0,
            length: 0,
        };
        assert(r@.pending =~= Seq::empty());
        r
    }

    pub fn update(&mut self, data: &[u8])
        ensures
            final(self)@ == updated(old(self)@, data@),
    {
        self.feed(data);
        proof {
            use_type_invariant(&*self);
        }
        self.length = self.length.wrapping_add(data.len() as u64);
    }

    /// The hash of what was fed.
    pub fn finish(self) -> (r: [u8; 20])
        ensures
            r@ == finished(self@),
    {
        proof {
            use_type_invariant(&self);
        }
        let mut tail: Vec<u8> = Vec::new();
        tail.push(0x80);
        let zeros: usize = (119 - self.filled) % 64;
        let mut i: usize = 0;
        assert(tail@ =~= seq![0x80u8] + Seq::new(0, |i: int| 0u8));
        while i < zeros
            invariant
                i <= zeros,
                tail@ == seq![0x80u8] + Seq::new(i as nat, |i: int| 0u8),
            decreases zeros - i,
        {
            tail.push(0);
            i = i + 1;
            assert(tail@ =~= seq![0x80u8] + Seq::new(i as nat, |i: int| 0u8));
        }
        endian::push_be64(&mut tail, self.length.wrapping_mul(8));
        assert(self@.pending.len() == self.filled);
        assert(tail@ == padding(self@.pending.len(), self@.length));
        let mut last: Sha1 = self;
        last.feed(tail.as_slice());
        let s: Words = last.state;
        let mut out: Vec<u8> = Vec::new();
        endian::push_be32(&mut out, s.a);
        endian::push_be32(&mut out, s.b);
        endian::push_be32(&mut out, s.c);
        endian::push_be32(&mut out, s.d);
        endian::push_be32(&mut out, s.e);
        assert(out@ =~= digest_of(s));
        let mut digest: [u8; 20] = [0;20];
        let mut i: usize = 0;
        while i < 20
            invariant
                i <= 20,
                out@.len() == 20,
                forall|k: int| 0 <= k < i ==> digest@[k] == out@[k],
            decreases 20 - i,
        {
            digest[i] = out[i];
            i = i + 1;
        }
        assert(digest@ =~= out@);
        digest
    }

    /// Absorbs bytes without counting them.
    fn feed(&mut self, data: &[u8])
        ensures
            final(self)@ == poured(old(self)@, data@),
    {
        proof {
            use_type_invariant(&*self);
        }
        let ghost start = self@;
        let mut state: Words = self.state;
        let mut block: [u8; 64] = self.block;
        let mut filled: usize = self.filled;
        let mut i: usize = 0;
        proof {
            assert(start.pending + data@.take(0) =~= start.pending);
            assert(start.pending.skip(0) =~= start.pending);
            assert(absorbed(start.state, start.pending) == start.state);
        }
        while i < data.len()
            invariant
                i <= data@.len(),
                filled < 64,
                poured(start, data@.take(i as int)) == (Sha1View {
                    state,
                    pending: block@.take(filled as int),
                    length: start.length,
                }),
            decreases data@.len() - i,
        {
            let ghost held = block@.take(filled as int);
            let ghost one = seq![data@[i as int]];
            let ghost now = Sha1View { state, pending: held, length: start.length };
            proof {
                assert(data@.take(i + 1) =~= data@.take(i as int) + one);
                lemma_poured_twice(start, data@.take(i as int), one);
            }
            block[filled] = data[i];
            filled = filled + 1;
            assert(block@.take(filled as int) =~= held + one);
            if filled == 64 {
                assert(block@.take(64) =~= block@);
                assert((held + one).take(64) =~= block@);
                assert((held + one).skip(64) =~= Seq::empty());
                assert(absorbed(state, held + one) == compressed(state, block@)) by {
                    assert(absorbed(compressed(state, block@), Seq::<u8>::empty()) == compressed(
                        state,
                        block@,
                    ));
                }
                state = compress(state, &block);
                filled = 0;
                assert(block@.take(0) =~= Seq::empty());
                assert(poured(now, one).pending =~= Seq::empty());
            } else {
                assert((held + one).skip(0) =~= held + one);
                assert(poured(now, one).pending =~= held + one);
            }
            i = i + 1;
        }
        assert(data@.take(i as int) =~= data@);
        *self = Sha1 { state, block, filled, length: self.length };
    }
}

fn compress(s: Words, block: &[u8; 64]) -> (r: Words)
    ensures
        r == compressed(s, block@),
{
    let bytes: &[u8] = block.as_slice();
    let mut schedule: [u32; 80] = [0;80];
    let mut i: usize = 0;
    while i < 16
        invariant
            i <= 16,
            bytes@ == block@,
            forall|k: int| 0 <= k < i ==> schedule@[k] == word(block@, k),
        decreases 16 - i,
    {
        schedule[i] = endian::read_be32(bytes, 4 * i);
        i = i + 1;
    }
    while i < 80
        invariant
            16 <= i <= 80,
            forall|k: int| 0 <= k < i ==> schedule@[k] == word(block@, k),
        decreases 80 - i,
    {
        let x: u32 = schedule[i - 3] ^ schedule[i - 8] ^ schedule[i - 14] ^ schedule[i - 16];
        schedule[i] = (x << 1) | (x >> 31);
        i = i + 1;
    }
    let mut t: Words = s;
    let mut i: usize = 0;
    while i < 80
        invariant
            i <= 80,
            t == rounds(s, block@, i as nat),
            forall|k: int| 0 <= k < 80 ==> schedule@[k] == word(block@, k),
        decreases 80 - i,
    {
        let f: u32 = if i < 20 {
            (t.b & t.c) | (!t.b & t.d)
        } else if i < 40 {
            t.b ^ t.c ^ t.d
        } else if i < 60 {
            (t.b & t.c) | (t.b & t.d) | (t.c & t.d)
        } else {
            t.b ^ t.c ^ t.d
        };
        let k: u32 = if i < 20 {
            0x5A82_7999
        } else if i < 40 {
            0x6ED9_EBA1
        } else if i < 60 {
            0x8F1B_BCDC
        } else {
            0xCA62_C1D6
        };
        t = Words {
            a: ((t.a << 5) | (t.a >> 27)).wrapping_add(f).wrapping_add(t.e).wrapping_add(
                k,
            ).wrapping_add(schedule[i]),
            b: t.a,
            c: (t.b << 30) | (t.b >> 2),
            d: t.c,
            e: t.d,
        };
        i = i + 1;
    }
    Words {
        a: s.a.wrapping_add(t.a),
        b: s.b.wrapping_add(t.b),
        c: s.c.wrapping_add(t.c),
        d: s.d.wrapping_add(t.d),
        e: s.e.wrapping_add(t.e),
    }
}

/// The hash of a message.
pub fn sha1(data: &[u8]) -> (r: [u8; 20])
    ensures
        r@ == hash(data@),
{
    let mut hasher: Sha1 = Sha1::new();
    hasher.update(data);
    proof {
        law_streaming_is_hashing(data@);
    }
    hasher.finish()
}

} // verus!
