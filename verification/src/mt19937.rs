//! The 64-bit Mersenne Twister.
use vstd::prelude::*;

verus! {

/// How many words the state holds.
pub const NN: usize = 312;

pub const MM: usize = 156;

pub const MATRIX_A: u64 = 0xB502_6F5A_A966_19E9;

/// The upper 33 bits.
pub const UM: u64 = 0xFFFF_FFFF_8000_0000;

/// The lower 31 bits.
pub const LM: u64 = 0x0000_0000_7FFF_FFFF;

pub const MULTIPLIER: u64 = 6_364_136_223_846_793_005;

/// Word `i` of the state that `seed` starts from.
pub open spec fn seeded_word(seed: u64, i: nat) -> u64
    decreases i,
{
    if i == 0 {
        seed
    } else {
        let before = seeded_word(seed, (i - 1) as nat);
        MULTIPLIER.wrapping_mul(before ^ (before >> 62u64)).wrapping_add(i as u64)
    }
}

/// The state that `seed` starts from.
pub open spec fn seeded(seed: u64) -> Seq<u64> {
    Seq::new(NN as nat, |i: int| seeded_word(seed, i as nat))
}

/// The upper bits of one word and the lower bits of the next, multiplied by the matrix.
pub open spec fn mixed(high: u64, low: u64) -> u64 {
    let x = (high & UM) | (low & LM);
    if x & 1 == 1 {
        (x >> 1u64) ^ MATRIX_A
    } else {
        x >> 1u64
    }
}

/// The endless sequence of words that begins with the state `mt`.
pub open spec fn word(mt: Seq<u64>, k: nat) -> u64
    decreases k,
{
    if k < NN {
        mt[k as int]
    } else {
        word(mt, (k - NN + MM) as nat) ^ mixed(
            word(mt, (k - NN) as nat),
            word(mt, (k - NN + 1) as nat),
        )
    }
}

/// The next [`NN`] words.
pub open spec fn twisted(mt: Seq<u64>) -> Seq<u64> {
    Seq::new(NN as nat, |i: int| word(mt, (NN + i) as nat))
}

/// What a word looks like when it is handed out.
pub open spec fn tempered(y: u64) -> u64 {
    let y = y ^ ((y >> 29u64) & 0x5555_5555_5555_5555);
    let y = y ^ ((y << 17u64) & 0x71D6_7FFF_EDA6_0000);
    let y = y ^ ((y << 37u64) & 0xFFF7_EEE0_0000_0000);
    y ^ (y >> 43u64)
}

/// Output `i` of the generator that `seed` starts.
pub open spec fn output(seed: u64, i: nat) -> u64 {
    tempered(word(seeded(seed), NN as nat + i))
}

/// The words go on the same way from any later state.
pub proof fn lemma_word_after_twist(mt: Seq<u64>, k: nat)
    requires
        mt.len() == NN,
    ensures
        word(twisted(mt), k) == word(mt, k + NN as nat),
    decreases k,
{
    if k >= NN {
        lemma_word_after_twist(mt, (k - NN + MM) as nat);
        lemma_word_after_twist(mt, (k - NN) as nat);
        lemma_word_after_twist(mt, (k - NN + 1) as nat);
    }
}

pub struct Mt19937_64 {
    mt: [u64; NN],
    idx: usize,
}

impl Mt19937_64 {
    #[verifier::type_invariant]
    spec fn wf(self) -> bool {
        self.idx <= NN
    }

    /// The output that comes after `j` others.
    pub closed spec fn upcoming(self, j: nat) -> u64 {
        tempered(word(self.mt@, self.idx as nat + j))
    }

    pub fn new(seed: u64) -> (r: Mt19937_64)
        ensures
            forall|j: nat| #[trigger] r.upcoming(j) == output(seed, j),
    {
        let mut mt: [u64; NN] = [0;NN];
        mt[0] = seed;
        let mut i: usize = 1;
        while i < NN
            invariant
                1 <= i <= NN,
                forall|k: int| 0 <= k < i ==> #[trigger] mt@[k] == seeded_word(seed, k as nat),
            decreases NN - i,
        {
            let before: u64 = mt[i - 1];
            mt[i] = MULTIPLIER.wrapping_mul(before ^ (before >> 62u64)).wrapping_add(i as u64);
            i = i + 1;
        }
        assert(mt@ =~= seeded(seed));
        Mt19937_64 { mt, idx: NN }
    }

    /// Replaces the state by the next words.
    fn generate(mt: &mut [u64; NN])
        ensures
            final(mt)@ == twisted(old(mt)@),
    {
        let ghost before = mt@;
        let mut i: usize = 0;
        while i < NN
            invariant
                i <= NN,
                before.len() == NN,
                forall|k: int| 0 <= k < i ==> #[trigger] mt@[k] == word(before, (NN + k) as nat),
                forall|k: int| i <= k < NN ==> #[trigger] mt@[k] == before[k],
            decreases NN - i,
        {
            let next: usize = if i + 1 < NN {
                i + 1
            } else {
                0
            };
            let far: usize = if i + MM < NN {
                i + MM
            } else {
                i + MM - NN
            };
            proof {
                assert(mt@[i as int] == word(before, i as nat));
                assert(mt@[next as int] == word(before, (i + 1) as nat));
                assert(mt@[far as int] == word(before, (i + MM) as nat));
            }
            let x: u64 = (mt[i] & UM) | (mt[next] & LM);
            let mut xa: u64 = x >> 1u64;
            if x & 1 == 1 {
                xa = xa ^ MATRIX_A;
            }
            mt[i] = mt[far] ^ xa;
            i = i + 1;
        }
        assert(mt@ =~= twisted(before));
    }

    /// The next output.
    pub fn next_u64(&mut self) -> (r: u64)
        ensures
            r == old(self).upcoming(0),
            forall|j: nat| #[trigger] final(self).upcoming(j) == old(self).upcoming(j + 1),
    {
        proof {
            use_type_invariant(&*self);
        }
        let ghost before = *self;
        if self.idx >= NN {
            let mut mt: [u64; NN] = self.mt;
            Self::generate(&mut mt);
            self.mt = mt;
            self.idx = 0;
        }
        proof {
            assert forall|k: nat| #[trigger] word(self.mt@, self.idx as nat + k) == word(
                before.mt@,
                before.idx as nat + k,
            ) by {
                if before.idx >= NN {
                    lemma_word_after_twist(before.mt@, k);
                }
            }
        }
        let y: u64 = self.mt[self.idx];
        assert(y == word(before.mt@, before.idx as nat)) by {
            assert(word(self.mt@, self.idx as nat + 0) == word(before.mt@, before.idx as nat + 0));
        }
        self.idx = self.idx + 1;
        proof {
            assert forall|j: nat| #[trigger] self.upcoming(j) == before.upcoming(j + 1) by {
                assert(word(self.mt@, (self.idx - 1) as nat + (j + 1)) == word(
                    before.mt@,
                    before.idx as nat + (j + 1),
                ));
            }
        }
        let y: u64 = y ^ ((y >> 29u64) & 0x5555_5555_5555_5555);
        let y: u64 = y ^ ((y << 17u64) & 0x71D6_7FFF_EDA6_0000);
        let y: u64 = y ^ ((y << 37u64) & 0xFFF7_EEE0_0000_0000);
        y ^ (y >> 43u64)
    }
}

} // verus!
