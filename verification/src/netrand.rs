//! The part of .NET's seeded `System.Random` that the game derives its login key from: a
//! subtractive generator over 32-bit integers.
//!
//! `Next(int)` scales a sample with double-precision numbers. The scaling is done here in
//! integers that follow the same roundings.
use vstd::prelude::*;

verus! {

/// `Int32.MaxValue`.
pub const M_BIG: i32 = 0x7FFF_FFFF;

pub const M_SEED: i32 = 161_803_398;

/// The table's length; index 0 is never read.
pub const SEED_ARRAY_LEN: usize = 56;

/// Seconds from 0001-01-01 to 1970-01-01.
pub const UNIX_EPOCH_OFFSET_SECONDS: i64 = 62_135_596_800;

/// Brought back above zero, as the generator does it.
pub open spec fn lifted(v: i32) -> i32 {
    if v < 0 {
        v.wrapping_add(M_BIG)
    } else {
        v
    }
}

/// The number the table is filled from.
pub open spec fn start_of(seed: i32) -> i32 {
    let distance = if seed == i32::MIN {
        M_BIG
    } else if seed < 0 {
        (-seed) as i32
    } else {
        seed
    };
    M_SEED.wrapping_sub(distance)
}

/// The table after step `i` of the first filling, and the two numbers that step leaves.
pub open spec fn filled(seed: i32, i: nat) -> (Seq<i32>, i32, i32)
    decreases i,
{
    if i == 0 {
        (Seq::new(SEED_ARRAY_LEN as nat, |k: int| 0i32).update(55, start_of(seed)), start_of(seed), 1)
    } else {
        let (table, mj, mk) = filled(seed, (i - 1) as nat);
        (table.update((21 * i as int) % 55, mk), mk, lifted(mj.wrapping_sub(mk)))
    }
}

/// The table after entries 1 to `i` of one mixing pass.
pub open spec fn mixed(table: Seq<i32>, i: nat) -> Seq<i32>
    decreases i,
{
    if i == 0 {
        table
    } else {
        let t = mixed(table, (i - 1) as nat);
        t.update(i as int, lifted(t[i as int].wrapping_sub(t[1 + (i + 30) as int % 55])))
    }
}

/// The table after `passes` mixing passes.
pub open spec fn stirred(table: Seq<i32>, passes: nat) -> Seq<i32>
    decreases passes,
{
    if passes == 0 {
        table
    } else {
        mixed(stirred(table, (passes - 1) as nat), 55)
    }
}

/// The generator's state: the table and its two positions.
pub struct NetRandomView {
    pub table: Seq<i32>,
    pub inext: int,
    pub inextp: int,
}

/// The state that `seed` starts from.
pub open spec fn seeded(seed: i32) -> NetRandomView {
    NetRandomView { table: stirred(filled(seed, 54).0, 4), inext: 0, inextp: 21 }
}

/// The position behind `i`: positions run from 1 to 55.
pub open spec fn stepped(i: int) -> int {
    if i + 1 >= 56 {
        1
    } else {
        i + 1
    }
}

/// The sample that comes next.
pub open spec fn sample(r: NetRandomView) -> i32 {
    let difference = r.table[stepped(r.inext)].wrapping_sub(r.table[stepped(r.inextp)]);
    if difference == M_BIG {
        (M_BIG - 1) as i32
    } else {
        lifted(difference)
    }
}

/// The state behind it.
pub open spec fn sampled(r: NetRandomView) -> NetRandomView {
    NetRandomView {
        table: r.table.update(stepped(r.inext), sample(r)),
        inext: stepped(r.inext),
        inextp: stepped(r.inextp),
    }
}

/// 2^53: how many values the significand of a double has.
pub const SIGNIFICAND: u128 = 0x20_0000_0000_0000;

/// The distance between doubles around `n`.
pub open spec fn unit_of(n: nat) -> nat
    decreases n,
{
    if n < SIGNIFICAND {
        1
    } else {
        2 * unit_of(n / 2)
    }
}

/// `n` rounded to a double: to the nearest, a tie to the even one.
pub open spec fn to_double(n: nat) -> nat {
    let unit = unit_of(n);
    let low = n / unit;
    let rest = n % unit;
    if 2 * rest > unit || (2 * rest == unit && low % 2 == 1) {
        (low + 1) * unit
    } else {
        low * unit
    }
}

/// The double nearest to 1 / (2^31 - 1) is this times 2^-62.
pub const INVERSE: u128 = 0x8000_0001;

/// 2^62.
pub const SCALE: u128 = 0x4000_0000_0000_0000;

pub open spec fn magnitude(i: int) -> nat {
    if i < 0 {
        (-i) as nat
    } else {
        i as nat
    }
}

/// `value * (1.0 / (2^31 - 1)) * max` in doubles, cut to an integer and to 32 bits.
pub open spec fn scaled(value: i32, max: i32) -> i32 {
    let share = to_double(magnitude(value as int) * INVERSE as nat);
    let whole = to_double(share * magnitude(max as int)) / SCALE as nat;
    if (value < 0) != (max < 0) {
        if whole > 0x8000_0000 {
            i32::MIN
        } else {
            (-whole) as i32
        }
    } else if whole > 0x7FFF_FFFF {
        i32::MAX
    } else {
        whole as i32
    }
}

/// The bits of `i` as an unsigned number.
pub open spec fn unsigned(i: i32) -> nat {
    if i < 0 {
        (i + 0x1_0000_0000) as nat
    } else {
        i as nat
    }
}

/// The seed for a login at `unix_seconds`: the seconds since 0001-01-01, cut to 32 bits.
pub open spec fn seed_of(unix_seconds: i64) -> i32 {
    let low = unix_seconds.wrapping_add(UNIX_EPOCH_OFFSET_SECONDS) as int % 0x1_0000_0000;
    if low >= 0x8000_0000 {
        (low - 0x1_0000_0000) as i32
    } else {
        low as i32
    }
}

/// The key for a seed: the scaled sample above, the seed below.
pub open spec fn key_of(seed: i32) -> u64 {
    (unsigned(scaled(sample(seeded(seed)), i32::MAX)) * 0x1_0000_0000 + unsigned(seed)) as u64
}

pub struct NetRandom {
    seed_array: [i32; SEED_ARRAY_LEN],
    inext: usize,
    inextp: usize,
}

impl View for NetRandom {
    type V = NetRandomView;

    closed spec fn view(&self) -> NetRandomView {
        NetRandomView {
            table: self.seed_array@,
            inext: self.inext as int,
            inextp: self.inextp as int,
        }
    }
}

fn lift(v: i32) -> (r: i32)
    ensures
        r == lifted(v),
{
    if v < 0 {
        v.wrapping_add(M_BIG)
    } else {
        v
    }
}

impl NetRandom {
    #[verifier::type_invariant]
    spec fn wf(self) -> bool {
        self.inext <= 55 && self.inextp <= 55
    }

    pub fn new(seed: i32) -> (r: NetRandom)
        ensures
            r@ == seeded(seed),
    {
        let distance: i32 = if seed == i32::MIN {
            M_BIG
        } else if seed < 0 {
            -seed
        } else {
            seed
        };
        let mut mj: i32 = M_SEED.wrapping_sub(distance);
        let mut table: [i32; SEED_ARRAY_LEN] = [0;SEED_ARRAY_LEN];
        table[55] = mj;
        let mut mk: i32 = 1;
        let mut i: usize = 1;
        assert(table@ =~= filled(seed, 0).0);
        while i < 55
            invariant
                1 <= i <= 55,
                (table@, mj, mk) == filled(seed, (i - 1) as nat),
            decreases 55 - i,
        {
            let at: usize = (21 * i) % 55;
            let ghost before = table@;
            table[at] = mk;
            assert(table@ =~= before.update(at as int, mk));
            let next: i32 = lift(mj.wrapping_sub(mk));
            mj = mk;
            mk = next;
            i = i + 1;
        }
        let ghost base = table@;
        let mut pass: usize = 0;
        while pass < 4
            invariant
                pass <= 4,
                table@ == stirred(base, pass as nat),
            decreases 4 - pass,
        {
            let ghost before = table@;
            let mut i: usize = 1;
            while i < SEED_ARRAY_LEN
                invariant
                    1 <= i <= SEED_ARRAY_LEN,
                    table@ == mixed(before, (i - 1) as nat),
                decreases SEED_ARRAY_LEN - i,
            {
                let n: usize = 1 + (i + 30) % 55;
                let ghost t = table@;
                table[i] = lift(table[i].wrapping_sub(table[n]));
                assert(table@ =~= mixed(before, i as nat));
                i = i + 1;
            }
            pass = pass + 1;
        }
        NetRandom { seed_array: table, inext: 0, inextp: 21 }
    }

    /// The next sample.
    pub fn next_sample(&mut self) -> (r: i32)
        ensures
            r == sample(old(self)@),
            final(self)@ == sampled(old(self)@),
    {
        proof {
            use_type_invariant(&*self);
        }
        let next: usize = if self.inext + 1 >= 56 {
            1
        } else {
            self.inext + 1
        };
        let nextp: usize = if self.inextp + 1 >= 56 {
            1
        } else {
            self.inextp + 1
        };
        let difference: i32 = self.seed_array[next].wrapping_sub(self.seed_array[nextp]);
        let value: i32 = if difference == M_BIG {
            M_BIG - 1
        } else {
            lift(difference)
        };
        let ghost before = *self;
        let mut table: [i32; SEED_ARRAY_LEN] = self.seed_array;
        table[next] = value;
        self.seed_array = table;
        self.inext = next;
        self.inextp = nextp;
        assert(self.seed_array@ =~= before.seed_array@.update(next as int, value));
        value
    }

    /// The next sample, scaled to `max_value`.
    pub fn next_max(&mut self, max_value: i32) -> (r: i32)
        ensures
            r == scaled(sample(old(self)@), max_value),
            final(self)@ == sampled(old(self)@),
    {
        let value: i32 = self.next_sample();
        scale(value, max_value)
    }
}

proof fn lemma_unit(n: nat)
    ensures
        unit_of(n) >= 1,
        n < SIGNIFICAND * unit_of(n),
        unit_of(n) == 1 || n >= 0x10_0000_0000_0000 * unit_of(n),
    decreases n,
{
    if n >= SIGNIFICAND {
        lemma_unit(n / 2);
    }
}

proof fn lemma_to_double_upper(n: nat)
    ensures
        to_double(n) <= n + unit_of(n),
{
    lemma_unit(n);
    let unit = unit_of(n);
    let low = n / unit;
    vstd::arithmetic::div_mod::lemma_fundamental_div_mod(n as int, unit as int);
    assert(low * unit == unit * low) by (nonlinear_arith);
    assert((low + 1) * unit == low * unit + unit) by (nonlinear_arith);
}

/// A sample in range, scaled to `Int32.MaxValue`, stays below it.
pub proof fn law_scaled_in_range(value: i32)
    requires
        0 <= value < i32::MAX,
    ensures
        0 <= scaled(value, i32::MAX) < i32::MAX,
{
    let product = value as nat * INVERSE as nat;
    assert(product <= 0x7FFF_FFFE * 0x8000_0001);
    lemma_unit(product);
    lemma_to_double_upper(product);
    assert(unit_of(product) <= 1024);
    let share = to_double(product);
    let scaled_up = share * 0x7FFF_FFFF;
    assert(scaled_up <= (0x7FFF_FFFE * 0x8000_0001 + 1024) * 0x7FFF_FFFF);
    lemma_unit(scaled_up);
    lemma_to_double_upper(scaled_up);
    assert(unit_of(scaled_up) <= 0x200_0000_0000);
}

/// `n` rounded to a double.
fn round_to_double(n: u128) -> (r: u128)
    requires
        n < 0x1000_0000_0000_0000_0000_0000_0000,
    ensures
        r == to_double(n as nat),
        r <= 2 * n,
{
    let mut unit: u128 = 1;
    let mut left: u128 = n;
    proof {
        lemma_unit(n as nat);
    }
    while left >= SIGNIFICAND
        invariant
            unit_of(n as nat) == unit * unit_of(left as nat),
            1 <= unit,
            unit * left <= n,
            n < 0x1000_0000_0000_0000_0000_0000_0000,
        decreases left,
    {
        assert(unit * 2 * (left / 2) <= unit * left) by (nonlinear_arith)
            requires
                left >= 0,
                unit >= 0,
        ;
        assert(unit * (2 * unit_of((left / 2) as nat)) == unit * 2 * unit_of((left / 2) as nat))
            by (nonlinear_arith);
        assert(unit <= n) by (nonlinear_arith)
            requires
                unit * left <= n,
                left >= 1,
        ;
        unit = unit * 2;
        left = left / 2;
    }
    assert(unit == unit_of(n as nat)) by (nonlinear_arith)
        requires
            unit_of(n as nat) == unit * 1,
    ;
    let low: u128 = n / unit;
    let rest: u128 = n % unit;
    assert(low * unit + rest == n && rest < unit) by {
        vstd::arithmetic::div_mod::lemma_fundamental_div_mod(n as int, unit as int);
        assert(low * unit == unit * low) by (nonlinear_arith);
    }
    assert((low + 1) * unit == low * unit + unit) by (nonlinear_arith);
    if n == 0 {
        assert(low * unit == 0);
    }
    assert(unit <= n || unit == 1);
    if 2 * rest > unit || (2 * rest == unit && low % 2 == 1) {
        (low + 1) * unit
    } else {
        low * unit
    }
}

/// `value * (1.0 / (2^31 - 1)) * max` in doubles, cut to an integer and to 32 bits.
fn scale(value: i32, max: i32) -> (r: i32)
    ensures
        r == scaled(value, max),
{
    let a: u128 = if value < 0 {
        (-(value as i64)) as u128
    } else {
        value as u128
    };
    let b: u128 = if max < 0 {
        (-(max as i64)) as u128
    } else {
        max as u128
    };
    let share: u128 = round_to_double(a * INVERSE);
    assert(share * b <= 0x1_0000_0000_0000_0000 * 0x8000_0000) by (nonlinear_arith)
        requires
            share <= 0x1_0000_0000_0000_0000,
            b <= 0x8000_0000,
    ;
    let whole: u128 = round_to_double(share * b) / SCALE;
    if (value < 0) != (max < 0) {
        if whole > 0x8000_0000 {
            i32::MIN
        } else {
            (-(whole as i64)) as i32
        }
    } else if whole > 0x7FFF_FFFF {
        i32::MAX
    } else {
        whole as i32
    }
}

fn as_unsigned(i: i32) -> (r: u32)
    ensures
        r == unsigned(i),
{
    if i < 0 {
        (i as i64 + 0x1_0000_0000) as u32
    } else {
        i as u32
    }
}

/// The lowest 32 bits of a number.
fn low_word(total: i64) -> (r: u64)
    ensures
        r == total as int % 0x1_0000_0000,
{
    if total >= 0 {
        total as u64 % 0x1_0000_0000
    } else {
        let below: u64 = (-(total + 1)) as u64;
        proof {
            let m = below as int;
            let q = m / 0x1_0000_0000;
            let rest = m % 0x1_0000_0000;
            assert(m == q * 0x1_0000_0000 + rest);
            vstd::arithmetic::div_mod::lemma_fundamental_div_mod_converse(
                total as int,
                0x1_0000_0000,
                -(q + 1),
                0xFFFF_FFFF - rest,
            );
        }
        0xFFFF_FFFF - below % 0x1_0000_0000
    }
}

/// The seed for a login at `unix_seconds`.
pub fn seed_from_unix_seconds(unix_seconds: i64) -> (r: i32)
    ensures
        r == seed_of(unix_seconds),
{
    let total: i64 = unix_seconds.wrapping_add(UNIX_EPOCH_OFFSET_SECONDS);
    let low: u64 = low_word(total);
    if low >= 0x8000_0000 {
        (low as i64 - 0x1_0000_0000) as i32
    } else {
        low as i32
    }
}

/// The key for a seed: the scaled sample in the high half, the seed in the low half.
pub fn client_rand_key(seed: i32) -> (r: u64)
    ensures
        r == key_of(seed),
{
    let mut rng: NetRandom = NetRandom::new(seed);
    let high: i32 = rng.next_max(i32::MAX);
    as_unsigned(high) as u64 * 0x1_0000_0000 + as_unsigned(seed) as u64
}

/// The low half of a key is the seed.
pub proof fn law_key_holds_its_seed(seed: i32)
    ensures
        key_of(seed) as nat % 0x1_0000_0000 == unsigned(seed),
        key_of(seed) as nat / 0x1_0000_0000 == unsigned(scaled(sample(seeded(seed)), i32::MAX)),
{
}

/// From a table without negative entries every sample is at least 0 and less than
/// `Int32.MaxValue`, and the table stays that way.
pub proof fn law_samples_stay_in_range(r: NetRandomView)
    requires
        r.table.len() == SEED_ARRAY_LEN,
        0 <= r.inext <= 55,
        0 <= r.inextp <= 55,
        forall|k: int| 0 <= k < 56 ==> #[trigger] r.table[k] >= 0,
    ensures
        0 <= sample(r) < i32::MAX,
        forall|k: int| 0 <= k < 56 ==> #[trigger] sampled(r).table[k] >= 0,
{
    assert(r.table[stepped(r.inext)] >= 0 && r.table[stepped(r.inextp)] >= 0);
}

/// The seed follows the clock: it counts the seconds since the start of the year 1, and a second
/// later it is one more, around the end of 32 bits.
pub proof fn law_the_seed_follows_the_clock(unix_seconds: i64)
    requires
        -62_135_596_800 <= unix_seconds < 9_000_000_000_000_000_000,
    ensures
        unsigned(seed_of(unix_seconds)) == (unix_seconds + 62_135_596_800) % 0x1_0000_0000,
        unsigned(seed_of((unix_seconds + 1) as i64)) == (unsigned(seed_of(unix_seconds)) + 1)
            % 0x1_0000_0000,
{
}

/// A seed and its negation start the same generator, and the lowest seed starts that of the
/// highest.
pub proof fn law_the_sign_of_a_seed_does_not_matter(seed: i32)
    requires
        seed > i32::MIN,
    ensures
        seeded((-seed) as i32) == seeded(seed),
        seeded(i32::MIN) == seeded(i32::MAX),
{
    lemma_same_start(seed, (-seed) as i32, 54);
    lemma_same_start(i32::MIN, i32::MAX, 54);
}

proof fn lemma_same_start(a: i32, b: i32, i: nat)
    requires
        start_of(a) == start_of(b),
    ensures
        filled(a, i) == filled(b, i),
    decreases i,
{
    if i > 0 {
        lemma_same_start(a, b, (i - 1) as nat);
    }
}

/// Scaling is odd in both of its arguments.
pub proof fn law_scaling_is_odd(value: i32, max: i32)
    requires
        0 < value,
        0 < max,
        0 <= scaled(value, max) < i32::MAX,
    ensures
        scaled((-value) as i32, max) == -scaled(value, max),
        scaled(value, (-max) as i32) == -scaled(value, max),
        scaled((-value) as i32, (-max) as i32) == scaled(value, max),
{
}

/// A number is rounded to the nearest double: to a multiple of the distance between doubles
/// there, by no more than half of it, and a number that is a double stays.
pub proof fn law_rounding_is_to_the_nearest(n: nat)
    ensures
        ({
            let unit = unit_of(n);
            &&& unit >= 1
            &&& n < 0x20_0000_0000_0000 * unit
            &&& 2 * to_double(n) <= 2 * n + unit
            &&& 2 * n <= 2 * to_double(n) + unit
            &&& n < 0x20_0000_0000_0000 ==> to_double(n) == n
        }),
{
    lemma_unit(n);
    let unit = unit_of(n);
    let low = n / unit;
    vstd::arithmetic::div_mod::lemma_fundamental_div_mod(n as int, unit as int);
    vstd::arithmetic::div_mod::lemma_mod_bound(n as int, unit as int);
    assert(low * unit == unit * low) by (nonlinear_arith);
    assert((low + 1) * unit == low * unit + unit) by (nonlinear_arith);
}

/// A sample that is scaled to its own range stays what it was, or is one less.
pub proof fn law_scaling_to_the_whole_range_keeps_the_sample(value: i32)
    requires
        0 <= value < i32::MAX,
    ensures
        value - 1 <= scaled(value, i32::MAX) <= value,
        scaled(0, i32::MAX) == 0,
{
    let product = value as nat * INVERSE as nat;
    assert(product <= 0x7FFF_FFFE * 0x8000_0001);
    lemma_unit(product);
    law_rounding_is_to_the_nearest(product);
    assert(unit_of(product) <= 1024);
    let share = to_double(product);
    let scaled_up = share * 0x7FFF_FFFF;
    assert(scaled_up <= (0x7FFF_FFFE * 0x8000_0001 + 1024) * 0x7FFF_FFFF);
    lemma_unit(scaled_up);
    law_rounding_is_to_the_nearest(scaled_up);
    assert(unit_of(scaled_up) <= 0x200_0000_0000);
    law_rounding_is_to_the_nearest(0);
}

} // verus!
