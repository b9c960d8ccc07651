//! What the inverse cipher keeps apart.
use crate::ec2b::{after_rounds, shifted, substituted, unmixed, unscrambled, with_key, KEY_SIZE};
use crate::ec2b_field;
use crate::ec2b_tables::SHIFT_ROWS;
use vstd::prelude::*;

verus! {

proof fn lemma_with_key_injective(x: Seq<u8>, y: Seq<u8>, keys: Seq<u8>, at: int)
    requires
        x.len() == 16,
        y.len() == 16,
        with_key(x, keys, at) == with_key(y, keys, at),
    ensures
        x == y,
{
    assert forall|i: int| 0 <= i < 16 implies x[i] == y[i] by {
        let a: u8 = x[i];
        let b: u8 = y[i];
        let k: u8 = keys[at + i];
        assert(with_key(x, keys, at)[i] == a ^ k);
        assert(with_key(y, keys, at)[i] == b ^ k);
        assert(a == b) by (bit_vector)
            requires
                a ^ k == b ^ k,
        ;
    }
    assert(x =~= y);
}

proof fn lemma_substituted_injective(x: Seq<u8>, y: Seq<u8>)
    requires
        x.len() == 16,
        y.len() == 16,
        shifted(substituted(x)) == shifted(substituted(y)),
    ensures
        x == y,
{
    assert forall|i: int| 0 <= i < 16 implies x[i] == y[i] by {
        ec2b_field::law_shift_is_undone(i);
        let at = SHIFT_ROWS@[i] as int;
        assert(shifted(substituted(x))[at] == substituted(x)[i]);
        assert(shifted(substituted(y))[at] == substituted(y)[i]);
        ec2b_field::law_substitution_is_undone(x[i]);
        ec2b_field::law_substitution_is_undone(y[i]);
    }
    assert(x =~= y);
}

/// A column of an unmixed state gives the byte back that it was made from.
proof fn lemma_unmixed_byte(x: Seq<u8>, i: int)
    requires
        0 <= i < 16,
    ensures
        ({
            let u = unmixed(x);
            let col = i / 4 * 4;
            x[i] == ec2b_field::mixed_byte(
                u[i],
                u[col + (i + 1) % 4],
                u[col + (i + 2) % 4],
                u[col + (i + 3) % 4],
            )
        }),
{
    let col = i / 4 * 4;
    let (j, k, l) = (col + (i + 1) % 4, col + (i + 2) % 4, col + (i + 3) % 4);
    assert(j / 4 * 4 == col && k / 4 * 4 == col && l / 4 * 4 == col);
    assert(col + (j + 1) % 4 == k && col + (j + 2) % 4 == l && col + (j + 3) % 4 == i);
    assert(col + (k + 1) % 4 == l && col + (k + 2) % 4 == i && col + (k + 3) % 4 == j);
    assert(col + (l + 1) % 4 == i && col + (l + 2) % 4 == j && col + (l + 3) % 4 == k);
    ec2b_field::law_unmixing_is_undone(x[i], x[j], x[k], x[l]);
}

proof fn lemma_unmixed_injective(x: Seq<u8>, y: Seq<u8>)
    requires
        x.len() == 16,
        y.len() == 16,
        unmixed(x) == unmixed(y),
    ensures
        x == y,
{
    assert forall|i: int| 0 <= i < 16 implies x[i] == y[i] by {
        lemma_unmixed_byte(x, i);
        lemma_unmixed_byte(y, i);
    }
    assert(x =~= y);
}

proof fn lemma_rounds_injective(x: Seq<u8>, y: Seq<u8>, keys: Seq<u8>, rounds: nat)
    requires
        x.len() == 16,
        y.len() == 16,
        after_rounds(x, keys, rounds) == after_rounds(y, keys, rounds),
    ensures
        x == y,
    decreases rounds,
{
    if rounds == 0 {
        lemma_with_key_injective(x, y, keys, 0);
    } else {
        let p = after_rounds(x, keys, (rounds - 1) as nat);
        let q = after_rounds(y, keys, (rounds - 1) as nat);
        lemma_with_key_injective(
            unmixed(shifted(substituted(p))),
            unmixed(shifted(substituted(q))),
            keys,
            16 * rounds as int,
        );
        lemma_unmixed_injective(shifted(substituted(p)), shifted(substituted(q)));
        lemma_substituted_injective(p, q);
        lemma_rounds_injective(x, y, keys, (rounds - 1) as nat);
    }
}

/// Under the same round keys different keys are unscrambled to different results.
pub proof fn law_different_keys_stay_different(x: Seq<u8>, y: Seq<u8>, keys: Seq<u8>)
    requires
        x.len() == KEY_SIZE,
        y.len() == KEY_SIZE,
        x != y,
    ensures
        unscrambled(x, keys) != unscrambled(y, keys),
{
    if unscrambled(x, keys) == unscrambled(y, keys) {
        let p = after_rounds(x, keys, 9);
        let q = after_rounds(y, keys, 9);
        lemma_with_key_injective(shifted(substituted(p)), shifted(substituted(q)), keys, 160);
        lemma_substituted_injective(p, q);
        lemma_rounds_injective(x, y, keys, 9);
    }
}

} // verus!
