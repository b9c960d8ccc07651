//! How often each of some values occurs.
use crate::lookup;
use crate::sort;
use crate::sort::Keyed;
use vstd::prelude::*;

verus! {

/// A value and how often it occurs. The counter wraps.
#[derive(Debug, Clone, Copy, PartialEq, Eq, Structural)]
pub struct Tally {
    pub value: u64,
    pub count: u64,
}

/// The condition not to stand before a value.
pub open spec fn from_value(value: u64) -> spec_fn(Tally) -> bool {
    |t: Tally| t.value >= value
}

/// One more occurrence; the values stand in ascending order.
pub open spec fn counted(tallies: Seq<Tally>, value: u64) -> Seq<Tally> {
    let i = lookup::index_first(tallies, from_value(value));
    if i < tallies.len() && tallies[i].value == value {
        tallies.update(i, Tally { value, count: tallies[i].count.wrapping_add(1) })
    } else {
        tallies.insert(i, Tally { value, count: 1 })
    }
}

/// How often each value occurs, in ascending order of the values.
pub open spec fn tallied(values: Seq<u64>) -> Seq<Tally>
    decreases values.len(),
{
    if values.len() == 0 {
        Seq::empty()
    } else {
        counted(tallied(values.drop_last()), values.last())
    }
}

/// Counts one more occurrence.
pub fn count(tallies: &mut Vec<Tally>, value: u64)
    ensures
        final(tallies)@ == counted(old(tallies)@, value),
{
    let mut i: usize = 0;
    while i < tallies.len() && tallies[i].value < value
        invariant
            i <= tallies@.len(),
            forall|k: int| 0 <= k < i ==> !from_value(value)(#[trigger] tallies@[k]),
        decreases tallies@.len() - i,
    {
        i = i + 1;
    }
    proof {
        lookup::lemma_find_first(tallies@, from_value(value), i as int);
    }
    if i < tallies.len() && tallies[i].value == value {
        let count: u64 = tallies[i].count.wrapping_add(1);
        tallies.set(i, Tally { value, count });
    } else {
        tallies.insert(i, Tally { value, count: 1 });
    }
}

/// Counts the occurrences of each value.
pub fn tally(values: &[u64]) -> (r: Vec<Tally>)
    ensures
        r@ == tallied(values@),
{
    let mut tallies: Vec<Tally> = Vec::new();
    let mut i: usize = 0;
    assert(values@.take(0) =~= Seq::empty());
    while i < values.len()
        invariant
            i <= values@.len(),
            tallies@ == tallied(values@.take(i as int)),
        decreases values@.len() - i,
    {
        assert(values@.take(i + 1).drop_last() =~= values@.take(i as int));
        assert(values@.take(i + 1).last() == values@[i as int]);
        count(&mut tallies, values[i]);
        i = i + 1;
    }
    assert(values@.take(i as int) =~= values@);
    tallies
}

/// The order in which the most frequent comes first.
pub open spec fn by_count() -> spec_fn(Tally) -> int {
    |t: Tally| -(t.count as int)
}

impl Keyed for Tally {
    open spec fn key_spec(&self) -> int {
        -(self.count as int)
    }

    fn sort_key(&self) -> (k: i128) {
        -(self.count as i128)
    }
}

/// The `n` most frequent; equally frequent ones stay in order.
pub open spec fn top(tallies: Seq<Tally>, n: nat) -> Seq<Tally> {
    let ranked = sort::stable_sort(tallies, by_count());
    if n < ranked.len() {
        ranked.take(n as int)
    } else {
        ranked
    }
}

/// The `n` most frequent.
pub fn most_frequent(tallies: Vec<Tally>, n: usize) -> (r: Vec<Tally>)
    ensures
        r@ == top(tallies@, n as nat),
{
    let mut ranked: Vec<Tally> = tallies;
    sort::sort_by_key(&mut ranked);
    assert((|t: Tally| t.key_spec()) =~= by_count());
    ranked.truncate(n);
    ranked
}

/// How often a value occurs.
pub open spec fn occurrences(values: Seq<u64>, value: u64) -> nat
    decreases values.len(),
{
    if values.len() == 0 {
        0
    } else {
        occurrences(values.drop_last(), value) + if values.last() == value {
            1nat
        } else {
            0nat
        }
    }
}

/// The values stand in ascending order, each once.
pub open spec fn ascending(tallies: Seq<Tally>) -> bool {
    forall|i: int, j: int|
        0 <= i < j < tallies.len() ==> (#[trigger] tallies[i]).value < (#[trigger] tallies[j]).value
}

/// Each value that occurs is listed once, in ascending order, with how often it occurs.
pub proof fn law_tallies_count_occurrences(values: Seq<u64>)
    requires
        values.len() <= u64::MAX,
    ensures
        ascending(tallied(values)),
        forall|i: int|
            0 <= i < tallied(values).len() ==> (#[trigger] tallied(values)[i]).count == occurrences(
                values,
                tallied(values)[i].value,
            ) && tallied(values)[i].count > 0,
        forall|value: u64| #[trigger]
            occurrences(values, value) > 0 ==> exists|i: int|
                0 <= i < tallied(values).len() && (#[trigger] tallied(values)[i]).value == value,
    decreases values.len(),
{
    if values.len() > 0 {
        let init = values.drop_last();
        let x = values.last();
        law_tallies_count_occurrences(init);
        let old = tallied(init);
        let new = tallied(values);
        lookup::lemma_index_first(old, from_value(x));
        let at = lookup::index_first(old, from_value(x));
        lemma_occurrences_bound(init, x);
        assert forall|i: int, j: int| 0 <= i < j < new.len() implies (#[trigger] new[i]).value < (
        #[trigger] new[j]).value by {
            if at < old.len() && old[at].value == x {
                assert(old[i].value < old[j].value);
            } else {
                if i < at {
                    assert(!from_value(x)(old[i]));
                }
                if j < at {
                    assert(old[i].value < old[j].value);
                } else if j > at {
                    assert(new[j] == old[j - 1]);
                    assert(old[at].value <= old[j - 1].value);
                    if i > at {
                        assert(old[i - 1].value < old[j - 1].value);
                    } else if i < at {
                        assert(old[i].value < old[j - 1].value);
                    }
                }
            }
        }
        assert forall|i: int| 0 <= i < new.len() implies (#[trigger] new[i]).count == occurrences(
            values,
            new[i].value,
        ) && new[i].count > 0 by {
            if at < old.len() && old[at].value == x {
                if i != at {
                    assert(new[i] == old[i]);
                    if i < at {
                        assert(old[i].value < old[at].value);
                    } else {
                        assert(old[at].value < old[i].value);
                    }
                } else {
                    assert(old[at].count == occurrences(init, x));
                }
            } else if i < at {
                assert(new[i] == old[i]);
                assert(!from_value(x)(old[i]));
            } else if i > at {
                assert(new[i] == old[i - 1]);
                assert(old[at].value > x);
                assert(old[at].value <= old[i - 1].value);
            } else {
                if occurrences(init, x) > 0 {
                    let k = choose|k: int| 0 <= k < old.len() && (#[trigger] old[k]).value == x;
                    if k < at {
                        assert(!from_value(x)(old[k]));
                    } else if k > at {
                        assert(old[at].value < old[k].value);
                    }
                }
            }
        }
        assert forall|value: u64| #[trigger] occurrences(values, value) > 0 implies exists|i: int|
            0 <= i < new.len() && (#[trigger] new[i]).value == value by {
            if value == x {
                assert(new[at].value == x);
            } else {
                assert(occurrences(init, value) > 0);
                let k = choose|k: int| 0 <= k < old.len() && (#[trigger] old[k]).value == value;
                if at < old.len() && old[at].value == x {
                    assert(new[k].value == value);
                } else if k < at {
                    assert(new[k].value == value);
                } else {
                    assert(new[k + 1].value == value);
                }
            }
        }
    }
}

proof fn lemma_occurrences_bound(values: Seq<u64>, value: u64)
    ensures
        occurrences(values, value) <= values.len(),
    decreases values.len(),
{
    if values.len() > 0 {
        lemma_occurrences_bound(values.drop_last(), value);
    }
}

/// The most frequent values are listed, with how often they occur: none occurs less often than
/// one behind it, and no value that is left out occurs more often than one that is listed.
pub proof fn law_the_most_frequent_come_first(values: Seq<u64>, n: nat, value: u64)
    requires
        values.len() <= u64::MAX,
    ensures
        ({
            let all = tallied(values);
            let listed = top(all, n);
            &&& listed.len() == if n < all.len() {
                n
            } else {
                all.len()
            }
            &&& forall|i: int, j: int|
                0 <= i < j < listed.len() ==> (#[trigger] listed[i]).count >= (#[trigger]
                listed[j]).count
            &&& forall|i: int|
                0 <= i < listed.len() ==> (#[trigger] listed[i]).count == occurrences(
                    values,
                    listed[i].value,
                ) && listed[i].count > 0
            &&& (forall|i: int| 0 <= i < listed.len() ==> (#[trigger] listed[i]).value != value)
                ==> forall|i: int|
                0 <= i < listed.len() ==> occurrences(values, value) <= (#[trigger] listed[i]).count
        }),
{
    let all = tallied(values);
    let key = by_count();
    law_tallies_count_occurrences(values);
    sort::law_stable_sort(all, key);
    let ranked = sort::stable_sort(all, key);
    let listed = top(all, n);
    assert forall|i: int, j: int| 0 <= i < j < listed.len() implies (#[trigger] listed[i]).count >= (
    #[trigger] listed[j]).count by {
        assert(listed[i] == ranked[i] && listed[j] == ranked[j]);
        assert(key(ranked[i]) <= key(ranked[j]));
    }
    assert forall|i: int| 0 <= i < listed.len() implies (#[trigger] listed[i]).count == occurrences(
        values,
        listed[i].value,
    ) && listed[i].count > 0 by {
        let t = ranked[i];
        sort::law_sorting_keeps_the_members(all, key, t);
        let a = choose|a: int| 0 <= a < all.len() && all[a] == t;
        assert(all[a].count == occurrences(values, all[a].value));
    }
    if (forall|i: int| 0 <= i < listed.len() ==> (#[trigger] listed[i]).value != value)
        && occurrences(values, value) > 0 {
        let a = choose|a: int| 0 <= a < all.len() && (#[trigger] all[a]).value == value;
        let t = all[a];
        sort::law_sorting_keeps_the_members(all, key, t);
        let b = choose|b: int| 0 <= b < ranked.len() && ranked[b] == t;
        assert forall|i: int| 0 <= i < listed.len() implies occurrences(values, value) <= (#[trigger]
        listed[i]).count by {
            assert(listed[i] == ranked[i]);
            if b < listed.len() {
                assert(listed[b] == t);
            }
            assert(key(ranked[i]) <= key(ranked[b]));
        }
    }
}

} // verus!
