//! Stable sorting by an integer key.
use crate::lookup;
use vstd::prelude::*;

verus! {

/// Something that is ordered by an integer.
pub trait Keyed {
    spec fn key_spec(&self) -> int;

    fn sort_key(&self) -> (k: i128)
        ensures
            k == self.key_spec(),
    ;
}

/// `x` put behind the last element whose key is not greater, reading from the back.
pub open spec fn insert_sorted<T>(s: Seq<T>, key: spec_fn(T) -> int, x: T) -> Seq<T>
    decreases s.len(),
{
    if s.len() == 0 || key(s.last()) <= key(x) {
        s.push(x)
    } else {
        insert_sorted(s.drop_last(), key, x).push(s.last())
    }
}

/// `s` in ascending order of `key`, equal keys in the order they stand in: see
/// [`law_stable_sort`].
pub open spec fn stable_sort<T>(s: Seq<T>, key: spec_fn(T) -> int) -> Seq<T>
    decreases s.len(),
{
    if s.len() == 0 {
        s
    } else {
        insert_sorted(stable_sort(s.drop_last(), key), key, s.last())
    }
}

/// The keys do not descend.
pub open spec fn ascending<T>(s: Seq<T>, key: spec_fn(T) -> int) -> bool {
    forall|i: int, j: int| 0 <= i <= j < s.len() ==> key(#[trigger] s[i]) <= key(#[trigger] s[j])
}

/// The condition to have key `k`.
pub open spec fn has_key<T>(key: spec_fn(T) -> int, k: int) -> spec_fn(T) -> bool {
    |x: T| key(x) == k
}

/// The elements with key `k`.
pub open spec fn with_key<T>(s: Seq<T>, key: spec_fn(T) -> int, k: int) -> Seq<T> {
    s.filter(has_key(key, k))
}

proof fn lemma_filter_push<T>(s: Seq<T>, p: spec_fn(T) -> bool, x: T)
    ensures
        s.push(x).filter(p) == if p(x) {
            s.filter(p).push(x)
        } else {
            s.filter(p)
        },
{
    reveal(Seq::filter);
    assert(s.push(x).drop_last() =~= s);
}

proof fn lemma_insert_sorted<T>(s: Seq<T>, key: spec_fn(T) -> int, x: T)
    requires
        ascending(s, key),
    ensures
        ascending(insert_sorted(s, key, x), key),
        insert_sorted(s, key, x).len() == s.len() + 1,
        forall|k: int| #[trigger]
            with_key(insert_sorted(s, key, x), key, k) == if key(x) == k {
                with_key(s, key, k).push(x)
            } else {
                with_key(s, key, k)
            },
        forall|i: int|
            0 <= i < s.len() + 1 ==> #[trigger] insert_sorted(s, key, x)[i] == x || s.contains(
                insert_sorted(s, key, x)[i],
            ),
    decreases s.len(),
{
    let r = insert_sorted(s, key, x);
    if s.len() == 0 || key(s.last()) <= key(x) {
        assert forall|k: int| #[trigger] with_key(r, key, k) == if key(x) == k {
            with_key(s, key, k).push(x)
        } else {
            with_key(s, key, k)
        } by {
            lemma_filter_push(s, has_key(key, k), x);
        }
        assert forall|i: int, j: int| 0 <= i <= j < r.len() implies key(#[trigger] r[i]) <= key(
            #[trigger] r[j],
        ) by {
            if j == s.len() && i < j {
                assert(key(s[i]) <= key(s[s.len() - 1]));
            }
        }
        assert forall|i: int| 0 <= i < s.len() + 1 implies #[trigger] r[i] == x || s.contains(
            r[i],
        ) by {
            if i < s.len() {
                assert(s[i] == r[i]);
            }
        }
    } else {
        let init = s.drop_last();
        let last = s.last();
        assert forall|i: int, j: int| 0 <= i <= j < init.len() implies key(#[trigger] init[i])
            <= key(#[trigger] init[j]) by {
            assert(init[i] == s[i] && init[j] == s[j]);
        }
        lemma_insert_sorted(init, key, x);
        let inner = insert_sorted(init, key, x);
        assert forall|i: int| 0 <= i < inner.len() implies key(#[trigger] inner[i]) <= key(last) by {
            if inner[i] != x {
                let w = choose|w: int| 0 <= w < init.len() && init[w] == inner[i];
                assert(init[w] == s[w]);
                assert(key(s[w]) <= key(s[s.len() - 1]));
            }
        }
        assert forall|i: int, j: int| 0 <= i <= j < r.len() implies key(#[trigger] r[i]) <= key(
            #[trigger] r[j],
        ) by {
            if j < inner.len() {
                assert(r[i] == inner[i] && r[j] == inner[j]);
            } else if i < inner.len() {
                assert(r[i] == inner[i]);
            }
        }
        assert forall|k: int| #[trigger] with_key(r, key, k) == if key(x) == k {
            with_key(s, key, k).push(x)
        } else {
            with_key(s, key, k)
        } by {
            let p = has_key(key, k);
            lemma_filter_push(inner, p, last);
            lemma_filter_push(init, p, last);
            assert(init.push(last) =~= s);
            assert(with_key(inner, key, k) == if key(x) == k {
                with_key(init, key, k).push(x)
            } else {
                with_key(init, key, k)
            });
        }
        assert forall|i: int| 0 <= i < s.len() + 1 implies #[trigger] r[i] == x || s.contains(
            r[i],
        ) by {
            if i < inner.len() {
                assert(r[i] == inner[i]);
                if inner[i] != x {
                    let w = choose|w: int| 0 <= w < init.len() && init[w] == inner[i];
                    assert(s[w] == r[i]);
                }
            } else {
                assert(s[s.len() - 1] == r[i]);
            }
        }
    }
}

/// A stable sort puts the keys in ascending order, and the elements with any one key are
/// those of the input, in the order they stand in there.
pub proof fn law_stable_sort<T>(s: Seq<T>, key: spec_fn(T) -> int)
    ensures
        ascending(stable_sort(s, key), key),
        stable_sort(s, key).len() == s.len(),
        forall|k: int| #[trigger] with_key(stable_sort(s, key), key, k) == with_key(s, key, k),
    decreases s.len(),
{
    if s.len() > 0 {
        let init = s.drop_last();
        let sorted = stable_sort(init, key);
        law_stable_sort(init, key);
        lemma_insert_sorted(sorted, key, s.last());
        assert forall|k: int| #[trigger] with_key(stable_sort(s, key), key, k) == with_key(
            s,
            key,
            k,
        ) by {
            lemma_filter_push(init, has_key(key, k), s.last());
            assert(init.push(s.last()) =~= s);
            assert(with_key(sorted, key, k) == with_key(init, key, k));
        }
    }
}

/// After a stable sort the first element with a key is the one that was first before.
pub proof fn law_first_with_key_is_kept<T>(s: Seq<T>, key: spec_fn(T) -> int, k: int)
    ensures
        lookup::find_first(stable_sort(s, key), has_key(key, k)) == lookup::find_first(
            s,
            has_key(key, k),
        ),
{
    law_stable_sort(s, key);
    let p = has_key(key, k);
    lookup::lemma_find_first_is_filter_head(s, p);
    lookup::lemma_find_first_is_filter_head(stable_sort(s, key), p);
    assert(with_key(stable_sort(s, key), key, k) == with_key(s, key, k));
}

proof fn lemma_insert_sorted_map<A, B>(
    s: Seq<A>,
    f: spec_fn(A) -> B,
    key: spec_fn(A) -> int,
    mapped_key: spec_fn(B) -> int,
    x: A,
)
    requires
        forall|a: A| key(a) == #[trigger] mapped_key(f(a)),
    ensures
        insert_sorted(s, key, x).map_values(f) == insert_sorted(s.map_values(f), mapped_key, f(x)),
    decreases s.len(),
{
    let t = s.map_values(f);
    if s.len() == 0 {
        assert(s.push(x).map_values(f) =~= t.push(f(x)));
    } else {
        assert(t.last() == f(s.last()));
        assert(mapped_key(f(s.last())) == key(s.last()) && mapped_key(f(x)) == key(x));
        if key(s.last()) <= key(x) {
            assert(s.push(x).map_values(f) =~= t.push(f(x)));
        } else {
            lemma_insert_sorted_map(s.drop_last(), f, key, mapped_key, x);
            assert(s.drop_last().map_values(f) =~= t.drop_last());
            let inner = insert_sorted(s.drop_last(), key, x);
            assert(inner.push(s.last()).map_values(f) =~= inner.map_values(f).push(f(s.last())));
        }
    }
}

/// Sorting commutes with a map that keeps the keys.
pub proof fn lemma_stable_sort_map<A, B>(
    s: Seq<A>,
    f: spec_fn(A) -> B,
    key: spec_fn(A) -> int,
    mapped_key: spec_fn(B) -> int,
)
    requires
        forall|a: A| key(a) == #[trigger] mapped_key(f(a)),
    ensures
        stable_sort(s, key).map_values(f) == stable_sort(s.map_values(f), mapped_key),
    decreases s.len(),
{
    if s.len() == 0 {
        assert(s.map_values(f) =~= Seq::empty());
        assert(stable_sort(s.map_values(f), mapped_key) =~= Seq::empty());
    } else {
        let init = s.drop_last();
        lemma_stable_sort_map(init, f, key, mapped_key);
        lemma_insert_sorted_map(stable_sort(init, key), f, key, mapped_key, s.last());
        assert(s.map_values(f).drop_last() =~= init.map_values(f));
    }
}

proof fn lemma_insert_at<T>(s: Seq<T>, key: spec_fn(T) -> int, x: T, j: int)
    requires
        0 <= j <= s.len(),
        j == 0 || key(s[j - 1]) <= key(x),
        forall|k: int| j <= k < s.len() ==> key(#[trigger] s[k]) > key(x),
    ensures
        insert_sorted(s, key, x) == s.insert(j, x),
    decreases s.len(),
{
    if j < s.len() {
        let init = s.drop_last();
        assert(key(s[s.len() - 1]) > key(x));
        assert forall|k: int| j <= k < init.len() implies key(#[trigger] init[k]) > key(x) by {
            assert(init[k] == s[k]);
        }
        lemma_insert_at(init, key, x, j);
        assert(init.insert(j, x).push(s.last()) =~= s.insert(j, x));
    } else {
        assert(s.push(x) =~= s.insert(j, x));
    }
}

/// Sorts in place by insertion; equal keys keep their order.
pub fn sort_by_key<T: Keyed>(v: &mut Vec<T>)
    ensures
        final(v)@ == stable_sort(old(v)@, |t: T| t.key_spec()),
{
    let ghost key = |t: T| t.key_spec();
    let ghost all = v@;
    let mut i: usize = 0;
    assert(v@.take(0) =~= stable_sort(all.take(0), key));
    while i < v.len()
        invariant
            i <= v.len(),
            v@.len() == all.len(),
            key == (|t: T| t.key_spec()),
            v@.take(i as int) == stable_sort(all.take(i as int), key),
            v@.skip(i as int) == all.skip(i as int),
        decreases v.len() - i,
    {
        let ghost sorted = v@.take(i as int);
        let ghost before = v@;
        let ghost x = v@[i as int];
        assert(x == all[i as int]) by {
            assert(v@.skip(i as int)[0] == all.skip(i as int)[0]);
        }
        let wanted: i128 = v[i].sort_key();
        let mut j: usize = i;
        while j > 0 && v[j - 1].sort_key() > wanted
            invariant
                j <= i < v.len(),
                v@ == before,
                sorted == v@.take(i as int),
                key == (|t: T| t.key_spec()),
                x == v@[i as int],
                wanted == key(x),
                forall|k: int| j <= k < i ==> key(#[trigger] sorted[k]) > wanted,
            decreases j,
        {
            assert(sorted[j - 1] == v@[j - 1]);
            j = j - 1;
        }
        proof {
            if j > 0 {
                assert(sorted[j - 1] == v@[j - 1]);
            }
            lemma_insert_at(sorted, key, x, j as int);
        }
        if j < i {
            let moved: T = v.remove(i);
            v.insert(j, moved);
        }
        assert(v@.take(i + 1) =~= sorted.insert(j as int, x));
        assert(all.take(i + 1).drop_last() =~= all.take(i as int));
        assert(all.take(i + 1).last() == x);
        assert(v@.skip(i + 1) =~= all.skip(i + 1)) by {
            assert(before.skip(i as int).skip(1) =~= before.skip(i + 1));
            assert(all.skip(i as int).skip(1) =~= all.skip(i + 1));
            assert(v@.skip(i + 1) =~= before.skip(i + 1));
        }
        i = i + 1;
    }
    assert(v@.take(i as int) =~= v@);
    assert(all.take(i as int) =~= all);
}

proof fn lemma_inserted_member<T>(s: Seq<T>, key: spec_fn(T) -> int, x: T, y: T)
    ensures
        insert_sorted(s, key, x).contains(y) <==> s.contains(y) || y == x,
    decreases s.len(),
{
    let r = insert_sorted(s, key, x);
    if s.len() == 0 || key(s.last()) <= key(x) {
        assert(r =~= s.push(x));
        assert(r[s.len() as int] == x);
        if s.contains(y) {
            let i = choose|i: int| 0 <= i < s.len() && s[i] == y;
            assert(r[i] == y);
        }
    } else {
        let init = s.drop_last();
        lemma_inserted_member(init, key, x, y);
        let inner = insert_sorted(init, key, x);
        assert(r =~= inner.push(s.last()));
        assert(r[inner.len() as int] == s.last());
        assert(s[s.len() - 1] == s.last());
        if inner.contains(y) {
            let i = choose|i: int| 0 <= i < inner.len() && inner[i] == y;
            assert(r[i] == y);
        }
        if init.contains(y) {
            let i = choose|i: int| 0 <= i < init.len() && init[i] == y;
            assert(s[i] == y);
        }
        if r.contains(y) {
            let i = choose|i: int| 0 <= i < r.len() && r[i] == y;
            if i < inner.len() {
                assert(inner[i] == y);
            }
        }
        if s.contains(y) {
            let i = choose|i: int| 0 <= i < s.len() && s[i] == y;
            if i < init.len() {
                assert(init[i] == y);
            }
        }
    }
}

/// Sorting loses nothing and adds nothing.
pub proof fn law_sorting_keeps_the_members<T>(s: Seq<T>, key: spec_fn(T) -> int, y: T)
    ensures
        stable_sort(s, key).contains(y) <==> s.contains(y),
    decreases s.len(),
{
    if s.len() > 0 {
        let init = s.drop_last();
        law_sorting_keeps_the_members(init, key, y);
        lemma_inserted_member(stable_sort(init, key), key, s.last(), y);
        assert(s[s.len() - 1] == s.last());
        if init.contains(y) {
            let i = choose|i: int| 0 <= i < init.len() && init[i] == y;
            assert(s[i] == y);
        }
        if s.contains(y) {
            let i = choose|i: int| 0 <= i < s.len() && s[i] == y;
            if i < init.len() {
                assert(init[i] == y);
            }
        }
    }
}

} // verus!
