//! The first and the last element of a sequence that satisfies a condition.
use vstd::prelude::*;

verus! {

/// The first element that satisfies `p`.
pub open spec fn find_first<T>(s: Seq<T>, p: spec_fn(T) -> bool) -> Option<T>
    decreases s.len(),
{
    if s.len() == 0 {
        None
    } else if p(s[0]) {
        Some(s[0])
    } else {
        find_first(s.skip(1), p)
    }
}

/// The last element that satisfies `p`.
pub open spec fn find_last<T>(s: Seq<T>, p: spec_fn(T) -> bool) -> Option<T>
    decreases s.len(),
{
    if s.len() == 0 {
        None
    } else if p(s.last()) {
        Some(s.last())
    } else {
        find_last(s.drop_last(), p)
    }
}

/// The position of the first element that satisfies `p`, or the length.
pub open spec fn index_first<T>(s: Seq<T>, p: spec_fn(T) -> bool) -> int
    decreases s.len(),
{
    if s.len() == 0 || p(s[0]) {
        0
    } else {
        1 + index_first(s.skip(1), p)
    }
}

/// Where nothing before `i` satisfies `p`, the search is settled by what stands at `i`.
pub proof fn lemma_find_first<T>(s: Seq<T>, p: spec_fn(T) -> bool, i: int)
    requires
        0 <= i <= s.len(),
        forall|k: int| 0 <= k < i ==> !p(#[trigger] s[k]),
    ensures
        i < s.len() && p(s[i]) ==> find_first(s, p) == Some(s[i]) && index_first(s, p) == i,
        i == s.len() ==> find_first(s, p) is None && index_first(s, p) == i,
    decreases i,
{
    if i > 0 {
        let tail = s.skip(1);
        assert forall|k: int| 0 <= k < i - 1 implies !p(#[trigger] tail[k]) by {
            assert(tail[k] == s[k + 1]);
        }
        assert(!p(s[0]));
        lemma_find_first(tail, p, i - 1);
    }
}

/// What was found stands in the sequence, and nothing before it satisfies `p`.
pub proof fn lemma_index_first<T>(s: Seq<T>, p: spec_fn(T) -> bool)
    ensures
        0 <= index_first(s, p) <= s.len(),
        forall|k: int| 0 <= k < index_first(s, p) ==> !p(#[trigger] s[k]),
        index_first(s, p) < s.len() ==> p(s[index_first(s, p)]) && find_first(s, p) == Some(
            s[index_first(s, p)],
        ),
        index_first(s, p) == s.len() ==> find_first(s, p) is None,
    decreases s.len(),
{
    if s.len() > 0 && !p(s[0]) {
        let tail = s.skip(1);
        lemma_index_first(tail, p);
        assert forall|k: int| 0 <= k < index_first(s, p) implies !p(#[trigger] s[k]) by {
            if k > 0 {
                assert(s[k] == tail[k - 1]);
            }
        }
    }
}

/// Where nothing from `i` on satisfies `p`, the search is settled by what stands before `i`.
pub proof fn lemma_find_last<T>(s: Seq<T>, p: spec_fn(T) -> bool, i: int)
    requires
        0 <= i <= s.len(),
        forall|k: int| i <= k < s.len() ==> !p(#[trigger] s[k]),
    ensures
        i > 0 && p(s[i - 1]) ==> find_last(s, p) == Some(s[i - 1]),
        i == 0 ==> find_last(s, p) is None,
    decreases s.len() - i,
{
    if i < s.len() {
        let init = s.drop_last();
        assert forall|k: int| i <= k < init.len() implies !p(#[trigger] init[k]) by {
            assert(init[k] == s[k]);
        }
        assert(!p(s[s.len() - 1]));
        lemma_find_last(init, p, i);
    }
}

/// The first element that satisfies `p` is the head of what a filter keeps.
pub proof fn lemma_find_first_is_filter_head<T>(s: Seq<T>, p: spec_fn(T) -> bool)
    ensures
        find_first(s, p) == if s.filter(p).len() == 0 {
            None::<T>
        } else {
            Some(s.filter(p)[0])
        },
    decreases s.len(),
{
    reveal(Seq::filter);
    if s.len() > 0 {
        let init = s.drop_last();
        lemma_find_first_is_filter_head(init, p);
        lemma_index_first(init, p);
        let i = index_first(init, p);
        assert forall|k: int| 0 <= k < i implies !p(#[trigger] s[k]) by {
            assert(s[k] == init[k]);
        }
        lemma_find_first(s, p, i);
        if i == init.len() {
            if !p(s.last()) {
                assert forall|k: int| 0 <= k < s.len() implies !p(#[trigger] s[k]) by {}
                lemma_find_first(s, p, s.len() as int);
            }
        }
    }
}


/// `x` in place of the first element that satisfies `p`, or behind the others.
pub open spec fn put<T>(s: Seq<T>, p: spec_fn(T) -> bool, x: T) -> Seq<T> {
    let i = index_first(s, p);
    if i < s.len() {
        s.update(i, x)
    } else {
        s.push(x)
    }
}

/// The sequence without the first element that satisfies `p`.
pub open spec fn cut<T>(s: Seq<T>, p: spec_fn(T) -> bool) -> Seq<T> {
    let i = index_first(s, p);
    if i < s.len() {
        s.remove(i)
    } else {
        s
    }
}

/// Whether an element satisfies `p`.
pub open spec fn holds<T>(s: Seq<T>, p: spec_fn(T) -> bool) -> bool {
    index_first(s, p) < s.len()
}


/// No two elements have one key.
pub open spec fn distinct<T>(s: Seq<T>, key: spec_fn(T) -> u32) -> bool {
    forall|i: int, j: int| 0 <= i < j < s.len() ==> key(#[trigger] s[i]) != key(#[trigger] s[j])
}

/// What was put in is found.
pub proof fn lemma_put_found<T>(s: Seq<T>, p: spec_fn(T) -> bool, x: T)
    requires
        p(x),
    ensures
        find_first(put(s, p, x), p) == Some(x),
        holds(put(s, p, x), p),
{
    lemma_index_first(s, p);
    let i = index_first(s, p);
    let r = put(s, p, x);
    assert forall|k: int| 0 <= k < i implies !p(#[trigger] r[k]) by {
        assert(r[k] == s[k]);
    }
    lemma_find_first(r, p, i);
}

/// What else there is is found as before.
pub proof fn lemma_put_keeps<T>(s: Seq<T>, p: spec_fn(T) -> bool, x: T, q: spec_fn(T) -> bool)
    requires
        p(x),
        forall|t: T| !(#[trigger] p(t) && q(t)),
    ensures
        find_first(put(s, p, x), q) == find_first(s, q),
        holds(put(s, p, x), q) == holds(s, q),
{
    lemma_index_first(s, p);
    lemma_index_first(s, q);
    let i = index_first(s, p);
    let j = index_first(s, q);
    let r = put(s, p, x);
    assert(!q(x));
    assert forall|k: int| 0 <= k < j implies !q(#[trigger] r[k]) by {
        if k == i && i < s.len() {
        } else if k < s.len() {
            assert(r[k] == s[k]);
        }
    }
    if j < s.len() {
        assert(!p(s[j]));
        assert(i != j);
        assert(r[j] == s[j]);
        lemma_find_first(r, q, j);
    } else {
        assert forall|k: int| 0 <= k < r.len() implies !q(#[trigger] r[k]) by {
            if k < s.len() && k != i {
                assert(r[k] == s[k]);
            }
        }
        lemma_find_first(r, q, r.len() as int);
    }
}

/// What was taken out is not found any more, where it was held once.
pub proof fn lemma_cut_absent<T>(
    s: Seq<T>,
    p: spec_fn(T) -> bool,
    key: spec_fn(T) -> u32,
    wanted: u32,
)
    requires
        distinct(s, key),
        forall|t: T| #[trigger] p(t) == (key(t) == wanted),
    ensures
        !holds(cut(s, p), p),
{
    lemma_index_first(s, p);
    let i = index_first(s, p);
    let r = cut(s, p);
    if i < s.len() {
        assert forall|k: int| 0 <= k < r.len() implies !p(#[trigger] r[k]) by {
            if k < i {
                assert(r[k] == s[k]);
            } else {
                assert(r[k] == s[k + 1]);
                assert(p(s[i]));
                assert(key(s[i]) != key(s[k + 1]));
            }
        }
        lemma_find_first(r, p, r.len() as int);
    }
}

/// What else there is is found as before.
pub proof fn lemma_cut_keeps<T>(s: Seq<T>, p: spec_fn(T) -> bool, q: spec_fn(T) -> bool)
    requires
        forall|t: T| !(#[trigger] p(t) && q(t)),
    ensures
        find_first(cut(s, p), q) == find_first(s, q),
        holds(cut(s, p), q) == holds(s, q),
{
    lemma_index_first(s, p);
    lemma_index_first(s, q);
    let i = index_first(s, p);
    let j = index_first(s, q);
    let r = cut(s, p);
    if i < s.len() {
        assert(p(s[i]));
        if j < s.len() {
            assert(i != j) by {
                assert(!(p(s[i]) && q(s[i])));
            }
            let at = if j < i {
                j
            } else {
                j - 1
            };
            assert(r[at] == s[j]);
            assert forall|k: int| 0 <= k < at implies !q(#[trigger] r[k]) by {
                if k < i {
                    assert(r[k] == s[k]);
                } else {
                    assert(r[k] == s[k + 1]);
                }
            }
            lemma_find_first(r, q, at);
        } else {
            assert forall|k: int| 0 <= k < r.len() implies !q(#[trigger] r[k]) by {
                if k < i {
                    assert(r[k] == s[k]);
                } else {
                    assert(r[k] == s[k + 1]);
                }
            }
            lemma_find_first(r, q, r.len() as int);
        }
    }
}

/// Putting in keeps the keys distinct.
pub proof fn lemma_put_distinct<T>(
    s: Seq<T>,
    p: spec_fn(T) -> bool,
    x: T,
    key: spec_fn(T) -> u32,
)
    requires
        distinct(s, key),
        forall|t: T| #[trigger] p(t) == (key(t) == key(x)),
    ensures
        distinct(put(s, p, x), key),
{
    lemma_index_first(s, p);
    let i = index_first(s, p);
    let r = put(s, p, x);
    assert forall|a: int, b: int| 0 <= a < b < r.len() implies key(#[trigger] r[a]) != key(
        #[trigger] r[b],
    ) by {
        if i < s.len() {
            assert(p(s[i]));
            if a == i {
                assert(key(s[i]) != key(s[b]));
            } else if b == i {
                assert(key(s[a]) != key(s[i]));
            } else {
                assert(key(s[a]) != key(s[b]));
            }
        } else if b == s.len() {
            assert(!p(s[a]));
        } else {
            assert(key(s[a]) != key(s[b]));
        }
    }
}

/// Taking out keeps the keys distinct.
pub proof fn lemma_cut_distinct<T>(s: Seq<T>, p: spec_fn(T) -> bool, key: spec_fn(T) -> u32)
    requires
        distinct(s, key),
    ensures
        distinct(cut(s, p), key),
{
    lemma_index_first(s, p);
    let i = index_first(s, p);
    let r = cut(s, p);
    if i < s.len() {
        assert forall|a: int, b: int| 0 <= a < b < r.len() implies key(#[trigger] r[a]) != key(
            #[trigger] r[b],
        ) by {
            let c = if a < i {
                a
            } else {
                a + 1
            };
            let d = if b < i {
                b
            } else {
                b + 1
            };
            assert(r[a] == s[c] && r[b] == s[d]);
            assert(key(s[c]) != key(s[d]));
        }
    }
}

/// What is put takes the place of the first element it stands for, and the others keep theirs;
/// where there is none, it comes last.
pub proof fn law_put_replaces_in_place<T>(s: Seq<T>, p: spec_fn(T) -> bool, x: T, i: int)
    ensures
        0 <= i < s.len() && p(s[i]) && (forall|k: int| 0 <= k < i ==> !p(#[trigger] s[k])) ==> put(
            s,
            p,
            x,
        ) == s.update(i, x),
        (forall|k: int| 0 <= k < s.len() ==> !p(#[trigger] s[k])) ==> put(s, p, x) == s.push(x),
{
    if 0 <= i < s.len() && p(s[i]) && (forall|k: int| 0 <= k < i ==> !p(#[trigger] s[k])) {
        lemma_find_first(s, p, i);
    }
    if forall|k: int| 0 <= k < s.len() ==> !p(#[trigger] s[k]) {
        lemma_find_first(s, p, s.len() as int);
    }
}

/// What is cut is the first element that is meant, and the others keep their order; where there
/// is none, nothing is cut.
pub proof fn law_cut_keeps_the_order<T>(s: Seq<T>, p: spec_fn(T) -> bool, i: int)
    ensures
        0 <= i < s.len() && p(s[i]) && (forall|k: int| 0 <= k < i ==> !p(#[trigger] s[k])) ==> cut(
            s,
            p,
        ) == s.remove(i),
        (forall|k: int| 0 <= k < s.len() ==> !p(#[trigger] s[k])) ==> cut(s, p) == s,
{
    if 0 <= i < s.len() && p(s[i]) && (forall|k: int| 0 <= k < i ==> !p(#[trigger] s[k])) {
        lemma_find_first(s, p, i);
    }
    if forall|k: int| 0 <= k < s.len() ==> !p(#[trigger] s[k]) {
        lemma_find_first(s, p, s.len() as int);
    }
}

} // verus!
