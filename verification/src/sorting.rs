//! Stable ordering by a key, stated through the blocks of equal keys.
//!
//! A sequence `t` is a stable arrangement of `s` by `key` when it has the
//! same length, its keys are ordered, and for every key value the items
//! with that key appear in `t` exactly as they appear in `s`.

use vstd::prelude::*;

verus! {

pub open spec fn key_is<A>(key: spec_fn(A) -> int, k: int) -> spec_fn(A) -> bool {
    |a: A| key(a) == k
}

/// The items of `s` whose key is `k`, in their order in `s`.
pub open spec fn block<A>(s: Seq<A>, key: spec_fn(A) -> int, k: int) -> Seq<A> {
    s.filter(key_is(key, k))
}

pub open spec fn same_blocks<A>(t: Seq<A>, s: Seq<A>, key: spec_fn(A) -> int) -> bool {
    forall|k: int| #[trigger] block(t, key, k) == block(s, key, k)
}

pub open spec fn ascending_by<A>(t: Seq<A>, key: spec_fn(A) -> int) -> bool {
    forall|i: int, j: int| 0 <= i < j < t.len() ==> key(t[i]) <= key(t[j])
}

pub open spec fn descending_by<A>(t: Seq<A>, key: spec_fn(A) -> int) -> bool {
    forall|i: int, j: int| 0 <= i < j < t.len() ==> key(t[i]) >= key(t[j])
}

/// `t` holds the items of `s` by ascending key, equal keys in their order
/// in `s`.
pub open spec fn stable_ascending<A>(t: Seq<A>, s: Seq<A>, key: spec_fn(A) -> int) -> bool {
    &&& t.len() == s.len()
    &&& ascending_by(t, key)
    &&& same_blocks(t, s, key)
}

/// `t` holds the items of `s` by descending key, equal keys in their order
/// in `s`.
pub open spec fn stable_descending<A>(t: Seq<A>, s: Seq<A>, key: spec_fn(A) -> int) -> bool {
    &&& t.len() == s.len()
    &&& descending_by(t, key)
    &&& same_blocks(t, s, key)
}

pub proof fn lemma_block_push<A>(s: Seq<A>, x: A, key: spec_fn(A) -> int, k: int)
    ensures
        block(s.push(x), key, k) == if key(x) == k {
            block(s, key, k).push(x)
        } else {
            block(s, key, k)
        },
{
    s.lemma_filter_push(x, key_is(key, k));
}

/// Inserting `x` at `j`, where no later item shares its key, appends `x`
/// to its block and leaves every other block unchanged.
pub proof fn lemma_block_insert<A>(t: Seq<A>, j: int, x: A, key: spec_fn(A) -> int, k: int)
    requires
        0 <= j <= t.len(),
        forall|i: int| j <= i < t.len() ==> key(#[trigger] t[i]) != key(x),
    ensures
        block(t.insert(j, x), key, k) == if key(x) == k {
            block(t, key, k).push(x)
        } else {
            block(t, key, k)
        },
{
    let p = key_is(key, k);
    let a = t.subrange(0, j);
    let b = t.subrange(j, t.len() as int);
    assert(t.insert(j, x) =~= a.push(x) + b);
    assert(t =~= a + b);
    Seq::filter_distributes_over_add(a.push(x), b, p);
    Seq::filter_distributes_over_add(a, b, p);
    a.lemma_filter_push(x, p);
    if key(x) == k {
        assert(b.all(|y: A| !p(y))) by {
            assert forall|i: int| 0 <= i < b.len() implies !p(#[trigger] b[i]) by {
                assert(b[i] == t[j + i]);
            }
        }
        b.lemma_all_neg_filter_empty(p);
        assert(b.filter(p) =~= Seq::<A>::empty());
        assert(a.filter(p) + b.filter(p) =~= a.filter(p));
        assert(a.filter(p).push(x) + b.filter(p) =~= a.filter(p).push(x));
    }
}

/// Every item of an arrangement comes from the arranged sequence.
pub proof fn lemma_block_member<A>(t: Seq<A>, s: Seq<A>, key: spec_fn(A) -> int, i: int)
    requires
        same_blocks(t, s, key),
        0 <= i < t.len(),
    ensures
        s.contains(t[i]),
{
    let p = key_is(key, key(t[i]));
    assert(block(t, key, key(t[i])) == block(s, key, key(t[i])));
    t.lemma_filter_contains(p, i);
    s.lemma_filter_contains_rev(p, t[i]);
}

pub open spec fn i64_key() -> spec_fn(i64) -> int {
    |x: i64| x as int
}

/// The values of `v` in ascending order.
pub fn sort_ascending(v: &Vec<i64>) -> (t: Vec<i64>)
    ensures
        stable_ascending(t@, v@, i64_key()),
{
    let ghost key = i64_key();
    let mut t: Vec<i64> = Vec::new();
    let mut i: usize = 0;
    assert(v@.take(0) =~= t@);
    while i < v.len()
        invariant
            key == i64_key(),
            0 <= i <= v@.len(),
            stable_ascending(t@, v@.take(i as int), key),
        decreases v@.len() - i,
    {
        let x = v[i];
        let mut j: usize = 0;
        while j < t.len() && t[j] <= x
            invariant
                key == i64_key(),
                0 <= j <= t@.len(),
                forall|q: int| 0 <= q < j ==> t@[q] <= x,
            decreases t@.len() - j,
        {
            j = j + 1;
        }
        let ghost before = t@;
        proof {
            assert forall|q: int| j <= q < before.len() implies before[q] > x by {
                assert(before[j as int] > x);
                assert(key(before[j as int]) <= key(before[q]));
            }
        }
        t.insert(j, x);
        proof {
            let pre = v@.take(i as int);
            assert(v@.take(i as int + 1) =~= pre.push(x));
            assert forall|k: int| #[trigger] block(t@, key, k) == block(v@.take(i as int + 1), key, k) by {
                lemma_block_insert(before, j as int, x, key, k);
                lemma_block_push(pre, x, key, k);
                assert(block(before, key, k) == block(pre, key, k));
            }
            assert forall|a: int, b: int| 0 <= a < b < t@.len() implies key(t@[a]) <= key(t@[b]) by {
                if a < j && b < j {
                    assert(t@[a] == before[a] && t@[b] == before[b]);
                } else if a < j && b == j {
                } else if a < j {
                    assert(t@[a] == before[a] && t@[b] == before[b - 1]);
                } else if a == j {
                    assert(t@[b] == before[b - 1]);
                } else {
                    assert(t@[a] == before[a - 1] && t@[b] == before[b - 1]);
                }
            }
        }
        i = i + 1;
    }
    assert(v@.take(v@.len() as int) =~= v@);
    t
}

} // verus!
