//! The first position at which something holds, and the front of a
//! sequence.
use vstd::prelude::*;

verus! {

/// `i` is the least index below `n` at which `p` holds.
pub open spec fn first_at(n: int, p: spec_fn(int) -> bool, i: int) -> bool {
    &&& 0 <= i < n
    &&& p(i)
    &&& forall|j: int| 0 <= j < i ==> !#[trigger] p(j)
}

/// The least index below `n` at which `p` holds, if it holds anywhere below
/// `n`.
pub open spec fn first_where(n: int, p: spec_fn(int) -> bool) -> Option<int> {
    if exists|i: int| first_at(n, p, i) {
        Some(choose|i: int| first_at(n, p, i))
    } else {
        None
    }
}

/// An index that is the least one is what `first_where` finds.
pub proof fn lemma_first_found(n: int, p: spec_fn(int) -> bool, i: int)
    requires
        first_at(n, p, i),
    ensures
        first_where(n, p) == Some(i),
{
    let k = choose|k: int| first_at(n, p, k);
    assert(k == i);
}

/// Where `p` holds nowhere below `n`, `first_where` finds nothing.
pub proof fn lemma_first_absent(n: int, p: spec_fn(int) -> bool)
    requires
        forall|j: int| 0 <= j < n ==> !#[trigger] p(j),
    ensures
        first_where(n, p) is None,
{
}

/// Where `p` holds at some `k` below `n`, `first_where` finds an index, and
/// none beyond `k`.
pub proof fn lemma_first_exists(n: int, p: spec_fn(int) -> bool, k: int)
    requires
        0 <= k < n,
        p(k),
    ensures
        first_where(n, p) is Some,
        first_at(n, p, first_where(n, p)->0),
        first_where(n, p)->0 <= k,
    decreases k,
{
    if exists|j: int| 0 <= j < k && #[trigger] p(j) {
        let j = choose|j: int| 0 <= j < k && #[trigger] p(j);
        lemma_first_exists(n, p, j);
    } else {
        lemma_first_found(n, p, k);
    }
}

/// What `first_where` finds is the least index at which `p` holds; what it
/// does not find is nowhere below `n`.
pub proof fn lemma_first_where(n: int, p: spec_fn(int) -> bool)
    ensures
        (match first_where(n, p) {
            Some(i) => first_at(n, p, i),
            None => forall|j: int| 0 <= j < n ==> !#[trigger] p(j),
        }),
{
    if first_where(n, p) is None {
        assert forall|j: int| 0 <= j < n implies !#[trigger] p(j) by {
            if p(j) {
                lemma_first_exists(n, p, j);
            }
        }
    }
}

/// The first `n + 1` elements of a sequence are the first `n` and the
/// element at `n`.
pub proof fn lemma_take_next<T>(s: Seq<T>, n: int)
    requires
        0 <= n < s.len(),
    ensures
        s.take(n + 1).to_set() == s.take(n).to_set().insert(s[n]),
{
    let front = s.take(n);
    let upto = s.take(n + 1);
    assert forall|x: T| upto.contains(x) <==> (front.contains(x) || x == s[n]) by {
        if front.contains(x) {
            let k = choose|k: int| 0 <= k < front.len() && front[k] == x;
            assert(upto[k] == x);
        }
        if x == s[n] {
            assert(upto[n] == x);
        }
        if upto.contains(x) {
            let k = choose|k: int| 0 <= k < upto.len() && upto[k] == x;
            if k < n {
                assert(front[k] == x);
            }
        }
    }
    assert(upto.to_set() =~= front.to_set().insert(s[n]));
}

} // verus!
