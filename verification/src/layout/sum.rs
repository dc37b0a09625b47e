//! Sums over ranges of indices, and sharing out an amount in a given order.
use vstd::prelude::*;

verus! {

/// `f(lo) + ... + f(hi - 1)`
pub open spec fn sum(f: spec_fn(int) -> int, lo: int, hi: int) -> int
    decreases hi - lo,
{
    if hi <= lo {
        0
    } else {
        sum(f, lo, hi - 1) + f(hi - 1)
    }
}

pub proof fn lemma_sum_split(f: spec_fn(int) -> int, lo: int, mid: int, hi: int)
    requires
        lo <= mid <= hi,
    ensures
        sum(f, lo, hi) == sum(f, lo, mid) + sum(f, mid, hi),
    decreases hi - mid,
{
    if mid < hi {
        lemma_sum_split(f, lo, mid, hi - 1);
    }
}

pub proof fn lemma_sum_same(f: spec_fn(int) -> int, g: spec_fn(int) -> int, lo: int, hi: int)
    requires
        forall|i: int| lo <= i < hi ==> #[trigger] f(i) == g(i),
    ensures
        sum(f, lo, hi) == sum(g, lo, hi),
    decreases hi - lo,
{
    if lo < hi {
        lemma_sum_same(f, g, lo, hi - 1);
        assert(f(hi - 1) == g(hi - 1));
    }
}

pub proof fn lemma_sum_at_most(f: spec_fn(int) -> int, g: spec_fn(int) -> int, lo: int, hi: int)
    requires
        forall|i: int| lo <= i < hi ==> #[trigger] f(i) <= g(i),
    ensures
        sum(f, lo, hi) <= sum(g, lo, hi),
    decreases hi - lo,
{
    if lo < hi {
        lemma_sum_at_most(f, g, lo, hi - 1);
        assert(f(hi - 1) <= g(hi - 1));
    }
}

pub proof fn lemma_sum_nonnegative(f: spec_fn(int) -> int, lo: int, hi: int)
    requires
        forall|i: int| lo <= i < hi ==> #[trigger] f(i) >= 0,
    ensures
        sum(f, lo, hi) >= 0,
    decreases hi - lo,
{
    if lo < hi {
        lemma_sum_nonnegative(f, lo, hi - 1);
        assert(f(hi - 1) >= 0);
    }
}

/// A part of a sum of nonnegative terms is at most the whole.
pub proof fn lemma_sum_part(f: spec_fn(int) -> int, lo: int, a: int, b: int, hi: int)
    requires
        lo <= a <= b <= hi,
        forall|i: int| lo <= i < hi ==> #[trigger] f(i) >= 0,
    ensures
        0 <= sum(f, a, b) <= sum(f, lo, hi),
{
    lemma_sum_split(f, lo, a, hi);
    lemma_sum_split(f, a, b, hi);
    lemma_sum_nonnegative(f, lo, a);
    lemma_sum_nonnegative(f, a, b);
    lemma_sum_nonnegative(f, b, hi);
}

/// Two functions that differ at one place only.
pub proof fn lemma_sum_change(
    f: spec_fn(int) -> int,
    g: spec_fn(int) -> int,
    lo: int,
    hi: int,
    k: int,
)
    requires
        lo <= k < hi,
        forall|i: int| lo <= i < hi && i != k ==> #[trigger] f(i) == g(i),
    ensures
        sum(g, lo, hi) == sum(f, lo, hi) - f(k) + g(k),
    decreases hi - lo,
{
    if k == hi - 1 {
        lemma_sum_same(f, g, lo, hi - 1);
    } else {
        lemma_sum_change(f, g, lo, hi - 1, k);
        assert(f(hi - 1) == g(hi - 1));
    }
}

pub proof fn lemma_sum_plus(
    f: spec_fn(int) -> int,
    g: spec_fn(int) -> int,
    h: spec_fn(int) -> int,
    lo: int,
    hi: int,
)
    requires
        forall|i: int| lo <= i < hi ==> #[trigger] h(i) == f(i) + g(i),
    ensures
        sum(h, lo, hi) == sum(f, lo, hi) + sum(g, lo, hi),
    decreases hi - lo,
{
    if lo < hi {
        lemma_sum_plus(f, g, h, lo, hi - 1);
        assert(h(hi - 1) == f(hi - 1) + g(hi - 1));
    }
}

// ---------------------------------------------------------------------------
// Taking in order

/// Of any two different indices below `n`, one comes before the other.
pub open spec fn ordered(before: spec_fn(int, int) -> bool, n: int) -> bool {
    &&& forall|i: int| 0 <= i < n ==> !#[trigger] before(i, i)
    &&& forall|i: int, j: int|
        0 <= i < n && 0 <= j < n && i != j ==> #[trigger] before(i, j) || before(j, i)
    &&& forall|i: int, j: int, k: int|
        0 <= i < n && 0 <= j < n && 0 <= k < n && #[trigger] before(i, j) && #[trigger] before(j, k)
            ==> before(i, k)
}

/// What stands before `i`, all together.
pub open spec fn ahead(
    amount: spec_fn(int) -> int,
    before: spec_fn(int, int) -> bool,
    n: int,
    i: int,
) -> int {
    sum(
        |j: int|
            if before(j, i) {
                amount(j)
            } else {
                0
            },
        0,
        n,
    )
}

/// The nearest value between two bounds.
pub open spec fn clamped(value: int, low: int, high: int) -> int {
    if value < low {
        low
    } else if value > high {
        high
    } else {
        value
    }
}

/// What `i` gives toward a demand when all before it give first.
pub open spec fn taken(
    amount: spec_fn(int) -> int,
    before: spec_fn(int, int) -> bool,
    n: int,
    demand: int,
    i: int,
) -> int {
    clamped(demand - ahead(amount, before, n, i), 0, amount(i))
}

proof fn lemma_last(
    before: spec_fn(int, int) -> bool,
    n: int,
    mask: spec_fn(int) -> bool,
    k: int,
) -> (last: int)
    requires
        ordered(before, n),
        0 <= k <= n,
        exists|i: int| 0 <= i < k && #[trigger] mask(i),
    ensures
        0 <= last < k,
        mask(last),
        forall|j: int| 0 <= j < k && #[trigger] mask(j) && j != last ==> before(j, last),
    decreases k,
{
    if exists|i: int| 0 <= i < k - 1 && #[trigger] mask(i) {
        let l = lemma_last(before, n, mask, k - 1);
        if mask(k - 1) && before(l, k - 1) {
            assert forall|j: int| 0 <= j < k && #[trigger] mask(j) && j != k - 1 implies before(
                j,
                k - 1,
            ) by {
                if j != l {
                    assert(before(j, l));
                }
            }
            k - 1
        } else {
            if mask(k - 1) {
                assert(before(l, k - 1) || before(k - 1, l));
            }
            l
        }
    } else {
        let i = choose|i: int| 0 <= i < k && #[trigger] mask(i);
        assert(i == k - 1);
        k - 1
    }
}

/// The sum of the terms whose index is in the mask.
pub open spec fn masked(f: spec_fn(int) -> int, mask: spec_fn(int) -> bool) -> spec_fn(int) -> int {
    |i: int|
        if mask(i) {
            f(i)
        } else {
            0
        }
}

proof fn lemma_taken_masked(
    amount: spec_fn(int) -> int,
    before: spec_fn(int, int) -> bool,
    n: int,
    demand: int,
    mask: spec_fn(int) -> bool,
    size: nat,
)
    requires
        n >= 0,
        demand >= 0,
        ordered(before, n),
        forall|i: int| 0 <= i < n ==> #[trigger] amount(i) >= 0,
        forall|i: int, j: int|
            0 <= i < n && 0 <= j < n && mask(i) && #[trigger] before(j, i) ==> mask(j),
        size == sum(masked(|i: int| 1, mask), 0, n),
    ensures
        sum(masked(|i: int| taken(amount, before, n, demand, i), mask), 0, n) == (if demand <= sum(
            masked(amount, mask),
            0,
            n,
        ) {
            demand
        } else {
            sum(masked(amount, mask), 0, n)
        }),
    decreases size,
{
    let one = |i: int| 1int;
    let take = |i: int| taken(amount, before, n, demand, i);
    if exists|i: int| 0 <= i < n && #[trigger] mask(i) {
        let last = lemma_last(before, n, mask, n);
        let less = |i: int| mask(i) && i != last;
        lemma_sum_change(masked(one, mask), masked(one, less), 0, n, last);
        lemma_sum_nonnegative(masked(one, less), 0, n);
        lemma_sum_change(masked(take, mask), masked(take, less), 0, n, last);
        lemma_sum_change(masked(amount, mask), masked(amount, less), 0, n, last);
        assert forall|i: int, j: int|
            0 <= i < n && 0 <= j < n && less(i) && #[trigger] before(j, i) implies less(j) by {
            assert(mask(i));
            if j == last {
                assert(before(i, last));
                assert(before(last, last));
            }
        }
        lemma_taken_masked(amount, before, n, demand, less, (size - 1) as nat);
        // what stands before the last one is everything else
        let earlier = |j: int|
            if before(j, last) {
                amount(j)
            } else {
                0
            };
        assert forall|j: int| 0 <= j < n implies #[trigger] earlier(j) == masked(
            amount,
            less,
        )(j) by {
            assert(!before(last, last));
            if mask(j) && j != last {
                assert(before(j, last));
            }
        }
        lemma_sum_same(earlier, masked(amount, less), 0, n);
        lemma_sum_nonnegative(masked(amount, less), 0, n);
    } else {
        lemma_sum_same(masked(take, mask), masked(amount, mask), 0, n);
        lemma_sum_same(masked(amount, mask), |i: int| 0, 0, n);
        lemma_sum_zero(n);
    }
}

proof fn lemma_sum_zero(n: int)
    ensures
        sum(|i: int| 0, 0, n) == 0,
    decreases n,
{
    if n > 0 {
        lemma_sum_zero(n - 1);
    }
}

/// Taking in order meets the demand as far as the amounts reach.
pub proof fn lemma_taken(
    amount: spec_fn(int) -> int,
    before: spec_fn(int, int) -> bool,
    n: int,
    demand: int,
)
    requires
        n >= 0,
        demand >= 0,
        ordered(before, n),
        forall|i: int| 0 <= i < n ==> #[trigger] amount(i) >= 0,
    ensures
        sum(|i: int| taken(amount, before, n, demand, i), 0, n) == (if demand <= sum(amount, 0, n) {
            demand
        } else {
            sum(amount, 0, n)
        }),
{
    let all = |i: int| true;
    let one = |i: int| 1int;
    let take = |i: int| taken(amount, before, n, demand, i);
    lemma_sum_nonnegative(masked(one, all), 0, n);
    lemma_taken_masked(amount, before, n, demand, all, sum(masked(one, all), 0, n) as nat);
    lemma_sum_same(masked(take, all), take, 0, n);
    lemma_sum_same(masked(amount, all), amount, 0, n);
}

} // verus!
