//! Sharing out room among flexible spaces.
use vstd::prelude::*;

use crate::layout::sum;
use crate::layout::Element;

verus! {

/// The weight of a flexible space; nothing else has one.
pub open spec fn weight_of(element: Element) -> int {
    match element {
        Element::FlexibleSpace { weight, .. } => weight as int,
        _ => 0,
    }
}

pub open spec fn weights(elements: Seq<Element>) -> spec_fn(int) -> int {
    |i: int| weight_of(elements[i])
}

/// The share of `extra` that the weight of an element earns it, rounded down.
pub open spec fn portions(elements: Seq<Element>, extra: int, heft: int) -> spec_fn(int) -> int {
    |i: int| extra * weight_of(elements[i]) / heft
}

/// What the element `i` gets when `extra` is shared out among the flexible
/// spaces from `lo` up to `hi`. The last of them gets what is left over.
pub open spec fn addition(elements: Seq<Element>, lo: int, hi: int, extra: int, i: int) -> int {
    let heft = sum::sum(weights(elements), lo, hi);
    if extra <= 0 || heft <= 0 || i < lo || i >= hi || weight_of(elements[i]) <= 0 {
        0
    } else if sum::sum(weights(elements), i + 1, hi) <= 0 {
        extra - sum::sum(portions(elements, extra, heft), lo, i)
    } else {
        extra * weight_of(elements[i]) / heft
    }
}

pub open spec fn additions(elements: Seq<Element>, lo: int, hi: int, extra: int) -> spec_fn(
    int,
) -> int {
    |i: int| addition(elements, lo, hi, extra, i)
}

proof fn lemma_portion(extra: int, weight: int, heft: int)
    requires
        extra >= 0,
        weight >= 0,
        heft > 0,
    ensures
        0 <= extra * weight / heft,
        (extra * weight / heft) * heft <= extra * weight,
        weight == 0 ==> extra * weight / heft == 0,
{
    let product = extra * weight;
    assert(product >= 0 && (weight == 0 ==> product == 0)) by (nonlinear_arith)
        requires
            product == extra * weight,
            extra >= 0,
            weight >= 0,
    ;
    vstd::arithmetic::div_mod::lemma_fundamental_div_mod(product, heft);
    vstd::arithmetic::div_mod::lemma_mod_bound(product, heft);
    let q = product / heft;
    assert(q * heft <= product) by (nonlinear_arith)
        requires
            product == heft * q + product % heft,
            product % heft >= 0,
    ;
    assert(q >= 0) by (nonlinear_arith)
        requires
            product == heft * q + product % heft,
            product % heft < heft,
            product >= 0,
            heft > 0,
    ;
    assert(product == 0 ==> q == 0) by (nonlinear_arith)
        requires
            product == heft * q + product % heft,
            product % heft >= 0,
            q >= 0,
            heft > 0,
    ;
}

/// The portions of some of the spaces do not exceed what is shared out.
pub proof fn lemma_portions(elements: Seq<Element>, lo: int, k: int, hi: int, extra: int)
    requires
        0 <= lo <= k <= hi <= elements.len(),
        extra >= 0,
        sum::sum(weights(elements), lo, hi) > 0,
    ensures
        0 <= sum::sum(
            portions(elements, extra, sum::sum(weights(elements), lo, hi)),
            lo,
            k,
        ) <= extra,
        sum::sum(portions(elements, extra, sum::sum(weights(elements), lo, hi)), lo, k) * sum::sum(
            weights(elements),
            lo,
            hi,
        ) <= extra * sum::sum(weights(elements), lo, k),
    decreases k - lo,
{
    let heft = sum::sum(weights(elements), lo, hi);
    let f = portions(elements, extra, heft);
    let w = weights(elements);
    let s = sum::sum(f, lo, k);
    let t = sum::sum(w, lo, k);
    if lo < k {
        lemma_portions(elements, lo, k - 1, hi, extra);
        lemma_portion(extra, weight_of(elements[k - 1]), heft);
        let s0 = sum::sum(f, lo, k - 1);
        let t0 = sum::sum(w, lo, k - 1);
        let p = f(k - 1);
        let v = w(k - 1);
        assert((s0 + p) * heft == s0 * heft + p * heft) by (nonlinear_arith);
        assert(extra * (t0 + v) == extra * t0 + extra * v) by (nonlinear_arith);
    } else {
        assert(s * heft == 0 && extra * t == 0) by (nonlinear_arith)
            requires
                s == 0,
                t == 0,
        ;
    }
    sum::lemma_sum_part(w, lo, lo, k, hi);
    assert(s <= extra) by (nonlinear_arith)
        requires
            s * heft <= extra * t,
            0 <= t <= heft,
            extra >= 0,
            heft > 0,
    ;
}

/// Where there is a flexible space, everything is shared out.
pub proof fn lemma_additions(elements: Seq<Element>, lo: int, hi: int, extra: int)
    requires
        0 <= lo <= hi <= elements.len(),
        extra >= 0,
    ensures
        forall|i: int| #[trigger] additions(elements, lo, hi, extra)(i) >= 0,
        sum::sum(additions(elements, lo, hi, extra), lo, hi) == (if sum::sum(
            weights(elements),
            lo,
            hi,
        ) > 0 {
            extra
        } else {
            0
        }),
{
    let w = weights(elements);
    let heft = sum::sum(w, lo, hi);
    let f = portions(elements, extra, heft);
    let a = additions(elements, lo, hi, extra);
    assert forall|i: int| lo <= i < hi implies #[trigger] w(i) >= 0 by {}
    if extra > 0 && heft > 0 {
        assert forall|i: int| #[trigger] a(i) >= 0 by {
            if lo <= i < hi {
                lemma_portions(elements, lo, i, hi, extra);
                lemma_portion(extra, weight_of(elements[i]), heft);
            }
        }
        lemma_additions_upto(elements, lo, hi, hi, extra);
        assert(sum::sum(w, hi, hi) == 0);
    } else {
        sum::lemma_sum_same(a, |i: int| 0, lo, hi);
        lemma_zero(lo, hi);
    }
}

proof fn lemma_zero(lo: int, hi: int)
    ensures
        sum::sum(|i: int| 0, lo, hi) == 0,
    decreases hi - lo,
{
    if lo < hi {
        lemma_zero(lo, hi - 1);
    }
}

/// Before the last flexible space the portions add up; from it on, everything
/// has been given.
proof fn lemma_additions_upto(elements: Seq<Element>, lo: int, k: int, hi: int, extra: int)
    requires
        0 <= lo <= k <= hi <= elements.len(),
        extra > 0,
        sum::sum(weights(elements), lo, hi) > 0,
    ensures
        sum::sum(additions(elements, lo, hi, extra), lo, k) == (if sum::sum(
            weights(elements),
            k,
            hi,
        ) > 0 {
            sum::sum(portions(elements, extra, sum::sum(weights(elements), lo, hi)), lo, k)
        } else {
            extra
        }),
    decreases k - lo,
{
    let w = weights(elements);
    let heft = sum::sum(w, lo, hi);
    assert forall|i: int| lo <= i < hi implies #[trigger] w(i) >= 0 by {}
    if lo < k {
        lemma_additions_upto(elements, lo, k - 1, hi, extra);
        sum::lemma_sum_split(w, k - 1, k, hi);
        assert(sum::sum(w, k - 1, k) == sum::sum(w, k - 1, k - 1) + w(k - 1));
        sum::lemma_sum_part(w, lo, k, hi, hi);
        lemma_portion(extra, weight_of(elements[k - 1]), heft);
        assert(additions(elements, lo, hi, extra)(k - 1) == addition(
            elements,
            lo,
            hi,
            extra,
            k - 1,
        ));
    }
}

fn weight_in(element: &Element) -> (weight: u64)
    ensures
        weight == weight_of(*element),
        weight <= u32::MAX,
{
    match element {
        Element::FlexibleSpace { weight, .. } => *weight as u64,
        _ => 0,
    }
}

/// Shares out `extra` among the flexible spaces from `lo` up to `hi`.
pub(crate) fn distribute_flexible_space(
    elements: &Vec<Element>,
    widths: &mut Vec<u64>,
    lo: usize,
    hi: usize,
    extra: u64,
)
    requires
        old(widths)@.len() == elements@.len(),
        lo <= hi <= elements@.len(),
        extra <= u32::MAX,
        sum::sum(weights(elements@), lo as int, hi as int) <= u64::MAX,
        forall|i: int|
            0 <= i < old(widths)@.len() ==> #[trigger] old(widths)@[i] + extra <= u64::MAX,
    ensures
        final(widths)@.len() == old(widths)@.len(),
        forall|i: int|
            0 <= i < final(widths)@.len() ==> #[trigger] final(widths)@[i] == old(widths)@[i]
                + addition(elements@, lo as int, hi as int, extra as int, i),
{
    let ghost start = widths@;
    let ghost w = weights(elements@);
    let ghost a = lo as int;
    let ghost b = hi as int;
    let ghost n = elements@.len() as int;
    if extra == 0 {
        return ;
    }
    proof {
        assert forall|i: int| a <= i < b implies #[trigger] w(i) >= 0 by {}
    }
    let mut heft: u64 = 0;
    let mut k: usize = lo;
    while k < hi
        invariant
            w == weights(elements@),
            a == lo,
            b == hi,
            lo <= k <= hi <= elements@.len(),
            forall|i: int| a <= i < b ==> #[trigger] w(i) >= 0,
            sum::sum(w, a, b) <= u64::MAX,
            heft == sum::sum(w, a, k as int),
        decreases hi - k,
    {
        proof {
            sum::lemma_sum_part(w, a, a, k + 1, b);
        }
        heft = heft + weight_in(&elements[k]);
        k = k + 1;
    }
    if heft == 0 {
        return ;
    }
    let mut assigned: u64 = 0;
    let mut left: u64 = heft;
    let ghost f = portions(elements@, extra as int, heft as int);
    let mut i: usize = lo;
    proof {
        assert(sum::sum(f, a, a) == 0);
    }
    while i < hi
        invariant
            w == weights(elements@),
            a == lo,
            b == hi,
            n == elements@.len(),
            lo <= i <= hi <= n,
            extra <= u32::MAX,
            extra > 0,
            heft == sum::sum(w, a, b),
            heft > 0,
            f == portions(elements@, extra as int, heft as int),
            forall|i: int| a <= i < b ==> #[trigger] w(i) >= 0,
            left == sum::sum(w, i as int, b),
            assigned <= extra,
            left > 0 ==> assigned == sum::sum(f, a, i as int),
            widths@.len() == n,
            start.len() == n,
            start == old(widths)@,
            forall|m: int| 0 <= m < n ==> #[trigger] start[m] + extra <= u64::MAX,
            forall|m: int| i <= m < n || 0 <= m < a ==> #[trigger] widths@[m] == start[m],
            forall|m: int|
                a <= m < i ==> #[trigger] widths@[m] == start[m] + addition(
                    elements@,
                    a,
                    b,
                    extra as int,
                    m,
                ),
        decreases hi - i,
    {
        let weight: u64 = weight_in(&elements[i]);
        proof {
            sum::lemma_sum_split(w, i as int, i + 1, b);
            assert(sum::sum(w, i as int, i + 1) == sum::sum(w, i as int, i as int) + w(i as int));
            sum::lemma_sum_part(w, a, i + 1, b, b);
            assert(weight == w(i as int));
            assert(start[i as int] + extra <= u64::MAX);
        }
        if weight > 0 {
            left = left - weight;
            proof {
                lemma_portions(elements@, a, i as int, b, extra as int);
                lemma_portions(elements@, a, i + 1, b, extra as int);
                lemma_portion(extra as int, weight as int, heft as int);
                assert(0 <= extra * weight <= u64::MAX) by (nonlinear_arith)
                    requires
                        0 <= extra <= u32::MAX,
                        0 <= weight <= u32::MAX,
                ;
            }
            let share: u64 = if left == 0 {
                extra - assigned
            } else {
                extra * weight / heft
            };
            let width: u64 = widths[i] + share;
            widths.set(i, width);
            assigned = assigned + share;
        } else {
            proof {
                lemma_portion(extra as int, 0, heft as int);
                assert(f(i as int) == 0);
            }
        }
        i = i + 1;
    }
}

} // verus!
