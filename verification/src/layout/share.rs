//! Sharing a width among several elements.
use vstd::prelude::*;

use crate::layout::sizing;
use crate::layout::sizing::{Extent, Sizing};
use crate::layout::sum;
use crate::layout::GroupLayout;

verus! {

/// The elements of a sequence as a function.
pub open spec fn at(values: Seq<int>) -> spec_fn(int) -> int {
    |i: int| values[i]
}

/// All of them together.
pub open spec fn total(values: Seq<int>) -> int {
    sum::sum(at(values), 0, values.len() as int)
}

/// Machine numbers as integers.
pub open spec fn ints(values: Seq<u64>) -> Seq<int> {
    Seq::new(values.len(), |i: int| values[i] as int)
}

// ---------------------------------------------------------------------------
// Giving way

/// The element that gives way first has the lower priority, or stands later.
pub open spec fn gives_way_first(priorities: Seq<i32>) -> spec_fn(int, int) -> bool {
    |i: int, j: int|
        priorities[i] < priorities[j] || (priorities[i] == priorities[j] && i > j)
}

pub proof fn lemma_gives_way_ordered(priorities: Seq<i32>)
    ensures
        sum::ordered(gives_way_first(priorities), priorities.len() as int),
{
}

/// What is left of each width when the elements give up `excess` in order,
/// each as much as its slack.
pub open spec fn shrunk(
    widths: Seq<int>,
    slack: Seq<int>,
    priorities: Seq<i32>,
    excess: int,
) -> Seq<int> {
    Seq::new(
        widths.len(),
        |i: int|
            widths[i] - sum::taken(
                at(slack),
                gives_way_first(priorities),
                widths.len() as int,
                excess,
                i,
            ),
    )
}

/// Each element keeps at least what it cannot give, and together they give
/// the whole excess where they can.
pub proof fn lemma_shrunk(widths: Seq<int>, slack: Seq<int>, priorities: Seq<i32>, excess: int)
    requires
        slack.len() == widths.len(),
        priorities.len() == widths.len(),
        forall|i: int| 0 <= i < slack.len() ==> #[trigger] slack[i] >= 0,
        0 <= excess <= total(slack),
    ensures
        shrunk(widths, slack, priorities, excess).len() == widths.len(),
        forall|i: int|
            0 <= i < widths.len() ==> widths[i] - slack[i] <= #[trigger] shrunk(
                widths,
                slack,
                priorities,
                excess,
            )[i] <= widths[i],
        total(shrunk(widths, slack, priorities, excess)) == total(widths) - excess,
{
    let n = widths.len() as int;
    let order = gives_way_first(priorities);
    let result = shrunk(widths, slack, priorities, excess);
    lemma_gives_way_ordered(priorities);
    sum::lemma_taken(at(slack), order, n, excess);
    let take = |i: int| sum::taken(at(slack), order, n, excess, i);
    assert forall|i: int| 0 <= i < n implies #[trigger] at(widths)(i) == at(result)(i) + take(
        i,
    ) by {}
    sum::lemma_sum_plus(at(result), take, at(widths), 0, n);
}

/// Makes the elements give up `excess`, those of the lowest priority and the
/// last among equals first.
pub(crate) fn give_way(
    widths: &Vec<u64>,
    slack: &Vec<u64>,
    priorities: &Vec<i32>,
    excess: u64,
) -> (result: Vec<u64>)
    requires
        slack@.len() == widths@.len(),
        priorities@.len() == widths@.len(),
        forall|i: int| 0 <= i < widths@.len() ==> #[trigger] slack@[i] <= widths@[i],
        total(ints(slack@)) <= u64::MAX,
    ensures
        ints(result@) == shrunk(ints(widths@), ints(slack@), priorities@, excess as int),
        result@.len() == widths@.len(),
{
    let ghost n = widths@.len() as int;
    let ghost order = gives_way_first(priorities@);
    let ghost amount = at(ints(slack@));
    let ghost target = shrunk(ints(widths@), ints(slack@), priorities@, excess as int);
    let mut result: Vec<u64> = Vec::new();
    let mut i: usize = 0;
    while i < widths.len()
        invariant
            n == widths@.len(),
            slack@.len() == n,
            priorities@.len() == n,
            i <= n,
            order == gives_way_first(priorities@),
            amount == at(ints(slack@)),
            target == shrunk(ints(widths@), ints(slack@), priorities@, excess as int),
            forall|k: int| 0 <= k < n ==> #[trigger] slack@[k] <= widths@[k],
            total(ints(slack@)) <= u64::MAX,
            result@.len() == i,
            forall|k: int| 0 <= k < i ==> #[trigger] result@[k] == target[k],
        decreases n - i,
    {
        let ghost earlier = |j: int|
            if order(j, i as int) {
                amount(j)
            } else {
                0
            };
        let mut ahead: u64 = 0;
        let mut j: usize = 0;
        proof {
            sum::lemma_sum_at_most(earlier, amount, 0, n);
        }
        while j < slack.len()
            invariant
                n == widths@.len(),
                slack@.len() == n,
                priorities@.len() == n,
                i < n,
                j <= n,
                order == gives_way_first(priorities@),
                amount == at(ints(slack@)),
                earlier == (|j: int|
                    if order(j, i as int) {
                        amount(j)
                    } else {
                        0
                    }),
                sum::sum(earlier, 0, n) <= u64::MAX,
                ahead == sum::sum(earlier, 0, j as int),
            decreases n - j,
        {
            proof {
                sum::lemma_sum_part(earlier, 0, 0, j + 1, n);
            }
            if priorities[j] < priorities[i] || (priorities[j] == priorities[i] && j > i) {
                ahead = ahead + slack[j];
            }
            j = j + 1;
        }
        proof {
            assert(ahead == sum::ahead(amount, order, n, i as int));
        }
        let left: u64 = if excess > ahead {
            excess - ahead
        } else {
            0
        };
        let gives: u64 = if left > slack[i] {
            slack[i]
        } else {
            left
        };
        proof {
            assert(amount(i as int) == slack@[i as int]);
            assert(gives == sum::taken(amount, order, n, excess as int, i as int));
            assert(slack@[i as int] <= widths@[i as int]);
            assert(target[i as int] == ints(widths@)[i as int] - gives);
        }
        result.push(widths[i] - gives);
        i = i + 1;
    }
    proof {
        assert(ints(result@) =~= target);
    }
    result
}

// ---------------------------------------------------------------------------
// Growing

/// How many of the first `n` elements can still grow.
pub open spec fn growable(widths: Seq<int>, maxima: Seq<int>, n: int) -> int
    decreases n,
{
    if n <= 0 {
        0
    } else {
        growable(widths, maxima, n - 1) + (if widths[n - 1] < maxima[n - 1] {
            1int
        } else {
            0int
        })
    }
}

/// What an element can take of a share when so much is left.
pub open spec fn portion(room: int, share: int, left: int) -> int {
    let most = if room < share {
        room
    } else {
        share
    };
    if most < left {
        most
    } else {
        left
    }
}

/// What the first `n` elements take in one round, from first to last.
pub open spec fn given(
    widths: Seq<int>,
    maxima: Seq<int>,
    share: int,
    extra: int,
    n: int,
) -> int
    decreases n,
{
    if n <= 0 {
        0
    } else {
        let before = given(widths, maxima, share, extra, n - 1);
        before + portion(maxima[n - 1] - widths[n - 1], share, extra - before)
    }
}

/// The widths after one round.
pub open spec fn round(widths: Seq<int>, maxima: Seq<int>, share: int, extra: int) -> Seq<int> {
    Seq::new(
        widths.len(),
        |i: int|
            widths[i] + given(widths, maxima, share, extra, i + 1) - given(
                widths,
                maxima,
                share,
                extra,
                i,
            ),
    )
}

/// An even share of what is left, and at least one.
pub open spec fn even_share(extra: int, count: int) -> int {
    if extra / count > 1 {
        extra / count
    } else {
        1
    }
}

/// The widths after sharing out `extra` in even rounds among the elements that
/// can still grow.
pub open spec fn grown(widths: Seq<int>, maxima: Seq<int>, extra: int) -> Seq<int>
    decreases extra,
{
    let n = widths.len() as int;
    let count = growable(widths, maxima, n);
    if extra <= 0 || count <= 0 {
        widths
    } else {
        let share = even_share(extra, count);
        let used = given(widths, maxima, share, extra, n);
        if used <= 0 {
            widths
        } else {
            grown(round(widths, maxima, share, extra), maxima, extra - used)
        }
    }
}

/// No width is above its maximum.
pub open spec fn bounded(widths: Seq<int>, maxima: Seq<int>) -> bool {
    widths.len() == maxima.len() && forall|i: int|
        0 <= i < widths.len() ==> #[trigger] widths[i] <= maxima[i]
}

pub proof fn lemma_growable(widths: Seq<int>, maxima: Seq<int>, n: int)
    requires
        bounded(widths, maxima),
        0 <= n <= widths.len(),
    ensures
        0 <= growable(widths, maxima, n) <= n,
        growable(widths, maxima, n) == 0 ==> sum::sum(at(widths), 0, n) == sum::sum(
            at(maxima),
            0,
            n,
        ),
        growable(widths, maxima, n) > 0 ==> exists|i: int|
            0 <= i < n && #[trigger] widths[i] < maxima[i],
    decreases n,
{
    if n > 0 {
        lemma_growable(widths, maxima, n - 1);
        assert(widths[n - 1] <= maxima[n - 1]);
    }
}

/// One round takes something from what is there and keeps within the maxima.
pub proof fn lemma_given(widths: Seq<int>, maxima: Seq<int>, share: int, extra: int, n: int)
    requires
        bounded(widths, maxima),
        0 <= n <= widths.len(),
        share >= 1,
        extra >= 1,
    ensures
        0 <= given(widths, maxima, share, extra, n) <= extra,
        (exists|i: int| 0 <= i < n && #[trigger] widths[i] < maxima[i]) ==> given(
            widths,
            maxima,
            share,
            extra,
            n,
        ) >= 1,
        forall|i: int|
            #![trigger widths[i]]
            0 <= i < n ==> 0 <= given(widths, maxima, share, extra, i + 1) - given(
                widths,
                maxima,
                share,
                extra,
                i,
            ) <= maxima[i] - widths[i],
    decreases n,
{
    if n > 0 {
        lemma_given(widths, maxima, share, extra, n - 1);
        assert(widths[n - 1] <= maxima[n - 1]);
    }
}

pub proof fn lemma_round(widths: Seq<int>, maxima: Seq<int>, share: int, extra: int, n: int)
    requires
        0 <= n <= widths.len(),
    ensures
        sum::sum(at(round(widths, maxima, share, extra)), 0, n) == sum::sum(at(widths), 0, n)
            + given(widths, maxima, share, extra, n),
    decreases n,
{
    if n > 0 {
        lemma_round(widths, maxima, share, extra, n - 1);
    }
}

/// Growing keeps every width between what it was and its maximum, and shares
/// out everything where there is room for it.
pub proof fn lemma_grown(widths: Seq<int>, maxima: Seq<int>, extra: int)
    requires
        bounded(widths, maxima),
        0 <= extra <= total(maxima) - total(widths),
    ensures
        bounded(grown(widths, maxima, extra), maxima),
        forall|i: int|
            0 <= i < widths.len() ==> widths[i] <= #[trigger] grown(widths, maxima, extra)[i],
        total(grown(widths, maxima, extra)) == total(widths) + extra,
    decreases extra,
{
    let n = widths.len() as int;
    let count = growable(widths, maxima, n);
    lemma_growable(widths, maxima, n);
    if extra > 0 && count > 0 {
        let share = even_share(extra, count);
        lemma_given(widths, maxima, share, extra, n);
        lemma_round(widths, maxima, share, extra, n);
        let next = round(widths, maxima, share, extra);
        let used = given(widths, maxima, share, extra, n);
        assert forall|i: int| 0 <= i < n implies widths[i] <= #[trigger] next[i] <= maxima[i] by {
            assert(widths[i] <= maxima[i]);
        }
        lemma_grown(next, maxima, extra - used);
        assert forall|i: int| 0 <= i < n implies widths[i] <= #[trigger] grown(
            widths,
            maxima,
            extra,
        )[i] by {
            assert(next[i] <= grown(next, maxima, extra - used)[i]);
        }
    }
}

fn count_growable(widths: &Vec<u64>, maxima: &Vec<u64>) -> (count: u64)
    requires
        bounded(ints(widths@), ints(maxima@)),
    ensures
        count == growable(ints(widths@), ints(maxima@), widths@.len() as int),
{
    let mut count: u64 = 0;
    let mut i: usize = 0;
    while i < widths.len()
        invariant
            bounded(ints(widths@), ints(maxima@)),
            i <= widths@.len(),
            count <= i,
            count == growable(ints(widths@), ints(maxima@), i as int),
        decreases widths@.len() - i,
    {
        if widths[i] < maxima[i] {
            count = count + 1;
        }
        i = i + 1;
    }
    count
}

/// One round of growing; the answer is what was taken.
fn grow_round(widths: &mut Vec<u64>, maxima: &Vec<u64>, share: u64, left: u64) -> (used: u64)
    requires
        bounded(ints(old(widths)@), ints(maxima@)),
        share >= 1,
        left >= 1,
    ensures
        ints(final(widths)@) == round(
            ints(old(widths)@),
            ints(maxima@),
            share as int,
            left as int,
        ),
        used == given(
            ints(old(widths)@),
            ints(maxima@),
            share as int,
            left as int,
            old(widths)@.len() as int,
        ),
{
    let ghost now = ints(widths@);
    let ghost top = ints(maxima@);
    let ghost next = round(now, top, share as int, left as int);
    let ghost n = now.len() as int;
    let mut assigned: u64 = 0;
    let mut k: usize = 0;
    while k < widths.len()
        invariant
            top == ints(maxima@),
            now == ints(old(widths)@),
            next == round(now, top, share as int, left as int),
            n == widths@.len(),
            n == now.len(),
            bounded(now, top),
            share >= 1,
            left >= 1,
            k <= n,
            0 <= assigned <= left,
            assigned == given(now, top, share as int, left as int, k as int),
            forall|m: int| 0 <= m < k ==> #[trigger] widths@[m] == next[m],
            forall|m: int| k <= m < n ==> #[trigger] widths@[m] == now[m],
        decreases n - k,
    {
        proof {
            lemma_given(now, top, share as int, left as int, k + 1);
            assert(widths@[k as int] == now[k as int]);
            assert(now[k as int] <= top[k as int]);
        }
        let room: u64 = maxima[k] - widths[k];
        let most: u64 = if room < share {
            room
        } else {
            share
        };
        let addition: u64 = if most < left - assigned {
            most
        } else {
            left - assigned
        };
        let width: u64 = widths[k] + addition;
        widths.set(k, width);
        assigned = assigned + addition;
        k = k + 1;
    }
    proof {
        assert(ints(widths@) =~= next);
    }
    assigned
}

proof fn lemma_round_bounded(widths: Seq<int>, maxima: Seq<int>, share: int, extra: int)
    requires
        bounded(widths, maxima),
        share >= 1,
        extra >= 1,
    ensures
        bounded(round(widths, maxima, share, extra), maxima),
{
    lemma_given(widths, maxima, share, extra, widths.len() as int);
    let next = round(widths, maxima, share, extra);
    assert forall|i: int| 0 <= i < next.len() implies #[trigger] next[i] <= maxima[i] by {
        assert(widths[i] <= maxima[i]);
    }
}

/// Shares out `extra` among the widths.
pub(crate) fn grow_widths(widths: Vec<u64>, maxima: &Vec<u64>, extra: u64) -> (result: Vec<u64>)
    requires
        bounded(ints(widths@), ints(maxima@)),
    ensures
        ints(result@) == grown(ints(widths@), ints(maxima@), extra as int),
{
    let ghost top = ints(maxima@);
    let ghost target = grown(ints(widths@), top, extra as int);
    let mut current: Vec<u64> = widths;
    let mut left: u64 = extra;
    while left > 0
        invariant
            top == ints(maxima@),
            bounded(ints(current@), top),
            target == grown(ints(current@), top, left as int),
        ensures
            ints(current@) == target,
        decreases left,
    {
        let ghost now = ints(current@);
        let count: u64 = count_growable(&current, maxima);
        if count == 0 {
            break;
        }
        let each: u64 = left / count;
        let share: u64 = if each > 1 {
            each
        } else {
            1
        };
        proof {
            lemma_growable(now, top, now.len() as int);
            lemma_given(now, top, share as int, left as int, now.len() as int);
            lemma_round_bounded(now, top, share as int, left as int);
        }
        let used: u64 = grow_round(&mut current, maxima, share, left);
        left = left - used;
    }
    current
}

// ---------------------------------------------------------------------------
// The members of a group

pub open spec fn minima(sizes: Seq<Extent>) -> Seq<int> {
    Seq::new(sizes.len(), |i: int| sizes[i].minimum)
}

pub open spec fn preferences(sizes: Seq<Extent>) -> Seq<int> {
    Seq::new(sizes.len(), |i: int| sizes[i].preferred)
}

pub open spec fn maxima(sizes: Seq<Extent>) -> Seq<int> {
    Seq::new(sizes.len(), |i: int| sizes[i].maximum)
}

/// How much each element can give up of its preferred width.
pub open spec fn slacks(sizes: Seq<Extent>) -> Seq<int> {
    Seq::new(sizes.len(), |i: int| sizes[i].preferred - sizes[i].minimum)
}

/// The widths run from the least over the preferred to the greatest.
pub open spec fn sound(size: Extent) -> bool {
    0 <= size.minimum <= size.preferred <= size.maximum
}

pub open spec fn all_sound(sizes: Seq<Extent>) -> bool {
    forall|i: int| 0 <= i < sizes.len() ==> sound(#[trigger] sizes[i])
}

/// The widths of the members of a natural group: their preferred widths,
/// shrunk or grown to the width there is.
pub open spec fn natural_widths(sizes: Seq<Extent>, priorities: Seq<i32>, width: int) -> Seq<int> {
    let preferred = total(preferences(sizes));
    if width < preferred {
        shrunk(preferences(sizes), slacks(sizes), priorities, preferred - width)
    } else {
        grown(preferences(sizes), maxima(sizes), width - preferred)
    }
}

/// The widths of the members of an equal-width group: the same for all that
/// take part, with the pixels left over going to the first ones.
pub open spec fn equal_widths(sizes: Seq<Extent>, width: int) -> Seq<int> {
    let count = sizing::active_count(sizes, sizes.len() as int);
    Seq::new(
        sizes.len(),
        |i: int|
            if sizes[i].maximum <= 0 {
                0
            } else if sizing::active_count(sizes, i) < width % count {
                width / count + 1
            } else {
                width / count
            },
    )
}

/// The widths of the members of a group that share `width`.
pub open spec fn member_widths(
    layout: GroupLayout,
    sizes: Seq<Extent>,
    priorities: Seq<i32>,
    width: int,
) -> Seq<int> {
    match layout {
        GroupLayout::Natural => natural_widths(sizes, priorities, width),
        GroupLayout::EqualWidth => equal_widths(sizes, width),
    }
}

proof fn lemma_totals(sizes: Seq<Extent>)
    ensures
        total(minima(sizes)) == sum::sum(sizing::minimum_of(sizes), 0, sizes.len() as int),
        total(preferences(sizes)) == sum::sum(sizing::preferred_of(sizes), 0, sizes.len() as int),
        total(maxima(sizes)) == sum::sum(sizing::maximum_of(sizes), 0, sizes.len() as int),
        total(slacks(sizes)) == total(preferences(sizes)) - total(minima(sizes)),
{
    let n = sizes.len() as int;
    sum::lemma_sum_same(at(minima(sizes)), sizing::minimum_of(sizes), 0, n);
    sum::lemma_sum_same(at(preferences(sizes)), sizing::preferred_of(sizes), 0, n);
    sum::lemma_sum_same(at(maxima(sizes)), sizing::maximum_of(sizes), 0, n);
    sum::lemma_sum_plus(at(slacks(sizes)), at(minima(sizes)), at(preferences(sizes)), 0, n);
}

proof fn lemma_equal_total(sizes: Seq<Extent>, width: int, n: int)
    requires
        0 <= n <= sizes.len(),
        sizing::active_count(sizes, sizes.len() as int) > 0,
        width >= 0,
    ensures
        sum::sum(at(equal_widths(sizes, width)), 0, n) == ({
            let count = sizing::active_count(sizes, sizes.len() as int);
            let k = sizing::active_count(sizes, n);
            (width / count) * k + (if k < width % count {
                k
            } else {
                width % count
            })
        }),
    decreases n,
{
    let count = sizing::active_count(sizes, sizes.len() as int);
    let base = width / count;
    if n > 0 {
        lemma_equal_total(sizes, width, n - 1);
        let k = sizing::active_count(sizes, n - 1);
        assert(base * (k + 1) == base * k + base) by (nonlinear_arith);
        assert(0 <= width % count) by (nonlinear_arith)
            requires
                count > 0,
        ;
    } else {
        assert(base * 0 == 0) by (nonlinear_arith);
        assert(0 <= width % count) by (nonlinear_arith)
            requires
                count > 0,
        ;
    }
}

proof fn lemma_share_bounds(width: int, count: int, low: int, high: int)
    requires
        count > 0,
        0 <= low,
        low * count <= width <= high * count,
    ensures
        low <= width / count <= high,
        width % count > 0 ==> width / count + 1 <= high,
        0 <= width % count < count,
        (width / count) * count + width % count == width,
{
    vstd::arithmetic::div_mod::lemma_fundamental_div_mod(width, count);
    vstd::arithmetic::div_mod::lemma_mod_bound(width, count);
    let q = width / count;
    let r = width % count;
    assert(q * count + r == width) by (nonlinear_arith)
        requires
            width == count * q + r,
    ;
    assert(low <= q <= high && (r > 0 ==> q + 1 <= high)) by (nonlinear_arith)
        requires
            q * count + r == width,
            0 <= r < count,
            low * count <= width <= high * count,
            count > 0,
    ;
}

/// Members that share a width that suits their group fill it, and each gets a
/// width that suits it.
pub proof fn lemma_member_widths(
    layout: GroupLayout,
    spacing: u32,
    sizes: Seq<Extent>,
    priorities: Seq<i32>,
    width: int,
)
    requires
        all_sound(sizes),
        priorities.len() == sizes.len(),
        sizing::active_count(sizes, sizes.len() as int) > 0,
        sizing::combined(layout, spacing, sizes) matches Some(group)
            && group.minimum <= width + sizing::gaps(
            spacing,
            sizing::active_count(sizes, sizes.len() as int),
        ) <= group.maximum,
    ensures
        member_widths(layout, sizes, priorities, width).len() == sizes.len(),
        total(member_widths(layout, sizes, priorities, width)) == width,
        forall|i: int|
            0 <= i < sizes.len() ==> sizes[i].minimum <= #[trigger] member_widths(
                layout,
                sizes,
                priorities,
                width,
            )[i] <= sizes[i].maximum,
{
    let n = sizes.len() as int;
    let count = sizing::active_count(sizes, n);
    let result = member_widths(layout, sizes, priorities, width);
    lemma_totals(sizes);
    match layout {
        GroupLayout::Natural => {
            let preferred = total(preferences(sizes));
            assert(bounded(preferences(sizes), maxima(sizes))) by {
                assert forall|i: int| 0 <= i < n implies #[trigger] preferences(sizes)[i]
                    <= maxima(sizes)[i] by {
                    assert(sound(sizes[i]));
                }
            }
            if width < preferred {
                assert forall|i: int| 0 <= i < n implies #[trigger] slacks(sizes)[i] >= 0 by {
                    assert(sound(sizes[i]));
                }
                lemma_shrunk(preferences(sizes), slacks(sizes), priorities, preferred - width);
            } else {
                lemma_grown(preferences(sizes), maxima(sizes), width - preferred);
            }
            assert forall|i: int| 0 <= i < n implies sizes[i].minimum <= #[trigger] result[i]
                <= sizes[i].maximum by {
                assert(sound(sizes[i]));
                if width < preferred {
                    assert(preferences(sizes)[i] - slacks(sizes)[i] <= result[i]
                        <= preferences(sizes)[i]);
                } else {
                    assert(preferences(sizes)[i] <= result[i]);
                    assert(result[i] <= maxima(sizes)[i]);
                }
            }
        },
        GroupLayout::EqualWidth => {
            let low = sizing::largest(sizing::minimum_of(sizes), n);
            let high = sizing::smallest_maximum(sizes, n);
            sizing::lemma_largest(sizing::minimum_of(sizes), n);
            assert forall|i: int| 0 <= i < n implies (#[trigger] sizes[i]).maximum >= 0 by {
                assert(sound(sizes[i]));
            }
            sizing::lemma_smallest_maximum(sizes, n);
            assert(low * count >= 0) by (nonlinear_arith)
                requires
                    low >= 0,
                    count > 0,
            ;
            lemma_share_bounds(width, count, low, high);
            lemma_equal_total(sizes, width, n);
            assert forall|i: int| 0 <= i < n implies sizes[i].minimum <= #[trigger] result[i]
                <= sizes[i].maximum by {
                assert(sound(sizes[i]));
                assert(sizing::minimum_of(sizes)(i) <= low);
                sizing::lemma_active_count(sizes, i);
            }
        },
    }
}

/// The widths of the members of a group that share `width`.
pub(crate) fn share_width(
    layout: GroupLayout,
    sizes: &Vec<Sizing>,
    priorities: &Vec<i32>,
    width: u64,
) -> (result: Vec<u64>)
    requires
        all_sound(sizing::extents(sizes@)),
        priorities@.len() == sizes@.len(),
        sizing::active_count(sizing::extents(sizes@), sizes@.len() as int) > 0,
        total(maxima(sizing::extents(sizes@))) <= u64::MAX,
    ensures
        ints(result@) == member_widths(
            layout,
            sizing::extents(sizes@),
            priorities@,
            width as int,
        ),
{
    match layout {
        GroupLayout::Natural => share_naturally(sizes, priorities, width),
        GroupLayout::EqualWidth => share_equally(sizes, width),
    }
}

fn share_naturally(sizes: &Vec<Sizing>, priorities: &Vec<i32>, width: u64) -> (result: Vec<u64>)
    requires
        all_sound(sizing::extents(sizes@)),
        priorities@.len() == sizes@.len(),
        total(maxima(sizing::extents(sizes@))) <= u64::MAX,
    ensures
        ints(result@) == natural_widths(sizing::extents(sizes@), priorities@, width as int),
{
    let ghost all = sizing::extents(sizes@);
    let ghost n = sizes@.len() as int;
    let mut preferred: Vec<u64> = Vec::new();
    let mut greatest: Vec<u64> = Vec::new();
    let mut slack: Vec<u64> = Vec::new();
    let mut sum_preferred: u64 = 0;
    let mut i: usize = 0;
    proof {
        assert forall|k: int| 0 <= k < n implies #[trigger] at(preferences(all))(k) <= at(
            maxima(all),
        )(k) by {
            assert(sound(all[k]));
        }
        sum::lemma_sum_at_most(at(preferences(all)), at(maxima(all)), 0, n);
        assert forall|k: int| 0 <= k < n implies #[trigger] at(preferences(all))(k) >= 0 by {
            assert(sound(all[k]));
        }
    }
    while i < sizes.len()
        invariant
            all == sizing::extents(sizes@),
            all_sound(all),
            n == sizes@.len(),
            i <= n,
            total(preferences(all)) <= u64::MAX,
            forall|k: int| 0 <= k < n ==> #[trigger] at(preferences(all))(k) >= 0,
            preferred@.len() == i,
            greatest@.len() == i,
            slack@.len() == i,
            forall|k: int| 0 <= k < i ==> #[trigger] preferred@[k] == all[k].preferred,
            forall|k: int| 0 <= k < i ==> #[trigger] greatest@[k] == all[k].maximum,
            forall|k: int|
                0 <= k < i ==> #[trigger] slack@[k] == all[k].preferred - all[k].minimum,
            sum_preferred == sum::sum(at(preferences(all)), 0, i as int),
        decreases n - i,
    {
        let size: Sizing = sizes[i];
        proof {
            assert(sound(all[i as int]));
            assert(all[i as int] == size@);
            sum::lemma_sum_part(at(preferences(all)), 0, 0, i + 1, n);
        }
        preferred.push(size.preferred);
        greatest.push(size.maximum);
        slack.push(size.preferred - size.minimum);
        sum_preferred = sum_preferred + size.preferred;
        i = i + 1;
    }
    proof {
        assert(ints(preferred@) =~= preferences(all));
        assert(ints(greatest@) =~= maxima(all));
        assert(ints(slack@) =~= slacks(all));
        lemma_totals(all);
        assert forall|k: int| 0 <= k < n implies #[trigger] at(minima(all))(k) >= 0 by {
            assert(sound(all[k]));
        }
        sum::lemma_sum_nonnegative(at(minima(all)), 0, n);
        assert forall|k: int| 0 <= k < n implies #[trigger] slack@[k] <= preferred@[k] by {
            assert(sound(all[k]));
        }
        assert forall|k: int| 0 <= k < n implies #[trigger] preferences(all)[k] <= maxima(
            all,
        )[k] by {
            assert(sound(all[k]));
        }
    }
    if width < sum_preferred {
        give_way(&preferred, &slack, priorities, sum_preferred - width)
    } else {
        grow_widths(preferred, &greatest, width - sum_preferred)
    }
}

fn share_equally(sizes: &Vec<Sizing>, width: u64) -> (result: Vec<u64>)
    requires
        sizing::active_count(sizing::extents(sizes@), sizes@.len() as int) > 0,
    ensures
        ints(result@) == equal_widths(sizing::extents(sizes@), width as int),
{
    let ghost all = sizing::extents(sizes@);
    let ghost n = sizes@.len() as int;
    let count: u64 = sizing::count_active(sizes);
    let base: u64 = width / count;
    let remainder: u64 = width % count;
    let mut result: Vec<u64> = Vec::new();
    let mut rank: u64 = 0;
    let mut i: usize = 0;
    proof {
        vstd::arithmetic::div_mod::lemma_mod_bound(width as int, count as int);
        vstd::arithmetic::div_mod::lemma_fundamental_div_mod(width as int, count as int);
        assert(remainder > 0 ==> base + 1 <= width) by (nonlinear_arith)
            requires
                width == count * base + remainder,
                count > 0,
                base >= 0,
                remainder >= 0,
        ;
    }
    while i < sizes.len()
        invariant
            all == sizing::extents(sizes@),
            n == sizes@.len(),
            i <= n,
            count == sizing::active_count(all, n),
            count > 0,
            base == width as int / count as int,
            remainder == width as int % count as int,
            remainder > 0 ==> base + 1 <= width,
            rank <= i,
            rank == sizing::active_count(all, i as int),
            result@.len() == i,
            forall|k: int|
                0 <= k < i ==> #[trigger] result@[k] == equal_widths(all, width as int)[k],
        decreases n - i,
    {
        proof {
            assert(all[i as int] == sizes@[i as int]@);
        }
        if sizes[i].maximum == 0 {
            result.push(0);
        } else {
            if rank < remainder {
                result.push(base + 1);
            } else {
                result.push(base);
            }
            rank = rank + 1;
        }
        i = i + 1;
    }
    proof {
        assert(ints(result@) =~= equal_widths(all, width as int));
    }
    result
}

} // verus!
