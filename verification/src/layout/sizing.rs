//! The widths that elements can take.
use vstd::prelude::*;

use crate::layout::sum;
use crate::layout::{Element, GroupElement, GroupLayout, GroupSpec, ItemSpec, LayoutError};

verus! {

/// The widths that an element can take, from the least to the greatest.
pub struct Extent {
    pub minimum: int,
    pub preferred: int,
    pub maximum: int,
}

/// The same in machine numbers.
#[derive(Clone, Copy, Debug, PartialEq, Eq, Structural)]
pub struct Sizing {
    pub minimum: u64,
    pub preferred: u64,
    pub maximum: u64,
}

impl View for Sizing {
    type V = Extent;

    open spec fn view(&self) -> Extent {
        Extent {
            minimum: self.minimum as int,
            preferred: self.preferred as int,
            maximum: self.maximum as int,
        }
    }
}

/// The extents of several elements.
pub open spec fn extents(sizes: Seq<Sizing>) -> Seq<Extent> {
    Seq::new(sizes.len(), |i: int| sizes[i]@)
}

pub open spec fn fixed_extent(width: int) -> Extent {
    Extent { minimum: width, preferred: width, maximum: width }
}

pub open spec fn item_extent(item: ItemSpec) -> Extent {
    Extent {
        minimum: item.min_width as int,
        preferred: item.preferred_width as int,
        maximum: item.max_width as int,
    }
}

/// How many of the first `n` members can be wider than nothing.
pub open spec fn active_count(sizes: Seq<Extent>, n: int) -> int
    decreases n,
{
    if n <= 0 {
        0
    } else {
        active_count(sizes, n - 1) + (if sizes[n - 1].maximum > 0 {
            1int
        } else {
            0int
        })
    }
}

/// The largest of `f(0)`, ..., `f(n - 1)`, and zero.
pub open spec fn largest(f: spec_fn(int) -> int, n: int) -> int
    decreases n,
{
    if n <= 0 {
        0
    } else if f(n - 1) > largest(f, n - 1) {
        f(n - 1)
    } else {
        largest(f, n - 1)
    }
}

/// The smallest maximum among the first `n` members that can be wider than
/// nothing.
pub open spec fn smallest_maximum(sizes: Seq<Extent>, n: int) -> int
    decreases n,
{
    if n <= 0 {
        0
    } else if sizes[n - 1].maximum <= 0 {
        smallest_maximum(sizes, n - 1)
    } else if active_count(sizes, n - 1) == 0 || sizes[n - 1].maximum < smallest_maximum(
        sizes,
        n - 1,
    ) {
        sizes[n - 1].maximum
    } else {
        smallest_maximum(sizes, n - 1)
    }
}

pub open spec fn minimum_of(sizes: Seq<Extent>) -> spec_fn(int) -> int {
    |i: int| sizes[i].minimum
}

pub open spec fn preferred_of(sizes: Seq<Extent>) -> spec_fn(int) -> int {
    |i: int| sizes[i].preferred
}

pub open spec fn maximum_of(sizes: Seq<Extent>) -> spec_fn(int) -> int {
    |i: int| sizes[i].maximum
}

/// The spaces between `count` members.
pub open spec fn gaps(spacing: u32, count: int) -> int {
    if count <= 1 {
        0
    } else {
        spacing * (count - 1)
    }
}

/// The extent of a group whose members have the extents `sizes`. Members that
/// are always empty take no part. `None` where the members of an equal-width
/// group have no width in common.
pub open spec fn combined(layout: GroupLayout, spacing: u32, sizes: Seq<Extent>) -> Option<Extent> {
    let n = sizes.len() as int;
    let count = active_count(sizes, n);
    let between = gaps(spacing, count);
    if count == 0 {
        Some(fixed_extent(0))
    } else {
        match layout {
            GroupLayout::Natural => Some(
                Extent {
                    minimum: sum::sum(minimum_of(sizes), 0, n) + between,
                    preferred: sum::sum(preferred_of(sizes), 0, n) + between,
                    maximum: sum::sum(maximum_of(sizes), 0, n) + between,
                },
            ),
            GroupLayout::EqualWidth => {
                let low = largest(minimum_of(sizes), n);
                let high = smallest_maximum(sizes, n);
                if low > high {
                    None
                } else {
                    Some(
                        Extent {
                            minimum: low * count + between,
                            preferred: sum::clamped(largest(preferred_of(sizes), n), low, high)
                                * count + between,
                            maximum: high * count + between,
                        },
                    )
                }
            },
        }
    }
}

/// The extent of a member of a group.
pub open spec fn child_extent(element: GroupElement) -> Result<Extent, LayoutError>
    decreases element,
{
    match element {
        GroupElement::Item(item) => Ok(item_extent(item)),
        GroupElement::Group(group) => group_extent(group),
    }
}

/// The extents of the members of a group, or the first error among them.
pub open spec fn child_extents(elements: Seq<GroupElement>) -> Result<Seq<Extent>, LayoutError>
    decreases elements,
{
    if elements.len() == 0 {
        Ok(Seq::empty())
    } else {
        match child_extents(elements.drop_last()) {
            Err(e) => Err(e),
            Ok(sizes) => match child_extent(elements.last()) {
                Err(e) => Err(e),
                Ok(size) => Ok(sizes.push(size)),
            },
        }
    }
}

/// The extent of a group.
pub open spec fn group_extent(group: GroupSpec) -> Result<Extent, LayoutError>
    decreases group,
{
    match child_extents(group.elements@) {
        Err(e) => Err(e),
        Ok(sizes) => match combined(group.layout, group.spacing, sizes) {
            None => Err(LayoutError::InvalidEqualWidthGroup(group.id)),
            Some(size) => Ok(size),
        },
    }
}

/// The extent of an element of a bar.
pub open spec fn element_extent(element: Element) -> Result<Extent, LayoutError> {
    match element {
        Element::Item(item) => Ok(item_extent(item)),
        Element::Group(group) => group_extent(group),
        Element::FixedSpace { width } => Ok(fixed_extent(width as int)),
        Element::FlexibleSpace { minimum, .. } => Ok(fixed_extent(minimum as int)),
    }
}

// ---------------------------------------------------------------------------
// A bound on all widths

/// No width of the item is greater.
pub open spec fn item_weight(item: ItemSpec) -> int {
    item.min_width + item.preferred_width + item.max_width
}

pub open spec fn child_weight(element: GroupElement) -> int
    decreases element,
{
    match element {
        GroupElement::Item(item) => item_weight(item),
        GroupElement::Group(group) => group_weight(group),
    }
}

pub open spec fn children_weight(elements: Seq<GroupElement>) -> int
    decreases elements,
{
    if elements.len() == 0 {
        0
    } else {
        children_weight(elements.drop_last()) + child_weight(elements.last())
    }
}

/// No width of the group is greater: all its items and all its spaces
/// together.
pub open spec fn group_weight(group: GroupSpec) -> int
    decreases group,
{
    children_weight(group.elements@) + group.spacing * group.elements@.len()
}

/// No width of the element is greater, nor its share of flexible space.
pub open spec fn element_weight(element: Element) -> int {
    match element {
        Element::Item(item) => item_weight(item),
        Element::Group(group) => group_weight(group),
        Element::FixedSpace { width } => width as int,
        Element::FlexibleSpace { minimum, weight } => minimum + weight,
    }
}

/// The first `n` elements together.
pub open spec fn elements_weight(elements: Seq<Element>, n: int) -> int
    decreases n,
{
    if n <= 0 {
        0
    } else {
        elements_weight(elements, n - 1) + element_weight(elements[n - 1])
    }
}

pub proof fn lemma_element_weight_nonnegative(element: Element)
    ensures
        element_weight(element) >= 0,
{
    if let Element::Group(group) = element {
        lemma_group_weight_nonnegative(group);
    }
}

/// The weights of several elements together bound the weight of each.
pub proof fn lemma_elements_weight_part(elements: Seq<Element>, i: int, n: int)
    requires
        0 <= i < n <= elements.len(),
    ensures
        0 <= element_weight(elements[i]) <= elements_weight(elements, n),
        0 <= elements_weight(elements, i) <= elements_weight(elements, n) - element_weight(
            elements[i],
        ),
    decreases n,
{
    lemma_element_weight_nonnegative(elements[n - 1]);
    if i < n - 1 {
        lemma_elements_weight_part(elements, i, n - 1);
    } else if i > 0 {
        lemma_elements_weight_part(elements, 0, i);
    }
}

pub proof fn lemma_weights_nonnegative(elements: Seq<GroupElement>)
    ensures
        children_weight(elements) >= 0,
    decreases elements,
{
    if elements.len() > 0 {
        lemma_weights_nonnegative(elements.drop_last());
        lemma_child_weight_nonnegative(elements.last());
    }
}

pub proof fn lemma_child_weight_nonnegative(element: GroupElement)
    ensures
        child_weight(element) >= 0,
    decreases element,
{
    match element {
        GroupElement::Item(item) => {},
        GroupElement::Group(group) => {
            lemma_group_weight_nonnegative(group);
        },
    }
}

pub proof fn lemma_group_weight_nonnegative(group: GroupSpec)
    ensures
        group_weight(group) >= 0,
    decreases group,
{
    lemma_weights_nonnegative(group.elements@);
    let n = group.elements@.len() as int;
    let spacing = group.spacing as int;
    assert(spacing * n >= 0) by (nonlinear_arith)
        requires
            spacing >= 0,
            n >= 0,
    ;
}

/// A part of the members weighs no more than all of them.
pub proof fn lemma_weight_prefix(elements: Seq<GroupElement>, k: int)
    requires
        0 <= k <= elements.len(),
    ensures
        0 <= children_weight(elements.subrange(0, k)) <= children_weight(elements),
        k < elements.len() ==> children_weight(elements.subrange(0, k)) + child_weight(elements[k])
            <= children_weight(elements),
    decreases elements.len() - k,
{
    lemma_weights_nonnegative(elements.subrange(0, k));
    if k < elements.len() {
        lemma_weight_prefix(elements, k + 1);
        assert(elements.subrange(0, k + 1).drop_last() =~= elements.subrange(0, k));
        assert(elements.subrange(0, k + 1).last() == elements[k]);
        lemma_child_weight_nonnegative(elements[k]);
    } else {
        assert(elements.subrange(0, k) =~= elements);
    }
}

// ---------------------------------------------------------------------------
// Facts about extents

/// All three widths lie between zero and a bound.
pub open spec fn within(size: Extent, bound: int) -> bool {
    &&& 0 <= size.minimum <= bound
    &&& 0 <= size.preferred <= bound
    &&& 0 <= size.maximum <= bound
}

/// A first error among some of the members is the first error among all.
pub proof fn lemma_child_extents_prefix(elements: Seq<GroupElement>, k: int)
    requires
        0 <= k <= elements.len(),
    ensures
        child_extents(elements.subrange(0, k)) matches Err(e) ==> child_extents(elements) == Err::<
            Seq<Extent>,
            LayoutError,
        >(e),
    decreases elements.len() - k,
{
    if k < elements.len() {
        lemma_child_extents_prefix(elements, k + 1);
        assert(elements.subrange(0, k + 1).drop_last() =~= elements.subrange(0, k));
    } else {
        assert(elements.subrange(0, k) =~= elements);
    }
}

/// The extents of the members, one by one.
pub proof fn lemma_child_extents(elements: Seq<GroupElement>)
    ensures
        child_extents(elements) matches Ok(sizes) ==> {
            &&& sizes.len() == elements.len()
            &&& forall|i: int|
                0 <= i < elements.len() ==> child_extent(#[trigger] elements[i]) == Ok::<
                    Extent,
                    LayoutError,
                >(sizes[i])
        },
    decreases elements.len(),
{
    if elements.len() > 0 {
        lemma_child_extents(elements.drop_last());
        if child_extents(elements) is Ok {
            let sizes = child_extents(elements)->Ok_0;
            assert forall|i: int| 0 <= i < elements.len() implies child_extent(
                #[trigger] elements[i],
            ) == Ok::<Extent, LayoutError>(sizes[i]) by {
                if i < elements.len() - 1 {
                    assert(elements[i] == elements.drop_last()[i]);
                }
            }
        }
    }
}

pub proof fn lemma_active_count(sizes: Seq<Extent>, n: int)
    requires
        0 <= n <= sizes.len(),
    ensures
        0 <= active_count(sizes, n) <= n,
        forall|i: int|
            0 <= i < n && (#[trigger] sizes[i]).maximum > 0 ==> active_count(sizes, n) > 0,
    decreases n,
{
    if n > 0 {
        lemma_active_count(sizes, n - 1);
    }
}

/// The smallest maximum bounds each of them and is one of them.
pub proof fn lemma_smallest_maximum(sizes: Seq<Extent>, n: int)
    requires
        0 <= n <= sizes.len(),
        forall|i: int| 0 <= i < n ==> (#[trigger] sizes[i]).maximum >= 0,
    ensures
        smallest_maximum(sizes, n) >= 0,
        active_count(sizes, n) > 0 ==> smallest_maximum(sizes, n) > 0,
        active_count(sizes, n) >= 0,
        forall|i: int|
            0 <= i < n && (#[trigger] sizes[i]).maximum > 0 ==> smallest_maximum(sizes, n)
                <= sizes[i].maximum,
        smallest_maximum(sizes, n) * active_count(sizes, n) <= sum::sum(maximum_of(sizes), 0, n),
    decreases n,
{
    if n > 0 {
        lemma_smallest_maximum(sizes, n - 1);
        lemma_active_count(sizes, n - 1);
        let old_high = smallest_maximum(sizes, n - 1);
        let high = smallest_maximum(sizes, n);
        let old_count = active_count(sizes, n - 1);
        let count = active_count(sizes, n);
        if sizes[n - 1].maximum > 0 {
            assert(high * count == high * old_count + high) by (nonlinear_arith)
                requires
                    count == old_count + 1,
            ;
            if old_count > 0 {
                assert(high * old_count <= old_high * old_count) by (nonlinear_arith)
                    requires
                        high <= old_high,
                        old_count >= 0,
                ;
            } else {
                assert(high * old_count == 0) by (nonlinear_arith)
                    requires
                        old_count == 0,
                ;
            }
        }
        assert(maximum_of(sizes)(n - 1) == sizes[n - 1].maximum);
    } else {
        assert(smallest_maximum(sizes, n) * active_count(sizes, n) == 0) by (nonlinear_arith)
            requires
                active_count(sizes, n) == 0,
        ;
    }
}

pub proof fn lemma_largest(f: spec_fn(int) -> int, n: int)
    ensures
        largest(f, n) >= 0,
        forall|i: int| 0 <= i < n ==> #[trigger] f(i) <= largest(f, n),
    decreases n,
{
    if n > 0 {
        lemma_largest(f, n - 1);
    }
}

pub proof fn lemma_products(a: int, b: int, c: int, n: int)
    requires
        0 <= a <= b <= c,
        n >= 0,
    ensures
        0 <= a * n <= b * n <= c * n,
{
    assert(0 <= a * n <= b * n <= c * n) by (nonlinear_arith)
        requires
            0 <= a <= b <= c,
            n >= 0,
    ;
}

pub proof fn lemma_gaps(spacing: u32, count: int, n: int)
    requires
        0 <= count <= n,
    ensures
        0 <= gaps(spacing, count) <= spacing * n,
{
    let s = spacing as int;
    assert(0 <= s * (count - 1) <= s * n || count <= 1) by (nonlinear_arith)
        requires
            s >= 0,
            0 <= count <= n,
    ;
    assert(0 <= s * n) by (nonlinear_arith)
        requires
            s >= 0,
            0 <= n,
    ;
}

/// A group is no wider than its members and its spaces together.
pub proof fn lemma_combined_within(
    layout: GroupLayout,
    spacing: u32,
    sizes: Seq<Extent>,
    bounds: spec_fn(int) -> int,
)
    requires
        forall|i: int| 0 <= i < sizes.len() ==> within(#[trigger] sizes[i], bounds(i)),
    ensures
        combined(layout, spacing, sizes) matches Some(size) ==> within(
            size,
            sum::sum(bounds, 0, sizes.len() as int) + spacing * sizes.len(),
        ),
        0 <= sum::sum(minimum_of(sizes), 0, sizes.len() as int) <= sum::sum(
            bounds,
            0,
            sizes.len() as int,
        ),
        0 <= sum::sum(preferred_of(sizes), 0, sizes.len() as int) <= sum::sum(
            bounds,
            0,
            sizes.len() as int,
        ),
        0 <= sum::sum(maximum_of(sizes), 0, sizes.len() as int) <= sum::sum(
            bounds,
            0,
            sizes.len() as int,
        ),
{
    let n = sizes.len() as int;
    let count = active_count(sizes, n);
    assert forall|i: int| 0 <= i < n implies 0 <= #[trigger] minimum_of(sizes)(i) <= bounds(i)
        && 0 <= preferred_of(sizes)(i) <= bounds(i) && 0 <= maximum_of(sizes)(i) <= bounds(i) by {
        assert(within(sizes[i], bounds(i)));
    }
    assert forall|i: int| 0 <= i < n implies 0 <= #[trigger] preferred_of(sizes)(i) <= bounds(
        i,
    ) by {
        assert(within(sizes[i], bounds(i)));
    }
    assert forall|i: int| 0 <= i < n implies 0 <= #[trigger] maximum_of(sizes)(i) <= bounds(i) by {
        assert(within(sizes[i], bounds(i)));
    }
    sum::lemma_sum_nonnegative(minimum_of(sizes), 0, n);
    sum::lemma_sum_nonnegative(preferred_of(sizes), 0, n);
    sum::lemma_sum_nonnegative(maximum_of(sizes), 0, n);
    sum::lemma_sum_at_most(minimum_of(sizes), bounds, 0, n);
    sum::lemma_sum_at_most(preferred_of(sizes), bounds, 0, n);
    sum::lemma_sum_at_most(maximum_of(sizes), bounds, 0, n);
    lemma_active_count(sizes, n);
    lemma_gaps(spacing, count, n);
    lemma_smallest_maximum(sizes, n);
    lemma_largest(minimum_of(sizes), n);
    let low = largest(minimum_of(sizes), n);
    let high = smallest_maximum(sizes, n);
    if count > 0 && low <= high {
        lemma_products(
            low,
            sum::clamped(largest(preferred_of(sizes), n), low, high),
            high,
            count,
        );
    }
}

pub proof fn lemma_child_extent_within(element: GroupElement)
    ensures
        child_extent(element) matches Ok(size) ==> within(size, child_weight(element)),
    decreases element,
{
    match element {
        GroupElement::Item(item) => {},
        GroupElement::Group(group) => {
            lemma_group_extent_within(group);
        },
    }
}

/// The weight of each member.
pub open spec fn weights(elements: Seq<GroupElement>) -> spec_fn(int) -> int {
    |i: int| child_weight(elements[i])
}

pub proof fn lemma_children_weight(elements: Seq<GroupElement>)
    ensures
        children_weight(elements) == sum::sum(weights(elements), 0, elements.len() as int),
    decreases elements.len(),
{
    if elements.len() > 0 {
        let n = elements.len() as int;
        lemma_children_weight(elements.drop_last());
        sum::lemma_sum_same(weights(elements.drop_last()), weights(elements), 0, n - 1);
    }
}

/// No width of a group exceeds its weight.
pub proof fn lemma_group_extent_within(group: GroupSpec)
    ensures
        group_extent(group) matches Ok(size) ==> within(size, group_weight(group)),
    decreases group,
{
    let elements = group.elements@;
    lemma_child_extents(elements);
    if child_extents(elements) is Ok {
        let sizes = child_extents(elements)->Ok_0;
        assert forall|i: int| 0 <= i < sizes.len() implies within(
            #[trigger] sizes[i],
            weights(elements)(i),
        ) by {
            lemma_child_extent_within(elements[i]);
        }
        lemma_children_weight(elements);
        lemma_combined_within(group.layout, group.spacing, sizes, weights(elements));
    }
}

// ---------------------------------------------------------------------------
// Computing extents

pub open spec fn sized(result: Result<Sizing, LayoutError>) -> Result<Extent, LayoutError> {
    match result {
        Ok(size) => Ok(size@),
        Err(e) => Err(e),
    }
}

pub(crate) fn item_sizing(item: &ItemSpec) -> (size: Sizing)
    ensures
        size@ == item_extent(*item),
{
    Sizing {
        minimum: item.min_width as u64,
        preferred: item.preferred_width as u64,
        maximum: item.max_width as u64,
    }
}

pub(crate) fn fixed_sizing(width: u32) -> (size: Sizing)
    ensures
        size@ == fixed_extent(width as int),
{
    Sizing { minimum: width as u64, preferred: width as u64, maximum: width as u64 }
}

/// The extent of a group whose members have the given extents.
fn combine(layout: GroupLayout, spacing: u32, sizes: &Vec<Sizing>) -> (size: Option<Sizing>)
    requires
        sum::sum(minimum_of(extents(sizes@)), 0, sizes@.len() as int) + spacing * sizes@.len()
            <= u64::MAX,
        sum::sum(preferred_of(extents(sizes@)), 0, sizes@.len() as int) + spacing * sizes@.len()
            <= u64::MAX,
        sum::sum(maximum_of(extents(sizes@)), 0, sizes@.len() as int) + spacing * sizes@.len()
            <= u64::MAX,
    ensures
        combined(layout, spacing, extents(sizes@)) == (match size {
            Some(s) => Some(s@),
            None => None,
        }),
{
    let ghost all = extents(sizes@);
    let ghost n = sizes@.len() as int;
    let mut count: u64 = 0;
    let mut minimum: u64 = 0;
    let mut preferred: u64 = 0;
    let mut maximum: u64 = 0;
    let mut low: u64 = 0;
    let mut middle: u64 = 0;
    let mut high: u64 = 0;
    let mut i: usize = 0;
    proof {
        assert forall|k: int| 0 <= k < n implies #[trigger] minimum_of(all)(k) >= 0 by {}
        assert forall|k: int| 0 <= k < n implies #[trigger] preferred_of(all)(k) >= 0 by {}
        assert forall|k: int| 0 <= k < n implies #[trigger] maximum_of(all)(k) >= 0 by {}
        assert(spacing * n >= 0) by (nonlinear_arith)
            requires
                spacing >= 0,
                n >= 0,
        ;
    }
    while i < sizes.len()
        invariant
            all == extents(sizes@),
            n == sizes@.len(),
            i <= n,
            forall|k: int| 0 <= k < n ==> #[trigger] minimum_of(all)(k) >= 0,
            forall|k: int| 0 <= k < n ==> #[trigger] preferred_of(all)(k) >= 0,
            forall|k: int| 0 <= k < n ==> #[trigger] maximum_of(all)(k) >= 0,
            sum::sum(minimum_of(all), 0, n) <= u64::MAX,
            sum::sum(preferred_of(all), 0, n) <= u64::MAX,
            sum::sum(maximum_of(all), 0, n) <= u64::MAX,
            count == active_count(all, i as int),
            count <= i,
            minimum == sum::sum(minimum_of(all), 0, i as int),
            preferred == sum::sum(preferred_of(all), 0, i as int),
            maximum == sum::sum(maximum_of(all), 0, i as int),
            low == largest(minimum_of(all), i as int),
            middle == largest(preferred_of(all), i as int),
            high == smallest_maximum(all, i as int),
        decreases n - i,
    {
        let size: Sizing = sizes[i];
        proof {
            sum::lemma_sum_part(minimum_of(all), 0, 0, i + 1, n);
            sum::lemma_sum_part(preferred_of(all), 0, 0, i + 1, n);
            sum::lemma_sum_part(maximum_of(all), 0, 0, i + 1, n);
            assert(all[i as int] == size@);
        }
        minimum = minimum + size.minimum;
        preferred = preferred + size.preferred;
        maximum = maximum + size.maximum;
        if size.minimum > low {
            low = size.minimum;
        }
        if size.preferred > middle {
            middle = size.preferred;
        }
        if size.maximum > 0 {
            if count == 0 || size.maximum < high {
                high = size.maximum;
            }
            count = count + 1;
        }
        i = i + 1;
    }
    if count == 0 {
        return Some(fixed_sizing(0));
    }
    proof {
        lemma_active_count(all, n);
        lemma_gaps(spacing, count as int, n);
        lemma_smallest_maximum(all, n);
        lemma_largest(minimum_of(all), n);
        if low <= high {
            lemma_products(
                low as int,
                sum::clamped(middle as int, low as int, high as int),
                high as int,
                count as int,
            );
        }
    }
    proof {
        assert(gaps(spacing, count as int) == spacing * (count - 1)) by {
            if count == 1 {
                assert(spacing * (count - 1) == 0) by (nonlinear_arith)
                    requires
                        count == 1,
                ;
            }
        }
    }
    let between: u64 = (spacing as u64) * (count - 1);
    match layout {
        GroupLayout::Natural => Some(
            Sizing {
                minimum: minimum + between,
                preferred: preferred + between,
                maximum: maximum + between,
            },
        ),
        GroupLayout::EqualWidth => {
            if low > high {
                return None;
            }
            let common: u64 = if middle < low {
                low
            } else if middle > high {
                high
            } else {
                middle
            };
            Some(
                Sizing {
                    minimum: low * count + between,
                    preferred: common * count + between,
                    maximum: high * count + between,
                },
            )
        },
    }
}

pub(crate) fn count_active(sizes: &Vec<Sizing>) -> (count: u64)
    ensures
        count == active_count(extents(sizes@), sizes@.len() as int),
        count <= sizes@.len(),
{
    let mut count: u64 = 0;
    let mut i: usize = 0;
    while i < sizes.len()
        invariant
            i <= sizes@.len(),
            count <= i,
            count == active_count(extents(sizes@), i as int),
        decreases sizes@.len() - i,
    {
        if sizes[i].maximum > 0 {
            count = count + 1;
        }
        i = i + 1;
    }
    count
}

pub(crate) fn group_element_sizing(element: &GroupElement) -> (size: Result<Sizing, LayoutError>)
    requires
        child_weight(*element) <= u64::MAX,
    ensures
        sized(size) == child_extent(*element),
    decreases element,
{
    match element {
        GroupElement::Item(item) => Ok(item_sizing(item)),
        GroupElement::Group(group) => group_sizing(group),
    }
}

/// The extents of all members of a group.
pub(crate) fn group_sizings(elements: &Vec<GroupElement>) -> (sizes: Result<
    Vec<Sizing>,
    LayoutError,
>)
    requires
        children_weight(elements@) <= u64::MAX,
    ensures
        child_extents(elements@) == (match sizes {
            Ok(s) => Ok::<Seq<Extent>, LayoutError>(extents(s@)),
            Err(e) => Err(e),
        }),
    decreases elements,
{
    let mut sizes: Vec<Sizing> = Vec::new();
    let mut i: usize = 0;
    proof {
        assert(extents(sizes@) =~= Seq::empty());
    }
    while i < elements.len()
        invariant
            i <= elements@.len(),
            children_weight(elements@) <= u64::MAX,
            child_extents(elements@.subrange(0, i as int)) == Ok::<Seq<Extent>, LayoutError>(
                extents(sizes@),
            ),
        decreases elements@.len() - i,
    {
        let ghost before = elements@.subrange(0, i as int);
        let ghost after = elements@.subrange(0, i + 1);
        proof {
            lemma_weight_prefix(elements@, i as int);
            assert(after.drop_last() =~= before);
            assert(after.last() == elements@[i as int]);
            lemma_child_extents_prefix(elements@, i + 1);
        }
        let size: Sizing = group_element_sizing(&elements[i])?;
        let ghost old_sizes = sizes@;
        sizes.push(size);
        proof {
            assert(extents(sizes@) =~= extents(old_sizes).push(size@));
        }
        i = i + 1;
    }
    proof {
        assert(elements@.subrange(0, elements@.len() as int) =~= elements@);
    }
    Ok(sizes)
}

/// The widths that a group can take.
pub fn group_sizing(group: &GroupSpec) -> (size: Result<Sizing, LayoutError>)
    requires
        group_weight(*group) <= u64::MAX,
    ensures
        sized(size) == group_extent(*group),
    decreases group,
{
    let ghost elements = group.elements@;
    proof {
        let n = elements.len() as int;
        assert(group.spacing * n >= 0) by (nonlinear_arith)
            requires
                group.spacing >= 0,
                n >= 0,
        ;
    }
    let sizes: Vec<Sizing> = group_sizings(&group.elements)?;
    proof {
        lemma_child_extents(elements);
        lemma_children_weight(elements);
        assert forall|i: int| 0 <= i < sizes@.len() implies within(
            #[trigger] extents(sizes@)[i],
            weights(elements)(i),
        ) by {
            lemma_child_extent_within(elements[i]);
        }
        lemma_combined_within(group.layout, group.spacing, extents(sizes@), weights(elements));
    }
    match combine(group.layout, group.spacing, &sizes) {
        Some(size) => Ok(size),
        None => Err(LayoutError::InvalidEqualWidthGroup(group.id.clone())),
    }
}

/// The widths that an element of a bar can take.
pub fn element_sizing(element: &Element) -> (size: Result<Sizing, LayoutError>)
    requires
        element_weight(*element) <= u64::MAX,
    ensures
        sized(size) == element_extent(*element),
{
    match element {
        Element::Item(item) => Ok(item_sizing(item)),
        Element::Group(group) => group_sizing(group),
        Element::FixedSpace { width } => Ok(fixed_sizing(*width)),
        Element::FlexibleSpace { minimum, .. } => Ok(fixed_sizing(*minimum)),
    }
}

} // verus!
