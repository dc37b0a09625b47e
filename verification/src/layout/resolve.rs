//! Laying out a bar.
use vstd::prelude::*;

use crate::layout::place;
use crate::layout::share;
use crate::layout::sizing;
use crate::layout::sizing::{Extent, Sizing};
use crate::layout::spaces;
use crate::layout::sum;
use crate::layout::validate;
use crate::layout::visibility;
use crate::layout::{BarSpec, Element, ItemId, ItemSpec, LayoutError, Placement, ResolvedLayout};
use crate::text;
use crate::text::TextSet;

verus! {

/// The widths that the elements of a sound bar can take.
pub open spec fn sizes_of(elements: Seq<Element>) -> Seq<Extent> {
    Seq::new(elements.len(), |i: int| sizing::element_extent(elements[i])->Ok_0)
}

/// What an element would like to take: nothing where it is hidden.
pub open spec fn wishes(elements: Seq<Element>, sizes: Seq<Extent>, visible: Seq<bool>) -> Seq<
    int,
> {
    Seq::new(
        elements.len(),
        |i: int|
            if visibility::is_content(elements[i]) && !visible[i] {
                0
            } else {
                sizes[i].preferred
            },
    )
}

/// How much of that it can do without.
pub open spec fn slacks(elements: Seq<Element>, sizes: Seq<Extent>, visible: Seq<bool>) -> Seq<
    int,
> {
    Seq::new(
        elements.len(),
        |i: int|
            if visibility::is_content(elements[i]) && !visible[i] {
                0
            } else {
                sizes[i].preferred - sizes[i].minimum
            },
    )
}

pub open spec fn compression_priority(element: Element) -> i32 {
    match element {
        Element::Item(item) => item.compression_priority,
        Element::Group(group) => group.compression_priority,
        Element::FixedSpace { .. } => 0,
        Element::FlexibleSpace { .. } => 0,
    }
}

pub open spec fn compression_priorities(elements: Seq<Element>) -> Seq<i32> {
    Seq::new(elements.len(), |i: int| compression_priority(elements[i]))
}

/// What the elements take before room is shared out: their preferred widths,
/// compressed to the width there is.
pub open spec fn fitted(
    elements: Seq<Element>,
    sizes: Seq<Extent>,
    visible: Seq<bool>,
    available: int,
) -> Seq<int> {
    let wanted = wishes(elements, sizes, visible);
    let excess = if share::total(wanted) > available {
        share::total(wanted) - available
    } else {
        0
    };
    share::shrunk(
        wanted,
        slacks(elements, sizes, visible),
        compression_priorities(elements),
        excess,
    )
}

/// Where the principal item stands, and in which element.
pub struct Anchor {
    pub index: int,
    pub offset: int,
    pub width: int,
}

/// The first of the first `n` shown elements that holds the item.
pub open spec fn holder(
    elements: Seq<Element>,
    visible: Seq<bool>,
    id: Seq<char>,
    n: int,
) -> Option<int>
    decreases n,
{
    if n <= 0 {
        None
    } else {
        match holder(elements, visible, id, n - 1) {
            Some(i) => Some(i),
            None => if visible[n - 1] && place::holds(
                place::element_items(elements[n - 1]),
                id,
            ) {
                Some(n - 1)
            } else {
                None
            },
        }
    }
}

/// The first of the first `n` placements of an item.
pub open spec fn placement_of(placements: Seq<Placement>, id: Seq<char>, n: int) -> Option<int>
    decreases n,
{
    if n <= 0 {
        None
    } else {
        match placement_of(placements, id, n - 1) {
            Some(i) => Some(i),
            None => if placements[n - 1].id@ == id {
                Some(n - 1)
            } else {
                None
            },
        }
    }
}

/// The principal item within an element that is `width` wide.
pub open spec fn anchor_in(element: Element, index: int, width: int, id: Seq<char>) -> Option<
    Anchor,
> {
    let inside = place::place_element(element, 0, width);
    match placement_of(inside, id, inside.len() as int) {
        Some(k) => Some(
            Anchor { index, offset: inside[k].x as int, width: inside[k].width as int },
        ),
        None => None,
    }
}

/// The principal item of a bar, where it is shown.
pub open spec fn anchor_of(bar: BarSpec, visible: Seq<bool>, widths: Seq<int>) -> Option<Anchor> {
    match bar.principal_item {
        None => None,
        Some(principal) => match holder(
            bar.elements@,
            visible,
            principal@,
            bar.elements@.len() as int,
        ) {
            None => None,
            Some(i) => anchor_in(bar.elements@[i], i, widths[i], principal@),
        },
    }
}

/// Where the element with the principal item starts: so that the item is in
/// the middle, as far as the elements before and after it leave room.
pub open spec fn anchor_x(widths: Seq<int>, anchor: Anchor, available: int) -> int {
    let n = widths.len() as int;
    let before = sum::sum(share::at(widths), 0, anchor.index);
    let after = sum::sum(share::at(widths), anchor.index + 1, n);
    let middle = (available - anchor.width) / 2;
    let desired = if middle > anchor.offset {
        middle - anchor.offset
    } else {
        0
    };
    sum::clamped(desired, before, available - widths[anchor.index] - after)
}

/// What each element gets of the room that is left.
pub open spec fn stretch(
    elements: Seq<Element>,
    widths: Seq<int>,
    anchor: Option<Anchor>,
    available: int,
    i: int,
) -> int {
    let n = elements.len() as int;
    match anchor {
        None => spaces::addition(elements, 0, n, available - share::total(widths), i),
        Some(a) => {
            let x = anchor_x(widths, a, available);
            let before = sum::sum(share::at(widths), 0, a.index);
            let after = sum::sum(share::at(widths), a.index + 1, n);
            spaces::addition(elements, 0, a.index, x - before, i) + spaces::addition(
                elements,
                a.index + 1,
                n,
                available - x - widths[a.index] - after,
                i,
            )
        },
    }
}

/// The widths of all elements.
pub open spec fn stretched(
    elements: Seq<Element>,
    widths: Seq<int>,
    anchor: Option<Anchor>,
    available: int,
) -> Seq<int> {
    Seq::new(
        widths.len(),
        |i: int| widths[i] + stretch(elements, widths, anchor, available, i),
    )
}

/// A bar with the width of each element and the element from which on the
/// others are counted.
pub struct Plan {
    pub widths: Seq<int>,
    pub pivot: int,
    pub pivot_x: int,
}

/// Where the element `i` starts.
pub open spec fn position(plan: Plan, i: int) -> int {
    if i < plan.pivot {
        sum::sum(share::at(plan.widths), 0, i)
    } else {
        plan.pivot_x + sum::sum(share::at(plan.widths), plan.pivot, i)
    }
}

/// How the elements of a bar stand.
pub open spec fn plan_of(bar: BarSpec, visible: Seq<bool>, available: int) -> Plan {
    let elements = bar.elements@;
    let base = fitted(elements, sizes_of(elements), visible, available);
    let anchor = anchor_of(bar, visible, base);
    let widths = stretched(elements, base, anchor, available);
    match anchor {
        None => Plan { widths, pivot: 0, pivot_x: 0 },
        Some(a) => Plan { widths, pivot: a.index, pivot_x: anchor_x(base, a, available) },
    }
}

/// The items of the first `n` elements, as far as they are shown.
pub open spec fn placed(elements: Seq<Element>, visible: Seq<bool>, plan: Plan, n: int) -> Seq<
    Placement,
>
    decreases n,
{
    if n <= 0 {
        Seq::empty()
    } else {
        placed(elements, visible, plan, n - 1) + (if visible[n - 1] {
            place::place_element(elements[n - 1], position(plan, n - 1), plan.widths[n - 1])
        } else {
            Seq::empty()
        })
    }
}

/// The items among the first `n` elements that are shown, or that are not.
pub open spec fn selected(elements: Seq<Element>, visible: Seq<bool>, which: bool, n: int) -> Seq<
    ItemSpec,
>
    decreases n,
{
    if n <= 0 {
        Seq::empty()
    } else {
        selected(elements, visible, which, n - 1) + (if visible[n - 1] == which {
            place::element_items(elements[n - 1])
        } else {
            Seq::empty()
        })
    }
}

/// What a resolved layout says.
#[verifier::ext_equal]
pub struct Layout {
    pub placements: Seq<Placement>,
    pub hidden_items: Seq<ItemId>,
    pub content_width: u32,
}

impl View for ResolvedLayout {
    type V = Layout;

    open spec fn view(&self) -> Layout {
        Layout {
            placements: self.placements@,
            hidden_items: self.hidden_items@,
            content_width: self.content_width,
        }
    }
}

/// The elements of a bar that are shown.
pub open spec fn shown_in(bar: BarSpec, available: u32, required: Seq<Seq<char>>) -> Seq<bool> {
    visibility::shown(bar.elements@, sizes_of(bar.elements@), required, available as int)
}

/// The layout of a bar, or why there is none.
pub open spec fn resolved(
    bar: BarSpec,
    available: u32,
    required: TextSet<ItemId>,
) -> Result<Layout, LayoutError> {
    let elements = bar.elements@;
    let n = elements.len() as int;
    match validate::bar_check(bar, required.items()) {
        Err(e) => Err(e),
        Ok(_) => match visibility::first_clash(elements, n) {
            Some(i) => Err(visibility::clash_error(elements[i])),
            None => {
                let visible = shown_in(bar, available, required@);
                let least = visibility::kept_width(elements, sizes_of(elements), visible);
                if least > available {
                    Err(
                        LayoutError::InsufficientWidth {
                            available,
                            required: (if least > u32::MAX {
                                u32::MAX
                            } else {
                                least as u32
                            }),
                        },
                    )
                } else {
                    let plan = plan_of(bar, visible, available as int);
                    Ok(
                        Layout {
                            placements: placed(elements, visible, plan, n),
                            hidden_items: place::identifiers(
                                selected(elements, visible, false, n),
                            ),
                            content_width: position(plan, n) as u32,
                        },
                    )
                }
            },
        },
    }
}

/// The layout can be computed: the widths of all elements together fit a
/// machine number.
pub open spec fn measurable(bar: BarSpec) -> bool {
    sizing::elements_weight(bar.elements@, bar.elements@.len() as int) <= u64::MAX
}

// ---------------------------------------------------------------------------
// Facts about plans

/// The facts on which the layout of a valid bar rests.
pub open spec fn fits(bar: BarSpec, visible: Seq<bool>, available: int) -> bool {
    let elements = bar.elements@;
    &&& 0 <= available <= u32::MAX
    &&& visible.len() == elements.len()
    &&& forall|i: int| 0 <= i < elements.len() ==> place::sound_element(#[trigger] elements[i])
    &&& forall|i: int|
        0 <= i < elements.len() && #[trigger] visible[i] ==> visibility::is_content(elements[i])
    &&& visibility::kept_width(elements, sizes_of(elements), visible) <= available
}

pub proof fn lemma_sound_sizes(elements: Seq<Element>, i: int)
    requires
        0 <= i < elements.len(),
        place::sound_element(elements[i]),
    ensures
        sizing::element_extent(elements[i]) == Ok::<Extent, LayoutError>(sizes_of(elements)[i]),
        share::sound(sizes_of(elements)[i]),
{
    if let Element::Group(group) = elements[i] {
        place::lemma_sound_group(group);
    }
}

/// The fitted widths suit their elements and fit the bar.
pub proof fn lemma_fitted(bar: BarSpec, visible: Seq<bool>, available: int)
    requires
        fits(bar, visible, available),
    ensures
        ({
            let elements = bar.elements@;
            let sizes = sizes_of(elements);
            let base = fitted(elements, sizes, visible, available);
            let wanted = share::total(wishes(elements, sizes, visible));
            &&& base.len() == elements.len()
            &&& forall|i: int| 0 <= i < elements.len() ==> 0 <= #[trigger] base[i] <= available
            &&& forall|i: int|
                0 <= i < elements.len() && #[trigger] visible[i] ==> place::suits(
                    sizes[i],
                    base[i],
                )
            &&& share::total(base) == (if wanted > available {
                available
            } else {
                wanted
            })
            &&& 0 <= share::total(base) <= available
        }),
{
    let elements = bar.elements@;
    let n = elements.len() as int;
    let sizes = sizes_of(elements);
    let wanted = wishes(elements, sizes, visible);
    let slack = slacks(elements, sizes, visible);
    let keep = visibility::kept(elements, sizes, visible);
    let base = fitted(elements, sizes, visible, available);
    assert forall|i: int| 0 <= i < n implies #[trigger] share::sound(sizes[i]) by {
        assert(place::sound_element(elements[i]));
        lemma_sound_sizes(elements, i);
    }
    assert forall|i: int| 0 <= i < n implies #[trigger] share::at(wanted)(i) == keep(i) + share::at(
        slack,
    )(i) by {
        assert(share::sound(sizes[i]));
    }
    sum::lemma_sum_plus(keep, share::at(slack), share::at(wanted), 0, n);
    assert forall|i: int| 0 <= i < n implies #[trigger] slack[i] >= 0 by {
        assert(share::sound(sizes[i]));
    }
    assert forall|i: int| 0 <= i < n implies #[trigger] share::at(slack)(i) >= 0 by {
        assert(share::sound(sizes[i]));
    }
    sum::lemma_sum_nonnegative(share::at(slack), 0, n);
    let excess = if share::total(wanted) > available {
        share::total(wanted) - available
    } else {
        0
    };
    share::lemma_shrunk(wanted, slack, compression_priorities(elements), excess);
    assert forall|i: int| 0 <= i < n implies #[trigger] base[i] >= 0 by {
        assert(share::sound(sizes[i]));
        assert(wanted[i] - slack[i] <= base[i] <= wanted[i]);
    }
    assert forall|i: int| 0 <= i < n implies #[trigger] share::at(base)(i) >= 0 by {
        assert(base[i] >= 0);
    }
    sum::lemma_sum_nonnegative(share::at(base), 0, n);
    assert forall|i: int| 0 <= i < n implies 0 <= #[trigger] base[i] <= available by {
        sum::lemma_sum_part(share::at(base), 0, i, i + 1, n);
        assert(sum::sum(share::at(base), i, i + 1) == sum::sum(share::at(base), i, i) + base[i]);
    }
    assert forall|i: int| 0 <= i < n && #[trigger] visible[i] implies place::suits(
        sizes[i],
        base[i],
    ) by {
        assert(share::sound(sizes[i]));
        assert(wanted[i] - slack[i] <= base[i] <= wanted[i]);
    }
}

pub proof fn lemma_holder(elements: Seq<Element>, visible: Seq<bool>, id: Seq<char>, n: int)
    ensures
        match holder(elements, visible, id, n) {
            Some(i) => 0 <= i < n && visible[i] && place::holds(
                place::element_items(elements[i]),
                id,
            ),
            None => forall|i: int|
                0 <= i < n && #[trigger] visible[i] ==> !place::holds(
                    place::element_items(elements[i]),
                    id,
                ),
        },
    decreases n,
{
    if n > 0 {
        lemma_holder(elements, visible, id, n - 1);
    }
}

pub proof fn lemma_placement_of(placements: Seq<Placement>, id: Seq<char>, n: int)
    ensures
        match placement_of(placements, id, n) {
            Some(k) => 0 <= k < n && placements[k].id@ == id,
            None => forall|k: int| 0 <= k < n ==> (#[trigger] placements[k]).id@ != id,
        },
    decreases n,
{
    if n > 0 {
        lemma_placement_of(placements, id, n - 1);
    }
}

/// The items of an element stand side by side inside it.
pub proof fn lemma_place_element_arranged(elements: Seq<Element>, i: int, x: int, width: int)
    requires
        0 <= i < elements.len(),
        place::sound_element(elements[i]),
        visibility::is_content(elements[i]) ==> place::suits(sizes_of(elements)[i], width),
        0 <= x,
        0 <= width,
        x + width <= u32::MAX,
    ensures
        place::arranged(
            place::place_element(elements[i], x, width),
            place::element_items(elements[i]),
            x,
            x + width,
        ),
{
    lemma_sound_sizes(elements, i);
    if let Element::Group(group) = elements[i] {
        place::lemma_place_group_arranged(group, x, width);
    }
}

/// The principal item stands inside its element.
pub proof fn lemma_anchor(bar: BarSpec, visible: Seq<bool>, available: int)
    requires
        fits(bar, visible, available),
    ensures
        ({
            let elements = bar.elements@;
            let base = fitted(elements, sizes_of(elements), visible, available);
            anchor_of(bar, visible, base) matches Some(a) ==> {
                &&& 0 <= a.index < elements.len()
                &&& visible[a.index]
                &&& 0 <= a.offset
                &&& 0 <= a.width
                &&& a.offset + a.width <= base[a.index]
            }
        }),
{
    let elements = bar.elements@;
    let n = elements.len() as int;
    let base = fitted(elements, sizes_of(elements), visible, available);
    lemma_fitted(bar, visible, available);
    if let Some(principal) = bar.principal_item {
        lemma_holder(elements, visible, principal@, n);
        if let Some(i) = holder(elements, visible, principal@, n) {
            assert(place::sound_element(elements[i]));
            lemma_place_element_arranged(elements, i, 0, base[i]);
            let inside = place::place_element(elements[i], 0, base[i]);
            lemma_placement_of(inside, principal@, inside.len() as int);
        }
    }
}

/// The elements stand one after the other inside the bar, and only flexible
/// spaces are wider than they need be.
pub open spec fn orderly(
    elements: Seq<Element>,
    base: Seq<int>,
    plan: Plan,
    available: int,
) -> bool {
    let n = elements.len() as int;
    &&& plan.widths.len() == n
    &&& 0 <= plan.pivot <= n
    &&& forall|i: int| 0 <= i < n ==> 0 <= base[i] <= #[trigger] plan.widths[i]
    &&& forall|i: int|
        0 <= i < n && spaces::weight_of(elements[i]) == 0 ==> #[trigger] plan.widths[i] == base[i]
    &&& forall|i: int|
        0 <= i < n ==> position(plan, i) + #[trigger] plan.widths[i] <= position(plan, i + 1)
    &&& forall|i: int| 0 <= i <= n ==> 0 <= #[trigger] position(plan, i) <= available
}

proof fn lemma_free_plan(elements: Seq<Element>, base: Seq<int>, available: int)
    requires
        base.len() == elements.len(),
        forall|i: int| 0 <= i < base.len() ==> #[trigger] base[i] >= 0,
        0 <= share::total(base) <= available,
    ensures
        orderly(
            elements,
            base,
            (Plan {
                widths: stretched(elements, base, None, available),
                pivot: 0,
                pivot_x: 0,
            }),
            available,
        ),
{
    let n = elements.len() as int;
    let plan = Plan { widths: stretched(elements, base, None, available), pivot: 0, pivot_x: 0 };
    let w = share::at(plan.widths);
    let extra = available - share::total(base);
    spaces::lemma_additions(elements, 0, n, extra);
    let more = spaces::additions(elements, 0, n, extra);
    assert forall|i: int| 0 <= i < n implies #[trigger] w(i) == share::at(base)(i) + more(i) by {}
    sum::lemma_sum_plus(share::at(base), more, w, 0, n);
    assert forall|i: int| 0 <= i < n implies 0 <= base[i] <= #[trigger] plan.widths[i] by {
        assert(more(i) >= 0);
    }
    assert forall|i: int| 0 <= i < n implies #[trigger] w(i) >= 0 by {
        assert(base[i] <= plan.widths[i]);
    }
    assert forall|i: int| 0 <= i <= n implies 0 <= #[trigger] position(plan, i) <= available by {
        sum::lemma_sum_part(w, 0, 0, i, n);
    }
}

proof fn lemma_anchored_plan(
    elements: Seq<Element>,
    base: Seq<int>,
    a: Anchor,
    available: int,
)
    requires
        base.len() == elements.len(),
        forall|i: int| 0 <= i < base.len() ==> #[trigger] base[i] >= 0,
        0 <= share::total(base) <= available,
        0 <= a.index < elements.len(),
        spaces::weight_of(elements[a.index]) == 0,
    ensures
        orderly(
            elements,
            base,
            (Plan {
                widths: stretched(elements, base, Some(a), available),
                pivot: a.index,
                pivot_x: anchor_x(base, a, available),
            }),
            available,
        ),
{
    let n = elements.len() as int;
    let p = a.index;
    let x = anchor_x(base, a, available);
    let plan = Plan {
        widths: stretched(elements, base, Some(a), available),
        pivot: p,
        pivot_x: x,
    };
    let w = share::at(plan.widths);
    let b = share::at(base);
    let before = sum::sum(b, 0, p);
    let after = sum::sum(b, p + 1, n);
    assert forall|i: int| 0 <= i < n implies #[trigger] b(i) >= 0 by {
        assert(base[i] >= 0);
    }
    sum::lemma_sum_split(b, 0, p, n);
    sum::lemma_sum_split(b, p, p + 1, n);
    assert(sum::sum(b, p, p + 1) == sum::sum(b, p, p) + b(p));
    sum::lemma_sum_nonnegative(b, 0, p);
    sum::lemma_sum_nonnegative(b, p + 1, n);
    assert(before <= x <= available - base[p] - after);
    let extra1 = x - before;
    let extra2 = available - x - base[p] - after;
    spaces::lemma_additions(elements, 0, p, extra1);
    spaces::lemma_additions(elements, p + 1, n, extra2);
    let more1 = spaces::additions(elements, 0, p, extra1);
    let more2 = spaces::additions(elements, p + 1, n, extra2);
    assert forall|i: int| 0 <= i < n implies #[trigger] w(i) == b(i) + more1(i) + more2(i) by {}
    assert forall|i: int| 0 <= i < p implies #[trigger] w(i) == b(i) + more1(i) by {
        assert(w(i) == b(i) + more1(i) + more2(i));
    }
    assert forall|i: int| p + 1 <= i < n implies #[trigger] w(i) == b(i) + more2(i) by {
        assert(w(i) == b(i) + more1(i) + more2(i));
    }
    sum::lemma_sum_plus(b, more1, w, 0, p);
    sum::lemma_sum_plus(b, more2, w, p + 1, n);
    assert(w(p) == b(p)) by {
        assert(w(p) == b(p) + more1(p) + more2(p));
    }
    assert forall|i: int| 0 <= i < n implies 0 <= base[i] <= #[trigger] plan.widths[i] by {
        assert(more1(i) >= 0);
        assert(more2(i) >= 0);
        assert(w(i) == b(i) + more1(i) + more2(i));
    }
    assert forall|i: int| 0 <= i < n implies #[trigger] w(i) >= 0 by {
        assert(base[i] <= plan.widths[i]);
    }
    sum::lemma_sum_split(w, p, p + 1, n);
    assert(sum::sum(w, p, p + 1) == sum::sum(w, p, p) + w(p));
    assert(sum::sum(w, 0, p) <= x);
    assert(x + sum::sum(w, p, n) <= available);
    assert forall|i: int| 0 <= i <= n implies 0 <= #[trigger] position(plan, i) <= available by {
        if i < p {
            sum::lemma_sum_part(w, 0, 0, i, p);
        } else {
            sum::lemma_sum_part(w, p, p, i, n);
        }
    }
    assert forall|i: int| 0 <= i < n implies position(plan, i) + #[trigger] plan.widths[i]
        <= position(plan, i + 1) by {
        if i + 1 == p {
            assert(sum::sum(w, 0, p) == sum::sum(w, 0, i) + w(i));
            assert(sum::sum(w, p, p) == 0);
        } else if i + 1 < p {
            assert(sum::sum(w, 0, i + 1) == sum::sum(w, 0, i) + w(i));
        } else {
            assert(sum::sum(w, p, i + 1) == sum::sum(w, p, i) + w(i));
        }
    }
}

/// The elements stand one after the other inside the bar.
pub proof fn lemma_plan(bar: BarSpec, visible: Seq<bool>, available: int)
    requires
        fits(bar, visible, available),
    ensures
        orderly(
            bar.elements@,
            fitted(bar.elements@, sizes_of(bar.elements@), visible, available),
            plan_of(bar, visible, available),
            available,
        ),
{
    let elements = bar.elements@;
    let base = fitted(elements, sizes_of(elements), visible, available);
    lemma_fitted(bar, visible, available);
    lemma_anchor(bar, visible, available);
    match anchor_of(bar, visible, base) {
        None => lemma_free_plan(elements, base, available),
        Some(a) => {
            assert(visibility::is_content(elements[a.index]));
            lemma_anchored_plan(elements, base, a, available);
        },
    }
}

/// The shown items stand side by side inside the bar, in the order in which
/// they occur, each as wide as suits it.
pub proof fn lemma_placed_arranged(bar: BarSpec, visible: Seq<bool>, available: int, n: int)
    requires
        fits(bar, visible, available),
        0 <= n <= bar.elements@.len(),
    ensures
        place::arranged(
            placed(bar.elements@, visible, plan_of(bar, visible, available), n),
            selected(bar.elements@, visible, true, n),
            0,
            position(plan_of(bar, visible, available), n),
        ),
    decreases n,
{
    let elements = bar.elements@;
    let base = fitted(elements, sizes_of(elements), visible, available);
    let plan = plan_of(bar, visible, available);
    lemma_plan(bar, visible, available);
    lemma_fitted(bar, visible, available);
    if n > 0 {
        lemma_placed_arranged(bar, visible, available, n - 1);
        let k = n - 1;
        let x = position(plan, k);
        assert(x + plan.widths[k] <= position(plan, k + 1));
        assert(position(plan, n) <= available);
        if visible[k] {
            assert(plan.widths[k] == base[k]);
            assert(place::sound_element(elements[k]));
            lemma_place_element_arranged(elements, k, x, plan.widths[k]);
            let more = place::place_element(elements[k], x, plan.widths[k]);
            let items = place::element_items(elements[k]);
            assert(place::arranged(more, items, x, position(plan, n)));
            place::lemma_arranged_append(
                placed(elements, visible, plan, k),
                selected(elements, visible, true, k),
                more,
                items,
                0,
                x,
                x,
                position(plan, n),
            );
        } else {
            assert(placed(elements, visible, plan, k) + Seq::<Placement>::empty() =~= placed(
                elements,
                visible,
                plan,
                k,
            ));
            assert(selected(elements, visible, true, k) + Seq::<ItemSpec>::empty() =~= selected(
                elements,
                visible,
                true,
                k,
            ));
        }
    }
}

// ---------------------------------------------------------------------------
// Laying out

proof fn lemma_measured(elements: Seq<Element>, visible: Seq<bool>, n: int)
    requires
        0 <= n <= elements.len(),
        visible.len() == elements.len(),
        forall|i: int| 0 <= i < elements.len() ==> place::sound_element(#[trigger] elements[i]),
    ensures
        0 <= sum::sum(sizing::minimum_of(sizes_of(elements)), 0, n) <= sizing::elements_weight(
            elements,
            n,
        ),
        0 <= sum::sum(share::at(wishes(elements, sizes_of(elements), visible)), 0, n)
            <= sizing::elements_weight(elements, n),
        0 <= sum::sum(share::at(slacks(elements, sizes_of(elements), visible)), 0, n)
            <= sizing::elements_weight(elements, n),
        0 <= sum::sum(visibility::kept(elements, sizes_of(elements), visible), 0, n)
            <= sizing::elements_weight(elements, n),
        0 <= sum::sum(spaces::weights(elements), 0, n) <= sizing::elements_weight(elements, n),
    decreases n,
{
    if n > 0 {
        lemma_measured(elements, visible, n - 1);
        let e = elements[n - 1];
        assert(place::sound_element(e));
        lemma_sound_sizes(elements, n - 1);
        sizing::lemma_element_weight_nonnegative(e);
        if let Element::Group(group) = e {
            sizing::lemma_group_extent_within(group);
        }
    }
}

fn element_sizings(elements: &Vec<Element>) -> (sizes: Vec<Sizing>)
    requires
        forall|i: int| 0 <= i < elements@.len() ==> place::sound_element(#[trigger] elements@[i]),
        sizing::elements_weight(elements@, elements@.len() as int) <= u64::MAX,
    ensures
        sizing::extents(sizes@) == sizes_of(elements@),
        sizes@.len() == elements@.len(),
{
    let ghost n = elements@.len() as int;
    let mut sizes: Vec<Sizing> = Vec::new();
    let mut i: usize = 0;
    while i < elements.len()
        invariant
            n == elements@.len(),
            i <= n,
            forall|k: int| 0 <= k < n ==> place::sound_element(#[trigger] elements@[k]),
            sizing::elements_weight(elements@, n) <= u64::MAX,
            sizes@.len() == i,
            forall|k: int| 0 <= k < i ==> (#[trigger] sizes@[k])@ == sizes_of(elements@)[k],
        decreases n - i,
    {
        proof {
            sizing::lemma_elements_weight_part(elements@, i as int, n);
            assert(place::sound_element(elements@[i as int]));
            lemma_sound_sizes(elements@, i as int);
        }
        if let Ok(size) = sizing::element_sizing(&elements[i]) {
            sizes.push(size);
        }
        i = i + 1;
    }
    proof {
        assert(sizing::extents(sizes@) =~= sizes_of(elements@));
    }
    sizes
}

fn is_kept(element: &Element, visible: bool) -> (r: bool)
    ensures
        r == !(visibility::is_content(*element) && !visible),
{
    match element {
        Element::Item(_) => visible,
        Element::Group(_) => visible,
        _ => true,
    }
}

/// The least width of what is not hidden.
fn total_width(elements: &Vec<Element>, visible: &Vec<bool>, sizes: &Vec<Sizing>) -> (total: u64)
    requires
        visible@.len() == elements@.len(),
        sizing::extents(sizes@) == sizes_of(elements@),
        forall|i: int| 0 <= i < elements@.len() ==> place::sound_element(#[trigger] elements@[i]),
        sizing::elements_weight(elements@, elements@.len() as int) <= u64::MAX,
    ensures
        total == visibility::kept_width(elements@, sizes_of(elements@), visible@),
{
    let ghost n = elements@.len() as int;
    let ghost keep = visibility::kept(elements@, sizes_of(elements@), visible@);
    let mut total: u64 = 0;
    let mut i: usize = 0;
    proof {
        lemma_measured(elements@, visible@, n);
        assert(sizing::extents(sizes@).len() == sizes@.len());
    }
    while i < elements.len()
        invariant
            n == elements@.len(),
            visible@.len() == n,
            sizes@.len() == n,
            sizing::extents(sizes@) == sizes_of(elements@),
            forall|k: int| 0 <= k < n ==> place::sound_element(#[trigger] elements@[k]),
            keep == visibility::kept(elements@, sizes_of(elements@), visible@),
            sizing::elements_weight(elements@, n) <= u64::MAX,
            i <= n,
            total == sum::sum(keep, 0, i as int),
        decreases n - i,
    {
        proof {
            lemma_measured(elements@, visible@, i + 1);
            sizing::lemma_elements_weight_part(elements@, i as int, n);
            assert(sizing::extents(sizes@)[i as int] == sizes@[i as int]@);
        }
        if is_kept(&elements[i], visible[i]) {
            total = total + sizes[i].minimum;
        }
        i = i + 1;
    }
    total
}

fn compression_priority_of(element: &Element) -> (priority: i32)
    ensures
        priority == compression_priority(*element),
{
    match element {
        Element::Item(item) => item.compression_priority,
        Element::Group(group) => group.compression_priority,
        _ => 0,
    }
}

/// The preferred widths, compressed to the width there is.
fn compress_to_fit(
    bar: &BarSpec,
    visible: &Vec<bool>,
    sizes: &Vec<Sizing>,
    available_width: u32,
) -> (widths: Vec<u64>)
    requires
        fits(*bar, visible@, available_width as int),
        sizing::extents(sizes@) == sizes_of(bar.elements@),
        measurable(*bar),
    ensures
        share::ints(widths@) == fitted(
            bar.elements@,
            sizes_of(bar.elements@),
            visible@,
            available_width as int,
        ),
        widths@.len() == bar.elements@.len(),
{
    let ghost elements = bar.elements@;
    let ghost n = elements.len() as int;
    let ghost all = sizes_of(elements);
    let ghost wanted = wishes(elements, all, visible@);
    let mut preferred: Vec<u64> = Vec::new();
    let mut slack: Vec<u64> = Vec::new();
    let mut priorities: Vec<i32> = Vec::new();
    let mut total: u64 = 0;
    let mut i: usize = 0;
    proof {
        lemma_measured(elements, visible@, n);
        assert(sizing::extents(sizes@).len() == sizes@.len());
    }
    while i < bar.elements.len()
        invariant
            elements == bar.elements@,
            n == elements.len(),
            fits(*bar, visible@, available_width as int),
            visible@.len() == n,
            sizes@.len() == n,
            all == sizes_of(elements),
            sizing::extents(sizes@) == all,
            wanted == wishes(elements, all, visible@),
            sizing::elements_weight(elements, n) <= u64::MAX,
            i <= n,
            preferred@.len() == i,
            slack@.len() == i,
            priorities@.len() == i,
            forall|k: int| 0 <= k < i ==> #[trigger] preferred@[k] == wanted[k],
            forall|k: int|
                0 <= k < i ==> #[trigger] slack@[k] == slacks(elements, all, visible@)[k],
            forall|k: int| 0 <= k < i ==> #[trigger] slack@[k] <= preferred@[k],
            forall|k: int|
                0 <= k < i ==> #[trigger] priorities@[k] == compression_priority(elements[k]),
            total == sum::sum(share::at(wanted), 0, i as int),
        decreases n - i,
    {
        proof {
            lemma_measured(elements, visible@, i + 1);
            sizing::lemma_elements_weight_part(elements, i as int, n);
            assert(place::sound_element(elements[i as int]));
            lemma_sound_sizes(elements, i as int);
            assert(sizing::extents(sizes@)[i as int] == sizes@[i as int]@);
        }
        if is_kept(&bar.elements[i], visible[i]) {
            preferred.push(sizes[i].preferred);
            slack.push(sizes[i].preferred - sizes[i].minimum);
            total = total + sizes[i].preferred;
        } else {
            preferred.push(0);
            slack.push(0);
        }
        priorities.push(compression_priority_of(&bar.elements[i]));
        i = i + 1;
    }
    proof {
        assert(share::ints(preferred@) =~= wanted);
        assert(share::ints(slack@) =~= slacks(elements, all, visible@));
        assert(priorities@ =~= compression_priorities(elements));
    }
    let excess: u64 = if total > available_width as u64 {
        total - available_width as u64
    } else {
        0
    };
    share::give_way(&preferred, &slack, &priorities, excess)
}

fn contains_item(element: &Element, id: &ItemId) -> (r: bool)
    ensures
        r == place::holds(place::element_items(*element), id@),
{
    let mut ids: Vec<ItemId> = Vec::new();
    place::collect_item_ids(element, &mut ids);
    let ghost items = place::element_items(*element);
    proof {
        assert(ids@ =~= place::identifiers(items));
    }
    let mut k: usize = 0;
    while k < ids.len()
        invariant
            items == place::element_items(*element),
            ids@ == place::identifiers(items),
            k <= ids@.len(),
            forall|m: int| 0 <= m < k ==> (#[trigger] items[m]).id@ != id@,
        decreases ids@.len() - k,
    {
        if text::same(ids[k].as_str(), id.as_str()) {
            proof {
                assert(items[k as int].id@ == id@);
            }
            return true;
        }
        k = k + 1;
    }
    false
}

fn layout_element(element: &Element, x: u64, width: u64, placements: &mut Vec<Placement>)
    requires
        place::sound_element(*element),
        visibility::is_content(*element) ==> place::suits(
            sizing::element_extent(*element)->Ok_0,
            width as int,
        ),
        sizing::element_weight(*element) <= u64::MAX,
        x + width <= u32::MAX,
    ensures
        final(placements)@ == old(placements)@ + place::place_element(
            *element,
            x as int,
            width as int,
        ),
{
    let ghost start = placements@;
    match element {
        Element::Item(item) => place::place_item(item, x, width, placements),
        Element::Group(group) => place::layout_group(group, x, width, placements),
        _ => {
            proof {
                assert(placements@ =~= start + Seq::<Placement>::empty());
            }
        },
    }
}

/// The element with the principal item, and where the item stands in it.
struct Found {
    index: usize,
    offset: u64,
    width: u64,
}

spec fn found(result: Option<Found>) -> Option<Anchor> {
    match result {
        None => None,
        Some(f) => Some(
            Anchor { index: f.index as int, offset: f.offset as int, width: f.width as int },
        ),
    }
}

/// Where the principal item stands in an element.
fn principal_metrics(element: &Element, index: usize, width: u64, principal: &ItemId) -> (result:
    Option<Found>)
    requires
        place::sound_element(*element),
        visibility::is_content(*element) ==> place::suits(
            sizing::element_extent(*element)->Ok_0,
            width as int,
        ),
        sizing::element_weight(*element) <= u64::MAX,
        width <= u32::MAX,
    ensures
        found(result) == anchor_in(*element, index as int, width as int, principal@),
{
    let mut placements: Vec<Placement> = Vec::new();
    layout_element(element, 0, width, &mut placements);
    let ghost inside = place::place_element(*element, 0, width as int);
    proof {
        assert(placements@ =~= inside);
    }
    let mut k: usize = 0;
    while k < placements.len()
        invariant
            placements@ == inside,
            inside == place::place_element(*element, 0, width as int),
            k <= inside.len(),
            placement_of(inside, principal@, k as int) is None,
        decreases inside.len() - k,
    {
        if text::same(placements[k].id.as_str(), principal.as_str()) {
            proof {
                lemma_placement_of_prefix(inside, principal@, k + 1, inside.len() as int);
            }
            return Some(
                Found {
                    index,
                    offset: placements[k].x as u64,
                    width: placements[k].width as u64,
                },
            );
        }
        k = k + 1;
    }
    None
}

proof fn lemma_placement_of_prefix(placements: Seq<Placement>, id: Seq<char>, k: int, n: int)
    requires
        0 <= k <= n,
    ensures
        placement_of(placements, id, k) is Some ==> placement_of(placements, id, n)
            == placement_of(placements, id, k),
    decreases n - k,
{
    if k < n {
        lemma_placement_of_prefix(placements, id, k, n - 1);
    }
}

proof fn lemma_holder_prefix(
    elements: Seq<Element>,
    visible: Seq<bool>,
    id: Seq<char>,
    k: int,
    n: int,
)
    requires
        0 <= k <= n,
    ensures
        holder(elements, visible, id, k) is Some ==> holder(elements, visible, id, n) == holder(
            elements,
            visible,
            id,
            k,
        ),
    decreases n - k,
{
    if k < n {
        lemma_holder_prefix(elements, visible, id, k, n - 1);
    }
}

fn find_principal(bar: &BarSpec, visible: &Vec<bool>, widths: &Vec<u64>, available_width: u32) -> (
    result: Option<Found>)
    requires
        fits(*bar, visible@, available_width as int),
        share::ints(widths@) == fitted(
            bar.elements@,
            sizes_of(bar.elements@),
            visible@,
            available_width as int,
        ),
        measurable(*bar),
    ensures
        found(result) == anchor_of(*bar, visible@, share::ints(widths@)),
{
    let ghost elements = bar.elements@;
    let ghost n = elements.len() as int;
    let ghost base = share::ints(widths@);
    let principal: &ItemId = match &bar.principal_item {
        Some(principal) => principal,
        None => {
            return None;
        },
    };
    proof {
        lemma_fitted(*bar, visible@, available_width as int);
    }
    let mut i: usize = 0;
    while i < bar.elements.len()
        invariant
            elements == bar.elements@,
            n == elements.len(),
            bar.principal_item == Some(*principal),
            fits(*bar, visible@, available_width as int),
            visible@.len() == n,
            base == share::ints(widths@),
            base.len() == n,
            forall|k: int| 0 <= k < n ==> 0 <= #[trigger] base[k] <= available_width,
            forall|k: int|
                0 <= k < n && #[trigger] visible@[k] ==> place::suits(
                    sizes_of(elements)[k],
                    base[k],
                ),
            sizing::elements_weight(elements, n) <= u64::MAX,
            i <= n,
            holder(elements, visible@, principal@, i as int) is None,
        decreases n - i,
    {
        if visible[i] && contains_item(&bar.elements[i], principal) {
            proof {
                lemma_holder_prefix(elements, visible@, principal@, i + 1, n);
                assert(place::sound_element(elements[i as int]));
                lemma_sound_sizes(elements, i as int);
                sizing::lemma_elements_weight_part(elements, i as int, n);
                assert(base[i as int] == widths@[i as int]);
            }
            return principal_metrics(&bar.elements[i], i, widths[i], principal);
        }
        i = i + 1;
    }
    None
}

fn sum_range(widths: &Vec<u64>, lo: usize, hi: usize) -> (total: u64)
    requires
        lo <= hi <= widths@.len(),
        share::total(share::ints(widths@)) <= u64::MAX,
    ensures
        total == sum::sum(share::at(share::ints(widths@)), lo as int, hi as int),
{
    let ghost f = share::at(share::ints(widths@));
    let mut total: u64 = 0;
    let mut i: usize = lo;
    while i < hi
        invariant
            f == share::at(share::ints(widths@)),
            lo <= i <= hi <= widths@.len(),
            sum::sum(f, 0, widths@.len() as int) <= u64::MAX,
            total == sum::sum(f, lo as int, i as int),
        decreases hi - i,
    {
        proof {
            sum::lemma_sum_part(f, 0, lo as int, i + 1, widths@.len() as int);
        }
        total = total + widths[i];
        i = i + 1;
    }
    total
}

/// A plan in machine numbers.
struct Course {
    widths: Vec<u64>,
    pivot: usize,
    pivot_x: u64,
}

spec fn course(c: Course) -> Plan {
    Plan { widths: share::ints(c.widths@), pivot: c.pivot as int, pivot_x: c.pivot_x as int }
}

/// Shares out the room that is left where there is no principal item.
fn stretch_all(elements: &Vec<Element>, widths: Vec<u64>, available_width: u32) -> (result: Vec<
    u64,
>)
    requires
        widths@.len() == elements@.len(),
        share::total(share::ints(widths@)) <= available_width,
        forall|i: int| 0 <= i < widths@.len() ==> #[trigger] widths@[i] <= u32::MAX,
        sum::sum(spaces::weights(elements@), 0, elements@.len() as int) <= u64::MAX,
    ensures
        result@.len() == elements@.len(),
        share::ints(result@) == stretched(
            elements@,
            share::ints(widths@),
            None,
            available_width as int,
        ),
{
    let ghost base = share::ints(widths@);
    let mut result: Vec<u64> = widths;
    let total: u64 = sum_range(&result, 0, result.len());
    proof {
        sum::lemma_sum_nonnegative(share::at(base), 0, base.len() as int);
    }
    let extra: u64 = available_width as u64 - total;
    spaces::distribute_flexible_space(elements, &mut result, 0, elements.len(), extra);
    proof {
        assert(share::ints(result@) =~= stretched(
            elements@,
            base,
            None,
            available_width as int,
        ));
    }
    result
}

/// Shares out the room before and after the principal item.
fn stretch_around(
    elements: &Vec<Element>,
    widths: Vec<u64>,
    principal: Found,
    available_width: u32,
) -> (result: Course)
    requires
        widths@.len() == elements@.len(),
        principal.index < elements@.len(),
        principal.offset + principal.width <= widths@[principal.index as int],
        share::total(share::ints(widths@)) <= available_width,
        forall|i: int| 0 <= i < widths@.len() ==> #[trigger] widths@[i] <= u32::MAX,
        sum::sum(spaces::weights(elements@), 0, elements@.len() as int) <= u64::MAX,
    ensures
        result.widths@.len() == elements@.len(),
        ({
            let base = share::ints(widths@);
            let anchor = found(Some(principal));
            &&& share::ints(result.widths@) == stretched(
                elements@,
                base,
                anchor,
                available_width as int,
            )
            &&& result.pivot == principal.index
            &&& result.pivot_x == anchor_x(base, anchor->Some_0, available_width as int)
        }),
{
    let ghost base = share::ints(widths@);
    let ghost n = elements@.len() as int;
    let ghost anchor = found(Some(principal));
    let ghost available = available_width as int;
    let p: usize = principal.index;
    let end: usize = elements.len();
    let mut result: Vec<u64> = widths;
    proof {
        let f = share::at(base);
        let w = spaces::weights(elements@);
        sum::lemma_sum_split(f, 0, p as int, n);
        sum::lemma_sum_split(f, p as int, p + 1, n);
        assert(sum::sum(f, p as int, p + 1) == sum::sum(f, p as int, p as int) + f(p as int));
        sum::lemma_sum_nonnegative(f, 0, p as int);
        sum::lemma_sum_nonnegative(f, p + 1, n);
        assert forall|i: int| 0 <= i < n implies #[trigger] w(i) >= 0 by {}
        sum::lemma_sum_part(w, 0, 0, p as int, n);
        sum::lemma_sum_part(w, 0, p + 1, n, n);
    }
    let before: u64 = sum_range(&result, 0, p);
    let after: u64 = sum_range(&result, p + 1, end);
    let own: u64 = result[p];
    let middle: u64 = (available_width as u64 - principal.width) / 2;
    let desired: u64 = if middle > principal.offset {
        middle - principal.offset
    } else {
        0
    };
    let most: u64 = available_width as u64 - own - after;
    let x: u64 = if desired < before {
        before
    } else if desired > most {
        most
    } else {
        desired
    };
    let rest: u64 = available_width as u64 - x - own - after;
    proof {
        assert(x == anchor_x(base, anchor->Some_0, available));
        assert forall|i: int| 0 <= i < n implies #[trigger] result@[i] + (
            x - before
        ) <= u64::MAX by {
            assert(result@[i] <= u32::MAX);
        }
    }
    spaces::distribute_flexible_space(elements, &mut result, 0, p, x - before);
    let ghost half = result@;
    proof {
        assert forall|i: int| 0 <= i < n implies #[trigger] half[i] + rest <= u64::MAX by {
            lemma_addition_bound(elements@, 0, p as int, x - before, i);
            assert(base[i] <= u32::MAX);
        }
    }
    spaces::distribute_flexible_space(elements, &mut result, p + 1, end, rest);
    proof {
        let goal = stretched(elements@, base, anchor, available);
        assert forall|i: int| 0 <= i < n implies #[trigger] share::ints(result@)[i] == goal[i] by {
            assert(half[i] == base[i] + spaces::addition(elements@, 0, p as int, x - before, i));
        }
        assert(share::ints(result@) =~= goal);
    }
    Course { widths: result, pivot: p, pivot_x: x }
}

/// Decides where the elements stand.
fn chart(bar: &BarSpec, visible: &Vec<bool>, sizes: &Vec<Sizing>, available_width: u32) -> (result:
    Course)
    requires
        fits(*bar, visible@, available_width as int),
        sizing::extents(sizes@) == sizes_of(bar.elements@),
        measurable(*bar),
    ensures
        course(result) == plan_of(*bar, visible@, available_width as int),
        result.widths@.len() == bar.elements@.len(),
{
    let ghost n = bar.elements@.len() as int;
    let widths: Vec<u64> = compress_to_fit(bar, visible, sizes, available_width);
    let ghost base = share::ints(widths@);
    proof {
        lemma_fitted(*bar, visible@, available_width as int);
        lemma_anchor(*bar, visible@, available_width as int);
        lemma_measured(bar.elements@, visible@, n);
        assert forall|i: int| 0 <= i < n implies #[trigger] widths@[i] <= u32::MAX by {
            assert(base[i] <= available_width);
        }
    }
    match find_principal(bar, visible, &widths, available_width) {
        None => Course {
            widths: stretch_all(&bar.elements, widths, available_width),
            pivot: 0,
            pivot_x: 0,
        },
        Some(principal) => {
            proof {
                assert(base[principal.index as int] == widths@[principal.index as int]);
            }
            stretch_around(&bar.elements, widths, principal, available_width)
        },
    }
}

proof fn lemma_addition_bound(elements: Seq<Element>, lo: int, hi: int, extra: int, i: int)
    requires
        0 <= lo <= hi <= elements.len(),
        extra >= 0,
    ensures
        0 <= spaces::addition(elements, lo, hi, extra, i) <= extra,
{
    spaces::lemma_additions(elements, lo, hi, extra);
    let f = spaces::additions(elements, lo, hi, extra);
    assert(f(i) >= 0);
    if lo <= i < hi {
        sum::lemma_sum_part(f, lo, i, i + 1, hi);
        assert(sum::sum(f, i, i + 1) == sum::sum(f, i, i) + f(i));
    }
}

/// Places the items of all elements.
#[verifier::rlimit(30)]
fn place_all(bar: &BarSpec, visible: &Vec<bool>, found: Course, available_width: u32) -> (layout:
    ResolvedLayout)
    requires
        fits(*bar, visible@, available_width as int),
        measurable(*bar),
        course(found) == plan_of(*bar, visible@, available_width as int),
        found.widths@.len() == bar.elements@.len(),
    ensures
        ({
            let elements = bar.elements@;
            let n = elements.len() as int;
            let plan = plan_of(*bar, visible@, available_width as int);
            layout@ == (Layout {
                placements: placed(elements, visible@, plan, n),
                hidden_items: place::identifiers(selected(elements, visible@, false, n)),
                content_width: position(plan, n) as u32,
            })
        }),
{
    let ghost elements = bar.elements@;
    let ghost n = elements.len() as int;
    let ghost available = available_width as int;
    let ghost plan = plan_of(*bar, visible@, available);
    proof {
        lemma_fitted(*bar, visible@, available);
        lemma_plan(*bar, visible@, available);
        lemma_pivot(*bar, visible@, available);
    }
    let ghost base = fitted(elements, sizes_of(elements), visible@, available);
    let mut placements: Vec<Placement> = Vec::new();
    let mut hidden_items: Vec<ItemId> = Vec::new();
    let mut x: u64 = 0;
    let mut i: usize = 0;
    proof {
        assert(hidden_items@ =~= place::identifiers(selected(elements, visible@, false, 0)));
        assert(sum::sum(share::at(plan.widths), 0, 0) == 0);
    }
    while i < bar.elements.len()
        invariant
            elements == bar.elements@,
            n == elements.len(),
            available == available_width,
            fits(*bar, visible@, available),
            visible@.len() == n,
            sizing::elements_weight(elements, n) <= u64::MAX,
            plan == course(found),
            found.widths@.len() == n,
            plan.pivot < n || (plan.pivot == 0 && plan.pivot_x == 0),
            plan.pivot >= 0,
            base == fitted(elements, sizes_of(elements), visible@, available),
            base.len() == n,
            forall|k: int|
                0 <= k < n && spaces::weight_of(elements[k]) == 0 ==> #[trigger] plan.widths[k]
                    == base[k],
            forall|k: int|
                0 <= k < n && #[trigger] visible@[k] ==> place::suits(
                    sizes_of(elements)[k],
                    base[k],
                ),
            forall|k: int|
                0 <= k < n ==> position(plan, k) + #[trigger] plan.widths[k] <= position(
                    plan,
                    k + 1,
                ),
            forall|k: int| 0 <= k <= n ==> 0 <= #[trigger] position(plan, k) <= available,
            i <= n,
            i != plan.pivot ==> x == position(plan, i as int),
            i == 0 ==> x == 0,
            x <= available,
            placements@ == placed(elements, visible@, plan, i as int),
            hidden_items@ == place::identifiers(selected(elements, visible@, false, i as int)),
        decreases n - i,
    {
        proof {
            assert(place::sound_element(elements[i as int]));
            lemma_sound_sizes(elements, i as int);
            sizing::lemma_elements_weight_part(elements, i as int, n);
            assert(position(plan, i as int) >= 0);
            assert(position(plan, i + 1) <= available);
            assert(plan.widths[i as int] == found.widths@[i as int]);
            assert(sum::sum(share::at(plan.widths), plan.pivot, plan.pivot) == 0);
        }
        if i == found.pivot {
            x = found.pivot_x;
        }
        let ghost ids = selected(elements, visible@, false, i as int);
        if visible[i] {
            let ghost before = placements@;
            layout_element(&bar.elements[i], x, found.widths[i], &mut placements);
            proof {
                assert(ids + Seq::<ItemSpec>::empty() =~= ids);
            }
        } else {
            place::collect_item_ids(&bar.elements[i], &mut hidden_items);
            proof {
                assert(place::identifiers(ids + place::element_items(elements[i as int]))
                    =~= place::identifiers(ids) + place::identifiers(
                    place::element_items(elements[i as int]),
                ));
                assert(placements@ + Seq::<Placement>::empty() =~= placements@);
            }
        }
        proof {
            let w = share::at(plan.widths);
            if i + 1 < plan.pivot {
                assert(sum::sum(w, 0, i + 1) == sum::sum(w, 0, i as int) + w(i as int));
            } else if i >= plan.pivot {
                assert(sum::sum(w, plan.pivot, i + 1) == sum::sum(w, plan.pivot, i as int) + w(
                    i as int,
                ));
            }
        }
        x = x + found.widths[i];
        i = i + 1;
    }
    proof {
        assert(0 <= position(plan, n) <= available);
        assert(x == position(plan, n));
    }
    ResolvedLayout { placements, hidden_items, content_width: x as u32 }
}

/// Lays out a composed bar in the width there is.
///
/// Items and groups that do not fit disappear in the order of their
/// visibility priority, the last first among equals; the required items never
/// do. What is left is compressed in the order of its compression priority,
/// the principal item is centred, and flexible spaces take the room that
/// remains.
pub fn resolve(
    bar: &BarSpec,
    available_width: u32,
    required_items: &TextSet<ItemId>,
) -> (result: Result<ResolvedLayout, LayoutError>)
    requires
        measurable(*bar),
        required_items.wf(),
    ensures
        resolved(*bar, available_width, *required_items) == (match result {
            Ok(layout) => Ok::<Layout, LayoutError>(layout@),
            Err(e) => Err(e),
        }),
{
    let ghost elements = bar.elements@;
    let ghost n = elements.len() as int;
    let ghost available = available_width as int;
    validate::validate(bar, required_items)?;
    proof {
        assert forall|i: int| 0 <= i < n implies place::sound_element(#[trigger] elements[i]) by {
            place::lemma_elements_check_sound(elements, n, i);
        }
    }
    visibility::check_units(&bar.elements)?;
    let sizes: Vec<Sizing> = element_sizings(&bar.elements);
    proof {
        lemma_measured(elements, Seq::new(elements.len(), |i: int| true), n);
    }
    let visible: Vec<bool> = visibility::visible_elements(
        &bar.elements,
        &sizes,
        required_items,
        available_width,
    );
    let least: u64 = total_width(&bar.elements, &visible, &sizes);
    if least > available_width as u64 {
        let required: u32 = if least > u32::MAX as u64 {
            u32::MAX
        } else {
            least as u32
        };
        return Err(LayoutError::InsufficientWidth { available: available_width, required });
    }
    proof {
        assert(fits(*bar, visible@, available));
    }
    let found: Course = chart(bar, &visible, &sizes, available_width);
    Ok(place_all(bar, &visible, found, available_width))
}

/// The element from which on positions are counted is in the bar, unless the
/// bar is empty.
proof fn lemma_pivot(bar: BarSpec, visible: Seq<bool>, available: int)
    requires
        fits(bar, visible, available),
    ensures
        ({
            let plan = plan_of(bar, visible, available);
            plan.pivot < bar.elements@.len() || (plan.pivot == 0 && plan.pivot_x == 0)
        }),
{
    lemma_anchor(bar, visible, available);
}

} // verus!
