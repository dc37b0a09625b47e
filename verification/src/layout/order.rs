//! In what order the content of a bar gives way, and what it gets of the room.
use vstd::prelude::*;

use crate::layout::laws;
use crate::layout::place;
use crate::layout::resolve;
use crate::layout::share;
use crate::layout::sizing;
use crate::layout::sizing::Extent;
use crate::layout::spaces;
use crate::layout::sum;
use crate::layout::validate;
use crate::layout::visibility;
use crate::layout::{
    BarSpec, Element, GroupElement, GroupLayout, GroupSpec, ItemId, ItemSpec, LayoutError,
    MAX_GROUP_DEPTH,
};
use crate::text::{TextKey, TextSet};

verus! {

// ---------------------------------------------------------------------------
// What disappears

/// The elements are one, or items with the same visibility group, which is not the
/// empty one.
pub open spec fn together(elements: Seq<Element>, i: int, j: int) -> bool {
    ||| i == j
    ||| {
        &&& elements[i] matches Element::Item(a)
        &&& elements[j] matches Element::Item(b)
        &&& a.visibility_group matches Some(x)
        &&& b.visibility_group matches Some(y)
        &&& x@.len() > 0
        &&& x@ == y@
    }
}

/// An item or group disappears before another one: its visibility priority is lower,
/// or it is the same and what disappears with it reaches further to the end.
pub open spec fn leaves_before(elements: Seq<Element>, i: int, j: int) -> bool {
    let a = match elements[i] {
        Element::Item(item) => item.visibility_priority,
        Element::Group(group) => group.visibility_priority,
        _ => 0,
    };
    let b = match elements[j] {
        Element::Item(item) => item.visibility_priority,
        Element::Group(group) => group.visibility_priority,
        _ => 0,
    };
    ||| a < b
    ||| a == b && exists|k: int|
        {
            &&& 0 <= k < elements.len()
            &&& #[trigger] together(elements, i, k)
            &&& forall|m: int|
                0 <= m < elements.len() && #[trigger] together(elements, j, m) ==> m < k
        }
}

/// The element is an item or a group, and nothing that disappears with it holds a
/// required item.
pub open spec fn may_leave(elements: Seq<Element>, required: Seq<Seq<char>>, i: int) -> bool {
    &&& elements[i] is Item || elements[i] is Group
    &&& forall|k: int, m: int|
        #![trigger together(elements, i, k), place::element_items(elements[k])[m]]
        0 <= k < elements.len() && together(elements, i, k) && 0 <= m < place::element_items(
            elements[k],
        ).len() ==> !required.contains(place::element_items(elements[k])[m].id@)
}

proof fn lemma_together(elements: Seq<Element>, i: int, j: int)
    ensures
        together(elements, i, j) == visibility::same_unit(elements, i, j),
{
}

proof fn lemma_trailing(elements: Seq<Element>, i: int, n: int)
    requires
        0 <= n <= elements.len(),
    ensures
        n > i >= 0 ==> i <= visibility::trailing(elements, i, n) < n,
        together(elements, i, visibility::trailing(elements, i, n)),
        forall|m: int|
            0 <= m < n && #[trigger] together(elements, i, m) ==> m <= visibility::trailing(
                elements,
                i,
                n,
            ),
    decreases n,
{
    if n > 0 {
        lemma_together(elements, i, n - 1);
        if !visibility::same_unit(elements, i, n - 1) {
            lemma_trailing(elements, i, n - 1);
        }
    }
}

proof fn lemma_leaves_before(elements: Seq<Element>, i: int, j: int)
    requires
        0 <= i < elements.len(),
        0 <= j < elements.len(),
    ensures
        leaves_before(elements, i, j) == visibility::drops_first(elements, i, j),
{
    let n = elements.len() as int;
    lemma_trailing(elements, i, n);
    lemma_trailing(elements, j, n);
    let p = visibility::trailing(elements, i, n);
    let q = visibility::trailing(elements, j, n);
    if p > q {
        assert(together(elements, i, p));
    }
}

proof fn lemma_may_leave(elements: Seq<Element>, required: Seq<Seq<char>>, i: int)
    requires
        0 <= i < elements.len(),
    ensures
        may_leave(elements, required, i) == visibility::droppable(elements, required, i),
{
    if may_leave(elements, required, i) {
        if visibility::needed(elements, required, i) {
            let k = choose|k: int|
                0 <= k < elements.len() && #[trigger] visibility::same_unit(elements, i, k)
                    && visibility::holds_required(elements[k], required);
            lemma_together(elements, i, k);
            let m = choose|m: int|
                0 <= m < place::element_items(elements[k]).len() && required.contains(
                    (#[trigger] place::element_items(elements[k])[m]).id@,
                );
            assert(together(elements, i, k));
            assert(!required.contains(place::element_items(elements[k])[m].id@));
        }
    }
    if visibility::droppable(elements, required, i) {
        assert forall|k: int, m: int|
            #![trigger together(elements, i, k), place::element_items(elements[k])[m]]
            0 <= k < elements.len() && together(elements, i, k) && 0 <= m < place::element_items(
                elements[k],
            ).len() implies !required.contains(place::element_items(elements[k])[m].id@) by {
            lemma_together(elements, i, k);
            assert(visibility::same_unit(elements, i, k));
        }
    }
}

proof fn lemma_picked(
    elements: Seq<Element>,
    visible: Seq<bool>,
    which: bool,
    n: int,
    i: int,
    m: int,
) -> (at: int)
    requires
        0 <= i < n <= elements.len(),
        visible[i] == which,
        0 <= m < place::element_items(elements[i]).len(),
    ensures
        0 <= at < resolve::selected(elements, visible, which, n).len(),
        resolve::selected(elements, visible, which, n)[at] == place::element_items(elements[i])[m],
    decreases n,
{
    let before = resolve::selected(elements, visible, which, n - 1);
    if i == n - 1 {
        before.len() + m
    } else {
        lemma_picked(elements, visible, which, n - 1, i, m)
    }
}

/// An item has its place in a layout exactly where the element that holds it is
/// shown, and is hidden exactly where that is not.
pub proof fn items_go_with_their_elements(
    bar: BarSpec,
    available: u32,
    required: TextSet<ItemId>,
    i: int,
    item: ItemSpec,
)
    requires
        resolve::resolved(bar, available, required) is Ok,
        0 <= i < bar.elements@.len(),
        place::element_items(bar.elements@[i]).contains(item),
    ensures
        ({
            let layout = resolve::resolved(bar, available, required)->Ok_0;
            let visible = resolve::shown_in(bar, available, required@);
            &&& laws::is_placed(layout, item.id@) == visible[i]
            &&& laws::is_hidden(layout, item.id@) == !visible[i]
        }),
{
    let elements = bar.elements@;
    let n = elements.len() as int;
    let layout = resolve::resolved(bar, available, required)->Ok_0;
    let visible = resolve::shown_in(bar, available, required@);
    let items = place::element_items(elements[i]);
    let m = choose|m: int| 0 <= m < items.len() && items[m] == item;
    let at = lemma_picked(elements, visible, visible[i], n, i, m);
    laws::every_item_is_placed_or_hidden(bar, available, required, item.id@);
    laws::items_stand_side_by_side(bar, available, required);
    if visible[i] {
        assert(layout.placements[at].id == item.id);
    } else {
        assert(layout.hidden_items[at] == item.id);
    }
}

proof fn lemma_earlier_is_hidden(
    elements: Seq<Element>,
    sizes: Seq<Extent>,
    required: Seq<Seq<char>>,
    available: int,
    i: int,
    j: int,
)
    requires
        0 <= i < elements.len(),
        0 <= j < elements.len(),
        sizes.len() == elements.len(),
        visibility::nonnegative(sizes),
        visibility::droppable(elements, required, i),
        visibility::drops_first(elements, i, j),
        visibility::hidden(elements, sizes, required, available, j),
    ensures
        visibility::hidden(elements, sizes, required, available, i),
{
    let a = visibility::dropped_before(elements, sizes, required, i);
    let b = visibility::dropped_before(elements, sizes, required, j);
    assert forall|k: int| 0 <= k < elements.len() implies #[trigger] a(k) <= b(k) by {
        assert(sizes[k].minimum >= 0);
    }
    sum::lemma_sum_at_most(a, b, 0, elements.len() as int);
}

proof fn lemma_nonnegative(bar: BarSpec, available: u32, required: TextSet<ItemId>)
    requires
        resolve::resolved(bar, available, required) is Ok,
    ensures
        visibility::nonnegative(resolve::sizes_of(bar.elements@)),
        resolve::fits(bar, resolve::shown_in(bar, available, required@), available as int),
{
    laws::lemma_resolved_fits(bar, available, required);
    assert forall|i: int| 0 <= i < resolve::sizes_of(bar.elements@).len() implies (
    #[trigger] resolve::sizes_of(bar.elements@)[i]).minimum >= 0 by {
        assert(place::sound_element(bar.elements@[i]));
        resolve::lemma_sound_sizes(bar.elements@, i);
    }
}

/// Where an item or group is hidden, everything that may disappear and disappears
/// before it is hidden too: all that has a lower visibility priority, and of what
/// has the same one all that reaches further to the end.
pub proof fn lower_priorities_disappear_first(
    bar: BarSpec,
    available: u32,
    required: TextSet<ItemId>,
    i: int,
    j: int,
    first: ItemSpec,
    second: ItemSpec,
)
    requires
        resolve::resolved(bar, available, required) is Ok,
        0 <= i < bar.elements@.len(),
        0 <= j < bar.elements@.len(),
        may_leave(bar.elements@, required@, i),
        leaves_before(bar.elements@, i, j),
        place::element_items(bar.elements@[i]).contains(first),
        place::element_items(bar.elements@[j]).contains(second),
        laws::is_hidden(resolve::resolved(bar, available, required)->Ok_0, second.id@),
    ensures
        laws::is_hidden(resolve::resolved(bar, available, required)->Ok_0, first.id@),
{
    let elements = bar.elements@;
    let sizes = resolve::sizes_of(elements);
    let visible = resolve::shown_in(bar, available, required@);
    items_go_with_their_elements(bar, available, required, i, first);
    items_go_with_their_elements(bar, available, required, j, second);
    lemma_may_leave(elements, required@, i);
    lemma_leaves_before(elements, i, j);
    lemma_nonnegative(bar, available, required);
    assert(place::element_items(elements[j]).len() > 0);
    assert(visibility::hidden(elements, sizes, required@, available as int, j));
    lemma_earlier_is_hidden(elements, sizes, required@, available as int, i, j);
}

/// The least width of an element that is shown, is a space, or disappears together
/// with another one.
pub open spec fn with_one_more(bar: BarSpec, visible: Seq<bool>, j: int) -> spec_fn(int) -> int {
    |k: int|
        if visible[k] || bar.elements@[k] is FixedSpace || bar.elements@[k] is FlexibleSpace
            || together(bar.elements@, j, k) {
            resolve::sizes_of(bar.elements@)[k].minimum
        } else {
            0
        }
}

/// No more disappears than has to: with what disappeared last back in the bar, the
/// least widths of all that is left would not fit.
pub proof fn no_more_disappears_than_has_to(
    bar: BarSpec,
    available: u32,
    required: TextSet<ItemId>,
    j: int,
)
    requires
        resolve::resolved(bar, available, required) is Ok,
        0 <= j < bar.elements@.len(),
        bar.elements@[j] is Item || bar.elements@[j] is Group,
        !resolve::shown_in(bar, available, required@)[j],
        forall|i: int|
            0 <= i < bar.elements@.len() && (bar.elements@[i] is Item
                || bar.elements@[i] is Group) && !#[trigger] resolve::shown_in(
                bar,
                available,
                required@,
            )[i] ==> together(bar.elements@, j, i) || leaves_before(bar.elements@, i, j),
    ensures
        sum::sum(
            with_one_more(bar, resolve::shown_in(bar, available, required@), j),
            0,
            bar.elements@.len() as int,
        ) > available,
{
    let elements = bar.elements@;
    let n = elements.len() as int;
    let sizes = resolve::sizes_of(elements);
    let visible = resolve::shown_in(bar, available, required@);
    let left = with_one_more(bar, visible, j);
    let gone = visibility::dropped_before(elements, sizes, required@, j);
    let least = sizing::minimum_of(sizes);
    lemma_nonnegative(bar, available, required);
    let both = |k: int| left(k) + gone(k);
    assert forall|k: int| 0 <= k < n implies #[trigger] least(k) <= both(k) by {
        assert(sizes[k].minimum >= 0);
        if !visible[k] && !(elements[k] is FixedSpace || elements[k] is FlexibleSpace)
            && !together(elements, j, k) {
            assert(visibility::is_content(elements[k]));
            lemma_leaves_before(elements, k, j);
            assert(visibility::hidden(elements, sizes, required@, available as int, k));
        }
    }
    sum::lemma_sum_at_most(least, both, 0, n);
    sum::lemma_sum_plus(left, gone, both, 0, n);
    assert(visibility::hidden(elements, sizes, required@, available as int, j));
}

/// A bar is refused for its visibility groups exactly where two of its items have
/// the same one, which is not the empty one, and different visibility priorities.
pub proof fn visibility_groups_have_one_priority(
    bar: BarSpec,
    available: u32,
    required: TextSet<ItemId>,
)
    requires
        validate::bar_check(bar, required.items()) is Ok,
    ensures
        resolve::resolved(bar, available, required) matches Err(
            LayoutError::InconsistentVisibilityGroup(_),
        ) <==> exists|i: int, j: int|
            {
                &&& 0 <= i < bar.elements@.len()
                &&& 0 <= j < bar.elements@.len()
                &&& i != j
                &&& #[trigger] together(bar.elements@, i, j)
                &&& bar.elements@[i]->Item_0.visibility_priority
                    != bar.elements@[j]->Item_0.visibility_priority
            },
{
    let elements = bar.elements@;
    let n = elements.len() as int;
    visibility::lemma_first_clash(elements, n);
    match visibility::first_clash(elements, n) {
        Some(i) => {
            let j = choose|j: int|
                0 <= j < i && #[trigger] visibility::same_unit(elements, j, i)
                    && visibility::priority(elements[j]) != visibility::priority(elements[i]);
            lemma_together(elements, j, i);
            assert(together(elements, j, i));
        },
        None => {
            assert forall|i: int, j: int|
                0 <= i < elements.len() && 0 <= j < elements.len() && i != j && #[trigger] together(
                    elements,
                    i,
                    j,
                ) implies elements[i]->Item_0.visibility_priority
                == elements[j]->Item_0.visibility_priority by {
                lemma_together(elements, i, j);
                visibility::lemma_same_unit(elements);
                if i < j {
                    assert(!visibility::clashes(elements, j));
                    assert(visibility::same_unit(elements, i, j));
                } else {
                    assert(!visibility::clashes(elements, i));
                    assert(visibility::same_unit(elements, j, i));
                }
            }
        },
    }
}

// ---------------------------------------------------------------------------
// What gets narrower, and what gets wider

/// An element gives up width before another one: its compression priority is lower,
/// or it is the same and it stands later.
pub open spec fn narrows_before(priorities: Seq<i32>, i: int, j: int) -> bool {
    priorities[i] < priorities[j] || (priorities[i] == priorities[j] && j < i)
}

/// Widths are given up in order: where an element is narrower than it was, all that
/// give up width before it have nothing left to give.
pub proof fn widths_are_given_up_in_order(
    widths: Seq<int>,
    slack: Seq<int>,
    priorities: Seq<i32>,
    excess: int,
    i: int,
    j: int,
)
    requires
        slack.len() == widths.len(),
        priorities.len() == widths.len(),
        forall|k: int| 0 <= k < slack.len() ==> #[trigger] slack[k] >= 0,
        0 <= i < widths.len(),
        0 <= j < widths.len(),
        narrows_before(priorities, i, j),
        share::shrunk(widths, slack, priorities, excess)[j] < widths[j],
    ensures
        share::shrunk(widths, slack, priorities, excess)[i] == widths[i] - slack[i],
{
    let n = widths.len() as int;
    let before = share::gives_way_first(priorities);
    let amount = share::at(slack);
    let a = |k: int|
        if before(k, i) {
            amount(k)
        } else {
            0
        };
    let b = |k: int|
        if before(k, j) {
            amount(k)
        } else {
            0
        };
    let c = |k: int|
        if before(k, i) || k == i {
            amount(k)
        } else {
            0
        };
    assert(!before(i, i));
    assert forall|k: int| 0 <= k < n && k != i implies #[trigger] a(k) == c(k) by {}
    sum::lemma_sum_change(a, c, 0, n, i);
    assert forall|k: int| 0 <= k < n implies #[trigger] c(k) <= b(k) by {
        assert(slack[k] >= 0);
        if before(k, i) || k == i {
            assert(before(k, j));
        }
    }
    sum::lemma_sum_at_most(c, b, 0, n);
    assert(sum::ahead(amount, before, n, i) == sum::sum(a, 0, n));
    assert(sum::ahead(amount, before, n, j) == sum::sum(b, 0, n));
    assert(slack[i] >= 0 && slack[j] >= 0);
}

proof fn lemma_placed_at(
    elements: Seq<Element>,
    visible: Seq<bool>,
    plan: resolve::Plan,
    n: int,
    i: int,
) -> (at: int)
    requires
        0 <= i < n <= elements.len(),
        visible[i],
        elements[i] is Item,
    ensures
        0 <= at < resolve::placed(elements, visible, plan, n).len(),
        resolve::placed(elements, visible, plan, n)[at] == place::item_placement(
            elements[i]->Item_0,
            resolve::position(plan, i),
            plan.widths[i],
        ),
    decreases n,
{
    let before = resolve::placed(elements, visible, plan, n - 1);
    if i == n - 1 {
        before.len() as int
    } else {
        lemma_placed_at(elements, visible, plan, n - 1, i)
    }
}

/// The width that an item has in a layout.
pub open spec fn has_width(layout: resolve::Layout, item: ItemSpec, width: int) -> bool {
    exists|k: int|
        0 <= k < layout.placements.len() && (#[trigger] layout.placements[k]).id == item.id
            && layout.placements[k].width == width
}

proof fn lemma_item_width(
    bar: BarSpec,
    available: u32,
    required: TextSet<ItemId>,
    i: int,
) -> (width: int)
    requires
        resolve::resolved(bar, available, required) is Ok,
        0 <= i < bar.elements@.len(),
        bar.elements@[i] is Item,
        resolve::shown_in(bar, available, required@)[i],
    ensures
        has_width(
            resolve::resolved(bar, available, required)->Ok_0,
            bar.elements@[i]->Item_0,
            width,
        ),
        width == resolve::fitted(
            bar.elements@,
            resolve::sizes_of(bar.elements@),
            resolve::shown_in(bar, available, required@),
            available as int,
        )[i],
{
    let elements = bar.elements@;
    let visible = resolve::shown_in(bar, available, required@);
    let layout = resolve::resolved(bar, available, required)->Ok_0;
    lemma_nonnegative(bar, available, required);
    resolve::lemma_plan(bar, visible, available as int);
    resolve::lemma_fitted(bar, visible, available as int);
    let plan = resolve::plan_of(bar, visible, available as int);
    let base = resolve::fitted(elements, resolve::sizes_of(elements), visible, available as int);
    let at = lemma_placed_at(elements, visible, plan, elements.len() as int, i);
    assert(plan.widths[i] == base[i]);
    assert(0 <= base[i] <= available);
    assert(layout.placements[at].id == elements[i]->Item_0.id);
    base[i]
}

/// What an element wants: a shown item or group its preferred width, a space its
/// least one, and what is hidden nothing.
pub open spec fn wants(bar: BarSpec, visible: Seq<bool>) -> spec_fn(int) -> int {
    |k: int|
        match bar.elements@[k] {
            Element::FixedSpace { width } => width as int,
            Element::FlexibleSpace { minimum, .. } => minimum as int,
            _ => if visible[k] {
                resolve::sizes_of(bar.elements@)[k].preferred
            } else {
                0
            },
        }
}

proof fn lemma_wants(bar: BarSpec, visible: Seq<bool>)
    ensures
        share::total(resolve::wishes(bar.elements@, resolve::sizes_of(bar.elements@), visible))
            == sum::sum(wants(bar, visible), 0, bar.elements@.len() as int),
{
    let elements = bar.elements@;
    let wanted = resolve::wishes(elements, resolve::sizes_of(elements), visible);
    assert forall|k: int| 0 <= k < elements.len() implies #[trigger] share::at(wanted)(k) == wants(
        bar,
        visible,
    )(k) by {}
    sum::lemma_sum_same(share::at(wanted), wants(bar, visible), 0, elements.len() as int);
}

proof fn lemma_fitted_order(
    bar: BarSpec,
    available: u32,
    required: TextSet<ItemId>,
    i: int,
    j: int,
)
    requires
        resolve::resolved(bar, available, required) is Ok,
        0 <= i < bar.elements@.len(),
        0 <= j < bar.elements@.len(),
        bar.elements@[i] is Item,
        bar.elements@[j] is Item,
        resolve::shown_in(bar, available, required@)[i],
        resolve::shown_in(bar, available, required@)[j],
    ensures
        ({
            let elements = bar.elements@;
            let visible = resolve::shown_in(bar, available, required@);
            let base = resolve::fitted(
                elements,
                resolve::sizes_of(elements),
                visible,
                available as int,
            );
            let a = elements[i]->Item_0;
            let b = elements[j]->Item_0;
            &&& a.min_width <= base[i] <= a.preferred_width
            &&& base[j] < b.preferred_width && (a.compression_priority < b.compression_priority || (
            a.compression_priority == b.compression_priority && j < i)) ==> base[i] == a.min_width
            &&& sum::sum(wants(bar, visible), 0, elements.len() as int) <= available ==> base[i]
                == a.preferred_width
        }),
{
    let elements = bar.elements@;
    let n = elements.len() as int;
    let visible = resolve::shown_in(bar, available, required@);
    let sizes = resolve::sizes_of(elements);
    lemma_nonnegative(bar, available, required);
    lemma_wants(bar, visible);
    resolve::lemma_fitted(bar, visible, available as int);
    let wanted = resolve::wishes(elements, sizes, visible);
    let slack = resolve::slacks(elements, sizes, visible);
    let priorities = resolve::compression_priorities(elements);
    assert forall|k: int| 0 <= k < n implies #[trigger] slack[k] >= 0 by {
        assert(place::sound_element(elements[k]));
        resolve::lemma_sound_sizes(elements, k);
    }
    let excess = if share::total(wanted) > available {
        share::total(wanted) - available
    } else {
        0
    };
    let base = resolve::fitted(elements, sizes, visible, available as int);
    assert(base == share::shrunk(wanted, slack, priorities, excess));
    assert(slack[i] >= 0);
    if narrows_before(priorities, i, j) && base[j] < wanted[j] {
        widths_are_given_up_in_order(wanted, slack, priorities, excess, i, j);
    }
    if excess == 0 {
        let amount = share::at(slack);
        let before = share::gives_way_first(priorities);
        let f = |k: int|
            if before(k, i) {
                amount(k)
            } else {
                0
            };
        assert forall|k: int| 0 <= k < n implies #[trigger] f(k) >= 0 by {
            assert(slack[k] >= 0);
        }
        sum::lemma_sum_nonnegative(f, 0, n);
        assert(sum::ahead(amount, before, n, i) == sum::sum(f, 0, n));
    }
}

/// Two items have the given widths in a layout, both at least their least and at most
/// their preferred ones. Where the second is narrower than it prefers and the first
/// has the lower compression priority, or the same one and a later place, the first
/// has its least width. Both have their preferred widths where all that is shown can.
pub open spec fn ranked_widths(
    bar: BarSpec,
    visible: Seq<bool>,
    available: u32,
    layout: resolve::Layout,
    i: int,
    j: int,
    v: int,
    w: int,
) -> bool {
    let a = bar.elements@[i]->Item_0;
    let b = bar.elements@[j]->Item_0;
    &&& has_width(layout, a, v)
    &&& has_width(layout, b, w)
    &&& a.min_width <= v <= a.preferred_width
    &&& b.min_width <= w <= b.preferred_width
    &&& w < b.preferred_width && (a.compression_priority < b.compression_priority || (
    a.compression_priority == b.compression_priority && j < i)) ==> v == a.min_width
    &&& sum::sum(wants(bar, visible), 0, bar.elements@.len() as int) <= available ==> v
        == a.preferred_width && w == b.preferred_width
}

/// The items of a bar that have a place are at most as wide as they prefer and at
/// least as wide as they must be. Where one is narrower than it prefers, all items
/// with a lower compression priority have their least widths, and so do those with
/// the same one that stand later. Where all that is shown can have its preferred
/// width, each item has it.
pub proof fn lower_priorities_are_compressed_first(
    bar: BarSpec,
    available: u32,
    required: TextSet<ItemId>,
    i: int,
    j: int,
)
    requires
        resolve::resolved(bar, available, required) is Ok,
        0 <= i < bar.elements@.len(),
        0 <= j < bar.elements@.len(),
        bar.elements@[i] is Item,
        bar.elements@[j] is Item,
        laws::is_placed(
            resolve::resolved(bar, available, required)->Ok_0,
            bar.elements@[i]->Item_0.id@,
        ),
        laws::is_placed(
            resolve::resolved(bar, available, required)->Ok_0,
            bar.elements@[j]->Item_0.id@,
        ),
    ensures
        exists|v: int, w: int|
            ranked_widths(
                bar,
                resolve::shown_in(bar, available, required@),
                available,
                resolve::resolved(bar, available, required)->Ok_0,
                i,
                j,
                v,
                w,
            ),
{
    let elements = bar.elements@;
    let a = elements[i]->Item_0;
    let b = elements[j]->Item_0;
    assert(place::element_items(elements[i])[0] == a);
    assert(place::element_items(elements[j])[0] == b);
    items_go_with_their_elements(bar, available, required, i, a);
    items_go_with_their_elements(bar, available, required, j, b);
    let v = lemma_item_width(bar, available, required, i);
    let w = lemma_item_width(bar, available, required, j);
    lemma_fitted_order(bar, available, required, i, j);
    lemma_fitted_order(bar, available, required, j, i);
    let layout = resolve::resolved(bar, available, required)->Ok_0;
    assert(ranked_widths(
        bar,
        resolve::shown_in(bar, available, required@),
        available,
        layout,
        i,
        j,
        v,
        w,
    ));
}

proof fn lemma_position_covers(
    elements: Seq<Element>,
    base: Seq<int>,
    plan: resolve::Plan,
    available: int,
    n: int,
)
    requires
        resolve::orderly(elements, base, plan, available),
        base.len() == elements.len(),
        0 <= n <= elements.len(),
    ensures
        sum::sum(share::at(base), 0, n) <= resolve::position(plan, n),
    decreases n,
{
    if n > 0 {
        lemma_position_covers(elements, base, plan, available, n - 1);
        assert(base[n - 1] <= plan.widths[n - 1]);
        assert(resolve::position(plan, n - 1) + plan.widths[n - 1] <= resolve::position(plan, n));
    } else {
        assert(resolve::position(plan, 0) >= 0);
    }
}

/// Nothing is narrower than it prefers while there is room: where not all that is
/// shown can have its preferred width, the content fills the bar.
pub proof fn compressed_content_fills_the_bar(
    bar: BarSpec,
    available: u32,
    required: TextSet<ItemId>,
)
    requires
        resolve::resolved(bar, available, required) is Ok,
        sum::sum(
            wants(bar, resolve::shown_in(bar, available, required@)),
            0,
            bar.elements@.len() as int,
        ) >= available,
    ensures
        resolve::resolved(bar, available, required)->Ok_0.content_width == available,
{
    let elements = bar.elements@;
    let n = elements.len() as int;
    let visible = resolve::shown_in(bar, available, required@);
    lemma_nonnegative(bar, available, required);
    lemma_wants(bar, visible);
    resolve::lemma_fitted(bar, visible, available as int);
    resolve::lemma_plan(bar, visible, available as int);
    let plan = resolve::plan_of(bar, visible, available as int);
    let base = resolve::fitted(elements, resolve::sizes_of(elements), visible, available as int);
    lemma_position_covers(elements, base, plan, available as int, n);
    assert(0 <= resolve::position(plan, n) <= available);
}

proof fn lemma_growable_grows(widths: Seq<int>, maxima: Seq<int>, k: int, n: int)
    requires
        0 <= k <= n <= widths.len(),
    ensures
        0 <= share::growable(widths, maxima, k) <= share::growable(widths, maxima, n),
    decreases n,
{
    if k < n {
        lemma_growable_grows(widths, maxima, k, n - 1);
    } else if n > 0 {
        lemma_growable_grows(widths, maxima, n - 1, n - 1);
    }
}

proof fn lemma_full_round(widths: Seq<int>, maxima: Seq<int>, portion: int, extra: int, n: int)
    requires
        share::bounded(widths, maxima),
        0 <= n <= widths.len(),
        portion >= 1,
        portion * share::growable(widths, maxima, widths.len() as int) <= extra,
    ensures
        0 <= share::given(widths, maxima, portion, extra, n) <= portion * share::growable(
            widths,
            maxima,
            n,
        ),
        forall|k: int|
            #![trigger widths[k]]
            0 <= k < n ==> share::given(widths, maxima, portion, extra, k + 1) - share::given(
                widths,
                maxima,
                portion,
                extra,
                k,
            ) == if maxima[k] - widths[k] < portion {
                maxima[k] - widths[k]
            } else {
                portion
            },
    decreases n,
{
    if n > 0 {
        lemma_full_round(widths, maxima, portion, extra, n - 1);
        lemma_growable_grows(widths, maxima, n - 1, n);
        lemma_growable_grows(widths, maxima, n, widths.len() as int);
        let all = share::growable(widths, maxima, widths.len() as int);
        let now = share::growable(widths, maxima, n);
        let before = share::growable(widths, maxima, n - 1);
        assert(widths[n - 1] <= maxima[n - 1]);
        assert(portion * now <= portion * all) by (nonlinear_arith)
            requires
                now <= all,
                portion >= 1,
        ;
        assert(portion * (before + 1) == portion * before + portion) by (nonlinear_arith);
    } else {
        assert(portion * share::growable(widths, maxima, 0) == 0);
    }
}

proof fn lemma_last_round(widths: Seq<int>, maxima: Seq<int>, extra: int, n: int)
    requires
        share::bounded(widths, maxima),
        0 <= n <= widths.len(),
        extra >= 0,
    ensures
        share::given(widths, maxima, 1, extra, n) == if share::growable(widths, maxima, n) < extra {
            share::growable(widths, maxima, n)
        } else {
            extra
        },
    decreases n,
{
    if n > 0 {
        lemma_last_round(widths, maxima, extra, n - 1);
        assert(widths[n - 1] <= maxima[n - 1]);
    }
}

/// Room is shared out evenly: of two elements that could both grow further, the
/// earlier one grew as much as the later one or by one pixel more.
pub proof fn room_is_shared_out_evenly(
    widths: Seq<int>,
    maxima: Seq<int>,
    extra: int,
    i: int,
    j: int,
)
    requires
        share::bounded(widths, maxima),
        0 <= extra <= share::total(maxima) - share::total(widths),
        0 <= i < j < widths.len(),
        share::grown(widths, maxima, extra)[i] < maxima[i],
        share::grown(widths, maxima, extra)[j] < maxima[j],
    ensures
        0 <= (share::grown(widths, maxima, extra)[i] - widths[i]) - (share::grown(
            widths,
            maxima,
            extra,
        )[j] - widths[j]) <= 1,
    decreases extra,
{
    let n = widths.len() as int;
    let count = share::growable(widths, maxima, n);
    share::lemma_growable(widths, maxima, n);
    if extra > 0 && count > 0 {
        let portion = share::even_share(extra, count);
        share::lemma_given(widths, maxima, portion, extra, n);
        share::lemma_round(widths, maxima, portion, extra, n);
        let next = share::round(widths, maxima, portion, extra);
        let used = share::given(widths, maxima, portion, extra, n);
        assert forall|k: int| 0 <= k < n implies widths[k] <= #[trigger] next[k] <= maxima[k] by {
            assert(widths[k] <= maxima[k]);
        }
        share::lemma_grown(next, maxima, extra - used);
        let out = share::grown(next, maxima, extra - used);
        assert(out == share::grown(widths, maxima, extra));
        assert(widths[i] <= next[i] <= out[i] && widths[j] <= next[j] <= out[j]);
        assert(0 <= extra % count < count && extra == (extra / count) * count + extra % count)
            by (nonlinear_arith)
            requires
                count > 0,
        ;
        if extra / count >= 1 {
            assert(portion * count == (extra / count) * count);
            lemma_full_round(widths, maxima, portion, extra, n);
            assert(next[i] - widths[i] == portion && next[j] - widths[j] == portion);
            room_is_shared_out_evenly(next, maxima, extra - used, i, j);
        } else {
            assert(extra / count <= 0);
            assert(extra < count) by (nonlinear_arith)
                requires
                    extra == (extra / count) * count + extra % count,
                    extra / count <= 0,
                    0 <= extra % count < count,
                    count > 0,
            ;
            assert(portion == 1);
            lemma_last_round(widths, maxima, extra, n);
            lemma_last_round(widths, maxima, extra, i);
            lemma_last_round(widths, maxima, extra, i + 1);
            lemma_last_round(widths, maxima, extra, j);
            lemma_last_round(widths, maxima, extra, j + 1);
            lemma_growable_grows(widths, maxima, i + 1, j);
            assert(out == next);
        }
    }
}

/// The members of a natural group that has room for more than their preferred widths
/// get at least these, and what is left evenly, as far as they can grow. Those of one
/// without room for them get at most these, and give up width by their compression
/// priorities, the later ones first.
pub proof fn natural_members_give_way_in_order(
    sizes: Seq<Extent>,
    priorities: Seq<i32>,
    width: int,
    i: int,
    j: int,
)
    requires
        share::all_sound(sizes),
        priorities.len() == sizes.len(),
        share::total(share::minima(sizes)) <= width <= share::total(share::maxima(sizes)),
        0 <= i < sizes.len(),
        0 <= j < sizes.len(),
    ensures
        ({
            let widths = share::member_widths(GroupLayout::Natural, sizes, priorities, width);
            let preferred = sum::sum(|k: int| sizes[k].preferred, 0, sizes.len() as int);
            &&& widths.len() == sizes.len()
            &&& sizes[i].minimum <= widths[i] <= sizes[i].maximum
            &&& width == preferred ==> widths[i] == sizes[i].preferred
            &&& width <= preferred ==> widths[i] <= sizes[i].preferred
            &&& width >= preferred ==> widths[i] >= sizes[i].preferred
            &&& width < preferred && widths[j] < sizes[j].preferred && (priorities[i]
                < priorities[j] || (priorities[i] == priorities[j] && j < i)) ==> widths[i]
                == sizes[i].minimum
            &&& width >= preferred && i < j && widths[i] < sizes[i].maximum && widths[j]
                < sizes[j].maximum ==> 0 <= (widths[i] - sizes[i].preferred) - (widths[j]
                - sizes[j].preferred) <= 1
        }),
{
    let n = sizes.len() as int;
    let widths = share::member_widths(GroupLayout::Natural, sizes, priorities, width);
    let wanted = share::preferences(sizes);
    let slack = share::slacks(sizes);
    let most = share::maxima(sizes);
    let preferred = share::total(wanted);
    let direct = |k: int| sizes[k].preferred;
    assert forall|k: int| 0 <= k < n implies #[trigger] share::at(wanted)(k) == direct(k) by {}
    sum::lemma_sum_same(share::at(wanted), direct, 0, n);
    assert forall|k: int| 0 <= k < n implies #[trigger] slack[k] >= 0 by {
        assert(share::sound(sizes[k]));
    }
    assert forall|k: int| 0 <= k < n implies #[trigger] wanted[k] <= most[k] by {
        assert(share::sound(sizes[k]));
    }
    assert forall|k: int| 0 <= k < n implies #[trigger] share::at(wanted)(k) == share::at(
        share::minima(sizes),
    )(k) + share::at(slack)(k) by {}
    sum::lemma_sum_plus(
        share::at(share::minima(sizes)),
        share::at(slack),
        share::at(wanted),
        0,
        n,
    );
    if width < preferred {
        share::lemma_shrunk(wanted, slack, priorities, preferred - width);
        assert(wanted[i] - slack[i] <= widths[i] <= wanted[i]);
        assert(share::sound(sizes[i]));
        if narrows_before(priorities, i, j) && widths[j] < wanted[j] {
            widths_are_given_up_in_order(wanted, slack, priorities, preferred - width, i, j);
        }
    } else {
        share::lemma_grown(wanted, most, width - preferred);
        assert(wanted[i] <= widths[i]);
        assert(share::bounded(widths, most));
        assert(widths[i] <= most[i]);
        assert(share::sound(sizes[i]));
        if i < j && widths[i] < most[i] && widths[j] < most[j] {
            room_is_shared_out_evenly(wanted, most, width - preferred, i, j);
        }
    }
}

/// The members of an equal-width group that can be wider than nothing have the same
/// width, but for a pixel that earlier ones may have more. The others have none.
pub proof fn equal_members_differ_by_a_pixel_at_most(
    sizes: Seq<Extent>,
    priorities: Seq<i32>,
    width: int,
    i: int,
    j: int,
)
    requires
        width >= 0,
        0 <= i < j < sizes.len(),
    ensures
        ({
            let widths = share::member_widths(GroupLayout::EqualWidth, sizes, priorities, width);
            &&& widths.len() == sizes.len()
            &&& sizes[i].maximum <= 0 ==> widths[i] == 0
            &&& sizes[j].maximum <= 0 ==> widths[j] == 0
            &&& sizes[i].maximum > 0 && sizes[j].maximum > 0 ==> 0 <= widths[i] - widths[j] <= 1
        }),
{
    lemma_active_grows(sizes, i, j);
}

proof fn lemma_active_grows(sizes: Seq<Extent>, k: int, n: int)
    requires
        0 <= k <= n <= sizes.len(),
    ensures
        0 <= sizing::active_count(sizes, k) <= sizing::active_count(sizes, n),
    decreases n,
{
    if k < n {
        lemma_active_grows(sizes, k, n - 1);
    } else if n > 0 {
        lemma_active_grows(sizes, n - 1, n - 1);
    }
}

// ---------------------------------------------------------------------------
// Where room goes

/// The weight of an element; only flexible spaces have one.
pub open spec fn heft(elements: Seq<Element>) -> spec_fn(int) -> int {
    |k: int|
        match elements[k] {
            Element::FlexibleSpace { weight, .. } => weight as int,
            _ => 0,
        }
}

/// Flexible spaces share room by their weights: each but the last gets its part of it,
/// rounded down, and together they get all of it. Nothing else gets any.
pub proof fn flexible_spaces_share_by_weight(
    elements: Seq<Element>,
    lo: int,
    hi: int,
    extra: int,
    i: int,
)
    requires
        0 <= lo <= i < hi <= elements.len(),
        extra >= 0,
        forall|k: int|
            lo <= k < hi ==> (#[trigger] elements[k] matches Element::FlexibleSpace { weight, .. }
                ==> weight > 0),
    ensures
        ({
            let part = spaces::addition(elements, lo, hi, extra, i);
            let whole = sum::sum(heft(elements), lo, hi);
            &&& part >= 0
            &&& !(elements[i] is FlexibleSpace) ==> part == 0
            &&& elements[i] is FlexibleSpace && (exists|k: int|
                i < k < hi && #[trigger] elements[k] is FlexibleSpace) ==> part * whole <= extra
                * heft(elements)(i) < (part + 1) * whole
            &&& elements[i] is FlexibleSpace ==> sum::sum(
                |k: int| spaces::addition(elements, lo, hi, extra, k),
                lo,
                hi,
            ) == extra
        }),
{
    let w = spaces::weights(elements);
    let h = heft(elements);
    assert forall|k: int| lo <= k < hi implies #[trigger] w(k) == h(k) by {}
    sum::lemma_sum_same(w, h, lo, hi);
    assert forall|k: int| lo <= k < hi implies #[trigger] w(k) >= 0 by {}
    let whole = sum::sum(w, lo, hi);
    let f = |k: int| spaces::addition(elements, lo, hi, extra, k);
    let g = spaces::additions(elements, lo, hi, extra);
    assert forall|k: int| lo <= k < hi implies #[trigger] f(k) == g(k) by {}
    sum::lemma_sum_same(f, g, lo, hi);
    spaces::lemma_additions(elements, lo, hi, extra);
    assert(g(i) >= 0);
    if elements[i] is FlexibleSpace {
        sum::lemma_sum_part(w, lo, i, i + 1, hi);
        assert(sum::sum(w, i, i + 1) == sum::sum(w, i, i) + w(i));
        assert(whole > 0);
        if exists|k: int| i < k < hi && #[trigger] elements[k] is FlexibleSpace {
            let k = choose|k: int| i < k < hi && #[trigger] elements[k] is FlexibleSpace;
            sum::lemma_sum_part(w, i + 1, k, k + 1, hi);
            assert(sum::sum(w, k, k + 1) == sum::sum(w, k, k) + w(k));
            let product = extra * w(i);
            let part = product / whole;
            assert(part * whole <= product < (part + 1) * whole) by (nonlinear_arith)
                requires
                    part == product / whole,
                    whole > 0,
            ;
            let weight = w(i);
            if extra == 0 {
                assert(extra * weight == 0) by (nonlinear_arith)
                    requires
                        extra == 0,
                ;
            }
        }
    }
}

/// The elements in front of the principal item and those behind it keep their room:
/// the element that holds it starts where the item is in the middle, or as near to
/// that as the widths of the others allow.
pub proof fn principal_items_are_as_central_as_can_be(
    bar: BarSpec,
    available: u32,
    required: TextSet<ItemId>,
)
    requires
        resolve::resolved(bar, available, required) is Ok,
    ensures
        ({
            let elements = bar.elements@;
            let visible = resolve::shown_in(bar, available, required@);
            let base = resolve::fitted(
                elements,
                resolve::sizes_of(elements),
                visible,
                available as int,
            );
            let plan = resolve::plan_of(bar, visible, available as int);
            resolve::anchor_of(bar, visible, base) matches Some(a) ==> {
                let x = resolve::position(plan, a.index);
                let before = sum::sum(share::at(base), 0, a.index);
                let after = sum::sum(share::at(base), a.index + 1, elements.len() as int);
                let middle = (available - a.width) / 2;
                &&& before <= x
                &&& x + base[a.index] + after <= available
                &&& x + a.offset < middle ==> x + base[a.index] + after == available
                &&& x + a.offset > middle ==> x == before
            }
        }),
{
    let elements = bar.elements@;
    let n = elements.len() as int;
    let visible = resolve::shown_in(bar, available, required@);
    lemma_nonnegative(bar, available, required);
    resolve::lemma_fitted(bar, visible, available as int);
    resolve::lemma_anchor(bar, visible, available as int);
    let base = resolve::fitted(elements, resolve::sizes_of(elements), visible, available as int);
    let plan = resolve::plan_of(bar, visible, available as int);
    if let Some(a) = resolve::anchor_of(bar, visible, base) {
        let w = share::at(base);
        assert forall|i: int| 0 <= i < n implies #[trigger] w(i) >= 0 by {
            assert(base[i] >= 0);
        }
        sum::lemma_sum_split(w, 0, a.index, n);
        sum::lemma_sum_split(w, a.index, a.index + 1, n);
        assert(sum::sum(w, a.index, a.index + 1) == sum::sum(w, a.index, a.index) + w(a.index));
        sum::lemma_sum_nonnegative(w, 0, a.index);
        assert(sum::sum(share::at(plan.widths), a.index, a.index) == 0);
    }
}

/// A natural group is as wide as its members and the spaces between those of them
/// that can be wider than nothing. In an equal-width group all of these get one
/// width, which suits each of them and is as near to the greatest preferred width as
/// it can; there is no such group where no width suits all.
pub proof fn groups_are_as_wide_as_their_members(spacing: u32, sizes: Seq<Extent>)
    requires
        share::all_sound(sizes),
        sizing::active_count(sizes, sizes.len() as int) > 0,
    ensures
        ({
            let n = sizes.len() as int;
            let between = spacing * (sizing::active_count(sizes, n) - 1);
            sizing::combined(GroupLayout::Natural, spacing, sizes) matches Some(group) && {
                &&& group.minimum == sum::sum(|i: int| sizes[i].minimum, 0, n) + between
                &&& group.preferred == sum::sum(|i: int| sizes[i].preferred, 0, n) + between
                &&& group.maximum == sum::sum(|i: int| sizes[i].maximum, 0, n) + between
            }
        }),
        ({
            let n = sizes.len() as int;
            let count = sizing::active_count(sizes, n);
            match sizing::combined(GroupLayout::EqualWidth, spacing, sizes) {
                Some(group) => exists|low: int, wish: int, high: int|
                    {
                        &&& group == (Extent {
                            minimum: low * count + spacing * (count - 1),
                            preferred: wish * count + spacing * (count - 1),
                            maximum: high * count + spacing * (count - 1),
                        })
                        &&& #[trigger] common_widths(sizes, low, wish, high)
                    },
                None => exists|i: int, j: int|
                    {
                        &&& 0 <= i < n
                        &&& 0 <= j < n
                        &&& 0 < sizes[j].maximum
                        &&& #[trigger] sizes[i].minimum > #[trigger] sizes[j].maximum
                    },
            }
        }),
{
    let n = sizes.len() as int;
    let count = sizing::active_count(sizes, n);
    let a = |i: int| sizes[i].minimum;
    let b = |i: int| sizes[i].preferred;
    let c = |i: int| sizes[i].maximum;
    sum::lemma_sum_same(sizing::minimum_of(sizes), a, 0, n);
    sum::lemma_sum_same(sizing::preferred_of(sizes), b, 0, n);
    sum::lemma_sum_same(sizing::maximum_of(sizes), c, 0, n);
    assert(spacing * (1 - 1) == 0);
    assert forall|i: int| 0 <= i < n implies (#[trigger] sizes[i]).maximum >= 0 by {
        assert(share::sound(sizes[i]));
    }
    let low = sizing::largest(sizing::minimum_of(sizes), n);
    let wish = sizing::largest(sizing::preferred_of(sizes), n);
    let high = sizing::smallest_maximum(sizes, n);
    let m = lemma_largest_is_met(sizing::minimum_of(sizes), n);
    let p = lemma_largest_is_met(sizing::preferred_of(sizes), n);
    let q = lemma_smallest_is_met(sizes, n);
    sizing::lemma_largest(sizing::minimum_of(sizes), n);
    sizing::lemma_largest(sizing::preferred_of(sizes), n);
    sizing::lemma_smallest_maximum(sizes, n);
    if low <= high {
        let best = sum::clamped(wish, low, high);
        assert forall|i: int| 0 <= i < n && sizes[i].maximum > 0 implies low <= high && (
        #[trigger] sizes[i]).minimum <= low && high <= sizes[i].maximum by {
            assert(sizing::minimum_of(sizes)(i) <= low);
        }
        assert forall|i: int| 0 <= i < n && best < high implies (#[trigger] sizes[i]).preferred
            <= best by {
            assert(sizing::preferred_of(sizes)(i) <= wish);
        }
        if low > 0 {
            assert(sizing::minimum_of(sizes)(m) == low);
            assert(sizes[m].minimum == low);
        }
        if best > low {
            assert(sizing::preferred_of(sizes)(p) == wish);
            assert(sizes[p].preferred >= best);
        }
        assert(common_widths(sizes, low, best, high));
    } else {
        assert(sizing::minimum_of(sizes)(m) == low);
        assert(sizes[m].minimum > sizes[q].maximum);
    }
}

/// The widths that all members of an equal-width group can have run from `low`, the
/// greatest of their least widths, to `high`, the smallest of their greatest ones.
/// The one they would rather have is the greatest of their preferred ones, as far as
/// it lies between these.
pub open spec fn common_widths(sizes: Seq<Extent>, low: int, wish: int, high: int) -> bool {
    &&& 0 <= low <= wish <= high
    &&& forall|i: int|
        0 <= i < sizes.len() && sizes[i].maximum > 0 ==> (#[trigger] sizes[i]).minimum <= low
            && high <= sizes[i].maximum
    &&& low > 0 ==> exists|i: int| 0 <= i < sizes.len() && (#[trigger] sizes[i]).minimum == low
    &&& exists|i: int|
        0 <= i < sizes.len() && sizes[i].maximum > 0 && (#[trigger] sizes[i]).maximum == high
    &&& wish < high ==> forall|i: int|
        0 <= i < sizes.len() ==> (#[trigger] sizes[i]).preferred <= wish
    &&& wish > low ==> exists|i: int| 0 <= i < sizes.len() && (#[trigger] sizes[i]).preferred >= wish
}

proof fn lemma_largest_is_met(f: spec_fn(int) -> int, n: int) -> (at: int)
    ensures
        sizing::largest(f, n) > 0 ==> 0 <= at < n && f(at) == sizing::largest(f, n),
    decreases n,
{
    if n > 0 && f(n - 1) <= sizing::largest(f, n - 1) {
        lemma_largest_is_met(f, n - 1)
    } else {
        n - 1
    }
}

proof fn lemma_smallest_is_met(sizes: Seq<Extent>, n: int) -> (at: int)
    requires
        0 <= n <= sizes.len(),
    ensures
        sizing::active_count(sizes, n) >= 0,
        sizing::active_count(sizes, n) > 0 ==> 0 <= at < n && 0 < sizes[at].maximum
            && sizes[at].maximum == sizing::smallest_maximum(sizes, n),
    decreases n,
{
    if n <= 0 {
        0
    } else {
        let before = lemma_smallest_is_met(sizes, n - 1);
        if sizes[n - 1].maximum > 0 && (sizing::active_count(sizes, n - 1) == 0
            || sizes[n - 1].maximum < sizing::smallest_maximum(sizes, n - 1)) {
            n - 1
        } else {
            before
        }
    }
}

// ---------------------------------------------------------------------------
// Which bars are accepted

/// Groups stand within the group, so many of them one in the other, itself included.
pub open spec fn nests(group: GroupSpec, levels: int) -> bool
    decreases group,
{
    levels <= 1 || exists|i: int|
        0 <= i < group.elements@.len() && match #[trigger] group.elements@[i] {
            GroupElement::Group(inner) => nests(inner, levels - 1),
            GroupElement::Item(_) => false,
        }
}

proof fn lemma_member_checked(
    elements: Seq<GroupElement>,
    depth: int,
    seen: validate::Seen,
    k: int,
) -> (met: validate::Seen)
    requires
        validate::children_check(elements, depth, seen) is Ok,
        0 <= k < elements.len(),
    ensures
        validate::child_check(elements[k], depth, met) is Ok,
    decreases elements.len(),
{
    let met = validate::children_check(elements.drop_last(), depth, seen)->Ok_0;
    if k == elements.len() - 1 {
        met
    } else {
        lemma_member_checked(elements.drop_last(), depth, seen, k)
    }
}

proof fn lemma_depth(group: GroupSpec, depth: int, seen: validate::Seen)
    requires
        validate::group_check(group, depth, seen) is Ok,
        depth >= 1,
    ensures
        !nests(group, MAX_GROUP_DEPTH - depth + 2),
    decreases group,
{
    let entered = validate::Seen { items: seen.items, groups: seen.groups.insert(group.id@) };
    assert forall|i: int| 0 <= i < group.elements@.len() implies !(match
    #[trigger] group.elements@[i] {
        GroupElement::Group(inner) => nests(inner, MAX_GROUP_DEPTH - depth + 1),
        GroupElement::Item(_) => false,
    }) by {
        let met = lemma_member_checked(group.elements@, depth + 1, entered, i);
        if let GroupElement::Group(inner) = group.elements@[i] {
            lemma_depth(inner, depth + 1, met);
        }
    }
}

proof fn lemma_child_items_checked(element: GroupElement, depth: int, seen: validate::Seen)
    requires
        validate::child_check(element, depth, seen) is Ok,
    ensures
        forall|k: int|
            0 <= k < place::child_items(element).len() ==> proper(
                #[trigger] place::child_items(element)[k],
            ),
    decreases element,
{
    match element {
        GroupElement::Item(item) => {
            assert(validate::item_check(item, seen) is Ok);
            assert(place::child_items(element) =~= seq![item]);
            assert(proper(item));
        },
        GroupElement::Group(group) => {
            let entered = validate::Seen {
                items: seen.items,
                groups: seen.groups.insert(group.id@),
            };
            assert(validate::group_check(group, depth, seen) is Ok);
            lemma_items_checked(group.elements@, depth + 1, entered);
            assert(place::child_items(element) =~= place::member_items(group.elements@));
        },
    }
}

proof fn lemma_items_checked(elements: Seq<GroupElement>, depth: int, seen: validate::Seen)
    requires
        validate::children_check(elements, depth, seen) is Ok,
    ensures
        forall|k: int|
            0 <= k < place::member_items(elements).len() ==> proper(
                #[trigger] place::member_items(elements)[k],
            ),
    decreases elements,
{
    if elements.len() > 0 {
        let met = validate::children_check(elements.drop_last(), depth, seen)->Ok_0;
        lemma_items_checked(elements.drop_last(), depth, seen);
        lemma_child_items_checked(elements.last(), depth, met);
        let some = place::member_items(elements.drop_last());
        let all = place::member_items(elements);
        assert(all =~= some + place::child_items(elements.last()));
        assert forall|k: int| 0 <= k < all.len() implies proper(#[trigger] all[k]) by {
            if k < some.len() {
                assert(all[k] == some[k]);
            } else {
                assert(all[k] == place::child_items(elements.last())[k - some.len()]);
            }
        }
    }
}

/// The item has an identifier, and its widths are positive and in order.
pub open spec fn proper(item: ItemSpec) -> bool {
    item.id@.len() > 0 && 0 < item.min_width <= item.preferred_width <= item.max_width
}

/// In a bar that has a layout, every item has an identifier and widths that are
/// positive and in order, every group has an identifier and is not nested too deeply,
/// every flexible space has a weight, and the principal item and all required ones are
/// in the bar.
pub proof fn accepted_bars_are_sound(
    bar: BarSpec,
    available: u32,
    required: TextSet<ItemId>,
    i: int,
)
    requires
        resolve::resolved(bar, available, required) is Ok,
        0 <= i < bar.elements@.len(),
    ensures
        ({
            let all = laws::all_items(bar.elements@, bar.elements@.len() as int);
            &&& match bar.elements@[i] {
                Element::Item(item) => proper(item),
                Element::Group(group) => {
                    &&& group.id@.len() > 0
                    &&& !nests(group, MAX_GROUP_DEPTH + 1)
                    &&& forall|k: int|
                        0 <= k < place::member_items(group.elements@).len() ==> proper(
                            #[trigger] place::member_items(group.elements@)[k],
                        )
                },
                Element::FixedSpace { .. } => true,
                Element::FlexibleSpace { weight, .. } => weight > 0,
            }
            &&& bar.principal_item matches Some(id) ==> place::holds(all, id@)
            &&& forall|id: Seq<char>| #[trigger]
                required@.contains(id) ==> place::holds(all, id)
        }),
{
    let elements = bar.elements@;
    let n = elements.len() as int;
    laws::lemma_elements_check_items(elements, n);
    lemma_elements_checked(elements, n, i);
    let met = validate::elements_check(elements, i)->Ok_0;
    if let Element::Group(group) = elements[i] {
        lemma_depth(group, 1, met);
        let entered = validate::Seen { items: met.items, groups: met.groups.insert(group.id@) };
        lemma_items_checked(group.elements@, 2, entered);
    }
    assert forall|id: Seq<char>| #[trigger] required@.contains(id) implies place::holds(
        laws::all_items(elements, n),
        id,
    ) by {
        laws::required_items_are_placed(bar, available, required, id);
        laws::every_item_is_placed_or_hidden(bar, available, required, id);
    }
}

proof fn lemma_elements_checked(elements: Seq<Element>, n: int, i: int)
    requires
        0 <= i < n <= elements.len(),
        validate::elements_check(elements, n) is Ok,
    ensures
        validate::elements_check(elements, i) is Ok,
        validate::element_check(elements[i], i, validate::elements_check(elements, i)->Ok_0) is Ok,
    decreases n,
{
    if i < n - 1 {
        lemma_elements_checked(elements, n - 1, i);
    }
}

proof fn lemma_flat_check(elements: Seq<Element>, n: int)
    requires
        0 <= n <= elements.len(),
        forall|i: int|
            #![trigger elements[i]]
            0 <= i < elements.len() ==> match elements[i] {
                Element::Item(item) => proper(item),
                Element::Group(_) => false,
                Element::FixedSpace { .. } => true,
                Element::FlexibleSpace { weight, .. } => weight > 0,
            },
        forall|i: int, j: int|
            #![trigger elements[i], elements[j]]
            0 <= i < j < elements.len() && elements[i] is Item && elements[j] is Item
                ==> elements[i]->Item_0.id@ != elements[j]->Item_0.id@,
    ensures
        validate::elements_check(elements, n) is Ok,
        forall|id: Seq<char>| #[trigger]
            validate::elements_check(elements, n)->Ok_0.items.contains(id) <==> exists|i: int|
                0 <= i < n && #[trigger] elements[i] is Item && elements[i]->Item_0.id@ == id,
    decreases n,
{
    if n > 0 {
        lemma_flat_check(elements, n - 1);
        let before = validate::elements_check(elements, n - 1)->Ok_0;
        assert(match elements[n - 1] {
            Element::Item(item) => proper(item),
            Element::Group(_) => false,
            Element::FixedSpace { .. } => true,
            Element::FlexibleSpace { weight, .. } => weight > 0,
        });
        let after = validate::elements_check(elements, n)->Ok_0;
        assert forall|id: Seq<char>| #[trigger] after.items.contains(id) <==> exists|i: int|
            0 <= i < n && #[trigger] elements[i] is Item && elements[i]->Item_0.id@ == id by {
            if before.items.contains(id) {
                let i = choose|i: int|
                    0 <= i < n - 1 && #[trigger] elements[i] is Item && elements[i]->Item_0.id@
                        == id;
                assert(elements[i] is Item);
            }
            if elements[n - 1] is Item && elements[n - 1]->Item_0.id@ == id {
                assert(elements[n - 1] is Item);
            }
        }
    }
}

/// A bar of items and spaces is refused for nothing but its width and its visibility
/// groups, where its items have identifiers of their own and widths that are positive
/// and in order, its flexible spaces have weights, and its principal item and all
/// required ones are in it.
pub proof fn sound_flat_bars_are_accepted(bar: BarSpec, available: u32, required: TextSet<ItemId>)
    requires
        required.wf(),
        forall|i: int|
            #![trigger bar.elements@[i]]
            0 <= i < bar.elements@.len() ==> match bar.elements@[i] {
                Element::Item(item) => proper(item),
                Element::Group(_) => false,
                Element::FixedSpace { .. } => true,
                Element::FlexibleSpace { weight, .. } => weight > 0,
            },
        forall|i: int, j: int|
            #![trigger bar.elements@[i], bar.elements@[j]]
            0 <= i < j < bar.elements@.len() && bar.elements@[i] is Item && bar.elements@[j] is Item
                ==> bar.elements@[i]->Item_0.id@ != bar.elements@[j]->Item_0.id@,
        bar.principal_item matches Some(id) ==> exists|i: int|
            0 <= i < bar.elements@.len() && #[trigger] bar.elements@[i] is Item
                && bar.elements@[i]->Item_0.id@ == id@,
        forall|id: Seq<char>| #[trigger]
            required@.contains(id) ==> exists|i: int|
                0 <= i < bar.elements@.len() && #[trigger] bar.elements@[i] is Item
                    && bar.elements@[i]->Item_0.id@ == id,
    ensures
        match resolve::resolved(bar, available, required) {
            Ok(_) => true,
            Err(LayoutError::InsufficientWidth { .. }) => true,
            Err(LayoutError::InconsistentVisibilityGroup(_)) => true,
            Err(_) => false,
        },
{
    let elements = bar.elements@;
    let n = elements.len() as int;
    lemma_flat_check(elements, n);
    let seen = validate::elements_check(elements, n)->Ok_0;
    required.lemma_items();
    assert forall|k: int| 0 <= k < required.items().len() implies seen.items.contains(
        (#[trigger] required.items()[k])@,
    ) by {
        assert(required.items()[k].text() == required@[k]);
        assert(required@.contains(required@[k]));
    }
    lemma_none_missing(required.items(), required.items().len() as int, seen);
}

proof fn lemma_none_missing(required: Seq<ItemId>, n: int, seen: validate::Seen)
    requires
        0 <= n <= required.len(),
        forall|k: int| 0 <= k < required.len() ==> seen.items.contains((#[trigger] required[k])@),
    ensures
        validate::first_missing(required, n, seen) is None,
    decreases n,
{
    if n > 0 {
        lemma_none_missing(required, n - 1, seen);
    }
}

} // verus!
