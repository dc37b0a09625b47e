//! What holds of every resolved layout.
use vstd::prelude::*;

use crate::layout::place;
use crate::layout::resolve;
use crate::layout::share;
use crate::layout::sizing;
use crate::layout::spaces;
use crate::layout::sum;
use crate::layout::validate;
use crate::layout::visibility;
use crate::layout::{
    BarSpec, Element, GroupElement, GroupSpec, ItemId, ItemSpec, LayoutError, Placement,
};
use crate::text::{TextKey, TextSet};

verus! {

/// The bar has no fault of its own: only the width can be too small for it.
pub open spec fn valid(bar: BarSpec, required: TextSet<ItemId>) -> bool {
    &&& validate::bar_check(bar, required.items()) is Ok
    &&& visibility::first_clash(bar.elements@, bar.elements@.len() as int) is None
}

/// All items of the first `n` elements.
pub open spec fn all_items(elements: Seq<Element>, n: int) -> Seq<ItemSpec>
    decreases n,
{
    if n <= 0 {
        Seq::empty()
    } else {
        all_items(elements, n - 1) + place::element_items(elements[n - 1])
    }
}

/// The item stands in the layout.
pub open spec fn is_placed(layout: resolve::Layout, id: Seq<char>) -> bool {
    exists|k: int| 0 <= k < layout.placements.len() && (#[trigger] layout.placements[k]).id@ == id
}

/// The layout hides the item.
pub open spec fn is_hidden(layout: resolve::Layout, id: Seq<char>) -> bool {
    exists|k: int| 0 <= k < layout.hidden_items.len() && (#[trigger] layout.hidden_items[k])@ == id
}

/// A bar that has a layout fits the width.
pub proof fn lemma_resolved_fits(bar: BarSpec, available: u32, required: TextSet<ItemId>)
    requires
        validate::bar_check(bar, required.items()) is Ok,
        visibility::kept_width(
            bar.elements@,
            resolve::sizes_of(bar.elements@),
            resolve::shown_in(bar, available, required@),
        ) <= available,
    ensures
        resolve::fits(bar, resolve::shown_in(bar, available, required@), available as int),
{
    let elements = bar.elements@;
    let n = elements.len() as int;
    assert forall|i: int| 0 <= i < n implies place::sound_element(#[trigger] elements[i]) by {
        place::lemma_elements_check_sound(elements, n, i);
    }
}

/// The shown items stand side by side inside the bar, in the order in which
/// they occur in it, each as wide as suits it, and the content ends where the
/// layout says.
pub proof fn items_stand_side_by_side(bar: BarSpec, available: u32, required: TextSet<ItemId>)
    requires
        resolve::resolved(bar, available, required) is Ok,
    ensures
        ({
            let layout = resolve::resolved(bar, available, required)->Ok_0;
            let visible = resolve::shown_in(bar, available, required@);
            &&& place::arranged(
                layout.placements,
                resolve::selected(bar.elements@, visible, true, bar.elements@.len() as int),
                0,
                layout.content_width as int,
            )
            &&& layout.content_width <= available
        }),
{
    let n = bar.elements@.len() as int;
    let visible = resolve::shown_in(bar, available, required@);
    lemma_resolved_fits(bar, available, required);
    resolve::lemma_placed_arranged(bar, visible, available as int, n);
    resolve::lemma_plan(bar, visible, available as int);
    assert(0 <= resolve::position(resolve::plan_of(bar, visible, available as int), n)
        <= available);
}

/// A valid bar has a layout exactly where all that can never be hidden fits;
/// otherwise the width is reported as insufficient, and what is required is the
/// least width of all that can never be hidden.
pub proof fn only_required_content_can_be_too_wide(
    bar: BarSpec,
    available: u32,
    required: TextSet<ItemId>,
)
    requires
        valid(bar, required),
    ensures
        ({
            let elements = bar.elements@;
            let lasting = sum::sum(
                visibility::lasting(elements, resolve::sizes_of(elements), required@),
                0,
                elements.len() as int,
            );
            match resolve::resolved(bar, available, required) {
                Ok(_) => lasting <= available,
                Err(e) => lasting > available && e == (LayoutError::InsufficientWidth {
                    available,
                    required: (if lasting > u32::MAX {
                        u32::MAX
                    } else {
                        lasting as u32
                    }),
                }),
            }
        }),
{
    let elements = bar.elements@;
    let n = elements.len() as int;
    let sizes = resolve::sizes_of(elements);
    assert forall|i: int| 0 <= i < sizes.len() implies (#[trigger] sizes[i]).minimum >= 0 by {
        place::lemma_elements_check_sound(elements, n, i);
        resolve::lemma_sound_sizes(elements, i);
    }
    visibility::hiding_makes_room_where_it_can(elements, sizes, required@, available as int);
}

proof fn lemma_fewer_selected(
    elements: Seq<Element>,
    narrow: Seq<bool>,
    wide: Seq<bool>,
    id: Seq<char>,
    n: int,
)
    requires
        0 <= n <= elements.len(),
        forall|i: int| 0 <= i < n && #[trigger] narrow[i] ==> wide[i],
        place::holds(resolve::selected(elements, wide, false, n), id),
    ensures
        place::holds(resolve::selected(elements, narrow, false, n), id),
    decreases n,
{
    if n > 0 {
        let items = place::element_items(elements[n - 1]);
        let none = Seq::<ItemSpec>::empty();
        assert(!place::holds(none, id));
        place::lemma_holds_append(
            resolve::selected(elements, wide, false, n - 1),
            if wide[n - 1] == false {
                items
            } else {
                none
            },
            id,
        );
        place::lemma_holds_append(
            resolve::selected(elements, narrow, false, n - 1),
            if narrow[n - 1] == false {
                items
            } else {
                none
            },
            id,
        );
        if place::holds(resolve::selected(elements, wide, false, n - 1), id) {
            lemma_fewer_selected(elements, narrow, wide, id, n - 1);
        }
    }
}

/// A bar that has a layout has one in a wider place, which hides nothing more.
pub proof fn more_width_hides_nothing_more(
    bar: BarSpec,
    available: u32,
    wider: u32,
    required: TextSet<ItemId>,
    id: Seq<char>,
)
    requires
        resolve::resolved(bar, available, required) is Ok,
        available <= wider,
    ensures
        resolve::resolved(bar, wider, required) is Ok,
        is_hidden(resolve::resolved(bar, wider, required)->Ok_0, id) ==> is_hidden(
            resolve::resolved(bar, available, required)->Ok_0,
            id,
        ),
{
    let elements = bar.elements@;
    let n = elements.len() as int;
    only_required_content_can_be_too_wide(bar, available, required);
    only_required_content_can_be_too_wide(bar, wider, required);
    let before = resolve::resolved(bar, available, required)->Ok_0;
    let after = resolve::resolved(bar, wider, required)->Ok_0;
    if is_hidden(after, id) {
        let narrow = resolve::shown_in(bar, available, required@);
        let wide = resolve::shown_in(bar, wider, required@);
        let k = choose|k: int|
            0 <= k < after.hidden_items.len() && (#[trigger] after.hidden_items[k])@ == id;
        assert(resolve::selected(elements, wide, false, n)[k].id@ == id);
        lemma_fewer_selected(elements, narrow, wide, id, n);
        let gone = resolve::selected(elements, narrow, false, n);
        let i = choose|i: int| 0 <= i < gone.len() && (#[trigger] gone[i]).id@ == id;
        assert(before.hidden_items[i]@ == id);
    }
}

/// Where the least widths of all elements fit, nothing is hidden.
pub proof fn nothing_is_hidden_where_all_fits(
    bar: BarSpec,
    available: u32,
    required: TextSet<ItemId>,
)
    requires
        valid(bar, required),
        visibility::least_width(resolve::sizes_of(bar.elements@)) <= available,
    ensures
        resolve::resolved(bar, available, required) matches Ok(layout)
            && layout.hidden_items.len() == 0,
{
    let elements = bar.elements@;
    let n = elements.len() as int;
    let sizes = resolve::sizes_of(elements);
    let visible = resolve::shown_in(bar, available, required@);
    assert forall|i: int| 0 <= i < sizes.len() implies (#[trigger] sizes[i]).minimum >= 0 by {
        place::lemma_elements_check_sound(elements, n, i);
        resolve::lemma_sound_sizes(elements, i);
    }
    assert forall|i: int| 0 <= i < n implies #[trigger] visible[i] == visibility::is_content(
        elements[i],
    ) by {
        visibility::nothing_is_hidden_needlessly(
            elements,
            sizes,
            required@,
            available as int,
            i,
        );
    }
    let keep = visibility::kept(elements, sizes, visible);
    assert forall|i: int| 0 <= i < n implies #[trigger] keep(i) == sizing::minimum_of(sizes)(
        i,
    ) by {
        assert(visible[i] == visibility::is_content(elements[i]));
    }
    sum::lemma_sum_same(keep, sizing::minimum_of(sizes), 0, n);
    lemma_nothing_selected(elements, visible, n);
}

proof fn lemma_nothing_selected(elements: Seq<Element>, visible: Seq<bool>, n: int)
    requires
        0 <= n <= elements.len(),
        forall|i: int|
            0 <= i < n ==> #[trigger] visible[i] == visibility::is_content(elements[i]),
    ensures
        resolve::selected(elements, visible, false, n).len() == 0,
    decreases n,
{
    if n > 0 {
        lemma_nothing_selected(elements, visible, n - 1);
        assert(visible[n - 1] == visibility::is_content(elements[n - 1]));
    }
}

// ---------------------------------------------------------------------------
// Which items a bar has

proof fn lemma_child_check_items(element: GroupElement, depth: int, seen: validate::Seen)
    requires
        validate::child_check(element, depth, seen) is Ok,
    ensures
        forall|id: Seq<char>| #[trigger]
            validate::child_check(element, depth, seen)->Ok_0.items.contains(id) <==> (
            seen.items.contains(id) || place::holds(place::child_items(element), id)),
        forall|id: Seq<char>| #[trigger]
            seen.items.contains(id) ==> !place::holds(place::child_items(element), id),
    decreases element,
{
    match element {
        GroupElement::Item(item) => {
            assert(validate::item_check(item, seen) is Ok);
            assert(place::child_items(element) == seq![item]);
            assert forall|id: Seq<char>| #[trigger]
                place::holds(place::child_items(element), id) <==> id == item.id@ by {
                if id == item.id@ {
                    assert(place::child_items(element)[0].id@ == id);
                }
            }
        },
        GroupElement::Group(group) => {
            lemma_group_check_items(group, depth, seen);
        },
    }
}

proof fn lemma_children_check_items(
    elements: Seq<GroupElement>,
    depth: int,
    seen: validate::Seen,
)
    requires
        validate::children_check(elements, depth, seen) is Ok,
    ensures
        forall|id: Seq<char>| #[trigger]
            validate::children_check(elements, depth, seen)->Ok_0.items.contains(id) <==> (
            seen.items.contains(id) || place::holds(place::member_items(elements), id)),
        forall|id: Seq<char>| #[trigger]
            seen.items.contains(id) ==> !place::holds(place::member_items(elements), id),
    decreases elements,
{
    if elements.len() > 0 {
        let rest = elements.drop_last();
        let next = validate::children_check(rest, depth, seen)->Ok_0;
        lemma_children_check_items(rest, depth, seen);
        lemma_child_check_items(elements.last(), depth, next);
        assert forall|id: Seq<char>| #[trigger]
            place::holds(place::member_items(elements), id) <==> place::holds(
                place::member_items(rest),
                id,
            ) || place::holds(place::child_items(elements.last()), id) by {
            place::lemma_holds_append(
                place::member_items(rest),
                place::child_items(elements.last()),
                id,
            );
        }
        assert forall|id: Seq<char>| #[trigger]
            validate::children_check(elements, depth, seen)->Ok_0.items.contains(id) <==> (
            seen.items.contains(id) || place::holds(place::member_items(elements), id)) by {
            assert(validate::child_check(elements.last(), depth, next)->Ok_0.items.contains(id)
                <==> next.items.contains(id) || place::holds(
                place::child_items(elements.last()),
                id,
            ));
        }
        assert forall|id: Seq<char>| #[trigger] seen.items.contains(id) implies !place::holds(
            place::member_items(elements),
            id,
        ) by {
            place::lemma_holds_append(
                place::member_items(rest),
                place::child_items(elements.last()),
                id,
            );
            assert(next.items.contains(id));
        }
    }
}

proof fn lemma_group_check_items(group: GroupSpec, depth: int, seen: validate::Seen)
    requires
        validate::group_check(group, depth, seen) is Ok,
    ensures
        forall|id: Seq<char>| #[trigger]
            validate::group_check(group, depth, seen)->Ok_0.items.contains(id) <==> (
            seen.items.contains(id) || place::holds(place::member_items(group.elements@), id)),
        forall|id: Seq<char>| #[trigger]
            seen.items.contains(id) ==> !place::holds(place::member_items(group.elements@), id),
    decreases group,
{
    let entered = validate::Seen { items: seen.items, groups: seen.groups.insert(group.id@) };
    lemma_children_check_items(group.elements@, depth + 1, entered);
    assert forall|id: Seq<char>| #[trigger]
        validate::group_check(group, depth, seen)->Ok_0.items.contains(id) <==> (
        seen.items.contains(id) || place::holds(place::member_items(group.elements@), id)) by {
        assert(validate::children_check(
            group.elements@,
            depth + 1,
            entered,
        )->Ok_0.items.contains(id) <==> entered.items.contains(id) || place::holds(
            place::member_items(group.elements@),
            id,
        ));
    }
    assert forall|id: Seq<char>| #[trigger] seen.items.contains(id) implies !place::holds(
        place::member_items(group.elements@),
        id,
    ) by {
        assert(entered.items.contains(id));
    }
}

proof fn lemma_element_check_items(element: Element, index: int, seen: validate::Seen)
    requires
        validate::element_check(element, index, seen) is Ok,
    ensures
        forall|id: Seq<char>| #[trigger]
            validate::element_check(element, index, seen)->Ok_0.items.contains(id) <==> (
            seen.items.contains(id) || place::holds(place::element_items(element), id)),
        forall|id: Seq<char>| #[trigger]
            place::holds(place::element_items(element), id) ==> !seen.items.contains(id),
{
    match element {
        Element::Item(item) => {
            assert forall|id: Seq<char>| #[trigger]
                place::holds(place::element_items(element), id) <==> id == item.id@ by {
                if id == item.id@ {
                    assert(place::element_items(element)[0].id@ == id);
                }
            }
        },
        Element::Group(group) => {
            lemma_group_check_items(group, 1, seen);
            assert forall|id: Seq<char>| #[trigger]
                validate::element_check(element, index, seen)->Ok_0.items.contains(id) <==> (
                seen.items.contains(id) || place::holds(place::element_items(element), id)) by {
                assert(validate::group_check(group, 1, seen)->Ok_0.items.contains(id)
                    <==> seen.items.contains(id) || place::holds(
                    place::member_items(group.elements@),
                    id,
                ));
            }
        },
        _ => {},
    }
}

/// The identifiers met in a bar are those of its items, and each element has
/// its own.
pub proof fn lemma_elements_check_items(elements: Seq<Element>, n: int)
    requires
        0 <= n <= elements.len(),
        validate::elements_check(elements, n) is Ok,
    ensures
        forall|id: Seq<char>| #[trigger]
            validate::elements_check(elements, n)->Ok_0.items.contains(id) <==> place::holds(
                all_items(elements, n),
                id,
            ),
        n > 0 ==> forall|id: Seq<char>| #[trigger]
            place::holds(place::element_items(elements[n - 1]), id) ==> !place::holds(
                all_items(elements, n - 1),
                id,
            ),
    decreases n,
{
    if n > 0 {
        lemma_elements_check_items(elements, n - 1);
        let seen = validate::elements_check(elements, n - 1)->Ok_0;
        lemma_element_check_items(elements[n - 1], n - 1, seen);
        assert forall|id: Seq<char>| #[trigger]
            validate::elements_check(elements, n)->Ok_0.items.contains(id) <==> place::holds(
                all_items(elements, n),
                id,
            ) by {
            place::lemma_holds_append(
                all_items(elements, n - 1),
                place::element_items(elements[n - 1]),
                id,
            );
            assert(validate::element_check(elements[n - 1], n - 1, seen)->Ok_0.items.contains(id)
                <==> seen.items.contains(id) || place::holds(
                place::element_items(elements[n - 1]),
                id,
            ));
        }
        assert forall|id: Seq<char>| #[trigger]
            place::holds(place::element_items(elements[n - 1]), id) implies !place::holds(
            all_items(elements, n - 1),
            id,
        ) by {
            assert(seen.items.contains(id) <==> place::holds(all_items(elements, n - 1), id));
        }
    }
}

proof fn lemma_selected(elements: Seq<Element>, visible: Seq<bool>, id: Seq<char>, n: int)
    requires
        0 <= n <= elements.len(),
        validate::elements_check(elements, n) is Ok,
    ensures
        place::holds(all_items(elements, n), id) <==> place::holds(
            resolve::selected(elements, visible, true, n),
            id,
        ) || place::holds(resolve::selected(elements, visible, false, n), id),
        !(place::holds(resolve::selected(elements, visible, true, n), id) && place::holds(
            resolve::selected(elements, visible, false, n),
            id,
        )),
    decreases n,
{
    if n > 0 {
        lemma_selected(elements, visible, id, n - 1);
        lemma_elements_check_items(elements, n);
        let items = place::element_items(elements[n - 1]);
        let none = Seq::<ItemSpec>::empty();
        place::lemma_holds_append(all_items(elements, n - 1), items, id);
        place::lemma_holds_append(
            resolve::selected(elements, visible, true, n - 1),
            if visible[n - 1] == true {
                items
            } else {
                none
            },
            id,
        );
        place::lemma_holds_append(
            resolve::selected(elements, visible, false, n - 1),
            if visible[n - 1] == false {
                items
            } else {
                none
            },
            id,
        );
        assert(!place::holds(none, id));
        assert(place::holds(items, id) ==> !place::holds(all_items(elements, n - 1), id));
    }
}

/// Every item of the bar is either placed or hidden, and nothing else is.
pub proof fn every_item_is_placed_or_hidden(
    bar: BarSpec,
    available: u32,
    required: TextSet<ItemId>,
    id: Seq<char>,
)
    requires
        resolve::resolved(bar, available, required) is Ok,
    ensures
        ({
            let layout = resolve::resolved(bar, available, required)->Ok_0;
            let items = all_items(bar.elements@, bar.elements@.len() as int);
            &&& place::holds(items, id) <==> is_placed(layout, id) || is_hidden(layout, id)
            &&& !(is_placed(layout, id) && is_hidden(layout, id))
        }),
{
    let elements = bar.elements@;
    let n = elements.len() as int;
    let layout = resolve::resolved(bar, available, required)->Ok_0;
    let visible = resolve::shown_in(bar, available, required@);
    items_stand_side_by_side(bar, available, required);
    lemma_selected(elements, visible, id, n);
    let yes = resolve::selected(elements, visible, true, n);
    let no = resolve::selected(elements, visible, false, n);
    if place::holds(yes, id) {
        let i = choose|i: int| 0 <= i < yes.len() && (#[trigger] yes[i]).id@ == id;
        assert(layout.placements[i].id@ == id);
    }
    if is_placed(layout, id) {
        let k = choose|k: int|
            0 <= k < layout.placements.len() && (#[trigger] layout.placements[k]).id@ == id;
        assert(yes[k].id@ == id);
    }
    if place::holds(no, id) {
        let i = choose|i: int| 0 <= i < no.len() && (#[trigger] no[i]).id@ == id;
        assert(layout.hidden_items[i]@ == id);
    }
    if is_hidden(layout, id) {
        let k = choose|k: int|
            0 <= k < layout.hidden_items.len() && (#[trigger] layout.hidden_items[k])@ == id;
        assert(no[k].id@ == id);
    }
}

proof fn lemma_required_not_selected(
    bar: BarSpec,
    available: u32,
    required: TextSet<ItemId>,
    id: Seq<char>,
    n: int,
)
    requires
        required@.contains(id),
        0 <= n <= bar.elements@.len(),
    ensures
        !place::holds(
            resolve::selected(
                bar.elements@,
                resolve::shown_in(bar, available, required@),
                false,
                n,
            ),
            id,
        ),
    decreases n,
{
    if n > 0 {
        let elements = bar.elements@;
        let visible = resolve::shown_in(bar, available, required@);
        let k = n - 1;
        lemma_required_not_selected(bar, available, required, id, k);
        let items = place::element_items(elements[k]);
        let none = Seq::<ItemSpec>::empty();
        place::lemma_holds_append(
            resolve::selected(elements, visible, false, k),
            if visible[k] == false {
                items
            } else {
                none
            },
            id,
        );
        assert(!place::holds(none, id));
        if place::holds(items, id) {
            let i = choose|i: int| 0 <= i < items.len() && (#[trigger] items[i]).id@ == id;
            assert(visibility::holds_required(elements[k], required@)) by {
                assert(required@.contains(place::element_items(elements[k])[i].id@));
            }
            assert(visibility::same_unit(elements, k, k));
            assert(visibility::needed(elements, required@, k));
            assert(visibility::is_content(elements[k]));
        }
    }
}

/// A required item is never hidden: it has its place in every layout.
pub proof fn required_items_are_placed(
    bar: BarSpec,
    available: u32,
    required: TextSet<ItemId>,
    id: Seq<char>,
)
    requires
        resolve::resolved(bar, available, required) is Ok,
        required@.contains(id),
    ensures
        is_placed(resolve::resolved(bar, available, required)->Ok_0, id),
{
    let elements = bar.elements@;
    let n = elements.len() as int;
    let layout = resolve::resolved(bar, available, required)->Ok_0;
    every_item_is_placed_or_hidden(bar, available, required, id);
    lemma_required_not_selected(bar, available, required, id, n);
    let no = resolve::selected(
        elements,
        resolve::shown_in(bar, available, required@),
        false,
        n,
    );
    if is_hidden(layout, id) {
        let k = choose|k: int|
            0 <= k < layout.hidden_items.len() && (#[trigger] layout.hidden_items[k])@ == id;
        assert(no[k].id@ == id);
    }
    let seen = validate::elements_check(elements, n)->Ok_0;
    lemma_elements_check_items(elements, n);
    required.lemma_items();
    lemma_none_missing(required.items(), required.items().len() as int, seen);
    let r = choose|r: int| 0 <= r < required@.len() && required@[r] == id;
    assert(required.items()[r].text() == id);
    assert(seen.items.contains(id));
}

proof fn lemma_none_missing(required: Seq<ItemId>, n: int, seen: validate::Seen)
    requires
        0 <= n <= required.len(),
        validate::first_missing(required, n, seen) is None,
    ensures
        forall|i: int| 0 <= i < n ==> seen.items.contains((#[trigger] required[i])@),
    decreases n,
{
    if n > 0 {
        lemma_none_missing(required, n - 1, seen);
    }
}

/// Elements of one visibility group are shown together or hidden together.
pub proof fn visibility_groups_are_atomic(
    bar: BarSpec,
    available: u32,
    required: TextSet<ItemId>,
    i: int,
    j: int,
)
    requires
        valid(bar, required),
        0 <= i < bar.elements@.len(),
        0 <= j < bar.elements@.len(),
        visibility::same_unit(bar.elements@, i, j),
    ensures
        resolve::shown_in(bar, available, required@)[i] == resolve::shown_in(
            bar,
            available,
            required@,
        )[j],
{
    visibility::units_are_atomic(
        bar.elements@,
        resolve::sizes_of(bar.elements@),
        required@,
        available as int,
        i,
        j,
    );
}

/// Without a principal item, a flexible space makes the content fill the bar.
pub proof fn flexible_space_fills_the_bar(bar: BarSpec, available: u32, required: TextSet<ItemId>)
    requires
        resolve::resolved(bar, available, required) is Ok,
        bar.principal_item is None,
        exists|i: int|
            0 <= i < bar.elements@.len() && #[trigger] bar.elements@[i] is FlexibleSpace,
    ensures
        resolve::resolved(bar, available, required)->Ok_0.content_width == available,
{
    let elements = bar.elements@;
    let n = elements.len() as int;
    let visible = resolve::shown_in(bar, available, required@);
    let base = resolve::fitted(elements, resolve::sizes_of(elements), visible, available as int);
    let plan = resolve::plan_of(bar, visible, available as int);
    lemma_resolved_fits(bar, available, required);
    resolve::lemma_fitted(bar, visible, available as int);
    let extra = available - share::total(base);
    spaces::lemma_additions(elements, 0, n, extra);
    let more = spaces::additions(elements, 0, n, extra);
    let w = share::at(plan.widths);
    assert forall|i: int| 0 <= i < n implies #[trigger] w(i) == share::at(base)(i) + more(i) by {}
    sum::lemma_sum_plus(share::at(base), more, w, 0, n);
    let k = choose|i: int| 0 <= i < n && #[trigger] elements[i] is FlexibleSpace;
    place::lemma_elements_check_sound(elements, n, k);
    let h = spaces::weights(elements);
    assert forall|i: int| 0 <= i < n implies #[trigger] h(i) >= 0 by {}
    sum::lemma_sum_part(h, 0, k, k + 1, n);
    assert(sum::sum(h, k, k + 1) == sum::sum(h, k, k) + h(k));
    assert(resolve::position(plan, n) == sum::sum(w, 0, n));
}

proof fn lemma_placed_part(
    elements: Seq<Element>,
    visible: Seq<bool>,
    plan: resolve::Plan,
    i: int,
    k: int,
    n: int,
) -> (at: int)
    requires
        0 <= i < n,
        visible[i],
        0 <= k < place::place_element(
            elements[i],
            resolve::position(plan, i),
            plan.widths[i],
        ).len(),
    ensures
        0 <= at < resolve::placed(elements, visible, plan, n).len(),
        resolve::placed(elements, visible, plan, n)[at] == place::place_element(
            elements[i],
            resolve::position(plan, i),
            plan.widths[i],
        )[k],
    decreases n,
{
    if i == n - 1 {
        resolve::placed(elements, visible, plan, n - 1).len() + k
    } else {
        lemma_placed_part(elements, visible, plan, i, k, n - 1)
    }
}

/// The principal item stands in the middle of the bar where the elements
/// before and after it leave room for that.
pub proof fn principal_item_is_centred(
    bar: BarSpec,
    available: u32,
    required: TextSet<ItemId>,
)
    requires
        resolve::resolved(bar, available, required) is Ok,
        ({
            let elements = bar.elements@;
            let visible = resolve::shown_in(bar, available, required@);
            let base = resolve::fitted(
                elements,
                resolve::sizes_of(elements),
                visible,
                available as int,
            );
            &&& resolve::anchor_of(bar, visible, base) matches Some(a)
            &&& sum::sum(share::at(base), 0, a.index) + a.offset <= (available - a.width) / 2
            &&& (available - a.width) / 2 - a.offset <= available - base[a.index] - sum::sum(
                share::at(base),
                a.index + 1,
                elements.len() as int,
            )
        }),
    ensures
        ({
            let layout = resolve::resolved(bar, available, required)->Ok_0;
            exists|k: int|
                0 <= k < layout.placements.len() && (#[trigger] layout.placements[k]).id@
                    == bar.principal_item->Some_0@ && layout.placements[k].x == (available
                    - layout.placements[k].width) / 2
        }),
{
    let elements = bar.elements@;
    let n = elements.len() as int;
    let visible = resolve::shown_in(bar, available, required@);
    let base = resolve::fitted(elements, resolve::sizes_of(elements), visible, available as int);
    let plan = resolve::plan_of(bar, visible, available as int);
    let a = resolve::anchor_of(bar, visible, base)->Some_0;
    let id = bar.principal_item->Some_0@;
    lemma_resolved_fits(bar, available, required);
    resolve::lemma_fitted(bar, visible, available as int);
    resolve::lemma_anchor(bar, visible, available as int);
    resolve::lemma_plan(bar, visible, available as int);
    resolve::lemma_holder(elements, visible, id, n);
    let p = a.index;
    let inside = place::place_element(elements[p], 0, base[p]);
    resolve::lemma_placement_of(inside, id, inside.len() as int);
    let k = resolve::placement_of(inside, id, inside.len() as int)->Some_0;
    assert(plan.widths[p] == base[p]);
    let w = share::at(base);
    assert forall|i: int| 0 <= i < n implies #[trigger] w(i) >= 0 by {
        assert(base[i] >= 0);
    }
    sum::lemma_sum_nonnegative(w, 0, p);
    assert(sum::sum(share::at(plan.widths), p, p) == 0);
    let x = resolve::position(plan, p);
    assert(x + a.offset == (available - a.width) / 2);
    assert(x + plan.widths[p] <= resolve::position(plan, p + 1));
    assert(resolve::position(plan, p + 1) <= available);
    place::lemma_elements_check_sound(elements, n, p);
    resolve::lemma_sound_sizes(elements, p);
    if let Element::Group(group) = elements[p] {
        place::lemma_move_group(group, 0, x, base[p]);
    }
    let there = place::place_element(elements[p], x, base[p]);
    assert(there[k].x == inside[k].x + x && there[k].width == inside[k].width && there[k].id
        == inside[k].id);
    let at = lemma_placed_part(elements, visible, plan, p, k, n);
    let layout = resolve::resolved(bar, available, required)->Ok_0;
    assert(layout.placements[at].x == (available - layout.placements[at].width) / 2);
}

/// The item is one of the members of a group or stands in one of them.
pub open spec fn stands_among(members: Seq<GroupElement>, item: ItemSpec) -> bool
    decreases members,
{
    exists|i: int| 0 <= i < members.len() && stands_within(#[trigger] members[i], item)
}

/// The item is the member or stands in it.
pub open spec fn stands_within(member: GroupElement, item: ItemSpec) -> bool
    decreases member,
{
    match member {
        GroupElement::Item(own) => own == item,
        GroupElement::Group(group) => stands_among(group.elements@, item),
    }
}

/// The item is the element of a bar or stands in it.
pub open spec fn stands_at(element: Element, item: ItemSpec) -> bool {
    match element {
        Element::Item(own) => own == item,
        Element::Group(group) => stands_among(group.elements@, item),
        Element::FixedSpace { .. } => false,
        Element::FlexibleSpace { .. } => false,
    }
}

proof fn lemma_contains_joined(a: Seq<ItemSpec>, b: Seq<ItemSpec>, item: ItemSpec)
    ensures
        (a + b).contains(item) == (a.contains(item) || b.contains(item)),
{
    if a.contains(item) {
        let i = choose|i: int| 0 <= i < a.len() && a[i] == item;
        assert((a + b)[i] == item);
    }
    if b.contains(item) {
        let i = choose|i: int| 0 <= i < b.len() && b[i] == item;
        assert((a + b)[a.len() + i] == item);
    }
}

proof fn lemma_among(members: Seq<GroupElement>, item: ItemSpec)
    ensures
        place::member_items(members).contains(item) == stands_among(members, item),
    decreases members,
{
    if members.len() > 0 {
        let front = members.drop_last();
        let last = members.last();
        lemma_among(front, item);
        lemma_within(last, item);
        lemma_contains_joined(place::member_items(front), place::child_items(last), item);
        if stands_among(members, item) {
            let i = choose|i: int|
                0 <= i < members.len() && stands_within(#[trigger] members[i], item);
            if i < front.len() {
                assert(front[i] == members[i]);
            }
        }
        if stands_among(front, item) {
            let i = choose|i: int|
                0 <= i < front.len() && stands_within(#[trigger] front[i], item);
            assert(members[i] == front[i]);
        }
        if stands_within(last, item) {
            assert(members[members.len() - 1] == last);
        }
    }
}

proof fn lemma_within(member: GroupElement, item: ItemSpec)
    ensures
        place::child_items(member).contains(item) == stands_within(member, item),
    decreases member,
{
    match member {
        GroupElement::Item(own) => {
            assert(place::child_items(member)[0] == own);
        },
        GroupElement::Group(group) => {
            lemma_among(group.elements@, item);
        },
    }
}

/// A bar has the items that are its elements, and those that stand in its
/// groups, however deep.
pub proof fn bars_hold_items_at_any_depth(elements: Seq<Element>, n: int, item: ItemSpec)
    requires
        0 <= n <= elements.len(),
    ensures
        all_items(elements, n).contains(item) <==> exists|i: int|
            0 <= i < n && stands_at(#[trigger] elements[i], item),
    decreases n,
{
    if n > 0 {
        let last = elements[n - 1];
        bars_hold_items_at_any_depth(elements, n - 1, item);
        lemma_contains_joined(all_items(elements, n - 1), place::element_items(last), item);
        match last {
            Element::Item(own) => {
                assert(place::element_items(last)[0] == own);
            },
            Element::Group(group) => {
                lemma_among(group.elements@, item);
            },
            _ => {},
        }
    }
}

} // verus!
