//! Which elements of a bar are shown.
use vstd::prelude::*;

use crate::layout::place;
use crate::layout::sizing;
use crate::layout::sizing::{Extent, Sizing};
use crate::layout::sum;
use crate::layout::{Element, ItemId, LayoutError};
use crate::text;
use crate::text::TextSet;

verus! {

/// Items and groups can be hidden; spaces cannot.
pub open spec fn is_content(element: Element) -> bool {
    element is Item || element is Group
}

pub open spec fn priority(element: Element) -> i32 {
    match element {
        Element::Item(item) => item.visibility_priority,
        Element::Group(group) => group.visibility_priority,
        Element::FixedSpace { .. } => 0,
        Element::FlexibleSpace { .. } => 0,
    }
}

/// The unit that an item names, if it names one.
pub open spec fn unit_name(element: Element) -> Option<Seq<char>> {
    match element {
        Element::Item(item) => match item.visibility_group {
            Some(group) => if group@.len() > 0 {
                Some(group@)
            } else {
                None
            },
            None => None,
        },
        _ => None,
    }
}

/// The elements disappear together.
pub open spec fn same_unit(elements: Seq<Element>, i: int, j: int) -> bool {
    i == j || (unit_name(elements[i]) is Some && unit_name(elements[i]) == unit_name(elements[j]))
}

/// An earlier element of the same unit has another priority.
pub open spec fn clashes(elements: Seq<Element>, i: int) -> bool {
    exists|j: int|
        0 <= j < i && #[trigger] same_unit(elements, j, i) && priority(elements[j]) != priority(
            elements[i],
        )
}

/// The first element among the first `n` that clashes with an earlier one.
pub open spec fn first_clash(elements: Seq<Element>, n: int) -> Option<int>
    decreases n,
{
    if n <= 0 {
        None
    } else {
        match first_clash(elements, n - 1) {
            Some(i) => Some(i),
            None => if clashes(elements, n - 1) {
                Some(n - 1)
            } else {
                None
            },
        }
    }
}

/// The last of the first `n` elements that is in the unit of `i`.
pub open spec fn trailing(elements: Seq<Element>, i: int, n: int) -> int
    decreases n,
{
    if n <= 0 {
        i
    } else if same_unit(elements, i, n - 1) {
        n - 1
    } else {
        trailing(elements, i, n - 1)
    }
}

/// The element holds an item that must not disappear.
pub open spec fn holds_required(element: Element, required: Seq<Seq<char>>) -> bool {
    exists|k: int|
        0 <= k < place::element_items(element).len() && required.contains(
            (#[trigger] place::element_items(element)[k]).id@,
        )
}

/// The unit of the element holds an item that must not disappear.
pub open spec fn needed(elements: Seq<Element>, required: Seq<Seq<char>>, i: int) -> bool {
    exists|j: int|
        0 <= j < elements.len() && #[trigger] same_unit(elements, i, j) && holds_required(
            elements[j],
            required,
        )
}

pub open spec fn droppable(elements: Seq<Element>, required: Seq<Seq<char>>, i: int) -> bool {
    is_content(elements[i]) && !needed(elements, required, i)
}

/// The unit of `i` disappears before that of `j`: it has the lower priority,
/// or ends later.
pub open spec fn drops_first(elements: Seq<Element>, i: int, j: int) -> bool {
    let n = elements.len() as int;
    priority(elements[i]) < priority(elements[j]) || (priority(elements[i]) == priority(elements[j])
        && trailing(elements, i, n) > trailing(elements, j, n))
}

/// The least width of what disappears before the unit of `i` does.
pub open spec fn dropped_before(
    elements: Seq<Element>,
    sizes: Seq<Extent>,
    required: Seq<Seq<char>>,
    i: int,
) -> spec_fn(int) -> int {
    |j: int|
        if droppable(elements, required, j) && drops_first(elements, j, i) {
            sizes[j].minimum
        } else {
            0
        }
}

/// The least width of all elements together.
pub open spec fn least_width(sizes: Seq<Extent>) -> int {
    sum::sum(sizing::minimum_of(sizes), 0, sizes.len() as int)
}

/// The element is hidden: it may be, and what disappears before it does not
/// make enough room.
pub open spec fn hidden(
    elements: Seq<Element>,
    sizes: Seq<Extent>,
    required: Seq<Seq<char>>,
    available: int,
    i: int,
) -> bool {
    droppable(elements, required, i) && least_width(sizes) - sum::sum(
        dropped_before(elements, sizes, required, i),
        0,
        elements.len() as int,
    ) > available
}

/// The items and groups that are shown.
pub open spec fn shown(
    elements: Seq<Element>,
    sizes: Seq<Extent>,
    required: Seq<Seq<char>>,
    available: int,
) -> Seq<bool> {
    Seq::new(
        elements.len(),
        |i: int|
            is_content(elements[i]) && !hidden(elements, sizes, required, available, i),
    )
}

/// The least width of an element that is not hidden.
pub open spec fn kept(elements: Seq<Element>, sizes: Seq<Extent>, visible: Seq<bool>) -> spec_fn(
    int,
) -> int {
    |i: int|
        if is_content(elements[i]) && !visible[i] {
            0
        } else {
            sizes[i].minimum
        }
}

/// The least width of what is not hidden.
pub open spec fn kept_width(
    elements: Seq<Element>,
    sizes: Seq<Extent>,
    visible: Seq<bool>,
) -> int {
    sum::sum(kept(elements, sizes, visible), 0, elements.len() as int)
}

// ---------------------------------------------------------------------------
// Facts about units

pub proof fn lemma_same_unit(elements: Seq<Element>)
    ensures
        forall|i: int, j: int|
            #[trigger] same_unit(elements, i, j) ==> same_unit(elements, j, i),
        forall|i: int, j: int, k: int|
            #[trigger] same_unit(elements, i, j) && #[trigger] same_unit(elements, j, k)
                ==> same_unit(elements, i, k),
{
}

proof fn lemma_trailing_same(elements: Seq<Element>, i: int, j: int, n: int)
    requires
        0 <= i < elements.len(),
        0 <= j < elements.len(),
        same_unit(elements, i, j),
        i < n || j < n,
        0 <= n <= elements.len(),
    ensures
        trailing(elements, i, n) == trailing(elements, j, n),
    decreases n,
{
    lemma_same_unit(elements);
    if n > 0 && !same_unit(elements, i, n - 1) {
        assert(!same_unit(elements, j, n - 1)) by {
            if same_unit(elements, j, n - 1) {
                assert(same_unit(elements, i, n - 1));
            }
        }
        assert(i != n - 1 && j != n - 1);
        lemma_trailing_same(elements, i, j, n - 1);
    } else if n > 0 {
        assert(same_unit(elements, j, n - 1)) by {
            assert(same_unit(elements, j, i));
        }
    }
}

proof fn lemma_needed_same(elements: Seq<Element>, required: Seq<Seq<char>>, i: int, j: int)
    requires
        same_unit(elements, i, j),
        needed(elements, required, i),
    ensures
        needed(elements, required, j),
{
    lemma_same_unit(elements);
    let k = choose|k: int|
        0 <= k < elements.len() && #[trigger] same_unit(elements, i, k) && holds_required(
            elements[k],
            required,
        );
    assert(same_unit(elements, j, i));
    assert(same_unit(elements, j, k));
}

pub proof fn lemma_first_clash(elements: Seq<Element>, n: int)
    requires
        0 <= n <= elements.len(),
    ensures
        match first_clash(elements, n) {
            Some(i) => 0 <= i < n && clashes(elements, i),
            None => forall|i: int| 0 <= i < n ==> !#[trigger] clashes(elements, i),
        },
    decreases n,
{
    if n > 0 {
        lemma_first_clash(elements, n - 1);
    }
}

pub proof fn lemma_first_clash_prefix(elements: Seq<Element>, k: int, n: int)
    requires
        0 <= k <= n,
    ensures
        first_clash(elements, k) is Some ==> first_clash(elements, n) == first_clash(elements, k),
    decreases n - k,
{
    if k < n {
        lemma_first_clash_prefix(elements, k, n - 1);
    }
}

/// The elements of a unit are hidden together or shown together.
pub proof fn units_are_atomic(
    elements: Seq<Element>,
    sizes: Seq<Extent>,
    required: Seq<Seq<char>>,
    available: int,
    i: int,
    j: int,
)
    requires
        0 <= i < elements.len(),
        0 <= j < elements.len(),
        same_unit(elements, i, j),
        first_clash(elements, elements.len() as int) is None,
    ensures
        hidden(elements, sizes, required, available, i) == hidden(
            elements,
            sizes,
            required,
            available,
            j,
        ),
{
    if i != j {
        let n = elements.len() as int;
        lemma_first_clash(elements, n);
        lemma_same_unit(elements);
        assert(same_unit(elements, j, i));
        assert(priority(elements[i]) == priority(elements[j])) by {
            assert(!clashes(elements, i));
            assert(!clashes(elements, j));
        }
        lemma_trailing_same(elements, i, j, n);
        if needed(elements, required, i) {
            lemma_needed_same(elements, required, i, j);
        }
        if needed(elements, required, j) {
            lemma_needed_same(elements, required, j, i);
        }
        sum::lemma_sum_same(
            dropped_before(elements, sizes, required, i),
            dropped_before(elements, sizes, required, j),
            0,
            n,
        );
    }
}

// ---------------------------------------------------------------------------
// Facts about widths

/// All least widths are nonnegative.
pub open spec fn nonnegative(sizes: Seq<Extent>) -> bool {
    forall|i: int| 0 <= i < sizes.len() ==> (#[trigger] sizes[i]).minimum >= 0
}

/// Nothing is hidden where everything fits.
pub proof fn nothing_is_hidden_needlessly(
    elements: Seq<Element>,
    sizes: Seq<Extent>,
    required: Seq<Seq<char>>,
    available: int,
    i: int,
)
    requires
        sizes.len() == elements.len(),
        nonnegative(sizes),
        least_width(sizes) <= available,
    ensures
        !hidden(elements, sizes, required, available, i),
{
    sum::lemma_sum_nonnegative(
        dropped_before(elements, sizes, required, i),
        0,
        elements.len() as int,
    );
}

/// The least width of what can never be hidden.
pub open spec fn lasting(
    elements: Seq<Element>,
    sizes: Seq<Extent>,
    required: Seq<Seq<char>>,
) -> spec_fn(int) -> int {
    |i: int|
        if droppable(elements, required, i) {
            0
        } else {
            sizes[i].minimum
        }
}

/// An element of the set that no other one of it drops before.
proof fn lemma_first_to_drop(elements: Seq<Element>, mask: spec_fn(int) -> bool, n: int) -> (first:
    int)
    requires
        0 <= n <= elements.len(),
        exists|i: int| 0 <= i < n && #[trigger] mask(i),
    ensures
        0 <= first < n,
        mask(first),
        forall|j: int| 0 <= j < n && #[trigger] mask(j) ==> !drops_first(elements, j, first),
    decreases n,
{
    if exists|i: int| 0 <= i < n - 1 && #[trigger] mask(i) {
        let f = lemma_first_to_drop(elements, mask, n - 1);
        if mask(n - 1) && drops_first(elements, n - 1, f) {
            assert forall|j: int| 0 <= j < n && #[trigger] mask(j) implies !drops_first(
                elements,
                j,
                n - 1,
            ) by {
                if j < n - 1 {
                    assert(!drops_first(elements, j, f));
                }
            }
            n - 1
        } else {
            f
        }
    } else {
        let i = choose|i: int| 0 <= i < n && #[trigger] mask(i);
        assert(i == n - 1);
        n - 1
    }
}

/// What is not hidden fits exactly where what can never be hidden fits, and
/// where it does not fit nothing else is left.
pub proof fn hiding_makes_room_where_it_can(
    elements: Seq<Element>,
    sizes: Seq<Extent>,
    required: Seq<Seq<char>>,
    available: int,
)
    requires
        sizes.len() == elements.len(),
        nonnegative(sizes),
    ensures
        kept_width(elements, sizes, shown(elements, sizes, required, available)) <= available
            <==> sum::sum(lasting(elements, sizes, required), 0, elements.len() as int)
            <= available,
        sum::sum(lasting(elements, sizes, required), 0, elements.len() as int) > available
            ==> kept_width(elements, sizes, shown(elements, sizes, required, available))
            == sum::sum(lasting(elements, sizes, required), 0, elements.len() as int),
{
    let n = elements.len() as int;
    let visible = shown(elements, sizes, required, available);
    let keep = kept(elements, sizes, visible);
    let last = lasting(elements, sizes, required);
    sum::lemma_sum_at_most(last, keep, 0, n);
    let left = |i: int|
        droppable(elements, required, i) && !hidden(elements, sizes, required, available, i);
    if exists|i: int| 0 <= i < n && #[trigger] left(i) {
        let first = lemma_first_to_drop(elements, left, n);
        // all that drops before it is hidden
        let before = dropped_before(elements, sizes, required, first);
        assert(left(first));
        let whole = sizing::minimum_of(sizes);
        let gone = |i: int| whole(i) - keep(i);
        assert forall|i: int| 0 <= i < n implies #[trigger] before(i) <= gone(i) by {
            if droppable(elements, required, i) && drops_first(elements, i, first) {
                assert(!left(i));
            }
            assert(sizes[i].minimum >= 0);
        }
        sum::lemma_sum_at_most(before, gone, 0, n);
        sum::lemma_sum_plus(keep, gone, whole, 0, n);
    } else {
        assert forall|i: int| 0 <= i < n implies #[trigger] keep(i) == last(i) by {
            assert(!left(i));
        }
        sum::lemma_sum_same(keep, last, 0, n);
    }
}

// ---------------------------------------------------------------------------
// Deciding

fn unit_of(element: &Element) -> (name: Option<&str>)
    ensures
        match name {
            Some(n) => unit_name(*element) == Some(n@),
            None => unit_name(*element) is None,
        },
{
    match element {
        Element::Item(item) => match &item.visibility_group {
            Some(group) => if group.as_str().is_empty() {
                None
            } else {
                Some(group.as_str())
            },
            None => None,
        },
        _ => None,
    }
}

fn in_same_unit(elements: &Vec<Element>, i: usize, j: usize) -> (r: bool)
    requires
        i < elements@.len(),
        j < elements@.len(),
    ensures
        r == same_unit(elements@, i as int, j as int),
{
    if i == j {
        return true;
    }
    match (unit_of(&elements[i]), unit_of(&elements[j])) {
        (Some(a), Some(b)) => text::same(a, b),
        _ => false,
    }
}

fn priority_of(element: &Element) -> (p: i32)
    ensures
        p == priority(*element),
{
    match element {
        Element::Item(item) => item.visibility_priority,
        Element::Group(group) => group.visibility_priority,
        _ => 0,
    }
}

fn element_is_content(element: &Element) -> (r: bool)
    ensures
        r == is_content(*element),
{
    match element {
        Element::Item(_) => true,
        Element::Group(_) => true,
        _ => false,
    }
}

/// The name under which an element clashes.
pub open spec fn clash_error(element: Element) -> LayoutError {
    LayoutError::InconsistentVisibilityGroup(element->Item_0.visibility_group->Some_0)
}

/// Refuses a bar in which a unit has more than one priority.
pub(crate) fn check_units(elements: &Vec<Element>) -> (result: Result<(), LayoutError>)
    ensures
        match first_clash(elements@, elements@.len() as int) {
            Some(i) => result == Err::<(), LayoutError>(clash_error(elements@[i])),
            None => result is Ok,
        },
{
    let ghost n = elements@.len() as int;
    let mut i: usize = 0;
    while i < elements.len()
        invariant
            n == elements@.len(),
            i <= n,
            first_clash(elements@, i as int) is None,
        decreases n - i,
    {
        let mut j: usize = 0;
        while j < i
            invariant
                n == elements@.len(),
                j <= i < n,
                first_clash(elements@, i as int) is None,
                forall|k: int|
                    0 <= k < j && #[trigger] same_unit(elements@, k, i as int) ==> priority(
                        elements@[k],
                    ) == priority(elements@[i as int]),
            decreases i - j,
        {
            if in_same_unit(elements, j, i) && priority_of(&elements[j]) != priority_of(
                &elements[i],
            ) {
                proof {
                    assert(clashes(elements@, i as int));
                    lemma_first_clash_prefix(elements@, i + 1, n);
                    assert(unit_name(elements@[i as int]) is Some);
                }
                match &elements[i] {
                    Element::Item(item) => match &item.visibility_group {
                        Some(group) => {
                            return Err(LayoutError::InconsistentVisibilityGroup(group.clone()));
                        },
                        None => {},
                    },
                    _ => {},
                }
            }
            j = j + 1;
        }
        proof {
            assert(!clashes(elements@, i as int));
        }
        i = i + 1;
    }
    Ok(())
}

fn trailing_of(elements: &Vec<Element>, i: usize) -> (last: usize)
    requires
        i < elements@.len(),
    ensures
        last == trailing(elements@, i as int, elements@.len() as int),
{
    let mut k: usize = elements.len();
    while k > 0
        invariant
            i < elements@.len(),
            k <= elements@.len(),
            trailing(elements@, i as int, elements@.len() as int) == trailing(
                elements@,
                i as int,
                k as int,
            ),
        decreases k,
    {
        if in_same_unit(elements, i, k - 1) {
            return k - 1;
        }
        k = k - 1;
    }
    i
}

fn element_holds_required(element: &Element, required: &TextSet<ItemId>) -> (r: bool)
    requires
        required.wf(),
    ensures
        r == holds_required(*element, required@),
{
    let mut ids: Vec<ItemId> = Vec::new();
    place::collect_item_ids(element, &mut ids);
    let ghost items = place::element_items(*element);
    proof {
        assert(ids@ =~= place::identifiers(items));
    }
    let mut k: usize = 0;
    while k < ids.len()
        invariant
            required.wf(),
            items == place::element_items(*element),
            ids@ == place::identifiers(items),
            k <= ids@.len(),
            forall|m: int| 0 <= m < k ==> !required@.contains((#[trigger] items[m]).id@),
        decreases ids@.len() - k,
    {
        if required.contains(ids[k].as_str()) {
            proof {
                assert(required@.contains(items[k as int].id@));
            }
            return true;
        }
        k = k + 1;
    }
    false
}

fn is_needed(elements: &Vec<Element>, required: &TextSet<ItemId>, i: usize) -> (r: bool)
    requires
        required.wf(),
        i < elements@.len(),
    ensures
        r == needed(elements@, required@, i as int),
{
    let mut j: usize = 0;
    while j < elements.len()
        invariant
            required.wf(),
            i < elements@.len(),
            j <= elements@.len(),
            forall|k: int|
                0 <= k < j ==> !(#[trigger] same_unit(elements@, i as int, k) && holds_required(
                    elements@[k],
                    required@,
                )),
        decreases elements@.len() - j,
    {
        if in_same_unit(elements, i, j) && element_holds_required(&elements[j], required) {
            return true;
        }
        j = j + 1;
    }
    false
}

/// Decides which items and groups are shown.
pub(crate) fn visible_elements(
    elements: &Vec<Element>,
    sizes: &Vec<Sizing>,
    required: &TextSet<ItemId>,
    available: u32,
) -> (visible: Vec<bool>)
    requires
        required.wf(),
        sizes@.len() == elements@.len(),
        least_width(sizing::extents(sizes@)) <= u64::MAX,
    ensures
        visible@ == shown(elements@, sizing::extents(sizes@), required@, available as int),
{
    let ghost all = sizing::extents(sizes@);
    let ghost n = elements@.len() as int;
    let ghost whole = sizing::minimum_of(all);
    let mut droppables: Vec<bool> = Vec::new();
    let mut trailings: Vec<usize> = Vec::new();
    let mut total: u64 = 0;
    let mut i: usize = 0;
    while i < elements.len()
        invariant
            required.wf(),
            n == elements@.len(),
            sizes@.len() == n,
            all == sizing::extents(sizes@),
            whole == sizing::minimum_of(all),
            sum::sum(whole, 0, n) <= u64::MAX,
            i <= n,
            droppables@.len() == i,
            trailings@.len() == i,
            total == sum::sum(whole, 0, i as int),
            forall|k: int|
                0 <= k < i ==> #[trigger] droppables@[k] == droppable(elements@, required@, k),
            forall|k: int| 0 <= k < i ==> #[trigger] trailings@[k] == trailing(elements@, k, n),
        decreases n - i,
    {
        proof {
            sum::lemma_sum_part(whole, 0, 0, i + 1, n);
            assert(all[i as int] == sizes@[i as int]@);
        }
        droppables.push(element_is_content(&elements[i]) && !is_needed(elements, required, i));
        trailings.push(trailing_of(elements, i));
        total = total + sizes[i].minimum;
        i = i + 1;
    }
    let mut visible: Vec<bool> = Vec::new();
    let mut m: usize = 0;
    while m < elements.len()
        invariant
            n == elements@.len(),
            sizes@.len() == n,
            all == sizing::extents(sizes@),
            whole == sizing::minimum_of(all),
            total == least_width(all),
            total == sum::sum(whole, 0, n),
            droppables@.len() == n,
            trailings@.len() == n,
            forall|k: int|
                0 <= k < n ==> #[trigger] droppables@[k] == droppable(elements@, required@, k),
            forall|k: int| 0 <= k < n ==> #[trigger] trailings@[k] == trailing(elements@, k, n),
            m <= n,
            visible@.len() == m,
            forall|k: int|
                0 <= k < m ==> #[trigger] visible@[k] == shown(
                    elements@,
                    all,
                    required@,
                    available as int,
                )[k],
        decreases n - m,
    {
        let ghost before = dropped_before(elements@, all, required@, m as int);
        let mut gone: u64 = 0;
        let mut j: usize = 0;
        proof {
            sum::lemma_sum_at_most(before, whole, 0, n);
        }
        while j < elements.len()
            invariant
                n == elements@.len(),
                sizes@.len() == n,
                all == sizing::extents(sizes@),
                before == dropped_before(elements@, all, required@, m as int),
                sum::sum(before, 0, n) <= total,
                droppables@.len() == n,
                trailings@.len() == n,
                forall|k: int|
                    0 <= k < n ==> #[trigger] droppables@[k] == droppable(elements@, required@, k),
                forall|k: int| 0 <= k < n ==> #[trigger] trailings@[k] == trailing(elements@, k, n),
                m < n,
                j <= n,
                gone == sum::sum(before, 0, j as int),
            decreases n - j,
        {
            proof {
                sum::lemma_sum_part(before, 0, 0, j + 1, n);
                assert(all[j as int] == sizes@[j as int]@);
            }
            let a: i32 = priority_of(&elements[j]);
            let b: i32 = priority_of(&elements[m]);
            if droppables[j] && (a < b || (a == b && trailings[j] > trailings[m])) {
                gone = gone + sizes[j].minimum;
            }
            j = j + 1;
        }
        let content: bool = element_is_content(&elements[m]);
        visible.push(content && !(droppables[m] && total - gone > available as u64));
        m = m + 1;
    }
    proof {
        assert(visible@ =~= shown(elements@, all, required@, available as int));
    }
    visible
}

} // verus!
