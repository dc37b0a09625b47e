//! Where the items of a group stand.
use vstd::prelude::*;

use crate::layout::share;
use crate::layout::sizing;
use crate::layout::sizing::{Extent, Sizing};
use crate::layout::sum;
use crate::layout::validate;
use crate::layout::{Element, GroupElement, GroupSpec, ItemId, ItemSpec, LayoutError, Placement};

verus! {

// ---------------------------------------------------------------------------
// Sound elements

/// All items have sensible widths, and all groups have a width.
pub open spec fn sound_child(element: GroupElement) -> bool
    decreases element,
{
    match element {
        GroupElement::Item(item) => validate::item_sized(item),
        GroupElement::Group(group) => sound_group(group),
    }
}

pub open spec fn sound_group(group: GroupSpec) -> bool
    decreases group,
{
    &&& sizing::group_extent(group) is Ok
    &&& forall|i: int| 0 <= i < group.elements@.len() ==> sound_child(#[trigger] group.elements@[i])
}

pub open spec fn sound_element(element: Element) -> bool {
    match element {
        Element::Item(item) => validate::item_sized(item),
        Element::Group(group) => sound_group(group),
        Element::FixedSpace { .. } => true,
        Element::FlexibleSpace { weight, .. } => weight > 0,
    }
}

proof fn lemma_child_check_sound(element: GroupElement, depth: int, seen: validate::Seen)
    requires
        validate::child_check(element, depth, seen) is Ok,
    ensures
        sound_child(element),
    decreases element,
{
    if let GroupElement::Group(group) = element {
        lemma_group_check_sound(group, depth, seen);
    }
}

proof fn lemma_children_check_sound(
    elements: Seq<GroupElement>,
    depth: int,
    seen: validate::Seen,
    k: int,
)
    requires
        validate::children_check(elements, depth, seen) is Ok,
        0 <= k < elements.len(),
    ensures
        sound_child(elements[k]),
    decreases elements,
{
    let rest = elements.drop_last();
    if k == elements.len() - 1 {
        lemma_child_check_sound(
            elements.last(),
            depth,
            validate::children_check(rest, depth, seen)->Ok_0,
        );
    } else {
        lemma_children_check_sound(rest, depth, seen, k);
    }
}

pub proof fn lemma_group_check_sound(group: GroupSpec, depth: int, seen: validate::Seen)
    requires
        validate::group_check(group, depth, seen) is Ok,
    ensures
        sound_group(group),
    decreases group,
{
    let entered = validate::Seen { items: seen.items, groups: seen.groups.insert(group.id@) };
    assert forall|i: int| 0 <= i < group.elements@.len() implies sound_child(
        #[trigger] group.elements@[i],
    ) by {
        lemma_children_check_sound(group.elements@, depth + 1, entered, i);
    }
}

/// The elements of a bar without a problem are sound.
pub proof fn lemma_elements_check_sound(elements: Seq<Element>, n: int, k: int)
    requires
        validate::elements_check(elements, n) is Ok,
        0 <= k < n,
    ensures
        sound_element(elements[k]),
    decreases n,
{
    if k == n - 1 {
        if let Element::Group(group) = elements[k] {
            lemma_group_check_sound(group, 1, validate::elements_check(elements, n - 1)->Ok_0);
        }
    } else {
        lemma_elements_check_sound(elements, n - 1, k);
    }
}

proof fn lemma_combined_sound(
    layout: crate::layout::GroupLayout,
    spacing: u32,
    sizes: Seq<Extent>,
)
    requires
        share::all_sound(sizes),
    ensures
        sizing::combined(layout, spacing, sizes) matches Some(size) ==> share::sound(size) && (
        size.maximum == 0 ==> sizing::active_count(sizes, sizes.len() as int) == 0)
            && size.minimum >= sizing::gaps(
            spacing,
            sizing::active_count(sizes, sizes.len() as int),
        ) >= 0,
{
    let n = sizes.len() as int;
    let count = sizing::active_count(sizes, n);
    assert forall|i: int| 0 <= i < n implies 0 <= (#[trigger] sizes[i]).minimum
        <= sizes[i].preferred <= sizes[i].maximum by {
        assert(share::sound(sizes[i]));
    }
    sizing::lemma_active_count(sizes, n);
    sizing::lemma_smallest_maximum(sizes, n);
    sizing::lemma_gaps(spacing, count, n);
    sizing::lemma_largest(sizing::minimum_of(sizes), n);
    sum::lemma_sum_at_most(sizing::minimum_of(sizes), sizing::preferred_of(sizes), 0, n);
    sum::lemma_sum_at_most(sizing::preferred_of(sizes), sizing::maximum_of(sizes), 0, n);
    sum::lemma_sum_nonnegative(sizing::minimum_of(sizes), 0, n);
    let low = sizing::largest(sizing::minimum_of(sizes), n);
    let high = sizing::smallest_maximum(sizes, n);
    if count > 0 {
        assert(high * count > 0) by (nonlinear_arith)
            requires
                high > 0,
                count > 0,
        ;
        if low <= high {
            sizing::lemma_products(
                low,
                sum::clamped(sizing::largest(sizing::preferred_of(sizes), n), low, high),
                high,
                count,
            );
        }
    }
}

pub proof fn lemma_sound_child(element: GroupElement)
    requires
        sound_child(element),
    ensures
        sizing::child_extent(element) matches Ok(size) && share::sound(size),
    decreases element,
{
    if let GroupElement::Group(group) = element {
        lemma_sound_group(group);
    }
}

/// The members of a sound group have extents that make sense.
pub proof fn lemma_sound_members(group: GroupSpec)
    requires
        sound_group(group),
    ensures
        sizing::child_extents(group.elements@) matches Ok(sizes) && sizes.len()
            == group.elements@.len() && share::all_sound(sizes),
    decreases group, 0int,
{
    let elements = group.elements@;
    sizing::lemma_child_extents(elements);
    let sizes = sizing::child_extents(elements)->Ok_0;
    assert forall|i: int| 0 <= i < sizes.len() implies share::sound(#[trigger] sizes[i]) by {
        assert(sound_child(elements[i]));
        lemma_sound_child(elements[i]);
    }
}

/// A sound group has an extent that makes sense.
pub proof fn lemma_sound_group(group: GroupSpec)
    requires
        sound_group(group),
    ensures
        sizing::group_extent(group) matches Ok(size) && share::sound(size),
    decreases group, 1int,
{
    lemma_sound_members(group);
    lemma_combined_sound(
        group.layout,
        group.spacing,
        sizing::child_extents(group.elements@)->Ok_0,
    );
}

// ---------------------------------------------------------------------------
// Placing

pub open spec fn child_priority(element: GroupElement) -> i32 {
    match element {
        GroupElement::Item(item) => item.compression_priority,
        GroupElement::Group(group) => group.compression_priority,
    }
}

pub open spec fn child_priorities(elements: Seq<GroupElement>) -> Seq<i32> {
    Seq::new(elements.len(), |i: int| child_priority(elements[i]))
}

/// Where the member `n` stands: after all before it, with a space after each
/// that takes part.
pub open spec fn child_x(
    x: int,
    sizes: Seq<Extent>,
    widths: Seq<int>,
    spacing: u32,
    n: int,
) -> int {
    x + sum::sum(share::at(widths), 0, n) + spacing * sizing::active_count(sizes, n)
}

pub open spec fn item_placement(item: ItemSpec, x: int, width: int) -> Placement {
    Placement { id: item.id, x: x as u32, width: width as u32 }
}

pub open spec fn place_child(element: GroupElement, x: int, width: int) -> Seq<Placement>
    decreases element, 0int,
{
    match element {
        GroupElement::Item(item) => seq![item_placement(item, x, width)],
        GroupElement::Group(group) => place_group(group, x, width),
    }
}

/// The first `n` members, each at its place.
pub open spec fn place_children(
    elements: Seq<GroupElement>,
    sizes: Seq<Extent>,
    widths: Seq<int>,
    spacing: u32,
    x: int,
    n: int,
) -> Seq<Placement>
    decreases elements, n,
    when n <= elements.len()
{
    if n <= 0 {
        Seq::empty()
    } else {
        place_children(elements, sizes, widths, spacing, x, n - 1) + (if sizes[n - 1].maximum > 0 {
            place_child(
                elements[n - 1],
                child_x(x, sizes, widths, spacing, n - 1),
                widths[n - 1],
            )
        } else {
            Seq::empty()
        })
    }
}

/// The widths of the members of a group that is `width` wide.
pub open spec fn group_widths(group: GroupSpec, sizes: Seq<Extent>, width: int) -> Seq<int> {
    share::member_widths(
        group.layout,
        sizes,
        child_priorities(group.elements@),
        width - sizing::gaps(group.spacing, sizing::active_count(sizes, sizes.len() as int)),
    )
}

/// The items of a group that stands at `x` and is `width` wide.
pub open spec fn place_group(group: GroupSpec, x: int, width: int) -> Seq<Placement>
    decreases group, 0int,
{
    match sizing::child_extents(group.elements@) {
        Err(_) => Seq::empty(),
        Ok(sizes) => if sizing::active_count(sizes, sizes.len() as int) == 0 {
            Seq::empty()
        } else {
            place_children(
                group.elements@,
                sizes,
                group_widths(group, sizes, width),
                group.spacing,
                x,
                group.elements@.len() as int,
            )
        },
    }
}

/// The items of an element that stands at `x` and is `width` wide.
pub open spec fn place_element(element: Element, x: int, width: int) -> Seq<Placement> {
    match element {
        Element::Item(item) => seq![item_placement(item, x, width)],
        Element::Group(group) => place_group(group, x, width),
        Element::FixedSpace { .. } => Seq::empty(),
        Element::FlexibleSpace { .. } => Seq::empty(),
    }
}

// ---------------------------------------------------------------------------
// Members stand inside their group

/// The group can be `width` wide.
pub open spec fn suits(size: Extent, width: int) -> bool {
    size.minimum <= width <= size.maximum
}

proof fn lemma_active_monotonic(sizes: Seq<Extent>, i: int, j: int)
    requires
        0 <= i <= j <= sizes.len(),
    ensures
        sizing::active_count(sizes, i) <= sizing::active_count(sizes, j),
    decreases j - i,
{
    if i < j {
        lemma_active_monotonic(sizes, i, j - 1);
    }
}

/// A member that takes part stands inside its group, and is as wide as suits
/// it.
pub proof fn lemma_member_fits(group: GroupSpec, x: int, width: int, i: int)
    requires
        sound_group(group),
        suits(sizing::group_extent(group)->Ok_0, width),
        0 <= i < group.elements@.len(),
        sizing::child_extents(group.elements@)->Ok_0[i].maximum > 0,
    ensures
        ({
            let sizes = sizing::child_extents(group.elements@)->Ok_0;
            let widths = group_widths(group, sizes, width);
            let at = child_x(x, sizes, widths, group.spacing, i);
            &&& sizing::child_extents(group.elements@) is Ok
            &&& sizes.len() == group.elements@.len()
            &&& sizing::active_count(sizes, sizes.len() as int) > 0
            &&& 0 <= sizing::gaps(
                group.spacing,
                sizing::active_count(sizes, sizes.len() as int),
            ) <= width
            &&& widths.len() == sizes.len()
            &&& suits(sizes[i], widths[i])
            &&& sizing::child_extent(group.elements@[i]) == Ok::<Extent, LayoutError>(sizes[i])
            &&& widths[i] >= 0
            &&& x <= at
            &&& at + widths[i] <= x + width
            &&& at + widths[i] <= child_x(x, sizes, widths, group.spacing, i + 1)
        }),
{
    let elements = group.elements@;
    let n = elements.len() as int;
    lemma_sound_members(group);
    sizing::lemma_child_extents(elements);
    let sizes = sizing::child_extents(elements)->Ok_0;
    let count = sizing::active_count(sizes, n);
    let between = sizing::gaps(group.spacing, count);
    let widths = group_widths(group, sizes, width);
    assert forall|k: int| 0 <= k < n implies (#[trigger] sizes[k]).minimum >= 0 by {
        assert(share::sound(sizes[k]));
    }
    sizing::lemma_active_count(sizes, n);
    sizing::lemma_active_count(sizes, i);
    lemma_combined_sound(group.layout, group.spacing, sizes);
    share::lemma_member_widths(
        group.layout,
        group.spacing,
        sizes,
        child_priorities(elements),
        width - between,
    );
    let f = share::at(widths);
    assert forall|k: int| 0 <= k < n implies #[trigger] f(k) >= 0 by {
        assert(sizes[k].minimum <= widths[k]);
    }
    sum::lemma_sum_part(f, 0, 0, i + 1, n);
    sum::lemma_sum_part(f, 0, 0, i, n);
    lemma_active_monotonic(sizes, i + 1, n);
    let a = sizing::active_count(sizes, i);
    let s = group.spacing as int;
    assert(0 <= s * a && s * a <= s * (count - 1) && s * a <= s * (a + 1) && (count == 1 ==> s * (
    count - 1) == 0)) by (nonlinear_arith)
        requires
            0 <= a <= count - 1,
            s >= 0,
    ;
}

fn child_priorities_of(elements: &Vec<GroupElement>) -> (priorities: Vec<i32>)
    ensures
        priorities@ == child_priorities(elements@),
{
    let mut priorities: Vec<i32> = Vec::new();
    let mut i: usize = 0;
    while i < elements.len()
        invariant
            i <= elements@.len(),
            priorities@.len() == i,
            forall|k: int| 0 <= k < i ==> #[trigger] priorities@[k] == child_priority(elements@[k]),
        decreases elements@.len() - i,
    {
        let priority: i32 = match &elements[i] {
            GroupElement::Item(item) => item.compression_priority,
            GroupElement::Group(group) => group.compression_priority,
        };
        priorities.push(priority);
        i = i + 1;
    }
    proof {
        assert(priorities@ =~= child_priorities(elements@));
    }
    priorities
}

pub(crate) fn place_item(item: &ItemSpec, x: u64, width: u64, placements: &mut Vec<Placement>)
    requires
        x <= u32::MAX,
        width <= u32::MAX,
    ensures
        final(placements)@ == old(placements)@ + seq![
            item_placement(*item, x as int, width as int),
        ],
{
    placements.push(Placement { id: item.id.clone(), x: x as u32, width: width as u32 });
    proof {
        assert(placements@ =~= old(placements)@ + seq![
            item_placement(*item, x as int, width as int),
        ]);
    }
}

/// Places the items of a group.
pub(crate) fn layout_group(group: &GroupSpec, x: u64, width: u64, placements: &mut Vec<Placement>)
    requires
        sound_group(*group),
        suits(sizing::group_extent(*group)->Ok_0, width as int),
        sizing::group_weight(*group) <= u64::MAX,
        x + width <= u32::MAX,
    ensures
        final(placements)@ == old(placements)@ + place_group(*group, x as int, width as int),
    decreases group,
{
    let ghost elements = group.elements@;
    let ghost n = elements.len() as int;
    let ghost start = placements@;
    proof {
        assert(group.spacing * n >= 0) by (nonlinear_arith)
            requires
                group.spacing >= 0,
                n >= 0,
        ;
        lemma_sound_members(*group);
    }
    let sizes: Vec<Sizing> = match sizing::group_sizings(&group.elements) {
        Ok(sizes) => sizes,
        Err(_) => {
            return ;
        },
    };
    let ghost all = sizing::extents(sizes@);
    let count: u64 = sizing::count_active(&sizes);
    if count == 0 {
        proof {
            assert(placements@ =~= start + Seq::<Placement>::empty());
        }
        return ;
    }
    proof {
        lemma_combined_sound(group.layout, group.spacing, all);
        sizing::lemma_children_weight(elements);
        sizing::lemma_child_extents(elements);
        assert forall|i: int| 0 <= i < n implies sizing::within(
            #[trigger] all[i],
            sizing::weights(elements)(i),
        ) by {
            sizing::lemma_child_extent_within(elements[i]);
        }
        sizing::lemma_combined_within(group.layout, group.spacing, all, sizing::weights(elements));
        assert(sizing::gaps(group.spacing, count as int) == group.spacing * (count - 1)) by {
            if count == 1 {
                assert(group.spacing * (count - 1) == 0) by (nonlinear_arith)
                    requires
                        count == 1,
                ;
            }
        }
        sum::lemma_sum_same(
            share::at(share::maxima(all)),
            sizing::maximum_of(all),
            0,
            n,
        );
    }
    let between: u64 = (group.spacing as u64) * (count - 1);
    let priorities: Vec<i32> = child_priorities_of(&group.elements);
    let widths: Vec<u64> = share::share_width(group.layout, &sizes, &priorities, width - between);
    let ghost parts = group_widths(*group, all, width as int);
    proof {
        share::lemma_member_widths(
            group.layout,
            group.spacing,
            all,
            child_priorities(elements),
            width - between,
        );
        assert(share::ints(widths@).len() == widths@.len());
    }
    let mut place: u64 = x;
    let mut i: usize = 0;
    while i < group.elements.len()
        invariant
            elements == group.elements@,
            n == elements.len(),
            sound_group(*group),
            suits(sizing::group_extent(*group)->Ok_0, width as int),
            sizing::children_weight(elements) <= u64::MAX,
            x + width <= u32::MAX,
            sizing::child_extents(elements) == Ok::<Seq<Extent>, LayoutError>(all),
            all == sizing::extents(sizes@),
            all.len() == n,
            count == sizing::active_count(all, n),
            count > 0,
            parts == group_widths(*group, all, width as int),
            share::ints(widths@) == parts,
            widths@.len() == n,
            i <= n,
            start == old(placements)@,
            place <= u32::MAX as int * 2,
            // past the last active member the next place can lie beyond the group
            place == child_x(x as int, all, parts, group.spacing, i as int),
            placements@ == start + place_children(
                elements,
                all,
                parts,
                group.spacing,
                x as int,
                i as int,
            ),
        decreases n - i,
    {
        proof {
            sizing::lemma_weight_prefix(elements, i as int);
            assert(all[i as int] == sizes@[i as int]@);
            assert(parts[i as int] == widths@[i as int]);
            assert(sound_child(elements[i as int]));
            let a = sizing::active_count(all, i as int);
            assert(group.spacing * (a + 1) == group.spacing * a + group.spacing)
                by (nonlinear_arith);
        }
        let ghost placed = place_children(
            elements,
            all,
            parts,
            group.spacing,
            x as int,
            i as int,
        );
        if sizes[i].maximum > 0 {
            proof {
                lemma_member_fits(*group, x as int, width as int, i as int);
                sizing::lemma_child_extent_within(elements[i as int]);
            }
            match &group.elements[i] {
                GroupElement::Item(item) => {
                    place_item(item, place, widths[i], placements);
                },
                GroupElement::Group(child) => {
                    layout_group(child, place, widths[i], placements);
                },
            }
            proof {
                assert(placements@ =~= start + (placed + place_child(
                    elements[i as int],
                    place as int,
                    parts[i as int],
                )));
            }
            place = place + widths[i] + group.spacing as u64;
        } else {
            proof {
                lemma_idle_member(*group, width as int, i as int);
                assert(placements@ =~= start + (placed + Seq::<Placement>::empty()));
            }
        }
        i = i + 1;
    }
}

/// A member that takes no part has no width.
proof fn lemma_idle_member(group: GroupSpec, width: int, i: int)
    requires
        sound_group(group),
        suits(sizing::group_extent(group)->Ok_0, width),
        0 <= i < group.elements@.len(),
        sizing::child_extents(group.elements@)->Ok_0[i].maximum <= 0,
        sizing::active_count(
            sizing::child_extents(group.elements@)->Ok_0,
            group.elements@.len() as int,
        ) > 0,
    ensures
        group_widths(group, sizing::child_extents(group.elements@)->Ok_0, width)[i] == 0,
{
    let elements = group.elements@;
    lemma_sound_members(group);
    let sizes = sizing::child_extents(elements)->Ok_0;
    let count = sizing::active_count(sizes, elements.len() as int);
    share::lemma_member_widths(
        group.layout,
        group.spacing,
        sizes,
        child_priorities(elements),
        width - sizing::gaps(group.spacing, count),
    );
    assert(share::sound(sizes[i]));
    assert(sizes[i].minimum <= group_widths(group, sizes, width)[i] <= sizes[i].maximum);
}

// ---------------------------------------------------------------------------
// The items, in order

pub open spec fn child_items(element: GroupElement) -> Seq<ItemSpec>
    decreases element,
{
    match element {
        GroupElement::Item(item) => seq![item],
        GroupElement::Group(group) => member_items(group.elements@),
    }
}

/// The items among the members of a group, at any depth, from first to last.
pub open spec fn member_items(elements: Seq<GroupElement>) -> Seq<ItemSpec>
    decreases elements,
{
    if elements.len() == 0 {
        Seq::empty()
    } else {
        member_items(elements.drop_last()) + child_items(elements.last())
    }
}

/// The items of an element of a bar.
pub open spec fn element_items(element: Element) -> Seq<ItemSpec> {
    match element {
        Element::Item(item) => seq![item],
        Element::Group(group) => member_items(group.elements@),
        Element::FixedSpace { .. } => Seq::empty(),
        Element::FlexibleSpace { .. } => Seq::empty(),
    }
}

/// The identifiers of items.
pub open spec fn identifiers(items: Seq<ItemSpec>) -> Seq<ItemId> {
    Seq::new(items.len(), |i: int| items[i].id)
}

/// The items stand side by side between two edges, each as wide as suits it.
pub open spec fn arranged(
    placements: Seq<Placement>,
    items: Seq<ItemSpec>,
    left: int,
    right: int,
) -> bool {
    &&& placements.len() == items.len()
    &&& forall|i: int|
        0 <= i < placements.len() ==> {
            &&& (#[trigger] placements[i]).id == items[i].id
            &&& items[i].min_width <= placements[i].width <= items[i].max_width
            &&& left <= placements[i].x
            &&& placements[i].x + placements[i].width <= right
        }
    &&& forall|i: int, j: int|
        0 <= i < j < placements.len() ==> (#[trigger] placements[i]).x + placements[i].width <= (
        #[trigger] placements[j]).x
}

pub proof fn lemma_arranged_append(
    a: Seq<Placement>,
    a_items: Seq<ItemSpec>,
    b: Seq<Placement>,
    b_items: Seq<ItemSpec>,
    left: int,
    end: int,
    begin: int,
    right: int,
)
    requires
        arranged(a, a_items, left, end),
        arranged(b, b_items, begin, right),
        left <= begin,
        end <= begin,
        end <= right,
    ensures
        arranged(a + b, a_items + b_items, left, right),
{
    let c = a + b;
    let items = a_items + b_items;
    assert forall|i: int| 0 <= i < c.len() implies {
        &&& (#[trigger] c[i]).id == items[i].id
        &&& items[i].min_width <= c[i].width <= items[i].max_width
        &&& left <= c[i].x
        &&& c[i].x + c[i].width <= right
    } by {
        if i < a.len() {
            assert(c[i] == a[i] && items[i] == a_items[i]);
        } else {
            assert(c[i] == b[i - a.len()] && items[i] == b_items[i - a.len()]);
        }
    }
    assert forall|i: int, j: int| 0 <= i < j < c.len() implies (#[trigger] c[i]).x + c[i].width <= (
    #[trigger] c[j]).x by {
        if i < a.len() {
            assert(c[i] == a[i]);
            if j < a.len() {
                assert(c[j] == a[j]);
            } else {
                assert(c[j] == b[j - a.len()]);
            }
        } else {
            assert(c[i] == b[i - a.len()]);
            assert(c[j] == b[j - a.len()]);
        }
    }
}

/// A sound element that is always empty has no items.
proof fn lemma_idle_items(element: GroupElement)
    requires
        sound_child(element),
        sizing::child_extent(element)->Ok_0.maximum <= 0,
    ensures
        child_items(element) == Seq::<ItemSpec>::empty(),
    decreases element,
{
    if let GroupElement::Group(group) = element {
        let elements = group.elements@;
        lemma_sound_members(group);
        lemma_sound_group(group);
        sizing::lemma_child_extents(elements);
        let sizes = sizing::child_extents(elements)->Ok_0;
        lemma_combined_sound(group.layout, group.spacing, sizes);
        sizing::lemma_active_count(sizes, sizes.len() as int);
        assert forall|i: int| 0 <= i < elements.len() implies child_items(#[trigger] elements[i])
            == Seq::<ItemSpec>::empty() by {
            assert(sound_child(elements[i]));
            assert(sizes[i].maximum <= 0);
            lemma_idle_items(elements[i]);
        }
        lemma_no_items(elements);
    }
}

proof fn lemma_no_items(elements: Seq<GroupElement>)
    requires
        forall|i: int|
            0 <= i < elements.len() ==> child_items(#[trigger] elements[i]) == Seq::<
                ItemSpec,
            >::empty(),
    ensures
        member_items(elements) == Seq::<ItemSpec>::empty(),
    decreases elements.len(),
{
    if elements.len() > 0 {
        let rest = elements.drop_last();
        assert forall|i: int| 0 <= i < rest.len() implies child_items(#[trigger] rest[i]) == Seq::<
            ItemSpec,
        >::empty() by {
            assert(rest[i] == elements[i]);
        }
        lemma_no_items(rest);
        assert(elements.last() == elements[elements.len() - 1]);
        assert(member_items(elements) =~= Seq::<ItemSpec>::empty());
    }
}

proof fn lemma_place_child_arranged(element: GroupElement, x: int, width: int)
    requires
        sound_child(element),
        suits(sizing::child_extent(element)->Ok_0, width),
        0 <= x,
        x + width <= u32::MAX,
    ensures
        arranged(place_child(element, x, width), child_items(element), x, x + width),
    decreases element, 0int,
{
    match element {
        GroupElement::Item(item) => {},
        GroupElement::Group(group) => {
            lemma_place_group_arranged(group, x, width);
        },
    }
}

proof fn lemma_place_children_arranged(group: GroupSpec, x: int, width: int, n: int)
    requires
        sound_group(group),
        suits(sizing::group_extent(group)->Ok_0, width),
        0 <= x,
        x + width <= u32::MAX,
        0 <= n <= group.elements@.len(),
        sizing::active_count(
            sizing::child_extents(group.elements@)->Ok_0,
            group.elements@.len() as int,
        ) > 0,
    ensures
        ({
            let elements = group.elements@;
            let sizes = sizing::child_extents(elements)->Ok_0;
            let widths = group_widths(group, sizes, width);
            let placed = place_children(elements, sizes, widths, group.spacing, x, n);
            let edge = child_x(x, sizes, widths, group.spacing, n);
            &&& x <= edge
            &&& arranged(placed, member_items(elements.subrange(0, n)), x, edge)
            &&& arranged(placed, member_items(elements.subrange(0, n)), x, x + width)
        }),
    decreases group, n,
{
    let elements = group.elements@;
    lemma_sound_members(group);
    sizing::lemma_child_extents(elements);
    let sizes = sizing::child_extents(elements)->Ok_0;
    let widths = group_widths(group, sizes, width);
    if n > 0 {
        let k = n - 1;
        lemma_place_children_arranged(group, x, width, k);
        let before = elements.subrange(0, k);
        let through = elements.subrange(0, n);
        assert(through.drop_last() =~= before);
        assert(through.last() == elements[k]);
        let placed = place_children(elements, sizes, widths, group.spacing, x, k);
        let edge = child_x(x, sizes, widths, group.spacing, k);
        assert(sound_child(elements[k]));
        let a = sizing::active_count(sizes, k);
        assert(group.spacing * (a + 1) == group.spacing * a + group.spacing) by (nonlinear_arith);
        if sizes[k].maximum > 0 {
            lemma_member_fits(group, x, width, k);
            lemma_place_child_arranged(elements[k], edge, widths[k]);
            let more = place_child(elements[k], edge, widths[k]);
            let next = child_x(x, sizes, widths, group.spacing, n);
            assert(arranged(more, child_items(elements[k]), edge, x + width));
            assert(arranged(more, child_items(elements[k]), edge, next));
            lemma_arranged_append(
                placed,
                member_items(before),
                more,
                child_items(elements[k]),
                x,
                edge,
                edge,
                next,
            );
            lemma_arranged_append(
                placed,
                member_items(before),
                more,
                child_items(elements[k]),
                x,
                edge,
                edge,
                x + width,
            );
        } else {
            lemma_idle_member(group, width, k);
            lemma_idle_items(elements[k]);
            assert(placed + Seq::<Placement>::empty() =~= placed);
            assert(member_items(before) + Seq::<ItemSpec>::empty() =~= member_items(before));
        }
    } else {
        assert(elements.subrange(0, 0) =~= Seq::empty());
        assert(group.spacing * 0 == 0) by (nonlinear_arith);
    }
}

/// The items of a group stand side by side inside it, in the order in which
/// they occur, each as wide as suits it.
pub proof fn lemma_place_group_arranged(group: GroupSpec, x: int, width: int)
    requires
        sound_group(group),
        suits(sizing::group_extent(group)->Ok_0, width),
        0 <= x,
        x + width <= u32::MAX,
    ensures
        arranged(place_group(group, x, width), member_items(group.elements@), x, x + width),
    decreases group, group.elements@.len() + 1,
{
    let elements = group.elements@;
    let n = elements.len() as int;
    lemma_sound_members(group);
    sizing::lemma_child_extents(elements);
    let sizes = sizing::child_extents(elements)->Ok_0;
    sizing::lemma_active_count(sizes, n);
    if sizing::active_count(sizes, n) == 0 {
        assert forall|i: int| 0 <= i < n implies child_items(#[trigger] elements[i]) == Seq::<
            ItemSpec,
        >::empty() by {
            assert(sound_child(elements[i]));
            assert(sizes[i].maximum <= 0);
            lemma_idle_items(elements[i]);
        }
        lemma_no_items(elements);
    } else {
        lemma_place_children_arranged(group, x, width, n);
        assert(elements.subrange(0, n) =~= elements);
    }
}

// ---------------------------------------------------------------------------
// Looking for items

pub open spec fn holds(items: Seq<ItemSpec>, id: Seq<char>) -> bool {
    exists|i: int| 0 <= i < items.len() && (#[trigger] items[i]).id@ == id
}

pub proof fn lemma_holds_append(a: Seq<ItemSpec>, b: Seq<ItemSpec>, id: Seq<char>)
    ensures
        holds(a + b, id) <==> holds(a, id) || holds(b, id),
{
    if holds(a, id) {
        let i = choose|i: int| 0 <= i < a.len() && (#[trigger] a[i]).id@ == id;
        assert((a + b)[i].id@ == id);
    }
    if holds(b, id) {
        let i = choose|i: int| 0 <= i < b.len() && (#[trigger] b[i]).id@ == id;
        assert((a + b)[a.len() + i].id@ == id);
    }
    if holds(a + b, id) {
        let i = choose|i: int| 0 <= i < (a + b).len() && (#[trigger] (a + b)[i]).id@ == id;
        if i < a.len() {
            assert(a[i].id@ == id);
        } else {
            assert(b[i - a.len()].id@ == id);
        }
    }
}

proof fn lemma_identifiers_append(a: Seq<ItemSpec>, b: Seq<ItemSpec>)
    ensures
        identifiers(a + b) == identifiers(a) + identifiers(b),
{
    assert(identifiers(a + b) =~= identifiers(a) + identifiers(b));
}

/// Notes down the identifiers of the items among the members of a group.
fn collect_group_item_ids(elements: &Vec<GroupElement>, ids: &mut Vec<ItemId>)
    ensures
        final(ids)@ == old(ids)@ + identifiers(member_items(elements@)),
    decreases elements,
{
    let ghost start = ids@;
    let mut i: usize = 0;
    proof {
        assert(elements@.subrange(0, 0) =~= Seq::empty());
        assert(ids@ =~= start + identifiers(Seq::empty()));
    }
    while i < elements.len()
        invariant
            i <= elements@.len(),
            start == old(ids)@,
            ids@ == start + identifiers(member_items(elements@.subrange(0, i as int))),
        decreases elements@.len() - i,
    {
        let ghost before = member_items(elements@.subrange(0, i as int));
        let ghost through = elements@.subrange(0, i + 1);
        proof {
            assert(through.drop_last() =~= elements@.subrange(0, i as int));
            assert(through.last() == elements@[i as int]);
            lemma_identifiers_append(before, child_items(elements@[i as int]));
        }
        match &elements[i] {
            GroupElement::Item(item) => {
                ids.push(item.id.clone());
                proof {
                    assert(child_items(elements@[i as int]) == seq![*item]);
                    assert(identifiers(seq![*item]) =~= seq![item.id]);
                }
            },
            GroupElement::Group(group) => {
                collect_group_item_ids(&group.elements, ids);
                proof {
                    assert(child_items(elements@[i as int]) == member_items(group.elements@));
                }
            },
        }
        proof {
            assert(ids@ =~= start + (identifiers(before) + identifiers(
                child_items(elements@[i as int]),
            )));
        }
        i = i + 1;
    }
    proof {
        assert(elements@.subrange(0, elements@.len() as int) =~= elements@);
    }
}

/// Notes down the identifiers of the items of an element.
pub(crate) fn collect_item_ids(element: &Element, ids: &mut Vec<ItemId>)
    ensures
        final(ids)@ == old(ids)@ + identifiers(element_items(*element)),
{
    let ghost start = ids@;
    match element {
        Element::Item(item) => {
            ids.push(item.id.clone());
            proof {
                assert(identifiers(seq![*item]) =~= seq![item.id]);
                assert(ids@ =~= start + seq![item.id]);
            }
        },
        Element::Group(group) => collect_group_item_ids(&group.elements, ids),
        _ => {
            proof {
                assert(ids@ =~= start + identifiers(Seq::empty()));
            }
        },
    }
}

// ---------------------------------------------------------------------------
// Moving

/// The same placements, moved to the right.
pub open spec fn moved(from: Seq<Placement>, to: Seq<Placement>, by: int) -> bool {
    from.len() == to.len() && forall|k: int|
        0 <= k < from.len() ==> {
            &&& (#[trigger] to[k]).id == from[k].id
            &&& to[k].width == from[k].width
            &&& to[k].x == from[k].x + by
        }
}

proof fn lemma_moved_append(
    a: Seq<Placement>,
    b: Seq<Placement>,
    c: Seq<Placement>,
    d: Seq<Placement>,
    by: int,
)
    requires
        moved(a, b, by),
        moved(c, d, by),
    ensures
        moved(a + c, b + d, by),
{
    assert forall|k: int| 0 <= k < (a + c).len() implies {
        &&& (#[trigger] (b + d)[k]).id == (a + c)[k].id
        &&& (b + d)[k].width == (a + c)[k].width
        &&& (b + d)[k].x == (a + c)[k].x + by
    } by {
        if k < a.len() {
            assert((b + d)[k] == b[k] && (a + c)[k] == a[k]);
        } else {
            assert((b + d)[k] == d[k - a.len()] && (a + c)[k] == c[k - a.len()]);
        }
    }
}

proof fn lemma_move_child(element: GroupElement, x: int, by: int, width: int)
    requires
        sound_child(element),
        suits(sizing::child_extent(element)->Ok_0, width),
        0 <= x,
        0 <= by,
        x + by + width <= u32::MAX,
        0 <= width,
    ensures
        moved(place_child(element, x, width), place_child(element, x + by, width), by),
    decreases element, 0int,
{
    match element {
        GroupElement::Item(item) => {},
        GroupElement::Group(group) => {
            lemma_move_group(group, x, by, width);
        },
    }
}

proof fn lemma_move_children(group: GroupSpec, x: int, by: int, width: int, n: int)
    requires
        sound_group(group),
        suits(sizing::group_extent(group)->Ok_0, width),
        0 <= x,
        0 <= by,
        x + by + width <= u32::MAX,
        0 <= n <= group.elements@.len(),
    ensures
        ({
            let sizes = sizing::child_extents(group.elements@)->Ok_0;
            let widths = group_widths(group, sizes, width);
            moved(
                place_children(group.elements@, sizes, widths, group.spacing, x, n),
                place_children(group.elements@, sizes, widths, group.spacing, x + by, n),
                by,
            )
        }),
    decreases group, n,
{
    let elements = group.elements@;
    lemma_sound_members(group);
    sizing::lemma_child_extents(elements);
    let sizes = sizing::child_extents(elements)->Ok_0;
    let widths = group_widths(group, sizes, width);
    if n > 0 {
        let k = n - 1;
        lemma_move_children(group, x, by, width, k);
        let a = place_children(elements, sizes, widths, group.spacing, x, k);
        let b = place_children(elements, sizes, widths, group.spacing, x + by, k);
        assert(sound_child(elements[k]));
        if sizes[k].maximum > 0 {
            lemma_member_fits(group, x, width, k);
            lemma_member_fits(group, x + by, width, k);
            let at = child_x(x, sizes, widths, group.spacing, k);
            lemma_move_child(elements[k], at, by, widths[k]);
            assert(child_x(x + by, sizes, widths, group.spacing, k) == at + by);
            lemma_moved_append(
                a,
                b,
                place_child(elements[k], at, widths[k]),
                place_child(elements[k], at + by, widths[k]),
                by,
            );
        } else {
            lemma_moved_append(a, b, Seq::empty(), Seq::empty(), by);
        }
    }
}

/// A group that stands further to the right has all its items as much further
/// to the right.
pub proof fn lemma_move_group(group: GroupSpec, x: int, by: int, width: int)
    requires
        sound_group(group),
        suits(sizing::group_extent(group)->Ok_0, width),
        0 <= x,
        0 <= by,
        x + by + width <= u32::MAX,
    ensures
        moved(place_group(group, x, width), place_group(group, x + by, width), by),
    decreases group, group.elements@.len() + 1,
{
    lemma_sound_members(group);
    lemma_move_children(group, x, by, width, group.elements@.len() as int);
}

} // verus!
