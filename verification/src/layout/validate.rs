//! Which bars can be laid out at all.
use vstd::prelude::*;

use crate::layout::sizing;
use crate::layout::{
    BarSpec, Element, GroupElement, GroupSpec, ItemId, ItemSpec, LayoutError, MAX_GROUP_DEPTH,
};
use crate::text;
use crate::text::TextSet;

verus! {

/// The identifiers met so far.
#[verifier::ext_equal]
pub struct Seen {
    pub items: Set<Seq<char>>,
    pub groups: Set<Seq<char>>,
}

pub open spec fn nothing_seen() -> Seen {
    Seen { items: Set::empty(), groups: Set::empty() }
}

/// The widths of an item are positive and in order.
pub open spec fn item_sized(item: ItemSpec) -> bool {
    0 < item.min_width <= item.preferred_width <= item.max_width
}

/// An item has a new identifier and sensible widths.
pub open spec fn item_check(item: ItemSpec, seen: Seen) -> Result<Seen, LayoutError> {
    if item.id@.len() == 0 {
        Err(LayoutError::EmptyItemId)
    } else if !item_sized(item) {
        Err(LayoutError::InvalidSizing(item.id))
    } else if seen.items.contains(item.id@) {
        Err(LayoutError::DuplicateItem(item.id))
    } else {
        Ok(Seen { items: seen.items.insert(item.id@), groups: seen.groups })
    }
}

pub open spec fn child_check(element: GroupElement, depth: int, seen: Seen) -> Result<
    Seen,
    LayoutError,
>
    decreases element,
{
    match element {
        GroupElement::Item(item) => item_check(item, seen),
        GroupElement::Group(group) => group_check(group, depth, seen),
    }
}

/// The members of a group, from first to last.
pub open spec fn children_check(elements: Seq<GroupElement>, depth: int, seen: Seen) -> Result<
    Seen,
    LayoutError,
>
    decreases elements,
{
    if elements.len() == 0 {
        Ok(seen)
    } else {
        match children_check(elements.drop_last(), depth, seen) {
            Err(e) => Err(e),
            Ok(next) => child_check(elements.last(), depth, next),
        }
    }
}

/// A group has a new identifier, is not too deep, and has good members whose
/// widths go together.
pub open spec fn group_check(group: GroupSpec, depth: int, seen: Seen) -> Result<Seen, LayoutError>
    decreases group,
{
    if group.id@.len() == 0 {
        Err(LayoutError::EmptyGroupId)
    } else if depth > MAX_GROUP_DEPTH {
        Err(LayoutError::GroupDepthExceeded(group.id))
    } else if seen.groups.contains(group.id@) {
        Err(LayoutError::DuplicateGroup(group.id))
    } else {
        let entered = Seen { items: seen.items, groups: seen.groups.insert(group.id@) };
        match children_check(group.elements@, depth + 1, entered) {
            Err(e) => Err(e),
            Ok(next) => match sizing::group_extent(group) {
                Err(e) => Err(e),
                Ok(_) => Ok(next),
            },
        }
    }
}

pub open spec fn element_check(element: Element, index: int, seen: Seen) -> Result<
    Seen,
    LayoutError,
> {
    match element {
        Element::Item(item) => item_check(item, seen),
        Element::Group(group) => group_check(group, 1, seen),
        Element::FixedSpace { .. } => Ok(seen),
        Element::FlexibleSpace { weight, .. } => if weight == 0 {
            Err(LayoutError::InvalidFlexibleSpace { element: index as usize })
        } else {
            Ok(seen)
        },
    }
}

/// The first `n` elements of a bar.
pub open spec fn elements_check(elements: Seq<Element>, n: int) -> Result<Seen, LayoutError>
    decreases n,
{
    if n <= 0 {
        Ok(nothing_seen())
    } else {
        match elements_check(elements, n - 1) {
            Err(e) => Err(e),
            Ok(seen) => element_check(elements[n - 1], n - 1, seen),
        }
    }
}

/// The first required item, in the order of the identifiers, that is missing.
pub open spec fn first_missing(required: Seq<ItemId>, n: int, seen: Seen) -> Option<ItemId>
    decreases n,
{
    if n <= 0 {
        None
    } else {
        match first_missing(required, n - 1, seen) {
            Some(id) => Some(id),
            None => if seen.items.contains(required[n - 1]@) {
                None
            } else {
                Some(required[n - 1])
            },
        }
    }
}

/// What is wrong with a bar, if anything.
pub open spec fn bar_check(bar: BarSpec, required: Seq<ItemId>) -> Result<Seen, LayoutError> {
    match elements_check(bar.elements@, bar.elements@.len() as int) {
        Err(e) => Err(e),
        Ok(seen) => if bar.principal_item is Some && !seen.items.contains(
            bar.principal_item->Some_0@,
        ) {
            Err(LayoutError::UnknownPrincipal(bar.principal_item->Some_0))
        } else {
            match first_missing(required, required.len() as int, seen) {
                Some(id) => Err(LayoutError::UnknownRequired(id)),
                None => Ok(seen),
            }
        },
    }
}

// ---------------------------------------------------------------------------
// Checking

spec fn met(items: TextSet<ItemId>, groups: TextSet<String>) -> Seen {
    Seen { items: items@.to_set(), groups: groups@.to_set() }
}

proof fn lemma_children_check_prefix(
    elements: Seq<GroupElement>,
    depth: int,
    seen: Seen,
    k: int,
)
    requires
        0 <= k <= elements.len(),
    ensures
        children_check(elements.subrange(0, k), depth, seen) matches Err(e) ==> children_check(
            elements,
            depth,
            seen,
        ) == Err::<Seen, LayoutError>(e),
    decreases elements.len() - k,
{
    if k < elements.len() {
        lemma_children_check_prefix(elements, depth, seen, k + 1);
        assert(elements.subrange(0, k + 1).drop_last() =~= elements.subrange(0, k));
    } else {
        assert(elements.subrange(0, k) =~= elements);
    }
}

proof fn lemma_elements_check_prefix(elements: Seq<Element>, k: int, n: int)
    requires
        0 <= k <= n,
    ensures
        elements_check(elements, k) matches Err(e) ==> elements_check(elements, n) == Err::<
            Seen,
            LayoutError,
        >(e),
    decreases n - k,
{
    if k < n {
        lemma_elements_check_prefix(elements, k, n - 1);
    }
}

fn validate_item(item: &ItemSpec, items: &mut TextSet<ItemId>) -> (result: Result<(), LayoutError>)
    requires
        old(items).wf(),
    ensures
        final(items).wf(),
        forall|groups: Set<Seq<char>>|
            item_check(*item, (Seen { items: old(items)@.to_set(), groups })) == (match result {
                Ok(_) => Ok::<Seen, LayoutError>(
                    (Seen { items: final(items)@.to_set(), groups }),
                ),
                Err(e) => Err(e),
            }),
{
    proof {
        text::lemma_rank(items@, item.id@);
        text::lemma_insert_to_set(items@, text::rank(items@, item.id@) as int, item.id@);
    }
    if item.id.as_str().is_empty() {
        return Err(LayoutError::EmptyItemId);
    }
    if item.min_width == 0 || item.min_width > item.preferred_width || item.preferred_width
        > item.max_width {
        return Err(LayoutError::InvalidSizing(item.id.clone()));
    }
    if !items.insert(item.id.clone()) {
        return Err(LayoutError::DuplicateItem(item.id.clone()));
    }
    Ok(())
}

fn validate_children(
    elements: &Vec<GroupElement>,
    depth: usize,
    items: &mut TextSet<ItemId>,
    groups: &mut TextSet<String>,
) -> (result: Result<(), LayoutError>)
    requires
        depth <= MAX_GROUP_DEPTH + 1,
        sizing::children_weight(elements@) <= u64::MAX,
        old(items).wf(),
        old(groups).wf(),
    ensures
        final(items).wf(),
        final(groups).wf(),
        children_check(elements@, depth as int, met(*old(items), *old(groups))) == (match result {
            Ok(_) => Ok::<Seen, LayoutError>(met(*final(items), *final(groups))),
            Err(e) => Err(e),
        }),
    decreases elements,
{
    let ghost start = met(*items, *groups);
    let mut i: usize = 0;
    while i < elements.len()
        invariant
            i <= elements@.len(),
            depth <= MAX_GROUP_DEPTH + 1,
            sizing::children_weight(elements@) <= u64::MAX,
            items.wf(),
            groups.wf(),
            start == met(*old(items), *old(groups)),
            children_check(elements@.subrange(0, i as int), depth as int, start) == Ok::<
                Seen,
                LayoutError,
            >(met(*items, *groups)),
        decreases elements@.len() - i,
    {
        let ghost after = elements@.subrange(0, i + 1);
        let ghost before = met(*items, *groups);
        proof {
            sizing::lemma_weight_prefix(elements@, i as int);
            assert(after.drop_last() =~= elements@.subrange(0, i as int));
            assert(after.last() == elements@[i as int]);
            lemma_children_check_prefix(elements@, depth as int, start, i + 1);
            assert(children_check(after, depth as int, start) == child_check(
                elements@[i as int],
                depth as int,
                before,
            ));
        }
        match &elements[i] {
            GroupElement::Item(item) => {
                proof {
                    assert(before == (Seen { items: items@.to_set(), groups: groups@.to_set() }));
                }
                validate_item(item, items)?;
            },
            GroupElement::Group(group) => {
                validate_group(group, depth, items, groups)?;
            },
        }
        i = i + 1;
    }
    proof {
        assert(elements@.subrange(0, elements@.len() as int) =~= elements@);
    }
    Ok(())
}

fn validate_group(
    group: &GroupSpec,
    depth: usize,
    items: &mut TextSet<ItemId>,
    groups: &mut TextSet<String>,
) -> (result: Result<(), LayoutError>)
    requires
        depth <= MAX_GROUP_DEPTH + 1,
        sizing::group_weight(*group) <= u64::MAX,
        old(items).wf(),
        old(groups).wf(),
    ensures
        final(items).wf(),
        final(groups).wf(),
        group_check(*group, depth as int, met(*old(items), *old(groups))) == (match result {
            Ok(_) => Ok::<Seen, LayoutError>(met(*final(items), *final(groups))),
            Err(e) => Err(e),
        }),
    decreases group,
{
    if group.id.as_str().is_empty() {
        return Err(LayoutError::EmptyGroupId);
    }
    if depth > MAX_GROUP_DEPTH {
        return Err(LayoutError::GroupDepthExceeded(group.id.clone()));
    }
    proof {
        text::lemma_rank(groups@, group.id@);
        text::lemma_insert_to_set(groups@, text::rank(groups@, group.id@) as int, group.id@);
        let n = group.elements@.len() as int;
        assert(group.spacing * n >= 0) by (nonlinear_arith)
            requires
                group.spacing >= 0,
                n >= 0,
        ;
    }
    if !groups.insert(group.id.clone()) {
        return Err(LayoutError::DuplicateGroup(group.id.clone()));
    }
    validate_children(&group.elements, depth + 1, items, groups)?;
    sizing::group_sizing(group)?;
    Ok(())
}

/// The weights of all elements together bound the weight of each.
pub proof fn lemma_element_weight(elements: Seq<Element>, i: int)
    requires
        0 <= i < elements.len(),
    ensures
        0 <= sizing::element_weight(elements[i]) <= sizing::elements_weight(
            elements,
            elements.len() as int,
        ),
{
    sizing::lemma_elements_weight_part(elements, i, elements.len() as int);
}

/// What is wrong with a bar, if anything.
pub(crate) fn validate(bar: &BarSpec, required_items: &TextSet<ItemId>) -> (result: Result<
    (),
    LayoutError,
>)
    requires
        sizing::elements_weight(bar.elements@, bar.elements@.len() as int) <= u64::MAX,
        required_items.wf(),
    ensures
        match result {
            Ok(_) => bar_check(*bar, required_items.items()) is Ok,
            Err(e) => bar_check(*bar, required_items.items()) == Err::<Seen, LayoutError>(e),
        },
{
    let mut items: TextSet<ItemId> = TextSet::new();
    let mut groups: TextSet<String> = TextSet::new();
    let mut i: usize = 0;
    let ghost elements = bar.elements@;
    proof {
        assert(met(items, groups) =~= nothing_seen());
    }
    while i < bar.elements.len()
        invariant
            elements == bar.elements@,
            i <= elements.len(),
            sizing::elements_weight(elements, elements.len() as int) <= u64::MAX,
            items.wf(),
            groups.wf(),
            elements_check(elements, i as int) == Ok::<Seen, LayoutError>(met(items, groups)),
        decreases elements.len() - i,
    {
        proof {
            lemma_element_weight(elements, i as int);
            lemma_elements_check_prefix(elements, i + 1, elements.len() as int);
            assert(met(items, groups) == (Seen {
                items: items@.to_set(),
                groups: groups@.to_set(),
            }));
        }
        match &bar.elements[i] {
            Element::Item(item) => {
                validate_item(item, &mut items)?;
            },
            Element::Group(group) => {
                validate_group(group, 1, &mut items, &mut groups)?;
            },
            Element::FixedSpace { .. } => {},
            Element::FlexibleSpace { weight, .. } => {
                if *weight == 0 {
                    return Err(LayoutError::InvalidFlexibleSpace { element: i });
                }
            },
        }
        i = i + 1;
    }
    let ghost seen = met(items, groups);
    if let Some(principal) = &bar.principal_item {
        if !items.contains(principal.as_str()) {
            return Err(LayoutError::UnknownPrincipal(principal.clone()));
        }
    }
    let ghost required = required_items.items();
    proof {
        required_items.lemma_items();
    }
    let mut k: usize = 0;
    while k < required_items.len()
        invariant
            required == required_items.items(),
            required.len() == required_items@.len(),
            k <= required.len(),
            items.wf(),
            seen == met(items, groups),
            elements_check(elements, elements.len() as int) == Ok::<Seen, LayoutError>(seen),
            elements == bar.elements@,
            bar.principal_item is Some ==> seen.items.contains(bar.principal_item->Some_0@),
            first_missing(required, k as int, seen) is None,
        decreases required.len() - k,
    {
        let id: &ItemId = required_items.get(k);
        if !items.contains(id.as_str()) {
            proof {
                lemma_first_missing_prefix(required, k + 1, required.len() as int, seen);
            }
            return Err(LayoutError::UnknownRequired(id.clone()));
        }
        k = k + 1;
    }
    Ok(())
}

proof fn lemma_first_missing_prefix(required: Seq<ItemId>, k: int, n: int, seen: Seen)
    requires
        0 <= k <= n,
    ensures
        first_missing(required, k, seen) is Some ==> first_missing(required, n, seen)
            == first_missing(required, k, seen),
    decreases n - k,
{
    if k < n {
        lemma_first_missing_prefix(required, k, n - 1, seen);
    }
}

} // verus!
