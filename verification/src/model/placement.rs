//! Where everything stands in a composition.
use vstd::prelude::*;

use crate::layout::shape::{ChildShape, ElementShape, GroupShape};
use crate::layout::{ItemId, ItemSpec};
use crate::model::compose;
use crate::model::compose::{Fault, Progress, ProfileComposition, ProfileShape, SlotPlace};
use crate::model::context::ContextSnapshot;
use crate::model::ids::{ContributionId, ProfileId};
use crate::model::profiles;
use crate::model::profiles::{
    ContributionDefinition, ProfileCatalog, ProfileDefinition, ProfileElement, ProfileGroup,
    ProfileGroupElement, SlotDefinition,
};
use crate::model::registry;
use crate::model::registry::{BarElement, BarGroup, BarGroupElement, ItemDefinition, Registry};
use crate::model::select;
use crate::text::TextMap;

verus! {

// ---------------------------------------------------------------------------
// What slots contribute

/// An item with its registered widths.
pub open spec fn registered(items: TextMap<ItemId, ItemDefinition>, id: ItemId) -> ItemSpec {
    items.lookup(id@)->Some_0.layout
}

pub open spec fn part_shape(
    items: TextMap<ItemId, ItemDefinition>,
    element: BarGroupElement,
) -> ChildShape
    decreases element,
{
    match element {
        BarGroupElement::Item(id) => ChildShape::Item(registered(items, id)),
        BarGroupElement::Group(group) => ChildShape::Group(cluster_shape(items, group)),
    }
}

pub open spec fn part_shapes(
    items: TextMap<ItemId, ItemDefinition>,
    elements: Seq<BarGroupElement>,
) -> Seq<ChildShape>
    decreases elements,
{
    if elements.len() == 0 {
        Seq::empty()
    } else {
        part_shapes(items, elements.drop_last()).push(part_shape(items, elements.last()))
    }
}

/// A group of a contribution with the registered widths of its items.
pub open spec fn cluster_shape(
    items: TextMap<ItemId, ItemDefinition>,
    group: BarGroup,
) -> GroupShape
    decreases group,
{
    GroupShape {
        id: group.id@,
        elements: part_shapes(items, group.elements@),
        layout: group.layout,
        spacing: group.spacing,
        visibility_priority: group.visibility_priority,
        compression_priority: group.compression_priority,
    }
}

/// An element of a contribution with the registered widths of its items.
pub open spec fn offer_shape(
    items: TextMap<ItemId, ItemDefinition>,
    element: BarElement,
) -> ElementShape {
    match element {
        BarElement::Item(id) => ElementShape::Item(registered(items, id)),
        BarElement::Group(group) => ElementShape::Group(cluster_shape(items, group)),
        BarElement::FixedSpace { width } => ElementShape::FixedSpace { width },
        BarElement::FlexibleSpace { minimum, weight } => ElementShape::FlexibleSpace {
            minimum,
            weight,
        },
        // no valid contribution holds one
        BarElement::ContextProxy => arbitrary(),
    }
}

/// The first `n` elements of a contribution.
pub open spec fn offer_shapes(
    items: TextMap<ItemId, ItemDefinition>,
    contribution: ContributionDefinition,
    n: nat,
) -> Seq<ElementShape> {
    Seq::new(n, |i: int| offer_shape(items, contribution.elements@[i]))
}

/// The elements of contributions, one contribution after the other.
pub open spec fn contributed(
    items: TextMap<ItemId, ItemDefinition>,
    contributions: Seq<ContributionDefinition>,
) -> Seq<ElementShape>
    decreases contributions.len(),
{
    if contributions.len() == 0 {
        Seq::empty()
    } else {
        contributed(items, contributions.drop_last()) + offer_shapes(
            items,
            contributions.last(),
            contributions.last().elements@.len(),
        )
    }
}

/// What a slot contributes in a context.
pub open spec fn slot_shapes(
    catalog: ProfileCatalog,
    items: TextMap<ItemId, ItemDefinition>,
    slot: SlotDefinition,
    context: ContextSnapshot,
) -> Seq<ElementShape> {
    contributed(items, select::selection(catalog.contribution_map(), slot, context))
}

// ---------------------------------------------------------------------------
// The slots of a profile, from left to right

pub open spec fn member_slots(element: ProfileGroupElement) -> Seq<SlotDefinition>
    decreases element,
{
    match element {
        ProfileGroupElement::Slot(slot) => seq![slot],
        ProfileGroupElement::Group(group) => template_slots(group),
    }
}

pub open spec fn members_slots(elements: Seq<ProfileGroupElement>) -> Seq<SlotDefinition>
    decreases elements,
{
    if elements.len() == 0 {
        Seq::empty()
    } else {
        members_slots(elements.drop_last()) + member_slots(elements.last())
    }
}

pub open spec fn template_slots(group: ProfileGroup) -> Seq<SlotDefinition>
    decreases group,
{
    members_slots(group.elements@)
}

pub open spec fn field_slots(element: ProfileElement) -> Seq<SlotDefinition> {
    match element {
        ProfileElement::Slot(slot) => seq![slot],
        ProfileElement::Group(group) => template_slots(group),
        _ => Seq::empty(),
    }
}

/// The slots among the first `n` elements of a profile.
pub open spec fn fields_slots(elements: Seq<ProfileElement>, n: int) -> Seq<SlotDefinition>
    decreases n,
{
    if n <= 0 {
        Seq::empty()
    } else {
        fields_slots(elements, n - 1) + field_slots(elements[n - 1])
    }
}

// ---------------------------------------------------------------------------
// Following a path

/// A member of a group as an element of a bar.
pub open spec fn as_element(child: ChildShape) -> ElementShape {
    match child {
        ChildShape::Item(item) => ElementShape::Item(item),
        ChildShape::Group(group) => ElementShape::Group(group),
    }
}

pub open spec fn as_elements(children: Seq<ChildShape>) -> Seq<ElementShape> {
    Seq::new(children.len(), |i: int| as_element(children[i]))
}

/// The members in a range of the group that a path leads to.
pub open spec fn reached_in(
    members: Seq<ChildShape>,
    path: Seq<usize>,
    start: int,
    end: int,
) -> Option<Seq<ElementShape>>
    decreases path.len(),
{
    if path.len() == 0 {
        if 0 <= start <= end <= members.len() {
            Some(as_elements(members.subrange(start, end)))
        } else {
            None
        }
    } else if path[0] < members.len() && members[path[0] as int] is Group {
        reached_in(members[path[0] as int]->Group_0.elements, path.drop_first(), start, end)
    } else {
        None
    }
}

/// The elements in the range of a place, in the container that its path leads
/// to.
pub open spec fn reached(elements: Seq<ElementShape>, place: SlotPlace) -> Option<
    Seq<ElementShape>,
> {
    if place.path.len() == 0 {
        if 0 <= place.start <= place.end <= elements.len() {
            Some(elements.subrange(place.start, place.end))
        } else {
            None
        }
    } else if place.path[0] < elements.len() && elements[place.path[0] as int] is Group {
        reached_in(
            elements[place.path[0] as int]->Group_0.elements,
            place.path.drop_first(),
            place.start,
            place.end,
        )
    } else {
        None
    }
}

// ---------------------------------------------------------------------------
// Slots lead to what they contribute

proof fn lemma_part(
    items: TextMap<ItemId, ItemDefinition>,
    contribution: ContributionId,
    element: BarGroupElement,
    so_far: Progress,
)
    ensures
        compose::add_part(items, contribution, element, so_far) matches Ok((part, next)) ==> part
            == part_shape(items, element) && next.slots == so_far.slots,
    decreases element,
{
    if let BarGroupElement::Group(group) = element {
        lemma_cluster(items, contribution, group, so_far);
    }
}

proof fn lemma_parts(
    items: TextMap<ItemId, ItemDefinition>,
    contribution: ContributionId,
    elements: Seq<BarGroupElement>,
    so_far: Progress,
)
    ensures
        compose::add_parts(items, contribution, elements, so_far) matches Ok((parts, next))
            ==> parts == part_shapes(items, elements) && next.slots == so_far.slots,
    decreases elements,
{
    if elements.len() > 0 {
        let rest = elements.drop_last();
        lemma_parts(items, contribution, rest, so_far);
        if let Ok((parts, next)) = compose::add_parts(items, contribution, rest, so_far) {
            lemma_part(items, contribution, elements.last(), next);
        }
    }
}

proof fn lemma_cluster(
    items: TextMap<ItemId, ItemDefinition>,
    contribution: ContributionId,
    group: BarGroup,
    so_far: Progress,
)
    ensures
        compose::add_cluster(items, contribution, group, so_far) matches Ok((cluster, next))
            ==> cluster == cluster_shape(items, group) && next.slots == so_far.slots,
    decreases group,
{
    if let Ok(entered) = compose::add_group(group.id@, so_far) {
        lemma_parts(items, contribution, group.elements@, entered);
    }
}

proof fn lemma_offers(
    items: TextMap<ItemId, ItemDefinition>,
    contribution: ContributionDefinition,
    n: nat,
    before: Seq<ElementShape>,
    so_far: Progress,
)
    ensures
        compose::add_offers(items, contribution, n as int, before, so_far) matches Ok(
            (elements, next),
        ) ==> elements == before + offer_shapes(items, contribution, n) && next.slots
            == so_far.slots,
    decreases n,
{
    if n == 0 {
        assert(before + offer_shapes(items, contribution, 0) =~= before);
    } else {
        let m = (n - 1) as nat;
        let element = contribution.elements@[n - 1];
        lemma_offers(items, contribution, m, before, so_far);
        if let Ok((elements, next)) = compose::add_offers(
            items,
            contribution,
            n - 1,
            before,
            so_far,
        ) {
            if let BarElement::Group(group) = element {
                lemma_cluster(items, contribution.id, group, next);
            }
            assert(before + offer_shapes(items, contribution, n) =~= (before + offer_shapes(
                items,
                contribution,
                m,
            )).push(offer_shape(items, element)));
        }
    }
}

proof fn lemma_contributions(
    items: TextMap<ItemId, ItemDefinition>,
    contributions: Seq<ContributionDefinition>,
    n: int,
    so_far: Progress,
)
    requires
        0 <= n <= contributions.len(),
    ensures
        compose::add_contributions(items, contributions, n, so_far) matches Ok((elements, next))
            ==> elements == contributed(items, contributions.take(n)) && next.slots
            == so_far.slots,
    decreases n,
{
    if n > 0 {
        lemma_contributions(items, contributions, n - 1, so_far);
        assert(contributions.take(n).drop_last() =~= contributions.take(n - 1));
        if let Ok((elements, next)) = compose::add_contributions(
            items,
            contributions,
            n - 1,
            so_far,
        ) {
            let c = contributions[n - 1];
            lemma_offers(
                items,
                c,
                c.elements@.len(),
                elements,
                Progress { contributions: next.contributions.push(c.id), ..next },
            );
        }
    }
}

proof fn lemma_slot(
    catalog: ProfileCatalog,
    items: TextMap<ItemId, ItemDefinition>,
    slot: SlotDefinition,
    context: ContextSnapshot,
    so_far: Progress,
)
    ensures
        compose::add_slot(catalog, items, slot, context, so_far) matches Ok((elements, next))
            ==> elements == slot_shapes(catalog, items, slot, context) && next.slots
            == so_far.slots,
{
    let shown = select::selection(catalog.contribution_map(), slot, context);
    lemma_contributions(items, shown, shown.len() as int, so_far);
    assert(shown.take(shown.len() as int) =~= shown);
}

/// Places below a path lead to what the slots contribute.
spec fn leads(
    catalog: ProfileCatalog,
    items: TextMap<ItemId, ItemDefinition>,
    context: ContextSnapshot,
    members: Seq<ChildShape>,
    path: Seq<usize>,
    place: SlotPlace,
    slot: SlotDefinition,
) -> bool {
    &&& place.id == slot.id
    &&& path.is_prefix_of(place.path)
    &&& reached_in(members, place.path.skip(path.len() as int), place.start, place.end) == Some(
        slot_shapes(catalog, items, slot, context),
    )
}

/// What is added to the places is one for each slot, and all of them lead to
/// what the slots contribute.
spec fn all_lead(
    catalog: ProfileCatalog,
    items: TextMap<ItemId, ItemDefinition>,
    context: ContextSnapshot,
    members: Seq<ChildShape>,
    path: Seq<usize>,
    before: Seq<SlotPlace>,
    after: Seq<SlotPlace>,
    slots: Seq<SlotDefinition>,
) -> bool {
    &&& after.len() == before.len() + slots.len()
    &&& before == after.take(before.len() as int)
    &&& forall|k: int|
        #![trigger slots[k]]
        0 <= k < slots.len() ==> leads(
            catalog,
            items,
            context,
            members,
            path,
            after[before.len() + k],
            slots[k],
        )
}

proof fn lemma_solid(elements: Seq<ElementShape>)
    requires
        compose::solid(elements),
    ensures
        as_elements(compose::as_children(elements)) == elements,
{
    assert forall|i: int| 0 <= i < elements.len() implies as_element(
        compose::as_child(elements[i]),
    ) == elements[i] by {
        assert(elements[i] is Item || elements[i] is Group);
    }
    assert(as_elements(compose::as_children(elements)) =~= elements);
}

proof fn lemma_member(
    catalog: ProfileCatalog,
    items: TextMap<ItemId, ItemDefinition>,
    profile: ProfileId,
    element: ProfileGroupElement,
    context: ContextSnapshot,
    path: Seq<usize>,
    so_far: Progress,
)
    requires
        compose::spaceless_member(catalog.contribution_map(), element),
    ensures
        compose::add_member(
            catalog,
            items,
            profile,
            element,
            context,
            path,
            so_far,
        ) matches Ok((child, next)) ==> child is Group && all_lead(
            catalog,
            items,
            context,
            child->Group_0.elements,
            path,
            so_far.slots,
            next.slots,
            member_slots(element),
        ),
    decreases element,
{
    match element {
        ProfileGroupElement::Slot(slot) => {
            lemma_slot(catalog, items, slot, context, so_far);
            compose::lemma_slot_solid(catalog, items, slot, context, so_far);
            if let Ok((child, next)) = compose::add_member(
                catalog,
                items,
                profile,
                element,
                context,
                path,
                so_far,
            ) {
                let elements = slot_shapes(catalog, items, slot, context);
                lemma_solid(elements);
                let children = compose::as_children(elements);
                let place = next.slots.last();
                assert(place.path.skip(path.len() as int) =~= Seq::empty());
                assert(children.subrange(0, elements.len() as int) =~= children);
                assert(next.slots.take(so_far.slots.len() as int) =~= so_far.slots);
                assert(leads(catalog, items, context, children, path, place, slot));
            }
        },
        ProfileGroupElement::Group(group) => {
            lemma_template(catalog, items, profile, group, context, path, so_far);
        },
    }
}

proof fn lemma_members(
    catalog: ProfileCatalog,
    items: TextMap<ItemId, ItemDefinition>,
    profile: ProfileId,
    elements: Seq<ProfileGroupElement>,
    context: ContextSnapshot,
    path: Seq<usize>,
    so_far: Progress,
)
    requires
        elements.len() <= usize::MAX,
        forall|i: int|
            0 <= i < elements.len() ==> compose::spaceless_member(
                catalog.contribution_map(),
                #[trigger] elements[i],
            ),
    ensures
        compose::add_members(
            catalog,
            items,
            profile,
            elements,
            context,
            path,
            so_far,
        ) matches Ok((members, next)) ==> members.len() == elements.len() && all_lead(
            catalog,
            items,
            context,
            members,
            path,
            so_far.slots,
            next.slots,
            members_slots(elements),
        ),
        compose::add_members(
            catalog,
            items,
            profile,
            elements,
            context,
            path,
            so_far,
        ) matches Ok((members, next)) ==> forall|k: int|
            so_far.slots.len() <= k < next.slots.len() ==> (#[trigger] next.slots[k]).path.len()
                > path.len(),
    decreases elements,
{
    if elements.len() == 0 {
        assert(so_far.slots.take(so_far.slots.len() as int) =~= so_far.slots);
    } else {
        let rest = elements.drop_last();
        let last = elements.last();
        let at = (elements.len() - 1) as usize;
        assert(elements[elements.len() - 1] == last);
        assert forall|i: int| 0 <= i < rest.len() implies compose::spaceless_member(
            catalog.contribution_map(),
            #[trigger] rest[i],
        ) by {
            assert(rest[i] == elements[i]);
        }
        lemma_members(catalog, items, profile, rest, context, path, so_far);
        if let Ok((members, next)) = compose::add_members(
            catalog,
            items,
            profile,
            rest,
            context,
            path,
            so_far,
        ) {
            lemma_member(catalog, items, profile, last, context, path.push(at), next);
            if let Ok((member, after)) = compose::add_member(
                catalog,
                items,
                profile,
                last,
                context,
                path.push(at),
                next,
            ) {
                let all = members.push(member);
                let slots = members_slots(elements);
                let earlier = members_slots(rest);
                let added = member_slots(last);
                let base = so_far.slots.len() as int;
                assert(so_far.slots =~= after.slots.take(base));
                assert forall|k: int|
                    #![trigger slots[k]]
                    0 <= k < slots.len() implies leads(
                    catalog,
                    items,
                    context,
                    all,
                    path,
                    after.slots[base + k],
                    slots[k],
                ) by {
                    let place = after.slots[base + k];
                    if k < earlier.len() {
                        assert(slots[k] == earlier[k]);
                        assert(after.slots.take(next.slots.len() as int)[base + k]
                            == next.slots[base + k]);
                        let below = place.path.skip(path.len() as int);
                        assert(below.len() > 0);
                        assert(all[below[0] as int] == members[below[0] as int]);
                    } else {
                        let j = k - earlier.len();
                        assert(slots[k] == added[j]);
                        assert(after.slots[next.slots.len() + j] == place);
                        let below = place.path.skip(path.len() as int);
                        assert(place.path.take(path.len() as int + 1) =~= path.push(at)) by {
                            assert(path.push(at).is_prefix_of(place.path));
                        }
                        assert(place.path[path.len() as int] == at) by {
                            assert(path.push(at)[path.len() as int] == at);
                        }
                        assert(path =~= place.path.take(path.len() as int)) by {
                            assert(forall|i: int|
                                0 <= i < path.len() ==> path.push(at)[i] == path[i]);
                        }
                        assert(below[0] == at);
                        assert(below.drop_first() =~= place.path.skip(path.len() as int + 1));
                        assert(all[at as int] == member);
                    }
                }
                assert forall|k: int| so_far.slots.len() <= k < after.slots.len() implies (
                #[trigger] after.slots[k]).path.len() > path.len() by {
                    if k < next.slots.len() {
                        assert(after.slots.take(next.slots.len() as int)[k] == next.slots[k]);
                    } else {
                        let j = k - next.slots.len();
                        assert(leads(
                            catalog,
                            items,
                            context,
                            member->Group_0.elements,
                            path.push(at),
                            after.slots[next.slots.len() + j],
                            added[j],
                        ));
                    }
                }
            }
        }
    }
}

proof fn lemma_template(
    catalog: ProfileCatalog,
    items: TextMap<ItemId, ItemDefinition>,
    profile: ProfileId,
    group: ProfileGroup,
    context: ContextSnapshot,
    path: Seq<usize>,
    so_far: Progress,
)
    requires
        compose::spaceless_group(catalog.contribution_map(), group),
    ensures
        compose::add_template(
            catalog,
            items,
            profile,
            group,
            context,
            path,
            so_far,
        ) matches Ok((shape, next)) ==> all_lead(
            catalog,
            items,
            context,
            shape.elements,
            path,
            so_far.slots,
            next.slots,
            template_slots(group),
        ),
    decreases group,
{
    assert(group.elements@.len() == group.elements.len());
    if let Ok(entered) = compose::add_group(group.id@, so_far) {
        lemma_members(catalog, items, profile, group.elements@, context, path, entered);
    }
}

/// What stands at a place stays there when more is added.
proof fn lemma_reached_grows(
    elements: Seq<ElementShape>,
    more: Seq<ElementShape>,
    place: SlotPlace,
)
    requires
        reached(elements, place) is Some,
    ensures
        reached(elements + more, place) == reached(elements, place),
{
    if place.path.len() == 0 {
        assert((elements + more).subrange(place.start, place.end) =~= elements.subrange(
            place.start,
            place.end,
        ));
    } else {
        assert((elements + more)[place.path[0] as int] == elements[place.path[0] as int]);
    }
}

/// The places are one for each slot, and all of them lead to what the slots
/// contribute.
pub open spec fn slots_lead_home(
    catalog: ProfileCatalog,
    items: TextMap<ItemId, ItemDefinition>,
    context: ContextSnapshot,
    elements: Seq<ElementShape>,
    places: Seq<SlotPlace>,
    slots: Seq<SlotDefinition>,
) -> bool {
    &&& places.len() == slots.len()
    &&& forall|k: int|
        #![trigger places[k]]
        0 <= k < places.len() ==> places[k].id == slots[k].id && reached(elements, places[k])
            == Some(slot_shapes(catalog, items, slots[k], context))
}

proof fn lemma_fields(
    catalog: ProfileCatalog,
    items: TextMap<ItemId, ItemDefinition>,
    profile: ProfileDefinition,
    context: ContextSnapshot,
    n: int,
)
    requires
        0 <= n <= profile.elements@.len(),
        forall|i: int|
            0 <= i < n ==> compose::spaceless_field(
                catalog.contribution_map(),
                #[trigger] profile.elements@[i],
            ),
    ensures
        compose::add_fields(catalog, items, profile, context, n) matches Ok((elements, progress))
            ==> elements.len() <= usize::MAX ==> slots_lead_home(
            catalog,
            items,
            context,
            elements,
            progress.slots,
            fields_slots(profile.elements@, n),
        ),
    decreases n,
{
    if n > 0 {
        lemma_fields(catalog, items, profile, context, n - 1);
        if let Ok((before, so_far)) = compose::add_fields(catalog, items, profile, context, n - 1) {
            let element = profile.elements@[n - 1];
            let path = seq![before.len() as usize];
            match element {
                ProfileElement::Slot(slot) => {
                    lemma_slot(catalog, items, slot, context, so_far);
                },
                ProfileElement::Group(group) => {
                    lemma_template(catalog, items, profile.id, group, context, path, so_far);
                },
                _ => {},
            }
            if let Ok((after, progress)) = compose::add_fields(
                catalog,
                items,
                profile,
                context,
                n,
            ) {
                if after.len() <= usize::MAX {
                    let more = after.skip(before.len() as int);
                    assert(after =~= before + more);
                    let slots = fields_slots(profile.elements@, n);
                    let earlier = fields_slots(profile.elements@, n - 1);
                    let added = field_slots(element);
                    assert forall|k: int|
                        #![trigger progress.slots[k]]
                        0 <= k < progress.slots.len() implies progress.slots[k].id == slots[k].id
                        && reached(after, progress.slots[k]) == Some(
                        slot_shapes(catalog, items, slots[k], context),
                    ) by {
                        let place = progress.slots[k];
                        if k < so_far.slots.len() {
                            assert(place == so_far.slots[k]) by {
                                if element is Group {
                                    assert(progress.slots.take(so_far.slots.len() as int)[k]
                                        == progress.slots[k]);
                                }
                            }
                            assert(slots[k] == earlier[k]);
                            lemma_reached_grows(before, more, place);
                        } else {
                            let j = k - so_far.slots.len();
                            assert(slots[k] == added[j]);
                            if element is Slot {
                                assert(after.subrange(place.start, place.end)
                                    =~= slot_shapes(catalog, items, slots[k], context));
                            } else {
                                assert(progress.slots[so_far.slots.len() + j] == place);
                                assert(path.is_prefix_of(place.path));
                                assert(place.path[0] == path[0]);
                                assert(place.path.drop_first() =~= place.path.skip(
                                    path.len() as int,
                                ));
                                assert(after[before.len() as int] is Group);
                            }
                        }
                    }
                }
            }
        }
    }
}

/// Every slot of the profile has its place in a composition, from left to right,
/// and the path and the range of the place lead to exactly what the slot
/// contributes.
pub proof fn places_hold_what_slots_contribute(
    catalog: ProfileCatalog,
    registry: Registry,
    profile_id: ProfileId,
    context: ContextSnapshot,
    composition: ProfileComposition,
)
    requires
        catalog.wf(),
        compose::composed(catalog, registry, profile_id, context) == Ok::<ProfileShape, Fault>(
            composition@,
        ),
    ensures
        ({
            let profile = catalog.profile_map().lookup(profile_id@)->Some_0;
            slots_lead_home(
                catalog,
                registry.item_map(),
                context,
                composition@.elements,
                composition@.slots,
                fields_slots(profile.elements@, profile.elements@.len() as int),
            )
        }),
{
    let profile = catalog.profile_map().lookup(profile_id@)->Some_0;
    let n = profile.elements@.len() as int;
    lemma_valid_fields(catalog, registry, profile_id@);
    lemma_fields(catalog, registry.item_map(), profile, context, n);
    assert(composition.bar.elements@.len() == composition.bar.elements.len());
}

// ---------------------------------------------------------------------------
// Nothing occurs twice

/// What may occur once in a composition.
pub enum Named {
    Item(Seq<char>),
    Group(Seq<char>),
}

/// The names in a member of a group, at any depth.
pub open spec fn child_names(child: ChildShape) -> Seq<Named>
    decreases child,
{
    match child {
        ChildShape::Item(item) => seq![Named::Item(item.id@)],
        ChildShape::Group(group) => group_names(group),
    }
}

pub open spec fn children_names(children: Seq<ChildShape>) -> Seq<Named>
    decreases children,
{
    if children.len() == 0 {
        Seq::empty()
    } else {
        children_names(children.drop_last()) + child_names(children.last())
    }
}

/// The name of a group and those in it.
pub open spec fn group_names(group: GroupShape) -> Seq<Named>
    decreases group,
{
    seq![Named::Group(group.id)] + children_names(group.elements)
}

pub open spec fn element_names(element: ElementShape) -> Seq<Named> {
    match element {
        ElementShape::Item(item) => seq![Named::Item(item.id@)],
        ElementShape::Group(group) => group_names(group),
        _ => Seq::empty(),
    }
}

/// The names of all items and groups, at any depth.
pub open spec fn names_in(elements: Seq<ElementShape>) -> Seq<Named>
    decreases elements.len(),
{
    if elements.len() == 0 {
        Seq::empty()
    } else {
        names_in(elements.drop_last()) + element_names(elements.last())
    }
}

/// The name is taken.
spec fn taken(progress: Progress, name: Named) -> bool {
    match name {
        Named::Item(id) => progress.items.contains(id),
        Named::Group(id) => progress.groups.contains(id),
    }
}

/// The names are different, were free, and are taken now.
spec fn newly_taken(names: Seq<Named>, before: Progress, after: Progress) -> bool {
    &&& names.no_duplicates()
    &&& forall|name: Named| #[trigger] names.contains(name) ==> !taken(before, name)
    &&& forall|name: Named| #[trigger]
        taken(after, name) <==> (taken(before, name) || names.contains(name))
}

proof fn lemma_nothing_taken(progress: Progress)
    ensures
        newly_taken(Seq::empty(), progress, progress),
{
}

proof fn lemma_one_taken(name: Named, before: Progress, after: Progress)
    requires
        !taken(before, name),
        forall|other: Named| #[trigger]
            taken(after, other) <==> (taken(before, other) || other == name),
    ensures
        newly_taken(seq![name], before, after),
{
    let names = seq![name];
    assert(names[0] == name);
    assert forall|other: Named| #[trigger] names.contains(other) <==> other == name by {
    }
}

/// Names that are taken one after the other are taken together, in either
/// order.
proof fn lemma_taken_together(
    first: Seq<Named>,
    second: Seq<Named>,
    before: Progress,
    between: Progress,
    after: Progress,
)
    requires
        newly_taken(first, before, between),
        newly_taken(second, between, after),
    ensures
        newly_taken(first + second, before, after),
        newly_taken(second + first, before, after),
{
    assert forall|name: Named| #[trigger] (first + second).contains(name) <==> (first.contains(name)
        || second.contains(name)) by {
        vstd::seq_lib::lemma_seq_concat_contains_all_elements(first, second, name);
    }
    assert forall|name: Named| #[trigger] (second + first).contains(name) <==> (first.contains(name)
        || second.contains(name)) by {
        vstd::seq_lib::lemma_seq_concat_contains_all_elements(second, first, name);
    }
    assert forall|i: int, j: int| 0 <= i < first.len() && 0 <= j < second.len() implies first[i]
        != second[j] by {
        assert(first.contains(first[i]));
        assert(second.contains(second[j]));
        assert(taken(between, first[i]));
    }
    let both = first + second;
    assert forall|i: int, j: int|
        0 <= i < both.len() && 0 <= j < both.len() && i != j implies both[i] != both[j] by {
        if i >= first.len() && j < first.len() {
            assert(first[j] != second[i - first.len()]);
        }
    }
    let turned = second + first;
    assert forall|i: int, j: int|
        0 <= i < turned.len() && 0 <= j < turned.len() && i != j implies turned[i] != turned[j] by {
        if i >= second.len() && j < second.len() {
            assert(first[i - second.len()] != second[j]);
        } else if i < second.len() && j >= second.len() {
            assert(first[j - second.len()] != second[i]);
        }
    }
}

proof fn lemma_item_taken(
    items: TextMap<ItemId, ItemDefinition>,
    contribution: ContributionId,
    id: ItemId,
    so_far: Progress,
)
    requires
        registry::named_items(items),
    ensures
        compose::add_item(items, contribution, id, so_far) matches Ok((item, next)) ==> newly_taken(
            seq![Named::Item(item.id@)],
            so_far,
            next,
        ),
{
    if let Ok((item, next)) = compose::add_item(items, contribution, id, so_far) {
        assert(items.lookup(id@)->Some_0.layout.id@ == id@);
        lemma_one_taken(Named::Item(id@), so_far, next);
    }
}

proof fn lemma_group_taken(id: Seq<char>, so_far: Progress)
    ensures
        compose::add_group(id, so_far) matches Ok(next) ==> newly_taken(
            seq![Named::Group(id)],
            so_far,
            next,
        ),
{
    if let Ok(next) = compose::add_group(id, so_far) {
        lemma_one_taken(Named::Group(id), so_far, next);
    }
}

proof fn lemma_part_taken(
    items: TextMap<ItemId, ItemDefinition>,
    contribution: ContributionId,
    element: BarGroupElement,
    so_far: Progress,
)
    requires
        registry::named_items(items),
    ensures
        compose::add_part(items, contribution, element, so_far) matches Ok((part, next))
            ==> newly_taken(child_names(part), so_far, next),
    decreases element,
{
    match element {
        BarGroupElement::Item(id) => {
            lemma_item_taken(items, contribution, id, so_far);
        },
        BarGroupElement::Group(group) => {
            lemma_cluster_taken(items, contribution, group, so_far);
        },
    }
}

proof fn lemma_parts_taken(
    items: TextMap<ItemId, ItemDefinition>,
    contribution: ContributionId,
    elements: Seq<BarGroupElement>,
    so_far: Progress,
)
    requires
        registry::named_items(items),
    ensures
        compose::add_parts(items, contribution, elements, so_far) matches Ok((parts, next))
            ==> newly_taken(children_names(parts), so_far, next),
    decreases elements,
{
    if elements.len() == 0 {
        lemma_nothing_taken(so_far);
    } else {
        let rest = elements.drop_last();
        lemma_parts_taken(items, contribution, rest, so_far);
        if let Ok((parts, next)) = compose::add_parts(items, contribution, rest, so_far) {
            lemma_part_taken(items, contribution, elements.last(), next);
            if let Ok((part, after)) = compose::add_part(
                items,
                contribution,
                elements.last(),
                next,
            ) {
                lemma_taken_together(
                    children_names(parts),
                    child_names(part),
                    so_far,
                    next,
                    after,
                );
                assert(parts.push(part).drop_last() =~= parts);
            }
        }
    }
}

proof fn lemma_cluster_taken(
    items: TextMap<ItemId, ItemDefinition>,
    contribution: ContributionId,
    group: BarGroup,
    so_far: Progress,
)
    requires
        registry::named_items(items),
    ensures
        compose::add_cluster(items, contribution, group, so_far) matches Ok((cluster, next))
            ==> newly_taken(group_names(cluster), so_far, next),
    decreases group,
{
    lemma_group_taken(group.id@, so_far);
    if let Ok(entered) = compose::add_group(group.id@, so_far) {
        lemma_parts_taken(items, contribution, group.elements@, entered);
        if let Ok((elements, next)) = compose::add_parts(
            items,
            contribution,
            group.elements@,
            entered,
        ) {
            lemma_taken_together(
                seq![Named::Group(group.id@)],
                children_names(elements),
                so_far,
                entered,
                next,
            );
        }
    }
}

/// The names in a bar with one more element.
proof fn lemma_names_push(elements: Seq<ElementShape>, element: ElementShape)
    ensures
        names_in(elements.push(element)) == names_in(elements) + element_names(element),
{
    assert(elements.push(element).drop_last() =~= elements);
}

proof fn lemma_offers_taken(
    items: TextMap<ItemId, ItemDefinition>,
    contribution: ContributionDefinition,
    n: int,
    before: Seq<ElementShape>,
    start: Progress,
    so_far: Progress,
)
    requires
        registry::named_items(items),
        newly_taken(names_in(before), start, so_far),
    ensures
        compose::add_offers(items, contribution, n, before, so_far) matches Ok((elements, next))
            ==> newly_taken(names_in(elements), start, next),
    decreases n,
{
    if n > 0 {
        lemma_offers_taken(items, contribution, n - 1, before, start, so_far);
        if let Ok((elements, next)) = compose::add_offers(
            items,
            contribution,
            n - 1,
            before,
            so_far,
        ) {
            let offer = contribution.elements@[n - 1];
            match offer {
                BarElement::Item(id) => {
                    lemma_item_taken(items, contribution.id, id, next);
                },
                BarElement::Group(group) => {
                    lemma_cluster_taken(items, contribution.id, group, next);
                },
                _ => {
                    lemma_nothing_taken(next);
                },
            }
            if let Ok((element, after)) = compose::add_offer(items, contribution.id, offer, next) {
                lemma_names_push(elements, element);
                lemma_taken_together(
                    names_in(elements),
                    element_names(element),
                    start,
                    next,
                    after,
                );
            }
        }
    }
}

proof fn lemma_contributions_taken(
    items: TextMap<ItemId, ItemDefinition>,
    contributions: Seq<ContributionDefinition>,
    n: int,
    so_far: Progress,
)
    requires
        registry::named_items(items),
    ensures
        compose::add_contributions(items, contributions, n, so_far) matches Ok((elements, next))
            ==> newly_taken(names_in(elements), so_far, next),
    decreases n,
{
    if n <= 0 {
        lemma_nothing_taken(so_far);
    } else {
        lemma_contributions_taken(items, contributions, n - 1, so_far);
        if let Ok((elements, next)) = compose::add_contributions(
            items,
            contributions,
            n - 1,
            so_far,
        ) {
            let c = contributions[n - 1];
            let counted = Progress { contributions: next.contributions.push(c.id), ..next };
            assert(forall|name: Named| #[trigger] taken(counted, name) == taken(next, name));
            lemma_offers_taken(
                items,
                c,
                c.elements@.len() as int,
                elements,
                so_far,
                counted,
            );
        }
    }
}

proof fn lemma_slot_taken(
    catalog: ProfileCatalog,
    items: TextMap<ItemId, ItemDefinition>,
    slot: SlotDefinition,
    context: ContextSnapshot,
    so_far: Progress,
)
    requires
        registry::named_items(items),
    ensures
        compose::add_slot(catalog, items, slot, context, so_far) matches Ok((elements, next))
            ==> newly_taken(names_in(elements), so_far, next),
{
    let shown = select::selection(catalog.contribution_map(), slot, context);
    lemma_contributions_taken(items, shown, shown.len() as int, so_far);
}

/// Items and groups keep their names as members of a group.
proof fn lemma_names_of_children(elements: Seq<ElementShape>)
    requires
        compose::solid(elements),
    ensures
        children_names(compose::as_children(elements)) == names_in(elements),
    decreases elements.len(),
{
    if elements.len() > 0 {
        let rest = elements.drop_last();
        assert forall|i: int| 0 <= i < rest.len() implies #[trigger] rest[i] is Item
            || rest[i] is Group by {
            assert(rest[i] == elements[i]);
        }
        lemma_names_of_children(rest);
        assert(compose::as_children(elements).drop_last() =~= compose::as_children(rest));
        let last = elements[elements.len() - 1];
        assert(last is Item || last is Group);
        assert(compose::as_children(elements).last() == compose::as_child(last));
        assert(child_names(compose::as_child(last)) == element_names(last));
    }
}

proof fn lemma_member_taken(
    catalog: ProfileCatalog,
    items: TextMap<ItemId, ItemDefinition>,
    profile: ProfileId,
    element: ProfileGroupElement,
    context: ContextSnapshot,
    path: Seq<usize>,
    so_far: Progress,
)
    requires
        registry::named_items(items),
        compose::spaceless_member(catalog.contribution_map(), element),
    ensures
        compose::add_member(
            catalog,
            items,
            profile,
            element,
            context,
            path,
            so_far,
        ) matches Ok((child, next)) ==> newly_taken(child_names(child), so_far, next),
    decreases element,
{
    match element {
        ProfileGroupElement::Slot(slot) => {
            lemma_slot_taken(catalog, items, slot, context, so_far);
            compose::lemma_slot_solid(catalog, items, slot, context, so_far);
            if let Ok((elements, next)) = compose::add_slot(catalog, items, slot, context, so_far) {
                let id = compose::slot_group_id(profile@, slot.id@);
                lemma_names_of_children(elements);
                lemma_group_taken(id, next);
                if let Ok(entered) = compose::add_group(id, next) {
                    lemma_taken_together(
                        names_in(elements),
                        seq![Named::Group(id)],
                        so_far,
                        next,
                        entered,
                    );
                    let (child, after) = compose::add_member(
                        catalog,
                        items,
                        profile,
                        element,
                        context,
                        path,
                        so_far,
                    )->Ok_0;
                    assert(forall|name: Named| #[trigger]
                        taken(after, name) == taken(entered, name));
                }
            }
        },
        ProfileGroupElement::Group(group) => {
            lemma_template_taken(catalog, items, profile, group, context, path, so_far);
        },
    }
}

proof fn lemma_members_taken(
    catalog: ProfileCatalog,
    items: TextMap<ItemId, ItemDefinition>,
    profile: ProfileId,
    elements: Seq<ProfileGroupElement>,
    context: ContextSnapshot,
    path: Seq<usize>,
    so_far: Progress,
)
    requires
        registry::named_items(items),
        forall|i: int|
            0 <= i < elements.len() ==> compose::spaceless_member(
                catalog.contribution_map(),
                #[trigger] elements[i],
            ),
    ensures
        compose::add_members(
            catalog,
            items,
            profile,
            elements,
            context,
            path,
            so_far,
        ) matches Ok((members, next)) ==> newly_taken(children_names(members), so_far, next),
    decreases elements,
{
    if elements.len() == 0 {
        lemma_nothing_taken(so_far);
    } else {
        let rest = elements.drop_last();
        let last = elements.last();
        let below = path.push((elements.len() - 1) as usize);
        assert(elements[elements.len() - 1] == last);
        assert forall|i: int| 0 <= i < rest.len() implies compose::spaceless_member(
            catalog.contribution_map(),
            #[trigger] rest[i],
        ) by {
            assert(rest[i] == elements[i]);
        }
        lemma_members_taken(catalog, items, profile, rest, context, path, so_far);
        if let Ok((members, next)) = compose::add_members(
            catalog,
            items,
            profile,
            rest,
            context,
            path,
            so_far,
        ) {
            lemma_member_taken(catalog, items, profile, last, context, below, next);
            if let Ok((member, after)) = compose::add_member(
                catalog,
                items,
                profile,
                last,
                context,
                below,
                next,
            ) {
                lemma_taken_together(
                    children_names(members),
                    child_names(member),
                    so_far,
                    next,
                    after,
                );
                assert(members.push(member).drop_last() =~= members);
            }
        }
    }
}

proof fn lemma_template_taken(
    catalog: ProfileCatalog,
    items: TextMap<ItemId, ItemDefinition>,
    profile: ProfileId,
    group: ProfileGroup,
    context: ContextSnapshot,
    path: Seq<usize>,
    so_far: Progress,
)
    requires
        registry::named_items(items),
        compose::spaceless_group(catalog.contribution_map(), group),
    ensures
        compose::add_template(
            catalog,
            items,
            profile,
            group,
            context,
            path,
            so_far,
        ) matches Ok((shape, next)) ==> newly_taken(group_names(shape), so_far, next),
    decreases group,
{
    lemma_group_taken(group.id@, so_far);
    if let Ok(entered) = compose::add_group(group.id@, so_far) {
        lemma_members_taken(catalog, items, profile, group.elements@, context, path, entered);
        if let Ok((elements, next)) = compose::add_members(
            catalog,
            items,
            profile,
            group.elements@,
            context,
            path,
            entered,
        ) {
            lemma_taken_together(
                seq![Named::Group(group.id@)],
                children_names(elements),
                so_far,
                entered,
                next,
            );
        }
    }
}

proof fn lemma_names_joined(first: Seq<ElementShape>, second: Seq<ElementShape>)
    ensures
        names_in(first + second) == names_in(first) + names_in(second),
    decreases second.len(),
{
    if second.len() == 0 {
        assert(first + second =~= first);
        assert(names_in(first) + names_in(second) =~= names_in(first));
    } else {
        lemma_names_joined(first, second.drop_last());
        assert((first + second).drop_last() =~= first + second.drop_last());
        assert(names_in(first) + names_in(second) =~= names_in(first) + names_in(
            second.drop_last(),
        ) + element_names(second.last()));
    }
}

proof fn lemma_fields_taken(
    catalog: ProfileCatalog,
    items: TextMap<ItemId, ItemDefinition>,
    profile: ProfileDefinition,
    context: ContextSnapshot,
    n: int,
)
    requires
        registry::named_items(items),
        0 <= n <= profile.elements@.len(),
        forall|i: int|
            0 <= i < n ==> compose::spaceless_field(
                catalog.contribution_map(),
                #[trigger] profile.elements@[i],
            ),
    ensures
        compose::add_fields(catalog, items, profile, context, n) matches Ok((elements, progress))
            ==> newly_taken(names_in(elements), compose::nothing_yet(), progress),
    decreases n,
{
    let start = compose::nothing_yet();
    if n == 0 {
        lemma_nothing_taken(start);
    } else {
        lemma_fields_taken(catalog, items, profile, context, n - 1);
        if let Ok((before, so_far)) = compose::add_fields(catalog, items, profile, context, n - 1) {
            let element = profile.elements@[n - 1];
            let path = seq![before.len() as usize];
            match element {
                ProfileElement::Slot(slot) => {
                    lemma_slot_taken(catalog, items, slot, context, so_far);
                    if let Ok((elements, next)) = compose::add_slot(
                        catalog,
                        items,
                        slot,
                        context,
                        so_far,
                    ) {
                        let (_, progress) = compose::add_fields(
                            catalog,
                            items,
                            profile,
                            context,
                            n,
                        )->Ok_0;
                        lemma_names_joined(before, elements);
                        lemma_taken_together(
                            names_in(before),
                            names_in(elements),
                            start,
                            so_far,
                            next,
                        );
                        assert(forall|name: Named| #[trigger]
                            taken(progress, name) == taken(next, name));
                    }
                },
                ProfileElement::Group(group) => {
                    lemma_template_taken(catalog, items, profile.id, group, context, path, so_far);
                    if let Ok((shape, next)) = compose::add_template(
                        catalog,
                        items,
                        profile.id,
                        group,
                        context,
                        path,
                        so_far,
                    ) {
                        lemma_names_push(before, ElementShape::Group(shape));
                        lemma_taken_together(
                            names_in(before),
                            group_names(shape),
                            start,
                            so_far,
                            next,
                        );
                    }
                },
                ProfileElement::FixedSpace { width } => {
                    lemma_names_push(before, ElementShape::FixedSpace { width });
                    assert(names_in(before) + Seq::<Named>::empty() =~= names_in(before));
                },
                ProfileElement::FlexibleSpace { minimum, weight } => {
                    lemma_names_push(before, ElementShape::FlexibleSpace { minimum, weight });
                    assert(names_in(before) + Seq::<Named>::empty() =~= names_in(before));
                },
            }
        }
    }
}

/// The elements of a profile that is part of a valid catalog.
proof fn lemma_valid_fields(catalog: ProfileCatalog, registry: Registry, id: Seq<char>)
    requires
        catalog.wf(),
        profiles::catalog_fault(catalog, registry) is None,
        catalog.profile_map().has(id),
    ensures
        forall|i: int|
            0 <= i < catalog.profile_map().lookup(id)->Some_0.elements@.len()
                ==> compose::spaceless_field(
                catalog.contribution_map(),
                #[trigger] catalog.profile_map().lookup(id)->Some_0.elements@[i],
            ),
{
    let profile = catalog.profile_map().lookup(id)->Some_0;
    let n = profile.elements@.len() as int;
    compose::lemma_profile_checked(catalog, registry, id);
    assert forall|i: int| 0 <= i < n implies compose::spaceless_field(
        catalog.contribution_map(),
        #[trigger] profile.elements@[i],
    ) by {
        compose::lemma_spaceless_fields(
            catalog.contribution_map(),
            profile.id,
            profile.elements@,
            n,
            i,
        );
    }
}

/// No item and no group occurs twice in a composition, at whatever depth.
pub proof fn nothing_occurs_twice(
    catalog: ProfileCatalog,
    registry: Registry,
    profile_id: ProfileId,
    context: ContextSnapshot,
)
    requires
        catalog.wf(),
        registry.wf(),
    ensures
        compose::composed(catalog, registry, profile_id, context) matches Ok(shape) ==> names_in(
            shape.elements,
        ).no_duplicates(),
{
    if compose::composed(catalog, registry, profile_id, context) is Ok {
        let profile = catalog.profile_map().lookup(profile_id@)->Some_0;
        lemma_valid_fields(catalog, registry, profile_id@);
        lemma_fields_taken(
            catalog,
            registry.item_map(),
            profile,
            context,
            profile.elements@.len() as int,
        );
    }
}

// ---------------------------------------------------------------------------
// What compositions hold

/// The principal item of a composition is that of the profile where it occurs in the
/// composition, at whatever depth; otherwise there is none.
pub proof fn principal_items_occur_in_compositions(
    catalog: ProfileCatalog,
    registry: Registry,
    profile_id: ProfileId,
    context: ContextSnapshot,
)
    requires
        catalog.wf(),
        registry.wf(),
        compose::composed(catalog, registry, profile_id, context) is Ok,
    ensures
        ({
            let shape = compose::composed(catalog, registry, profile_id, context)->Ok_0;
            let profile = catalog.profile_map().lookup(profile_id@)->Some_0;
            match profile.principal_item {
                Some(id) => if names_in(shape.elements).contains(Named::Item(id@)) {
                    shape.principal_item == Some(id)
                } else {
                    shape.principal_item is None
                },
                None => shape.principal_item is None,
            }
        }),
{
    let profile = catalog.profile_map().lookup(profile_id@)->Some_0;
    let n = profile.elements@.len() as int;
    lemma_valid_fields(catalog, registry, profile_id@);
    lemma_fields_taken(catalog, registry.item_map(), profile, context, n);
    let (elements, progress) = compose::add_fields(
        catalog,
        registry.item_map(),
        profile,
        context,
        n,
    )->Ok_0;
    if let Some(id) = profile.principal_item {
        assert(taken(progress, Named::Item(id@)) <==> (taken(
            compose::nothing_yet(),
            Named::Item(id@),
        ) || names_in(elements).contains(Named::Item(id@))));
    }
}

/// The contributions that slots show, slot by slot.
pub open spec fn shown_contributions(
    catalog: ProfileCatalog,
    context: ContextSnapshot,
    slots: Seq<SlotDefinition>,
) -> Seq<ContributionId>
    decreases slots.len(),
{
    if slots.len() == 0 {
        Seq::empty()
    } else {
        let shown = select::selection(catalog.contribution_map(), slots.last(), context);
        shown_contributions(catalog, context, slots.drop_last()) + Seq::new(
            shown.len(),
            |i: int| shown[i].id,
        )
    }
}

proof fn lemma_shown_joined(
    catalog: ProfileCatalog,
    context: ContextSnapshot,
    first: Seq<SlotDefinition>,
    second: Seq<SlotDefinition>,
)
    ensures
        shown_contributions(catalog, context, first + second) == shown_contributions(
            catalog,
            context,
            first,
        ) + shown_contributions(catalog, context, second),
    decreases second.len(),
{
    let all = first + second;
    if second.len() == 0 {
        assert(all =~= first);
        assert(shown_contributions(catalog, context, second) =~= Seq::empty());
    } else {
        lemma_shown_joined(catalog, context, first, second.drop_last());
        assert(all.drop_last() =~= first + second.drop_last());
        assert(all.last() == second.last());
        assert(shown_contributions(catalog, context, all) =~= shown_contributions(
            catalog,
            context,
            first,
        ) + shown_contributions(catalog, context, second));
    }
}

proof fn lemma_part_active(
    items: TextMap<ItemId, ItemDefinition>,
    contribution: ContributionId,
    element: BarGroupElement,
    so_far: Progress,
)
    ensures
        compose::add_part(items, contribution, element, so_far) matches Ok((part, next))
            ==> next.contributions == so_far.contributions,
    decreases element,
{
    if let BarGroupElement::Group(group) = element {
        lemma_cluster_active(items, contribution, group, so_far);
    }
}

proof fn lemma_parts_active(
    items: TextMap<ItemId, ItemDefinition>,
    contribution: ContributionId,
    elements: Seq<BarGroupElement>,
    so_far: Progress,
)
    ensures
        compose::add_parts(items, contribution, elements, so_far) matches Ok((parts, next))
            ==> next.contributions == so_far.contributions,
    decreases elements,
{
    if elements.len() > 0 {
        lemma_parts_active(items, contribution, elements.drop_last(), so_far);
        if let Ok((parts, next)) = compose::add_parts(
            items,
            contribution,
            elements.drop_last(),
            so_far,
        ) {
            lemma_part_active(items, contribution, elements.last(), next);
        }
    }
}

proof fn lemma_cluster_active(
    items: TextMap<ItemId, ItemDefinition>,
    contribution: ContributionId,
    group: BarGroup,
    so_far: Progress,
)
    ensures
        compose::add_cluster(items, contribution, group, so_far) matches Ok((cluster, next))
            ==> next.contributions == so_far.contributions,
    decreases group,
{
    if let Ok(entered) = compose::add_group(group.id@, so_far) {
        lemma_parts_active(items, contribution, group.elements@, entered);
    }
}

proof fn lemma_offers_active(
    items: TextMap<ItemId, ItemDefinition>,
    contribution: ContributionDefinition,
    n: int,
    before: Seq<ElementShape>,
    so_far: Progress,
)
    ensures
        compose::add_offers(items, contribution, n, before, so_far) matches Ok((elements, next))
            ==> next.contributions == so_far.contributions,
    decreases n,
{
    if n > 0 {
        lemma_offers_active(items, contribution, n - 1, before, so_far);
        if let Ok((elements, next)) = compose::add_offers(
            items,
            contribution,
            n - 1,
            before,
            so_far,
        ) {
            if let BarElement::Group(group) = contribution.elements@[n - 1] {
                lemma_cluster_active(items, contribution.id, group, next);
            }
        }
    }
}

proof fn lemma_contributions_active(
    items: TextMap<ItemId, ItemDefinition>,
    contributions: Seq<ContributionDefinition>,
    n: int,
    so_far: Progress,
)
    requires
        0 <= n <= contributions.len(),
    ensures
        compose::add_contributions(items, contributions, n, so_far) matches Ok((elements, next))
            ==> next.contributions == so_far.contributions + Seq::new(
            n as nat,
            |i: int| contributions[i].id,
        ),
    decreases n,
{
    if n > 0 {
        lemma_contributions_active(items, contributions, n - 1, so_far);
        if let Ok((elements, next)) = compose::add_contributions(
            items,
            contributions,
            n - 1,
            so_far,
        ) {
            let c = contributions[n - 1];
            let entered = Progress { contributions: next.contributions.push(c.id), ..next };
            lemma_offers_active(items, c, c.elements@.len() as int, elements, entered);
            assert(entered.contributions =~= so_far.contributions + Seq::new(
                n as nat,
                |i: int| contributions[i].id,
            ));
        }
    } else {
        assert(so_far.contributions =~= so_far.contributions + Seq::new(
            n as nat,
            |i: int| contributions[i].id,
        ));
    }
}

proof fn lemma_slot_active(
    catalog: ProfileCatalog,
    items: TextMap<ItemId, ItemDefinition>,
    slot: SlotDefinition,
    context: ContextSnapshot,
    so_far: Progress,
)
    ensures
        compose::add_slot(catalog, items, slot, context, so_far) matches Ok((elements, next))
            ==> next.contributions == so_far.contributions + shown_contributions(
            catalog,
            context,
            seq![slot],
        ),
{
    let shown = select::selection(catalog.contribution_map(), slot, context);
    lemma_contributions_active(items, shown, shown.len() as int, so_far);
    assert(seq![slot].drop_last() =~= Seq::empty());
    assert(shown_contributions(catalog, context, Seq::empty()) =~= Seq::empty());
    assert(shown_contributions(catalog, context, seq![slot]) =~= Seq::new(
        shown.len(),
        |i: int| shown[i].id,
    ));
}

proof fn lemma_member_active(
    catalog: ProfileCatalog,
    items: TextMap<ItemId, ItemDefinition>,
    profile: ProfileId,
    element: ProfileGroupElement,
    context: ContextSnapshot,
    path: Seq<usize>,
    so_far: Progress,
)
    ensures
        compose::add_member(
            catalog,
            items,
            profile,
            element,
            context,
            path,
            so_far,
        ) matches Ok((child, next)) ==> next.contributions == so_far.contributions
            + shown_contributions(catalog, context, member_slots(element)),
    decreases element,
{
    match element {
        ProfileGroupElement::Slot(slot) => {
            lemma_slot_active(catalog, items, slot, context, so_far);
        },
        ProfileGroupElement::Group(group) => {
            lemma_template_active(catalog, items, profile, group, context, path, so_far);
        },
    }
}

proof fn lemma_members_active(
    catalog: ProfileCatalog,
    items: TextMap<ItemId, ItemDefinition>,
    profile: ProfileId,
    elements: Seq<ProfileGroupElement>,
    context: ContextSnapshot,
    path: Seq<usize>,
    so_far: Progress,
)
    ensures
        compose::add_members(
            catalog,
            items,
            profile,
            elements,
            context,
            path,
            so_far,
        ) matches Ok((members, next)) ==> next.contributions == so_far.contributions
            + shown_contributions(catalog, context, members_slots(elements)) && members.len()
            == elements.len(),
    decreases elements,
{
    if elements.len() == 0 {
        assert(shown_contributions(catalog, context, members_slots(elements)) =~= Seq::empty());
        assert(so_far.contributions + Seq::<ContributionId>::empty() =~= so_far.contributions);
    } else {
        let some = elements.drop_last();
        lemma_members_active(catalog, items, profile, some, context, path, so_far);
        if let Ok((members, next)) = compose::add_members(
            catalog,
            items,
            profile,
            some,
            context,
            path,
            so_far,
        ) {
            lemma_member_active(
                catalog,
                items,
                profile,
                elements.last(),
                context,
                path.push((elements.len() - 1) as usize),
                next,
            );
            lemma_shown_joined(
                catalog,
                context,
                members_slots(some),
                member_slots(elements.last()),
            );
            let a = shown_contributions(catalog, context, members_slots(some));
            let b = shown_contributions(catalog, context, member_slots(elements.last()));
            assert((so_far.contributions + a) + b =~= so_far.contributions + (a + b));
        }
    }
}

proof fn lemma_template_active(
    catalog: ProfileCatalog,
    items: TextMap<ItemId, ItemDefinition>,
    profile: ProfileId,
    group: ProfileGroup,
    context: ContextSnapshot,
    path: Seq<usize>,
    so_far: Progress,
)
    ensures
        compose::add_template(
            catalog,
            items,
            profile,
            group,
            context,
            path,
            so_far,
        ) matches Ok((shape, next)) ==> next.contributions == so_far.contributions
            + shown_contributions(catalog, context, template_slots(group)) && same_settings(
            group,
            shape,
        ),
    decreases group,
{
    if let Ok(entered) = compose::add_group(group.id@, so_far) {
        lemma_members_active(catalog, items, profile, group.elements@, context, path, entered);
    }
}

/// The group has the name and the settings of the one in the profile, and as many
/// members.
pub open spec fn same_settings(group: ProfileGroup, shape: GroupShape) -> bool {
    &&& shape.id == group.id@
    &&& shape.layout == group.layout
    &&& shape.spacing == group.spacing
    &&& shape.visibility_priority == group.visibility_priority
    &&& shape.compression_priority == group.compression_priority
    &&& shape.elements.len() == group.elements@.len()
}

proof fn lemma_fields_active(
    catalog: ProfileCatalog,
    items: TextMap<ItemId, ItemDefinition>,
    profile: ProfileDefinition,
    context: ContextSnapshot,
    n: int,
) -> (cuts: Seq<int>)
    requires
        0 <= n <= profile.elements@.len(),
    ensures
        compose::add_fields(catalog, items, profile, context, n) matches Ok((elements, progress))
            ==> progress.contributions == shown_contributions(
            catalog,
            context,
            fields_slots(profile.elements@, n),
        ) && cut_up(catalog, items, context, profile.elements@.take(n), elements, cuts),
    decreases n,
{
    if n == 0 {
        assert(shown_contributions(
            catalog,
            context,
            fields_slots(profile.elements@, n),
        ) =~= Seq::empty());
        seq![0int]
    } else {
        let before = lemma_fields_active(catalog, items, profile, context, n - 1);
        match compose::add_fields(catalog, items, profile, context, n - 1) {
            Err(_) => before,
            Ok((elements, so_far)) => {
                let field = profile.elements@[n - 1];
                let slots = fields_slots(profile.elements@, n - 1);
                lemma_shown_joined(catalog, context, slots, field_slots(field));
                assert(shown_contributions(
                    catalog,
                    context,
                    Seq::<SlotDefinition>::empty(),
                ) =~= Seq::empty());
                assert(so_far.contributions + Seq::<ContributionId>::empty()
                    =~= so_far.contributions);
                match field {
                    ProfileElement::Slot(slot) => {
                        lemma_slot_active(catalog, items, slot, context, so_far);
                        lemma_slot(catalog, items, slot, context, so_far);
                    },
                    ProfileElement::Group(group) => {
                        lemma_template_active(
                            catalog,
                            items,
                            profile.id,
                            group,
                            context,
                            seq![elements.len() as usize],
                            so_far,
                        );
                    },
                    _ => {},
                }
                match compose::add_fields(catalog, items, profile, context, n) {
                    Err(_) => before,
                    Ok((after, progress)) => {
                        let cuts = before.push(after.len() as int);
                        let fields = profile.elements@.take(n);
                        let fewer = profile.elements@.take(n - 1);
                        assert(after.take(elements.len() as int) =~= elements);
                        assert forall|i: int| 0 <= i < fields.len() implies piece(
                            catalog,
                            items,
                            context,
                            #[trigger] fields[i],
                            after.subrange(cuts[i], cuts[i + 1]),
                        ) && 0 <= cuts[i] <= cuts[i + 1] <= after.len() by {
                            if i < n - 1 {
                                assert(fewer[i] == fields[i]);
                                assert(piece(
                                    catalog,
                                    items,
                                    context,
                                    fewer[i],
                                    elements.subrange(before[i], before[i + 1]),
                                ));
                                assert(after.subrange(cuts[i], cuts[i + 1]) =~= elements.subrange(
                                    before[i],
                                    before[i + 1],
                                ));
                            } else {
                                let last = after.subrange(cuts[i], cuts[i + 1]);
                                assert(cuts[i] == elements.len());
                                match field {
                                    ProfileElement::Slot(slot) => {
                                        assert(last =~= slot_shapes(catalog, items, slot, context));
                                    },
                                    _ => {
                                        assert(last =~= seq![after[elements.len() as int]]);
                                    },
                                }
                            }
                        }
                        cuts
                    },
                }
            },
        }
    }
}

/// What an element of a profile becomes: a space stays what it is, a group becomes
/// one with the same settings, and a slot what it contributes.
pub open spec fn piece(
    catalog: ProfileCatalog,
    items: TextMap<ItemId, ItemDefinition>,
    context: ContextSnapshot,
    field: ProfileElement,
    elements: Seq<ElementShape>,
) -> bool {
    match field {
        ProfileElement::FixedSpace { width } => elements == seq![
            ElementShape::FixedSpace { width },
        ],
        ProfileElement::FlexibleSpace { minimum, weight } => elements == seq![
            ElementShape::FlexibleSpace { minimum, weight },
        ],
        ProfileElement::Group(group) => elements.len() == 1 && (elements[0] matches
            ElementShape::Group(shape) && same_settings(group, shape)),
        ProfileElement::Slot(slot) => elements == slot_shapes(catalog, items, slot, context),
    }
}

/// The elements are cut into pieces, one for each element of the profile, in order.
pub open spec fn cut_up(
    catalog: ProfileCatalog,
    items: TextMap<ItemId, ItemDefinition>,
    context: ContextSnapshot,
    fields: Seq<ProfileElement>,
    elements: Seq<ElementShape>,
    cuts: Seq<int>,
) -> bool {
    &&& cuts.len() == fields.len() + 1
    &&& cuts[0] == 0
    &&& cuts[fields.len() as int] == elements.len()
    &&& forall|i: int|
        0 <= i < fields.len() ==> piece(
            catalog,
            items,
            context,
            #[trigger] fields[i],
            elements.subrange(cuts[i], cuts[i + 1]),
        ) && 0 <= cuts[i] <= cuts[i + 1] <= elements.len()
}

/// A composition holds, element by element of its profile and in the same order, the
/// spaces as they are, the groups with their settings, and what the slots contribute.
/// Its active contributions are those that its slots show, slot by slot.
pub proof fn compositions_follow_their_profiles(
    catalog: ProfileCatalog,
    registry: Registry,
    profile_id: ProfileId,
    context: ContextSnapshot,
)
    requires
        compose::composed(catalog, registry, profile_id, context) is Ok,
    ensures
        ({
            let shape = compose::composed(catalog, registry, profile_id, context)->Ok_0;
            let profile = catalog.profile_map().lookup(profile_id@)->Some_0;
            &&& catalog.profile_map().lookup(profile_id@) is Some
            &&& shape.profile == profile.id
            &&& shape.active_contributions == shown_contributions(
                catalog,
                context,
                fields_slots(profile.elements@, profile.elements@.len() as int),
            )
            &&& exists|cuts: Seq<int>|
                cut_up(
                    catalog,
                    registry.item_map(),
                    context,
                    profile.elements@,
                    shape.elements,
                    cuts,
                )
        }),
{
    let profile = catalog.profile_map().lookup(profile_id@)->Some_0;
    let shape = compose::composed(catalog, registry, profile_id, context)->Ok_0;
    let n = profile.elements@.len() as int;
    let cuts = lemma_fields_active(catalog, registry.item_map(), profile, context, n);
    assert(profile.elements@.take(n) =~= profile.elements@);
    assert(cut_up(
        catalog,
        registry.item_map(),
        context,
        profile.elements@,
        shape.elements,
        cuts,
    ));
}

/// An element of a contribution is shown as it is, and each item with the widths and
/// priorities under which it is registered.
pub open spec fn shown_as_registered(
    items: TextMap<ItemId, ItemDefinition>,
    element: BarElement,
    shape: ElementShape,
) -> bool {
    match element {
        BarElement::Item(id) => items.lookup(id@) matches Some(known) ==> shape
            == ElementShape::Item(known.layout),
        BarElement::Group(group) => {
            &&& shape matches ElementShape::Group(shown)
            &&& shown.id == group.id@
            &&& shown.layout == group.layout
            &&& shown.spacing == group.spacing
            &&& shown.visibility_priority == group.visibility_priority
            &&& shown.compression_priority == group.compression_priority
            &&& shown.elements.len() == group.elements@.len()
            &&& forall|k: int|
                #![trigger group.elements@[k]]
                0 <= k < group.elements@.len() ==> match group.elements@[k] {
                    BarGroupElement::Item(id) => items.lookup(id@) matches Some(known)
                        ==> shown.elements[k] == ChildShape::Item(known.layout),
                    BarGroupElement::Group(inner) => shown.elements[k] matches ChildShape::Group(
                        nested,
                    ) && nested.id == inner.id@ && nested.spacing == inner.spacing && nested.layout
                        == inner.layout && nested.elements.len() == inner.elements@.len(),
                }
        },
        BarElement::FixedSpace { width } => shape == (ElementShape::FixedSpace { width }),
        BarElement::FlexibleSpace { minimum, weight } => shape == (ElementShape::FlexibleSpace {
            minimum,
            weight,
        }),
        BarElement::ContextProxy => true,
    }
}

proof fn lemma_part_shapes(items: TextMap<ItemId, ItemDefinition>, elements: Seq<BarGroupElement>)
    ensures
        part_shapes(items, elements).len() == elements.len(),
        forall|k: int|
            0 <= k < elements.len() ==> #[trigger] part_shapes(items, elements)[k] == part_shape(
                items,
                elements[k],
            ),
    decreases elements.len(),
{
    if elements.len() > 0 {
        lemma_part_shapes(items, elements.drop_last());
        assert forall|k: int| 0 <= k < elements.len() implies #[trigger] part_shapes(
            items,
            elements,
        )[k] == part_shape(items, elements[k]) by {
            if k < elements.len() - 1 {
                assert(part_shapes(items, elements)[k] == part_shapes(
                    items,
                    elements.drop_last(),
                )[k]);
            }
        }
    }
}

proof fn lemma_shown_as_registered(items: TextMap<ItemId, ItemDefinition>, element: BarElement)
    ensures
        shown_as_registered(items, element, offer_shape(items, element)),
{
    if let BarElement::Group(group) = element {
        lemma_part_shapes(items, group.elements@);
        assert forall|k: int|
            #![trigger group.elements@[k]]
            0 <= k < group.elements@.len() implies match group.elements@[k] {
            BarGroupElement::Item(id) => items.lookup(id@) matches Some(known)
                ==> part_shapes(items, group.elements@)[k] == ChildShape::Item(known.layout),
            BarGroupElement::Group(inner) => part_shapes(items, group.elements@)[k] matches
                ChildShape::Group(nested) && nested.id == inner.id@ && nested.spacing
                == inner.spacing && nested.layout == inner.layout && nested.elements.len()
                == inner.elements@.len(),
        } by {
            if let BarGroupElement::Group(inner) = group.elements@[k] {
                lemma_part_shapes(items, inner.elements@);
            }
        }
    }
}

/// The elements of contributions stand one contribution after the other, from the
/// given numbers on.
pub open spec fn lined_up(
    items: TextMap<ItemId, ItemDefinition>,
    contributions: Seq<ContributionDefinition>,
    elements: Seq<ElementShape>,
    starts: Seq<int>,
) -> bool {
    &&& starts.len() == contributions.len() + 1
    &&& starts[0] == 0
    &&& starts[contributions.len() as int] == elements.len()
    &&& forall|c: int|
        #![trigger contributions[c]]
        0 <= c < contributions.len() ==> starts[c + 1] == starts[c]
            + contributions[c].elements@.len() && starts[c] >= 0 && starts[c + 1] <= elements.len()
    &&& forall|c: int, e: int|
        #![trigger contributions[c].elements@[e]]
        0 <= c < contributions.len() && 0 <= e < contributions[c].elements@.len()
            ==> shown_as_registered(
            items,
            contributions[c].elements@[e],
            elements[starts[c] + e],
        )
}

/// A slot contributes all elements of the contributions that it shows, one
/// contribution after the other, with their items as they are registered.
pub proof fn slots_contribute_whole_contributions(
    items: TextMap<ItemId, ItemDefinition>,
    contributions: Seq<ContributionDefinition>,
) -> (starts: Seq<int>)
    ensures
        lined_up(items, contributions, contributed(items, contributions), starts),
    decreases contributions.len(),
{
    if contributions.len() == 0 {
        seq![0int]
    } else {
        let some = contributions.drop_last();
        let last = contributions.last();
        let before = slots_contribute_whole_contributions(items, some);
        let fewer = contributed(items, some);
        let all = contributed(items, contributions);
        let starts = before.push(all.len() as int);
        let n = some.len() as int;
        assert forall|c: int|
            #![trigger contributions[c]]
            0 <= c < contributions.len() implies starts[c + 1] == starts[c]
            + contributions[c].elements@.len() && starts[c] >= 0 && starts[c + 1] <= all.len() by {
            if c < n {
                assert(some[c] == contributions[c]);
            }
        }
        assert forall|c: int, e: int|
            #![trigger contributions[c].elements@[e]]
            0 <= c < contributions.len() && 0 <= e < contributions[c].elements@.len() implies
            shown_as_registered(
            items,
            contributions[c].elements@[e],
            all[starts[c] + e],
        ) by {
            if c < n {
                assert(some[c] == contributions[c]);
                assert(starts[c + 1] == starts[c] + contributions[c].elements@.len());
                assert(before[c + 1] <= fewer.len());
                assert(all[starts[c] + e] == fewer[before[c] + e]);
                assert(shown_as_registered(
                    items,
                    some[c].elements@[e],
                    fewer[before[c] + e],
                ));
            } else {
                assert(all[starts[c] + e] == offer_shape(items, last.elements@[e]));
                lemma_shown_as_registered(items, last.elements@[e]);
            }
        }
        starts
    }
}

/// A slot inside a group becomes a group of its own: one that is named after its
/// profile and itself, with natural widths, no spacing and priorities of zero, and with
/// what the slot contributes as its members.
pub proof fn slots_inside_groups_become_groups(
    catalog: ProfileCatalog,
    items: TextMap<ItemId, ItemDefinition>,
    profile: ProfileId,
    slot: SlotDefinition,
    context: ContextSnapshot,
    path: Seq<usize>,
    so_far: Progress,
)
    requires
        compose::add_member(
            catalog,
            items,
            profile,
            ProfileGroupElement::Slot(slot),
            context,
            path,
            so_far,
        ) is Ok,
        compose::spaceless_slot(catalog.contribution_map(), slot),
    ensures
        ({
            let (member, next) = compose::add_member(
                catalog,
                items,
                profile,
                ProfileGroupElement::Slot(slot),
                context,
                path,
                so_far,
            )->Ok_0;
            &&& member matches ChildShape::Group(group)
            &&& group.id == "@slot/"@ + profile@ + "/"@ + slot.id@
            &&& group.layout is Natural
            &&& group.spacing == 0
            &&& group.visibility_priority == 0
            &&& group.compression_priority == 0
            &&& as_elements(group.elements) == slot_shapes(catalog, items, slot, context)
            &&& next.slots == so_far.slots.push(
                SlotPlace { id: slot.id, path, start: 0, end: group.elements.len() as int },
            )
        }),
{
    lemma_member(
        catalog,
        items,
        profile,
        ProfileGroupElement::Slot(slot),
        context,
        path,
        so_far,
    );
    lemma_slot(catalog, items, slot, context, so_far);
    let (member, next) = compose::add_member(
        catalog,
        items,
        profile,
        ProfileGroupElement::Slot(slot),
        context,
        path,
        so_far,
    )->Ok_0;
    let slots = member_slots(ProfileGroupElement::Slot(slot));
    assert(slots[0] == slot);
    let place = next.slots[so_far.slots.len() as int];
    let elements = slot_shapes(catalog, items, slot, context);
    assert(place.path.skip(path.len() as int) =~= Seq::empty());
    assert(member->Group_0.elements.subrange(0, elements.len() as int)
        =~= member->Group_0.elements);
}

} // verus!
