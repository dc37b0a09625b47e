//! Putting a profile together for a context.
use std::ops::Range;

use vstd::prelude::*;

use crate::layout::shape;
use crate::layout::shape::{ChildShape, ElementShape, GroupShape};
use crate::layout::{BarSpec, Element, GroupElement, GroupLayout, GroupSpec, ItemId, ItemSpec};
use crate::model::context::ContextSnapshot;
use crate::model::ids::{ContributionId, ProfileId, SlotId};
use crate::model::profiles;
use crate::model::profiles::{
    ContributionDefinition, ProfileCatalog, ProfileDefinition, ProfileElement, ProfileError,
    ProfileGroup, ProfileGroupElement, SlotDefinition,
};
use crate::model::registry::{BarElement, BarGroup, BarGroupElement, ItemDefinition, Registry};
use crate::model::select;
use crate::text;
use crate::text::{TextMap, TextSet};

verus! {

/// Where the contributions of a slot stand.
#[derive(Debug, PartialEq, Eq)]
pub struct ComposedSlot {
    pub id: SlotId,
    /// Group indices from `ProfileComposition::bar.elements` to the container.
    /// An empty path identifies the top-level bar.
    pub path: Vec<usize>,
    /// Half-open indices within the addressed container. Empty slots retain an
    /// insertion point with equal start and end indices.
    pub elements: Range<usize>,
}

impl Clone for ComposedSlot {
    fn clone(&self) -> (copy: Self)
        ensures
            copy@ == self@,
    {
        let path: Vec<usize> = self.path.clone();
        proof {
            assert(path@ =~= self.path@);
        }
        ComposedSlot {
            id: self.id.clone(),
            path,
            elements: self.elements.start..self.elements.end,
        }
    }
}

/// The same in mathematical terms.
#[verifier::ext_equal]
pub struct SlotPlace {
    pub id: SlotId,
    pub path: Seq<usize>,
    pub start: int,
    pub end: int,
}

impl View for ComposedSlot {
    type V = SlotPlace;

    open spec fn view(&self) -> SlotPlace {
        SlotPlace {
            id: self.id,
            path: self.path@,
            start: self.elements.start as int,
            end: self.elements.end as int,
        }
    }
}

/// A profile with its contributions.
#[derive(Clone, Debug, PartialEq, Eq)]
pub struct ProfileComposition {
    pub profile: ProfileId,
    pub active_contributions: Vec<ContributionId>,
    pub slots: Vec<ComposedSlot>,
    pub bar: BarSpec,
}

/// The same in mathematical terms.
#[verifier::ext_equal]
pub struct ProfileShape {
    pub profile: ProfileId,
    pub active_contributions: Seq<ContributionId>,
    pub slots: Seq<SlotPlace>,
    pub elements: Seq<ElementShape>,
    pub principal_item: Option<ItemId>,
}

pub open spec fn slot_places(slots: Seq<ComposedSlot>) -> Seq<SlotPlace> {
    Seq::new(slots.len(), |i: int| slots[i]@)
}

impl View for ProfileComposition {
    type V = ProfileShape;

    open spec fn view(&self) -> ProfileShape {
        ProfileShape {
            profile: self.profile,
            active_contributions: self.active_contributions@,
            slots: slot_places(self.slots@),
            elements: shape::element_shapes(self.bar.elements@),
            principal_item: self.bar.principal_item,
        }
    }
}

/// Why there is no composition.
pub enum Fault {
    /// A group occurs twice.
    RepeatedGroup(Seq<char>),
    Other(ProfileError),
}

pub open spec fn fault_of(error: ProfileError) -> Fault {
    match error {
        ProfileError::DuplicateComposedGroup(group) => Fault::RepeatedGroup(group@),
        _ => Fault::Other(error),
    }
}

/// What a composition holds so far.
#[verifier::ext_equal]
pub struct Progress {
    pub contributions: Seq<ContributionId>,
    pub slots: Seq<SlotPlace>,
    pub items: Set<Seq<char>>,
    pub groups: Set<Seq<char>>,
}

pub open spec fn nothing_yet() -> Progress {
    Progress {
        contributions: Seq::empty(),
        slots: Seq::empty(),
        items: Set::empty(),
        groups: Set::empty(),
    }
}

/// An item with its registered widths; it may occur once.
pub open spec fn add_item(
    items: TextMap<ItemId, ItemDefinition>,
    contribution: ContributionId,
    id: ItemId,
    so_far: Progress,
) -> Result<(ItemSpec, Progress), Fault> {
    if so_far.items.contains(id@) {
        Err(Fault::Other(ProfileError::DuplicateComposedItem(id)))
    } else {
        match items.lookup(id@) {
            Some(known) => Ok(
                (known.layout, Progress { items: so_far.items.insert(id@), ..so_far }),
            ),
            None => Err(Fault::Other(ProfileError::UnknownItem { contribution, item: id })),
        }
    }
}

/// The name of a group; it may occur once.
pub open spec fn add_group(id: Seq<char>, so_far: Progress) -> Result<Progress, Fault> {
    if so_far.groups.contains(id) {
        Err(Fault::RepeatedGroup(id))
    } else {
        Ok(Progress { groups: so_far.groups.insert(id), ..so_far })
    }
}

pub open spec fn add_part(
    items: TextMap<ItemId, ItemDefinition>,
    contribution: ContributionId,
    element: BarGroupElement,
    so_far: Progress,
) -> Result<(ChildShape, Progress), Fault>
    decreases element,
{
    match element {
        BarGroupElement::Item(id) => match add_item(items, contribution, id, so_far) {
            Ok((item, next)) => Ok((ChildShape::Item(item), next)),
            Err(e) => Err(e),
        },
        BarGroupElement::Group(group) => match add_cluster(items, contribution, group, so_far) {
            Ok((cluster, next)) => Ok((ChildShape::Group(cluster), next)),
            Err(e) => Err(e),
        },
    }
}

pub open spec fn add_parts(
    items: TextMap<ItemId, ItemDefinition>,
    contribution: ContributionId,
    elements: Seq<BarGroupElement>,
    so_far: Progress,
) -> Result<(Seq<ChildShape>, Progress), Fault>
    decreases elements,
{
    if elements.len() == 0 {
        Ok((Seq::empty(), so_far))
    } else {
        match add_parts(items, contribution, elements.drop_last(), so_far) {
            Err(e) => Err(e),
            Ok((parts, next)) => match add_part(items, contribution, elements.last(), next) {
                Err(e) => Err(e),
                Ok((part, after)) => Ok((parts.push(part), after)),
            },
        }
    }
}

/// A group of a contribution with the registered widths of its items.
pub open spec fn add_cluster(
    items: TextMap<ItemId, ItemDefinition>,
    contribution: ContributionId,
    group: BarGroup,
    so_far: Progress,
) -> Result<(GroupShape, Progress), Fault>
    decreases group,
{
    match add_group(group.id@, so_far) {
        Err(e) => Err(e),
        Ok(entered) => match add_parts(items, contribution, group.elements@, entered) {
            Err(e) => Err(e),
            Ok((elements, next)) => Ok(
                (
                    GroupShape {
                        id: group.id@,
                        elements,
                        layout: group.layout,
                        spacing: group.spacing,
                        visibility_priority: group.visibility_priority,
                        compression_priority: group.compression_priority,
                    },
                    next,
                ),
            ),
        },
    }
}

pub open spec fn add_offer(
    items: TextMap<ItemId, ItemDefinition>,
    contribution: ContributionId,
    element: BarElement,
    so_far: Progress,
) -> Result<(ElementShape, Progress), Fault> {
    match element {
        BarElement::Item(id) => match add_item(items, contribution, id, so_far) {
            Ok((item, next)) => Ok((ElementShape::Item(item), next)),
            Err(e) => Err(e),
        },
        BarElement::Group(group) => match add_cluster(items, contribution, group, so_far) {
            Ok((cluster, next)) => Ok((ElementShape::Group(cluster), next)),
            Err(e) => Err(e),
        },
        BarElement::FixedSpace { width } => Ok((ElementShape::FixedSpace { width }, so_far)),
        BarElement::FlexibleSpace { minimum, weight } => Ok(
            (ElementShape::FlexibleSpace { minimum, weight }, so_far),
        ),
        // no valid contribution holds one
        BarElement::ContextProxy => Err(
            Fault::Other(ProfileError::ContextProxyInContribution(contribution)),
        ),
    }
}

/// The first `n` elements of a contribution, after other elements.
pub open spec fn add_offers(
    items: TextMap<ItemId, ItemDefinition>,
    contribution: ContributionDefinition,
    n: int,
    before: Seq<ElementShape>,
    so_far: Progress,
) -> Result<(Seq<ElementShape>, Progress), Fault>
    decreases n,
{
    if n <= 0 {
        Ok((before, so_far))
    } else {
        match add_offers(items, contribution, n - 1, before, so_far) {
            Err(e) => Err(e),
            Ok((elements, next)) => match add_offer(
                items,
                contribution.id,
                contribution.elements@[n - 1],
                next,
            ) {
                Err(e) => Err(e),
                Ok((element, after)) => Ok((elements.push(element), after)),
            },
        }
    }
}

/// The first `n` contributions of a slot.
pub open spec fn add_contributions(
    items: TextMap<ItemId, ItemDefinition>,
    contributions: Seq<ContributionDefinition>,
    n: int,
    so_far: Progress,
) -> Result<(Seq<ElementShape>, Progress), Fault>
    decreases n,
{
    if n <= 0 {
        Ok((Seq::empty(), so_far))
    } else {
        match add_contributions(items, contributions, n - 1, so_far) {
            Err(e) => Err(e),
            Ok((elements, next)) => {
                let c = contributions[n - 1];
                add_offers(
                    items,
                    c,
                    c.elements@.len() as int,
                    elements,
                    Progress { contributions: next.contributions.push(c.id), ..next },
                )
            },
        }
    }
}

/// The elements that a slot shows.
pub open spec fn add_slot(
    catalog: ProfileCatalog,
    items: TextMap<ItemId, ItemDefinition>,
    slot: SlotDefinition,
    context: ContextSnapshot,
    so_far: Progress,
) -> Result<(Seq<ElementShape>, Progress), Fault> {
    let shown = select::selection(catalog.contribution_map(), slot, context);
    add_contributions(items, shown, shown.len() as int, so_far)
}

/// An element as a member of a group.
pub open spec fn as_child(element: ElementShape) -> ChildShape {
    match element {
        ElementShape::Item(item) => ChildShape::Item(item),
        ElementShape::Group(group) => ChildShape::Group(group),
        // no valid slot inside a group holds a space
        _ => arbitrary(),
    }
}

pub open spec fn as_children(elements: Seq<ElementShape>) -> Seq<ChildShape> {
    Seq::new(elements.len(), |i: int| as_child(elements[i]))
}

/// The name of the group that stands for a slot inside another group.
pub open spec fn slot_group_id(profile: Seq<char>, slot: Seq<char>) -> Seq<char> {
    "@slot/"@ + profile + "/"@ + slot
}

pub open spec fn add_member(
    catalog: ProfileCatalog,
    items: TextMap<ItemId, ItemDefinition>,
    profile: ProfileId,
    element: ProfileGroupElement,
    context: ContextSnapshot,
    path: Seq<usize>,
    so_far: Progress,
) -> Result<(ChildShape, Progress), Fault>
    decreases element,
{
    match element {
        ProfileGroupElement::Slot(slot) => match add_slot(catalog, items, slot, context, so_far) {
            Err(e) => Err(e),
            Ok((elements, next)) => {
                let id = slot_group_id(profile@, slot.id@);
                match add_group(id, next) {
                    Err(e) => Err(e),
                    Ok(entered) => Ok(
                        (
                            ChildShape::Group(
                                GroupShape {
                                    id,
                                    elements: as_children(elements),
                                    layout: GroupLayout::Natural,
                                    spacing: 0,
                                    visibility_priority: 0,
                                    compression_priority: 0,
                                },
                            ),
                            Progress {
                                slots: entered.slots.push(
                                    SlotPlace {
                                        id: slot.id,
                                        path,
                                        start: 0,
                                        end: elements.len() as int,
                                    },
                                ),
                                ..entered
                            },
                        ),
                    ),
                }
            },
        },
        ProfileGroupElement::Group(child) => match add_template(
            catalog,
            items,
            profile,
            child,
            context,
            path,
            so_far,
        ) {
            Err(e) => Err(e),
            Ok((group, next)) => Ok((ChildShape::Group(group), next)),
        },
    }
}

pub open spec fn add_members(
    catalog: ProfileCatalog,
    items: TextMap<ItemId, ItemDefinition>,
    profile: ProfileId,
    elements: Seq<ProfileGroupElement>,
    context: ContextSnapshot,
    path: Seq<usize>,
    so_far: Progress,
) -> Result<(Seq<ChildShape>, Progress), Fault>
    decreases elements,
{
    if elements.len() == 0 {
        Ok((Seq::empty(), so_far))
    } else {
        match add_members(
            catalog,
            items,
            profile,
            elements.drop_last(),
            context,
            path,
            so_far,
        ) {
            Err(e) => Err(e),
            Ok((members, next)) => match add_member(
                catalog,
                items,
                profile,
                elements.last(),
                context,
                path.push((elements.len() - 1) as usize),
                next,
            ) {
                Err(e) => Err(e),
                Ok((member, after)) => Ok((members.push(member), after)),
            },
        }
    }
}

/// A group of slots with what the slots show.
pub open spec fn add_template(
    catalog: ProfileCatalog,
    items: TextMap<ItemId, ItemDefinition>,
    profile: ProfileId,
    group: ProfileGroup,
    context: ContextSnapshot,
    path: Seq<usize>,
    so_far: Progress,
) -> Result<(GroupShape, Progress), Fault>
    decreases group,
{
    match add_group(group.id@, so_far) {
        Err(e) => Err(e),
        Ok(entered) => match add_members(
            catalog,
            items,
            profile,
            group.elements@,
            context,
            path,
            entered,
        ) {
            Err(e) => Err(e),
            Ok((elements, next)) => Ok(
                (
                    GroupShape {
                        id: group.id@,
                        elements,
                        layout: group.layout,
                        spacing: group.spacing,
                        visibility_priority: group.visibility_priority,
                        compression_priority: group.compression_priority,
                    },
                    next,
                ),
            ),
        },
    }
}

pub open spec fn add_field(
    catalog: ProfileCatalog,
    items: TextMap<ItemId, ItemDefinition>,
    profile: ProfileId,
    element: ProfileElement,
    context: ContextSnapshot,
    before: Seq<ElementShape>,
    so_far: Progress,
) -> Result<(Seq<ElementShape>, Progress), Fault> {
    match element {
        ProfileElement::FixedSpace { width } => Ok(
            (before.push(ElementShape::FixedSpace { width }), so_far),
        ),
        ProfileElement::FlexibleSpace { minimum, weight } => Ok(
            (before.push(ElementShape::FlexibleSpace { minimum, weight }), so_far),
        ),
        ProfileElement::Slot(slot) => match add_slot(catalog, items, slot, context, so_far) {
            Err(e) => Err(e),
            Ok((elements, next)) => Ok(
                (
                    before + elements,
                    Progress {
                        slots: next.slots.push(
                            SlotPlace {
                                id: slot.id,
                                path: Seq::empty(),
                                start: before.len() as int,
                                end: (before.len() + elements.len()) as int,
                            },
                        ),
                        ..next
                    },
                ),
            ),
        },
        ProfileElement::Group(group) => match add_template(
            catalog,
            items,
            profile,
            group,
            context,
            seq![before.len() as usize],
            so_far,
        ) {
            Err(e) => Err(e),
            Ok((shape, next)) => Ok((before.push(ElementShape::Group(shape)), next)),
        },
    }
}

/// The first `n` elements of a profile.
pub open spec fn add_fields(
    catalog: ProfileCatalog,
    items: TextMap<ItemId, ItemDefinition>,
    profile: ProfileDefinition,
    context: ContextSnapshot,
    n: int,
) -> Result<(Seq<ElementShape>, Progress), Fault>
    decreases n,
{
    if n <= 0 {
        Ok((Seq::empty(), nothing_yet()))
    } else {
        match add_fields(catalog, items, profile, context, n - 1) {
            Err(e) => Err(e),
            Ok((elements, so_far)) => add_field(
                catalog,
                items,
                profile.id,
                profile.elements@[n - 1],
                context,
                elements,
                so_far,
            ),
        }
    }
}

/// The composition of a profile for a context, or why there is none.
pub open spec fn composed(
    catalog: ProfileCatalog,
    registry: Registry,
    profile_id: ProfileId,
    context: ContextSnapshot,
) -> Result<ProfileShape, Fault> {
    match profiles::catalog_fault(catalog, registry) {
        Some(e) => Err(fault_of(e)),
        None => match catalog.profile_map().lookup(profile_id@) {
            None => Err(Fault::Other(ProfileError::UnknownProfile(profile_id))),
            Some(profile) => match add_fields(
                catalog,
                registry.item_map(),
                profile,
                context,
                profile.elements@.len() as int,
            ) {
                Err(e) => Err(e),
                Ok((elements, progress)) => Ok(
                    ProfileShape {
                        profile: profile.id,
                        active_contributions: progress.contributions,
                        slots: progress.slots,
                        elements,
                        principal_item: (match profile.principal_item {
                            Some(id) => if progress.items.contains(id@) {
                                Some(id)
                            } else {
                                None
                            },
                            None => None,
                        }),
                    },
                ),
            },
        },
    }
}

// ---------------------------------------------------------------------------
// Composing

/// What a composition holds so far, in machine terms.
struct Tally {
    contributions: Vec<ContributionId>,
    slots: Vec<ComposedSlot>,
    items: TextSet<ItemId>,
    groups: TextSet<String>,
}

impl Tally {
    spec fn progress(self) -> Progress {
        Progress {
            contributions: self.contributions@,
            slots: slot_places(self.slots@),
            items: self.items@.to_set(),
            groups: self.groups@.to_set(),
        }
    }

    spec fn wf(self) -> bool {
        self.items.wf() && self.groups.wf()
    }

    fn new() -> (tally: Self)
        ensures
            tally.wf(),
            tally.progress() == nothing_yet(),
    {
        let tally: Tally = Tally {
            contributions: Vec::new(),
            slots: Vec::new(),
            items: TextSet::new(),
            groups: TextSet::new(),
        };
        proof {
            assert(tally.progress() =~= nothing_yet());
        }
        tally
    }

    fn add_slot(&mut self, id: SlotId, path: Vec<usize>, start: usize, end: usize)
        requires
            old(self).wf(),
        ensures
            final(self).wf(),
            final(self).progress() == (Progress {
                slots: old(self).progress().slots.push(
                    SlotPlace { id, path: path@, start: start as int, end: end as int },
                ),
                ..old(self).progress()
            }),
    {
        let place: ComposedSlot = ComposedSlot { id, path, elements: start..end };
        let ghost before = self.slots@;
        let ghost added = place@;
        self.slots.push(place);
        proof {
            assert(slot_places(self.slots@) =~= slot_places(before).push(added));
        }
    }

    fn add_contribution(&mut self, id: ContributionId)
        requires
            old(self).wf(),
        ensures
            final(self).wf(),
            final(self).progress() == (Progress {
                contributions: old(self).progress().contributions.push(id),
                ..old(self).progress()
            }),
    {
        self.contributions.push(id);
    }
}

fn insert_composed_group(tally: &mut Tally, group: String) -> (result: Result<(), ProfileError>)
    requires
        old(tally).wf(),
    ensures
        final(tally).wf(),
        add_group(group@, old(tally).progress()) == (match result {
            Ok(_) => Ok::<Progress, Fault>(final(tally).progress()),
            Err(e) => Err(fault_of(e)),
        }),
{
    proof {
        text::lemma_rank(tally.groups@, group@);
        text::lemma_insert_to_set(
            tally.groups@,
            text::rank(tally.groups@, group@) as int,
            group@,
        );
    }
    let copy: String = group.clone();
    if !tally.groups.insert(group) {
        return Err(ProfileError::DuplicateComposedGroup(copy));
    }
    Ok(())
}

fn resolve_item(
    registry: &Registry,
    contribution: &ContributionId,
    id: &ItemId,
    tally: &mut Tally,
) -> (result: Result<ItemSpec, ProfileError>)
    requires
        registry.wf(),
        old(tally).wf(),
    ensures
        final(tally).wf(),
        add_item(registry.item_map(), *contribution, *id, old(tally).progress()) == (match result {
            Ok(item) => Ok::<(ItemSpec, Progress), Fault>((item, final(tally).progress())),
            Err(e) => Err(fault_of(e)),
        }),
{
    proof {
        text::lemma_rank(tally.items@, id@);
        text::lemma_insert_to_set(tally.items@, text::rank(tally.items@, id@) as int, id@);
    }
    if !tally.items.insert(id.clone()) {
        return Err(ProfileError::DuplicateComposedItem(id.clone()));
    }
    match registry.item(id) {
        Some(known) => Ok(known.layout.clone()),
        None => Err(
            ProfileError::UnknownItem { contribution: contribution.clone(), item: id.clone() },
        ),
    }
}

proof fn lemma_add_parts_prefix(
    items: TextMap<ItemId, ItemDefinition>,
    contribution: ContributionId,
    elements: Seq<BarGroupElement>,
    so_far: Progress,
    k: int,
)
    requires
        0 <= k <= elements.len(),
    ensures
        add_parts(items, contribution, elements.subrange(0, k), so_far) matches Err(e)
            ==> add_parts(items, contribution, elements, so_far) == Err::<
            (Seq<ChildShape>, Progress),
            Fault,
        >(e),
    decreases elements.len() - k,
{
    if k < elements.len() {
        lemma_add_parts_prefix(items, contribution, elements, so_far, k + 1);
        assert(elements.subrange(0, k + 1).drop_last() =~= elements.subrange(0, k));
    } else {
        assert(elements.subrange(0, k) =~= elements);
    }
}

fn resolve_parts(
    registry: &Registry,
    contribution: &ContributionId,
    elements: &Vec<BarGroupElement>,
    tally: &mut Tally,
) -> (result: Result<Vec<GroupElement>, ProfileError>)
    requires
        registry.wf(),
        old(tally).wf(),
    ensures
        final(tally).wf(),
        add_parts(registry.item_map(), *contribution, elements@, old(tally).progress()) == (
        match result {
            Ok(parts) => Ok::<(Seq<ChildShape>, Progress), Fault>(
                (shape::child_shapes(parts@), final(tally).progress()),
            ),
            Err(e) => Err(fault_of(e)),
        }),
    decreases elements,
{
    let ghost items = registry.item_map();
    let ghost start = tally.progress();
    let mut parts: Vec<GroupElement> = Vec::new();
    let mut i: usize = 0;
    while i < elements.len()
        invariant
            registry.wf(),
            items == registry.item_map(),
            start == old(tally).progress(),
            tally.wf(),
            i <= elements@.len(),
            add_parts(items, *contribution, elements@.subrange(0, i as int), start) == Ok::<
                (Seq<ChildShape>, Progress),
                Fault,
            >((shape::child_shapes(parts@), tally.progress())),
        decreases elements@.len() - i,
    {
        let ghost after = elements@.subrange(0, i + 1);
        let ghost now = tally.progress();
        let ghost done = parts@;
        proof {
            assert(after.drop_last() =~= elements@.subrange(0, i as int));
            assert(after.last() == elements@[i as int]);
            lemma_add_parts_prefix(items, *contribution, elements@, start, i + 1);
            assert(add_parts(items, *contribution, after, start) == (match add_part(
                items,
                *contribution,
                elements@[i as int],
                now,
            ) {
                Err(e) => Err::<(Seq<ChildShape>, Progress), Fault>(e),
                Ok((part, then)) => Ok((shape::child_shapes(done).push(part), then)),
            }));
        }
        let part: GroupElement = match &elements[i] {
            BarGroupElement::Item(id) => GroupElement::Item(
                resolve_item(registry, contribution, id, tally)?,
            ),
            BarGroupElement::Group(group) => GroupElement::Group(
                resolve_contribution_group(registry, contribution, group, tally)?,
            ),
        };
        proof {
            shape::lemma_child_shapes_push(parts@, part);
            assert(add_part(items, *contribution, elements@[i as int], now) == Ok::<
                (ChildShape, Progress),
                Fault,
            >((shape::child_shape(part), tally.progress())));
        }
        parts.push(part);
        i = i + 1;
    }
    proof {
        assert(elements@.subrange(0, elements@.len() as int) =~= elements@);
    }
    Ok(parts)
}

fn resolve_contribution_group(
    registry: &Registry,
    contribution: &ContributionId,
    group: &BarGroup,
    tally: &mut Tally,
) -> (result: Result<GroupSpec, ProfileError>)
    requires
        registry.wf(),
        old(tally).wf(),
    ensures
        final(tally).wf(),
        add_cluster(registry.item_map(), *contribution, *group, old(tally).progress()) == (
        match result {
            Ok(cluster) => Ok::<(GroupShape, Progress), Fault>(
                (shape::group_shape(cluster), final(tally).progress()),
            ),
            Err(e) => Err(fault_of(e)),
        }),
    decreases group,
{
    insert_composed_group(tally, group.id.clone())?;
    let elements: Vec<GroupElement> = resolve_parts(
        registry,
        contribution,
        &group.elements,
        tally,
    )?;
    Ok(
        GroupSpec {
            id: group.id.clone(),
            elements,
            layout: group.layout,
            spacing: group.spacing,
            visibility_priority: group.visibility_priority,
            compression_priority: group.compression_priority,
        },
    )
}

fn resolve_contribution_element(
    registry: &Registry,
    contribution: &ContributionId,
    element: &BarElement,
    tally: &mut Tally,
) -> (result: Result<Element, ProfileError>)
    requires
        registry.wf(),
        old(tally).wf(),
    ensures
        final(tally).wf(),
        add_offer(registry.item_map(), *contribution, *element, old(tally).progress()) == (
        match result {
            Ok(e) => Ok::<(ElementShape, Progress), Fault>(
                (shape::element_shape(e), final(tally).progress()),
            ),
            Err(e) => Err(fault_of(e)),
        }),
{
    match element {
        BarElement::Item(id) => Ok(
            Element::Item(resolve_item(registry, contribution, id, tally)?),
        ),
        BarElement::Group(group) => Ok(
            Element::Group(resolve_contribution_group(registry, contribution, group, tally)?),
        ),
        BarElement::FixedSpace { width } => Ok(Element::FixedSpace { width: *width }),
        BarElement::FlexibleSpace { minimum, weight } => Ok(
            Element::FlexibleSpace { minimum: *minimum, weight: *weight },
        ),
        BarElement::ContextProxy => Err(
            ProfileError::ContextProxyInContribution(contribution.clone()),
        ),
    }
}

proof fn lemma_add_offers_prefix(
    items: TextMap<ItemId, ItemDefinition>,
    contribution: ContributionDefinition,
    k: int,
    n: int,
    before: Seq<ElementShape>,
    so_far: Progress,
)
    requires
        0 <= k <= n,
    ensures
        add_offers(items, contribution, k, before, so_far) matches Err(e) ==> add_offers(
            items,
            contribution,
            n,
            before,
            so_far,
        ) == Err::<(Seq<ElementShape>, Progress), Fault>(e),
    decreases n - k,
{
    if k < n {
        lemma_add_offers_prefix(items, contribution, k, n - 1, before, so_far);
    }
}

proof fn lemma_shapes_push(elements: Seq<Element>, element: Element)
    ensures
        shape::element_shapes(elements.push(element)) == shape::element_shapes(elements).push(
            shape::element_shape(element),
        ),
{
    assert(shape::element_shapes(elements.push(element)) =~= shape::element_shapes(elements).push(
        shape::element_shape(element),
    ));
}

/// Adds the elements of a contribution.
fn compose_contribution(
    registry: &Registry,
    contribution: &ContributionDefinition,
    elements: &mut Vec<Element>,
    tally: &mut Tally,
) -> (result: Result<(), ProfileError>)
    requires
        registry.wf(),
        old(tally).wf(),
    ensures
        final(tally).wf(),
        add_offers(
            registry.item_map(),
            *contribution,
            contribution.elements@.len() as int,
            shape::element_shapes(old(elements)@),
            old(tally).progress(),
        ) == (match result {
            Ok(_) => Ok::<(Seq<ElementShape>, Progress), Fault>(
                (shape::element_shapes(final(elements)@), final(tally).progress()),
            ),
            Err(e) => Err(fault_of(e)),
        }),
{
    let ghost items = registry.item_map();
    let ghost before = shape::element_shapes(elements@);
    let ghost start = tally.progress();
    let ghost n = contribution.elements@.len() as int;
    let mut i: usize = 0;
    while i < contribution.elements.len()
        invariant
            registry.wf(),
            items == registry.item_map(),
            before == shape::element_shapes(old(elements)@),
            start == old(tally).progress(),
            tally.wf(),
            n == contribution.elements@.len(),
            i <= n,
            add_offers(items, *contribution, i as int, before, start) == Ok::<
                (Seq<ElementShape>, Progress),
                Fault,
            >((shape::element_shapes(elements@), tally.progress())),
        decreases n - i,
    {
        proof {
            lemma_add_offers_prefix(items, *contribution, i + 1, n, before, start);
        }
        let element: Element = resolve_contribution_element(
            registry,
            &contribution.id,
            &contribution.elements[i],
            tally,
        )?;
        proof {
            lemma_shapes_push(elements@, element);
        }
        elements.push(element);
        i = i + 1;
    }
    Ok(())
}

proof fn lemma_add_contributions_prefix(
    items: TextMap<ItemId, ItemDefinition>,
    contributions: Seq<ContributionDefinition>,
    k: int,
    n: int,
    so_far: Progress,
)
    requires
        0 <= k <= n,
    ensures
        add_contributions(items, contributions, k, so_far) matches Err(e) ==> add_contributions(
            items,
            contributions,
            n,
            so_far,
        ) == Err::<(Seq<ElementShape>, Progress), Fault>(e),
    decreases n - k,
{
    if k < n {
        lemma_add_contributions_prefix(items, contributions, k, n - 1, so_far);
    }
}

/// Adds the elements that a slot shows.
fn compose_slot(
    catalog: &ProfileCatalog,
    registry: &Registry,
    slot: &SlotDefinition,
    context: &ContextSnapshot,
    tally: &mut Tally,
) -> (result: Result<Vec<Element>, ProfileError>)
    requires
        catalog.wf(),
        registry.wf(),
        context.wf(),
        old(tally).wf(),
    ensures
        final(tally).wf(),
        add_slot(*catalog, registry.item_map(), *slot, *context, old(tally).progress()) == (
        match result {
            Ok(elements) => Ok::<(Seq<ElementShape>, Progress), Fault>(
                (shape::element_shapes(elements@), final(tally).progress()),
            ),
            Err(e) => Err(fault_of(e)),
        }),
{
    let ghost items = registry.item_map();
    let ghost start = tally.progress();
    let selected: Vec<&ContributionDefinition> = catalog.select_bindings(slot, context);
    let ghost shown = select::pointed(selected@);
    let mut elements: Vec<Element> = Vec::new();
    let mut i: usize = 0;
    proof {
        assert(shape::element_shapes(elements@) =~= Seq::empty());
    }
    while i < selected.len()
        invariant
            registry.wf(),
            items == registry.item_map(),
            start == old(tally).progress(),
            shown == select::pointed(selected@),
            shown == select::selection(catalog.contribution_map(), *slot, *context),
            tally.wf(),
            i <= selected@.len(),
            add_contributions(items, shown, i as int, start) == Ok::<
                (Seq<ElementShape>, Progress),
                Fault,
            >((shape::element_shapes(elements@), tally.progress())),
        decreases selected@.len() - i,
    {
        let contribution: &ContributionDefinition = selected[i];
        proof {
            assert(shown[i as int] == *contribution);
            lemma_add_contributions_prefix(
                items,
                shown,
                i + 1,
                shown.len() as int,
                start,
            );
        }
        tally.add_contribution(contribution.id.clone());
        compose_contribution(registry, contribution, &mut elements, tally)?;
        i = i + 1;
    }
    Ok(elements)
}

// ---------------------------------------------------------------------------
// Slots inside groups

/// The slot binds no contribution with a space.
pub open spec fn spaceless_slot(
    contributions: TextMap<ContributionId, ContributionDefinition>,
    slot: SlotDefinition,
) -> bool {
    forall|i: int|
        0 <= i < slot.bindings@.len() ==> {
            let known = contributions.lookup((#[trigger] slot.bindings@[i]).contribution@);
            known is Some ==> !profiles::has_space(known->Some_0.elements@)
        }
}

pub open spec fn spaceless_member(
    contributions: TextMap<ContributionId, ContributionDefinition>,
    element: ProfileGroupElement,
) -> bool
    decreases element,
{
    match element {
        ProfileGroupElement::Slot(slot) => spaceless_slot(contributions, slot),
        ProfileGroupElement::Group(group) => spaceless_group(contributions, group),
    }
}

/// No slot of the group, at any depth, binds a contribution with a space.
pub open spec fn spaceless_group(
    contributions: TextMap<ContributionId, ContributionDefinition>,
    group: ProfileGroup,
) -> bool
    decreases group,
{
    forall|i: int|
        0 <= i < group.elements@.len() ==> spaceless_member(
            contributions,
            #[trigger] group.elements@[i],
        )
}

proof fn lemma_spaceless_slot(
    contributions: TextMap<ContributionId, ContributionDefinition>,
    profile: ProfileId,
    slot: SlotDefinition,
    n: int,
)
    requires
        0 <= n <= slot.bindings@.len(),
        profiles::bindings_fault(contributions, profile, slot, true, n) is None,
    ensures
        forall|i: int|
            0 <= i < n ==> {
                let known = contributions.lookup((#[trigger] slot.bindings@[i]).contribution@);
                known is Some ==> !profiles::has_space(known->Some_0.elements@)
            },
    decreases n,
{
    if n > 0 {
        lemma_spaceless_slot(contributions, profile, slot, n - 1);
    }
}

proof fn lemma_spaceless_member(
    contributions: TextMap<ContributionId, ContributionDefinition>,
    profile: ProfileId,
    group: String,
    element: ProfileGroupElement,
    depth: int,
    names: profiles::Names,
)
    requires
        profiles::member_check(contributions, profile, group, element, depth, names) is Ok,
    ensures
        spaceless_member(contributions, element),
    decreases element,
{
    match element {
        ProfileGroupElement::Slot(slot) => {
            lemma_spaceless_slot(contributions, profile, slot, slot.bindings@.len() as int);
        },
        ProfileGroupElement::Group(child) => {
            lemma_spaceless_group(contributions, profile, child, depth + 1, names);
        },
    }
}

proof fn lemma_spaceless_members(
    contributions: TextMap<ContributionId, ContributionDefinition>,
    profile: ProfileId,
    group: String,
    elements: Seq<ProfileGroupElement>,
    depth: int,
    names: profiles::Names,
    k: int,
)
    requires
        profiles::members_check(contributions, profile, group, elements, depth, names) is Ok,
        0 <= k < elements.len(),
    ensures
        spaceless_member(contributions, elements[k]),
    decreases elements,
{
    let rest = elements.drop_last();
    if k == elements.len() - 1 {
        lemma_spaceless_member(
            contributions,
            profile,
            group,
            elements.last(),
            depth,
            profiles::members_check(contributions, profile, group, rest, depth, names)->Ok_0,
        );
    } else {
        lemma_spaceless_members(contributions, profile, group, rest, depth, names, k);
    }
}

proof fn lemma_spaceless_group(
    contributions: TextMap<ContributionId, ContributionDefinition>,
    profile: ProfileId,
    group: ProfileGroup,
    depth: int,
    names: profiles::Names,
)
    requires
        profiles::template_check(contributions, profile, group, depth, names) is Ok,
    ensures
        spaceless_group(contributions, group),
    decreases group,
{
    let entered = profiles::Names {
        slots: names.slots,
        groups: names.groups.insert(group.id@),
    };
    assert forall|i: int| 0 <= i < group.elements@.len() implies spaceless_member(
        contributions,
        #[trigger] group.elements@[i],
    ) by {
        lemma_spaceless_members(
            contributions,
            profile,
            group.id,
            group.elements@,
            depth,
            entered,
            i,
        );
    }
}

/// The elements of a profile that are groups bind no spaces.
pub open spec fn spaceless_field(
    contributions: TextMap<ContributionId, ContributionDefinition>,
    element: ProfileElement,
) -> bool {
    element matches ProfileElement::Group(group) ==> spaceless_group(contributions, group)
}

pub(crate) proof fn lemma_spaceless_fields(
    contributions: TextMap<ContributionId, ContributionDefinition>,
    profile: ProfileId,
    elements: Seq<ProfileElement>,
    n: int,
    k: int,
)
    requires
        profiles::fields_check(contributions, profile, elements, n) is Ok,
        0 <= k < n,
    ensures
        spaceless_field(contributions, elements[k]),
    decreases n,
{
    if k == n - 1 {
        if let ProfileElement::Group(group) = elements[k] {
            lemma_spaceless_group(
                contributions,
                profile,
                group,
                1,
                profiles::fields_check(contributions, profile, elements, n - 1)->Ok_0,
            );
        }
    } else {
        lemma_spaceless_fields(contributions, profile, elements, n - 1, k);
    }
}

/// The elements are items and groups.
pub open spec fn solid(elements: Seq<ElementShape>) -> bool {
    forall|i: int|
        0 <= i < elements.len() ==> #[trigger] elements[i] is Item || elements[i] is Group
}

proof fn lemma_offers_solid(
    items: TextMap<ItemId, ItemDefinition>,
    contribution: ContributionDefinition,
    n: int,
    before: Seq<ElementShape>,
    so_far: Progress,
)
    requires
        0 <= n <= contribution.elements@.len(),
        !profiles::has_space(contribution.elements@),
        solid(before),
    ensures
        add_offers(items, contribution, n, before, so_far) matches Ok((elements, _)) ==> solid(
            elements,
        ),
    decreases n,
{
    if n > 0 {
        lemma_offers_solid(items, contribution, n - 1, before, so_far);
        let element = contribution.elements@[n - 1];
        assert(!(element is FixedSpace) && !(element is FlexibleSpace));
    }
}

proof fn lemma_contributions_solid(
    items: TextMap<ItemId, ItemDefinition>,
    contributions: Seq<ContributionDefinition>,
    n: int,
    so_far: Progress,
)
    requires
        0 <= n <= contributions.len(),
        forall|i: int|
            0 <= i < contributions.len() ==> !profiles::has_space(
                (#[trigger] contributions[i]).elements@,
            ),
    ensures
        add_contributions(items, contributions, n, so_far) matches Ok((elements, _)) ==> solid(
            elements,
        ),
    decreases n,
{
    if n > 0 {
        lemma_contributions_solid(items, contributions, n - 1, so_far);
        if let Ok((elements, next)) = add_contributions(items, contributions, n - 1, so_far) {
            let c = contributions[n - 1];
            lemma_offers_solid(
                items,
                c,
                c.elements@.len() as int,
                elements,
                Progress { contributions: next.contributions.push(c.id), ..next },
            );
        }
    }
}

proof fn lemma_candidates_spaceless(
    catalog: ProfileCatalog,
    slot: SlotDefinition,
    context: ContextSnapshot,
    n: int,
)
    requires
        spaceless_slot(catalog.contribution_map(), slot),
        0 <= n <= slot.bindings@.len(),
    ensures
        forall|i: int|
            0 <= i < select::candidates(catalog.contribution_map(), slot, context, n).len()
                ==> !profiles::has_space(
                (#[trigger] select::candidates(
                    catalog.contribution_map(),
                    slot,
                    context,
                    n,
                )[i]).elements@,
            ),
    decreases n,
{
    if n > 0 {
        lemma_candidates_spaceless(catalog, slot, context, n - 1);
        let map = catalog.contribution_map();
        let total = slot.bindings@.len() as int;
        select::bindings_stand_in_user_order(slot.bindings@, total);
        let at = select::ranking(slot.bindings@, total)[n - 1];
        assert(0 <= at < total);
        let known = map.lookup(slot.bindings@[at].contribution@);
        assert(known is Some ==> !profiles::has_space(known->Some_0.elements@));
        let before = select::candidates(map, slot, context, n - 1);
        let all = select::candidates(map, slot, context, n);
        assert forall|i: int| 0 <= i < all.len() implies !profiles::has_space(
            (#[trigger] all[i]).elements@,
        ) by {
            if i < before.len() {
                assert(all[i] == before[i]);
            }
        }
    }
}

/// What a slot inside a group shows is items and groups.
pub(crate) proof fn lemma_slot_solid(
    catalog: ProfileCatalog,
    items: TextMap<ItemId, ItemDefinition>,
    slot: SlotDefinition,
    context: ContextSnapshot,
    so_far: Progress,
)
    requires
        spaceless_slot(catalog.contribution_map(), slot),
    ensures
        add_slot(catalog, items, slot, context, so_far) matches Ok((elements, _)) ==> solid(
            elements,
        ),
{
    let n = slot.bindings@.len() as int;
    lemma_candidates_spaceless(catalog, slot, context, n);
    let all = select::candidates(catalog.contribution_map(), slot, context, n);
    select::the_favourite_is_best(all, all.len() as int);
    let shown = select::selection(catalog.contribution_map(), slot, context);
    assert forall|i: int| 0 <= i < shown.len() implies !profiles::has_space(
        (#[trigger] shown[i]).elements@,
    ) by {
        if slot.policy == profiles::SlotPolicy::Select {
            let best = select::favourite(all, all.len() as int)->Some_0;
            assert(shown[i] == all[best]);
        }
    }
    lemma_contributions_solid(items, shown, shown.len() as int, so_far);
}

fn into_children(elements: Vec<Element>) -> (children: Vec<GroupElement>)
    requires
        solid(shape::element_shapes(elements@)),
    ensures
        shape::child_shapes(children@) == as_children(shape::element_shapes(elements@)),
        children@.len() == elements@.len(),
{
    let ghost all = elements@;
    let ghost shapes = shape::element_shapes(all);
    let mut rest: Vec<Element> = elements;
    let mut children: Vec<GroupElement> = Vec::new();
    proof {
        assert(rest@ =~= all.subrange(0, all.len() as int));
        assert(as_children(shapes).subrange(0, 0) =~= Seq::empty());
    }
    while rest.len() > 0
        invariant
            shapes == shape::element_shapes(all),
            solid(shapes),
            children@.len() + rest@.len() == all.len(),
            rest@ == all.subrange(children@.len() as int, all.len() as int),
            shape::child_shapes(children@) == as_children(shapes).subrange(
                0,
                children@.len() as int,
            ),
        decreases rest@.len(),
    {
        let ghost k = children@.len() as int;
        let ghost before = rest@;
        let ghost done = children@;
        let element: Element = rest.remove(0);
        proof {
            assert(element == all[k]);
            assert(shapes[k] == shape::element_shape(element));
            assert(rest@ =~= all.subrange(k + 1, all.len() as int));
            assert(shapes[k] is Item || shapes[k] is Group);
        }
        let child: GroupElement = match element {
            Element::Item(item) => GroupElement::Item(item),
            Element::Group(group) => GroupElement::Group(group),
            _ => {
                proof {
                    assert(false);
                }
                GroupElement::Group(GroupSpec::new("", Vec::new()))
            },
        };
        proof {
            shape::lemma_child_shapes_push(done, child);
            assert(as_children(shapes)[k] == as_child(shapes[k]));
            assert(shape::child_shape(child) == as_child(shapes[k]));
            assert(as_children(shapes).subrange(0, k + 1) =~= as_children(shapes).subrange(
                0,
                k,
            ).push(as_child(shapes[k])));
        }
        children.push(child);
    }
    proof {
        assert(as_children(shapes).subrange(0, all.len() as int) =~= as_children(shapes));
    }
    children
}

proof fn lemma_add_members_prefix(
    catalog: ProfileCatalog,
    items: TextMap<ItemId, ItemDefinition>,
    profile: ProfileId,
    elements: Seq<ProfileGroupElement>,
    context: ContextSnapshot,
    path: Seq<usize>,
    so_far: Progress,
    k: int,
)
    requires
        0 <= k <= elements.len(),
    ensures
        add_members(
            catalog,
            items,
            profile,
            elements.subrange(0, k),
            context,
            path,
            so_far,
        ) matches Err(e) ==> add_members(
            catalog,
            items,
            profile,
            elements,
            context,
            path,
            so_far,
        ) == Err::<(Seq<ChildShape>, Progress), Fault>(e),
    decreases elements.len() - k,
{
    if k < elements.len() {
        lemma_add_members_prefix(
            catalog,
            items,
            profile,
            elements,
            context,
            path,
            so_far,
            k + 1,
        );
        assert(elements.subrange(0, k + 1).drop_last() =~= elements.subrange(0, k));
    } else {
        assert(elements.subrange(0, k) =~= elements);
    }
}

fn extended(path: &Vec<usize>, index: usize) -> (longer: Vec<usize>)
    ensures
        longer@ == path@.push(index),
{
    let mut longer: Vec<usize> = Vec::new();
    let mut i: usize = 0;
    while i < path.len()
        invariant
            i <= path@.len(),
            longer@ == path@.subrange(0, i as int),
        decreases path@.len() - i,
    {
        longer.push(path[i]);
        proof {
            assert(path@.subrange(0, i + 1) =~= path@.subrange(0, i as int).push(path@[i as int]));
        }
        i = i + 1;
    }
    proof {
        assert(path@.subrange(0, path@.len() as int) =~= path@);
    }
    longer.push(index);
    longer
}

/// A slot inside a group becomes a group of its own.
fn compose_group_slot(
    catalog: &ProfileCatalog,
    registry: &Registry,
    profile: &ProfileId,
    slot: &SlotDefinition,
    context: &ContextSnapshot,
    path: Vec<usize>,
    tally: &mut Tally,
) -> (result: Result<GroupSpec, ProfileError>)
    requires
        catalog.wf(),
        registry.wf(),
        context.wf(),
        old(tally).wf(),
        spaceless_slot(catalog.contribution_map(), *slot),
    ensures
        final(tally).wf(),
        add_member(
            *catalog,
            registry.item_map(),
            *profile,
            ProfileGroupElement::Slot(*slot),
            *context,
            path@,
            old(tally).progress(),
        ) == (match result {
            Ok(group) => Ok::<(ChildShape, Progress), Fault>(
                (ChildShape::Group(shape::group_shape(group)), final(tally).progress()),
            ),
            Err(e) => Err(fault_of(e)),
        }),
{
    proof {
        lemma_slot_solid(
            *catalog,
            registry.item_map(),
            *slot,
            *context,
            tally.progress(),
        );
    }
    let elements: Vec<Element> = compose_slot(catalog, registry, slot, context, tally)?;
    let id: String = text::joined4("@slot/", profile.as_str(), "/", slot.id.as_str());
    insert_composed_group(tally, id.clone())?;
    tally.add_slot(slot.id.clone(), path, 0, elements.len());
    let group: GroupSpec = GroupSpec {
        id,
        elements: into_children(elements),
        layout: GroupLayout::Natural,
        spacing: 0,
        visibility_priority: 0,
        compression_priority: 0,
    };
    Ok(group)
}

fn compose_members(
    catalog: &ProfileCatalog,
    registry: &Registry,
    profile: &ProfileId,
    elements: &Vec<ProfileGroupElement>,
    context: &ContextSnapshot,
    path: &Vec<usize>,
    tally: &mut Tally,
) -> (result: Result<Vec<GroupElement>, ProfileError>)
    requires
        catalog.wf(),
        registry.wf(),
        context.wf(),
        old(tally).wf(),
        forall|i: int|
            0 <= i < elements@.len() ==> spaceless_member(
                catalog.contribution_map(),
                #[trigger] elements@[i],
            ),
    ensures
        final(tally).wf(),
        add_members(
            *catalog,
            registry.item_map(),
            *profile,
            elements@,
            *context,
            path@,
            old(tally).progress(),
        ) == (match result {
            Ok(members) => Ok::<(Seq<ChildShape>, Progress), Fault>(
                (shape::child_shapes(members@), final(tally).progress()),
            ),
            Err(e) => Err(fault_of(e)),
        }),
    decreases elements,
{
    let ghost items = registry.item_map();
    let ghost start = tally.progress();
    let mut members: Vec<GroupElement> = Vec::new();
    let mut i: usize = 0;
    while i < elements.len()
        invariant
            catalog.wf(),
            registry.wf(),
            context.wf(),
            forall|k: int|
                0 <= k < elements@.len() ==> spaceless_member(
                    catalog.contribution_map(),
                    #[trigger] elements@[k],
                ),
            items == registry.item_map(),
            start == old(tally).progress(),
            tally.wf(),
            i <= elements@.len(),
            members@.len() == i,
            add_members(
                *catalog,
                items,
                *profile,
                elements@.subrange(0, i as int),
                *context,
                path@,
                start,
            ) == Ok::<(Seq<ChildShape>, Progress), Fault>(
                (shape::child_shapes(members@), tally.progress()),
            ),
        decreases elements@.len() - i,
    {
        let ghost after = elements@.subrange(0, i + 1);
        let ghost now = tally.progress();
        let ghost done = members@;
        proof {
            assert(spaceless_member(catalog.contribution_map(), elements@[i as int]));
            assert(after.drop_last() =~= elements@.subrange(0, i as int));
            assert(after.last() == elements@[i as int]);
            lemma_add_members_prefix(
                *catalog,
                items,
                *profile,
                elements@,
                *context,
                path@,
                start,
                i + 1,
            );
            assert(add_members(*catalog, items, *profile, after, *context, path@, start) == (
            match add_member(
                *catalog,
                items,
                *profile,
                elements@[i as int],
                *context,
                path@.push(i),
                now,
            ) {
                Err(e) => Err::<(Seq<ChildShape>, Progress), Fault>(e),
                Ok((member, then)) => Ok((shape::child_shapes(done).push(member), then)),
            }));
        }
        let child_path: Vec<usize> = extended(path, i);
        let member: GroupSpec = match &elements[i] {
            ProfileGroupElement::Slot(slot) => compose_group_slot(
                catalog,
                registry,
                profile,
                slot,
                context,
                child_path,
                tally,
            )?,
            ProfileGroupElement::Group(child) => compose_profile_group(
                catalog,
                registry,
                profile,
                child,
                context,
                child_path,
                tally,
            )?,
        };
        let child: GroupElement = GroupElement::Group(member);
        proof {
            shape::lemma_child_shapes_push(done, child);
            assert(shape::child_shape(child) == ChildShape::Group(shape::group_shape(member)));
            assert(add_member(
                *catalog,
                items,
                *profile,
                elements@[i as int],
                *context,
                path@.push(i),
                now,
            ) == Ok::<(ChildShape, Progress), Fault>(
                (ChildShape::Group(shape::group_shape(member)), tally.progress()),
            ));
        }
        members.push(child);
        i = i + 1;
    }
    proof {
        assert(elements@.subrange(0, elements@.len() as int) =~= elements@);
    }
    Ok(members)
}

fn compose_profile_group(
    catalog: &ProfileCatalog,
    registry: &Registry,
    profile: &ProfileId,
    group: &ProfileGroup,
    context: &ContextSnapshot,
    path: Vec<usize>,
    tally: &mut Tally,
) -> (result: Result<GroupSpec, ProfileError>)
    requires
        catalog.wf(),
        registry.wf(),
        context.wf(),
        old(tally).wf(),
        spaceless_group(catalog.contribution_map(), *group),
    ensures
        final(tally).wf(),
        add_template(
            *catalog,
            registry.item_map(),
            *profile,
            *group,
            *context,
            path@,
            old(tally).progress(),
        ) == (match result {
            Ok(composed) => Ok::<(GroupShape, Progress), Fault>(
                (shape::group_shape(composed), final(tally).progress()),
            ),
            Err(e) => Err(fault_of(e)),
        }),
    decreases group,
{
    insert_composed_group(tally, group.id.clone())?;
    let elements: Vec<GroupElement> = compose_members(
        catalog,
        registry,
        profile,
        &group.elements,
        context,
        &path,
        tally,
    )?;
    Ok(
        GroupSpec {
            id: group.id.clone(),
            elements,
            layout: group.layout,
            spacing: group.spacing,
            visibility_priority: group.visibility_priority,
            compression_priority: group.compression_priority,
        },
    )
}

proof fn lemma_add_fields_prefix(
    catalog: ProfileCatalog,
    items: TextMap<ItemId, ItemDefinition>,
    profile: ProfileDefinition,
    context: ContextSnapshot,
    k: int,
    n: int,
)
    requires
        0 <= k <= n,
    ensures
        add_fields(catalog, items, profile, context, k) matches Err(e) ==> add_fields(
            catalog,
            items,
            profile,
            context,
            n,
        ) == Err::<(Seq<ElementShape>, Progress), Fault>(e),
    decreases n - k,
{
    if k < n {
        lemma_add_fields_prefix(catalog, items, profile, context, k, n - 1);
    }
}

fn append_all(elements: &mut Vec<Element>, more: Vec<Element>)
    ensures
        shape::element_shapes(final(elements)@) == shape::element_shapes(old(elements)@)
            + shape::element_shapes(more@),
        final(elements)@.len() == old(elements)@.len() + more@.len(),
{
    let ghost before = elements@;
    let mut rest: Vec<Element> = more;
    elements.append(&mut rest);
    proof {
        assert(elements@ =~= before + more@);
        assert(shape::element_shapes(elements@) =~= shape::element_shapes(before)
            + shape::element_shapes(more@));
    }
}

/// Adds one element of a profile.
fn compose_field(
    catalog: &ProfileCatalog,
    registry: &Registry,
    profile: &ProfileId,
    element: &ProfileElement,
    context: &ContextSnapshot,
    elements: &mut Vec<Element>,
    tally: &mut Tally,
) -> (result: Result<(), ProfileError>)
    requires
        catalog.wf(),
        registry.wf(),
        context.wf(),
        old(tally).wf(),
        spaceless_field(catalog.contribution_map(), *element),
    ensures
        final(tally).wf(),
        add_field(
            *catalog,
            registry.item_map(),
            *profile,
            *element,
            *context,
            shape::element_shapes(old(elements)@),
            old(tally).progress(),
        ) == (match result {
            Ok(_) => Ok::<(Seq<ElementShape>, Progress), Fault>(
                (shape::element_shapes(final(elements)@), final(tally).progress()),
            ),
            Err(e) => Err(fault_of(e)),
        }),
{
    let ghost before = elements@;
    match element {
        ProfileElement::FixedSpace { width } => {
            let space: Element = Element::FixedSpace { width: *width };
            proof {
                lemma_shapes_push(before, space);
            }
            elements.push(space);
        },
        ProfileElement::FlexibleSpace { minimum, weight } => {
            let space: Element = Element::FlexibleSpace { minimum: *minimum, weight: *weight };
            proof {
                lemma_shapes_push(before, space);
            }
            elements.push(space);
        },
        ProfileElement::Slot(slot) => {
            let start: usize = elements.len();
            let more: Vec<Element> = compose_slot(catalog, registry, slot, context, tally)?;
            append_all(elements, more);
            let path: Vec<usize> = Vec::new();
            proof {
                assert(path@ =~= Seq::empty());
            }
            tally.add_slot(slot.id.clone(), path, start, elements.len());
        },
        ProfileElement::Group(group) => {
            let mut path: Vec<usize> = Vec::new();
            path.push(elements.len());
            proof {
                assert(path@ =~= seq![before.len() as usize]);
            }
            let composed: GroupSpec = compose_profile_group(
                catalog,
                registry,
                profile,
                group,
                context,
                path,
                tally,
            )?;
            let member: Element = Element::Group(composed);
            proof {
                lemma_shapes_push(before, member);
            }
            elements.push(member);
        },
    }
    Ok(())
}

impl ProfileCatalog {
    /// Composes a profile for a context.
    pub fn compose(
        &self,
        registry: &Registry,
        profile_id: &ProfileId,
        context: &ContextSnapshot,
    ) -> (result: Result<ProfileComposition, ProfileError>)
        requires
            self.wf(),
            registry.wf(),
            context.wf(),
        ensures
            composed(*self, *registry, *profile_id, *context) == (match result {
                Ok(composition) => Ok::<ProfileShape, Fault>(composition@),
                Err(e) => Err(fault_of(e)),
            }),
    {
        self.validate(registry)?;
        let profile: &ProfileDefinition = match self.profile(profile_id) {
            Some(profile) => profile,
            None => {
                return Err(ProfileError::UnknownProfile(profile_id.clone()));
            },
        };
        let ghost n = profile.elements@.len() as int;
        let ghost items = registry.item_map();
        proof {
            lemma_profile_checked(*self, *registry, profile_id@);
        }
        let mut elements: Vec<Element> = Vec::new();
        let mut tally: Tally = Tally::new();
        let mut i: usize = 0;
        proof {
            assert(shape::element_shapes(elements@) =~= Seq::empty());
        }
        while i < profile.elements.len()
            invariant
                self.wf(),
                registry.wf(),
                context.wf(),
                profiles::catalog_fault(*self, *registry) is None,
                self.profile_map().lookup(profile_id@) == Some(*profile),
                items == registry.item_map(),
                n == profile.elements@.len(),
                profiles::fields_check(
                    self.contribution_map(),
                    profile.id,
                    profile.elements@,
                    n,
                ) is Ok,
                i <= n,
                tally.wf(),
                add_fields(*self, items, *profile, *context, i as int) == Ok::<
                    (Seq<ElementShape>, Progress),
                    Fault,
                >((shape::element_shapes(elements@), tally.progress())),
            decreases n - i,
        {
            proof {
                lemma_add_fields_prefix(*self, items, *profile, *context, i + 1, n);
                lemma_spaceless_fields(
                    self.contribution_map(),
                    profile.id,
                    profile.elements@,
                    n,
                    i as int,
                );
            }
            compose_field(
                self,
                registry,
                &profile.id,
                &profile.elements[i],
                context,
                &mut elements,
                &mut tally,
            )?;
            i = i + 1;
        }
        let principal_item: Option<ItemId> = match &profile.principal_item {
            Some(id) => if tally.items.contains(id.as_str()) {
                Some(id.clone())
            } else {
                None
            },
            None => None,
        };
        Ok(
            ProfileComposition {
                profile: profile.id.clone(),
                active_contributions: tally.contributions,
                slots: tally.slots,
                bar: BarSpec { elements, principal_item },
            },
        )
    }
}

pub(crate) proof fn lemma_profile_checked(
    catalog: ProfileCatalog,
    registry: Registry,
    id: Seq<char>,
)
    requires
        catalog.wf(),
        profiles::catalog_fault(catalog, registry) is None,
        catalog.profile_map().has(id),
    ensures
        ({
            let profile = catalog.profile_map().lookup(id)->Some_0;
            profiles::fields_check(
                catalog.contribution_map(),
                profile.id,
                profile.elements@,
                profile.elements@.len() as int,
            ) is Ok
        }),
{
    let map = catalog.profile_map();
    let k = text::rank(map.keys(), id) as int;
    text::lemma_rank(map.keys(), id);
    profiles::lemma_profiles_fault_prefix(
        catalog.contribution_map(),
        map.values(),
        k + 1,
        map.values().len() as int,
    );
}

} // verus!
