//! User-owned profile templates.
use vstd::prelude::*;

use crate::layout::{GroupLayout, ItemId, MAX_GROUP_DEPTH};
use crate::model::context::{ContextPredicate, ContextScope};
use crate::model::ids::{ContributionId, ProfileId, SlotId};
use crate::model::registry::{
    BarElement, BarGroup, BarGroupElement, ItemDefinition, Registry,
};
use crate::text;
use crate::text::{TextMap, TextSet};

verus! {

/// Which of its bindings a slot shows.
#[derive(Clone, Copy, Debug, PartialEq, Eq, Structural)]
pub enum SlotPolicy {
    /// Include every active binding in user-defined order.
    Collect,
    /// Include only the highest priority active binding.
    Select,
    /// Include every binding regardless of its context predicate.
    Fixed,
}

/// Elements that can be bound to a slot.
#[derive(Clone, Debug, PartialEq, Eq)]
pub struct ContributionDefinition {
    pub id: ContributionId,
    pub elements: Vec<BarElement>,
    pub predicate: ContextPredicate,
    pub scope: ContextScope,
    pub priority: i32,
}

impl ContributionDefinition {
    pub fn new(id: &str, elements: Vec<BarElement>) -> (contribution: Self)
        ensures
            contribution.id@ == id@,
            contribution.elements == elements,
            contribution.predicate == ContextPredicate::Always,
            contribution.scope == ContextScope::Global,
            contribution.priority == 0,
    {
        ContributionDefinition {
            id: ContributionId::new(id),
            elements,
            predicate: ContextPredicate::Always,
            scope: ContextScope::Global,
            priority: 0,
        }
    }

    pub fn when(self, predicate: ContextPredicate) -> (contribution: Self)
        ensures
            contribution == (ContributionDefinition { predicate, ..self }),
    {
        let mut contribution: ContributionDefinition = self;
        contribution.predicate = predicate;
        contribution
    }

    pub fn scope(self, scope: ContextScope) -> (contribution: Self)
        ensures
            contribution == (ContributionDefinition { scope, ..self }),
    {
        let mut contribution: ContributionDefinition = self;
        contribution.scope = scope;
        contribution
    }

    pub fn priority(self, priority: i32) -> (contribution: Self)
        ensures
            contribution == (ContributionDefinition { priority, ..self }),
    {
        let mut contribution: ContributionDefinition = self;
        contribution.priority = priority;
        contribution
    }
}

/// A contribution in a slot.
#[derive(Debug, PartialEq, Eq)]
pub struct ContributionBinding {
    pub contribution: ContributionId,
    pub order: i32,
}

impl Clone for ContributionBinding {
    fn clone(&self) -> (copy: Self)
        ensures
            copy == *self,
    {
        ContributionBinding { contribution: self.contribution.clone(), order: self.order }
    }
}

impl ContributionBinding {
    pub fn new(contribution: &str) -> (binding: Self)
        ensures
            binding.contribution@ == contribution@,
            binding.order == 0,
    {
        ContributionBinding { contribution: ContributionId::new(contribution), order: 0 }
    }

    pub fn order(self, order: i32) -> (binding: Self)
        ensures
            binding == (ContributionBinding { order, ..self }),
    {
        let mut binding: ContributionBinding = self;
        binding.order = order;
        binding
    }
}

/// A place for contributions.
#[derive(Debug, PartialEq, Eq)]
pub struct SlotDefinition {
    pub id: SlotId,
    pub policy: SlotPolicy,
    pub bindings: Vec<ContributionBinding>,
}

/// The slots are the same.
pub open spec fn alike_slots(left: SlotDefinition, right: SlotDefinition) -> bool {
    left.id == right.id && left.policy == right.policy && left.bindings@ == right.bindings@
}

impl Clone for SlotDefinition {
    fn clone(&self) -> (copy: Self)
        ensures
            alike_slots(*self, copy),
    {
        let mut bindings: Vec<ContributionBinding> = Vec::new();
        let mut i: usize = 0;
        while i < self.bindings.len()
            invariant
                i <= self.bindings@.len(),
                bindings@ == self.bindings@.subrange(0, i as int),
            decreases self.bindings@.len() - i,
        {
            bindings.push(self.bindings[i].clone());
            proof {
                assert(bindings@ =~= self.bindings@.subrange(0, i + 1));
            }
            i = i + 1;
        }
        proof {
            assert(bindings@ =~= self.bindings@);
        }
        SlotDefinition { id: self.id.clone(), policy: self.policy, bindings }
    }
}

impl SlotDefinition {
    pub fn new(id: &str, policy: SlotPolicy, bindings: Vec<ContributionBinding>) -> (slot: Self)
        ensures
            slot.id@ == id@,
            slot.policy == policy,
            slot.bindings == bindings,
    {
        SlotDefinition { id: SlotId::new(id), policy, bindings }
    }
}

/// An element of a profile.
#[derive(Clone, Debug, PartialEq, Eq)]
pub enum ProfileElement {
    Slot(SlotDefinition),
    Group(ProfileGroup),
    FixedSpace { width: u32 },
    FlexibleSpace { minimum: u32, weight: u32 },
}

/// A member of a group of slots.
#[derive(Debug, PartialEq, Eq)]
pub enum ProfileGroupElement {
    Slot(SlotDefinition),
    Group(ProfileGroup),
}

/// Slots that stand together.
#[derive(Debug, PartialEq, Eq)]
pub struct ProfileGroup {
    pub id: String,
    pub elements: Vec<ProfileGroupElement>,
    pub layout: GroupLayout,
    pub spacing: u32,
    pub visibility_priority: i32,
    pub compression_priority: i32,
}

/// The members are the same, at any depth.
pub open spec fn alike_members(left: ProfileGroupElement, right: ProfileGroupElement) -> bool
    decreases left,
{
    match (left, right) {
        (ProfileGroupElement::Slot(left), ProfileGroupElement::Slot(right)) => {
            alike_slots(left, right)
        },
        (ProfileGroupElement::Group(left), ProfileGroupElement::Group(right)) => {
            alike_groups(left, right)
        },
        _ => false,
    }
}

/// The groups are the same, and so are their members.
pub open spec fn alike_groups(left: ProfileGroup, right: ProfileGroup) -> bool
    decreases left,
{
    &&& left.id@ == right.id@
    &&& left.layout == right.layout
    &&& left.spacing == right.spacing
    &&& left.visibility_priority == right.visibility_priority
    &&& left.compression_priority == right.compression_priority
    &&& left.elements@.len() == right.elements@.len()
    &&& forall|i: int|
        #![trigger left.elements@[i]]
        0 <= i < left.elements@.len() ==> alike_members(left.elements@[i], right.elements@[i])
}

fn copy_members(elements: &Vec<ProfileGroupElement>) -> (copy: Vec<ProfileGroupElement>)
    ensures
        copy@.len() == elements@.len(),
        forall|i: int|
            #![trigger elements@[i]]
            0 <= i < elements@.len() ==> alike_members(elements@[i], copy@[i]),
    decreases elements,
{
    let mut copy: Vec<ProfileGroupElement> = Vec::new();
    let mut i: usize = 0;
    while i < elements.len()
        invariant
            i <= elements@.len(),
            copy@.len() == i,
            forall|k: int|
                #![trigger elements@[k]]
                0 <= k < i ==> alike_members(elements@[k], copy@[k]),
        decreases elements@.len() - i,
    {
        let member: ProfileGroupElement = match &elements[i] {
            ProfileGroupElement::Slot(slot) => ProfileGroupElement::Slot(slot.clone()),
            ProfileGroupElement::Group(group) => ProfileGroupElement::Group(copy_group(group)),
        };
        copy.push(member);
        i = i + 1;
    }
    copy
}

fn copy_group(group: &ProfileGroup) -> (copy: ProfileGroup)
    ensures
        alike_groups(*group, copy),
    decreases group,
{
    ProfileGroup {
        id: group.id.clone(),
        elements: copy_members(&group.elements),
        layout: group.layout,
        spacing: group.spacing,
        visibility_priority: group.visibility_priority,
        compression_priority: group.compression_priority,
    }
}

impl Clone for ProfileGroupElement {
    fn clone(&self) -> (copy: Self)
        ensures
            alike_members(*self, copy),
    {
        match self {
            ProfileGroupElement::Slot(slot) => ProfileGroupElement::Slot(slot.clone()),
            ProfileGroupElement::Group(group) => ProfileGroupElement::Group(copy_group(group)),
        }
    }
}

impl Clone for ProfileGroup {
    fn clone(&self) -> (copy: Self)
        ensures
            alike_groups(*self, copy),
    {
        copy_group(self)
    }
}

impl ProfileGroup {
    pub fn new(id: &str, elements: Vec<ProfileGroupElement>) -> (group: Self)
        ensures
            group.id@ == id@,
            group.elements == elements,
            group.layout == GroupLayout::Natural,
            group.spacing == 0,
            group.visibility_priority == 0,
            group.compression_priority == 0,
    {
        ProfileGroup {
            id: id.to_owned(),
            elements,
            layout: GroupLayout::Natural,
            spacing: 0,
            visibility_priority: 0,
            compression_priority: 0,
        }
    }

    pub fn layout(self, layout: GroupLayout) -> (group: Self)
        ensures
            group == (ProfileGroup { layout, ..self }),
    {
        let mut group: ProfileGroup = self;
        group.layout = layout;
        group
    }

    pub fn spacing(self, spacing: u32) -> (group: Self)
        ensures
            group == (ProfileGroup { spacing, ..self }),
    {
        let mut group: ProfileGroup = self;
        group.spacing = spacing;
        group
    }

    pub fn visibility_priority(self, priority: i32) -> (group: Self)
        ensures
            group == (ProfileGroup { visibility_priority: priority, ..self }),
    {
        let mut group: ProfileGroup = self;
        group.visibility_priority = priority;
        group
    }

    pub fn compression_priority(self, priority: i32) -> (group: Self)
        ensures
            group == (ProfileGroup { compression_priority: priority, ..self }),
    {
        let mut group: ProfileGroup = self;
        group.compression_priority = priority;
        group
    }
}

/// A template for a bar.
#[derive(Clone, Debug, PartialEq, Eq)]
pub struct ProfileDefinition {
    pub id: ProfileId,
    pub elements: Vec<ProfileElement>,
    pub principal_item: Option<ItemId>,
}

impl ProfileDefinition {
    pub fn new(id: &str, elements: Vec<ProfileElement>) -> (profile: Self)
        ensures
            profile.id@ == id@,
            profile.elements == elements,
            profile.principal_item is None,
    {
        ProfileDefinition { id: ProfileId::new(id), elements, principal_item: None }
    }

    pub fn principal_item(self, item: &str) -> (profile: Self)
        ensures
            profile.principal_item matches Some(i) && i@ == item@,
            profile == (ProfileDefinition { principal_item: profile.principal_item, ..self }),
    {
        let mut profile: ProfileDefinition = self;
        profile.principal_item = Some(ItemId::new(item));
        profile
    }
}

/// Why profiles or a composition are refused.
#[derive(Clone, Debug, PartialEq, Eq)]
pub enum ProfileError {
    EmptyContributionId,
    EmptyProfileId,
    EmptySlotId(ProfileId),
    EmptyModeId,
    DuplicateContribution(ContributionId),
    DuplicateProfile(ProfileId),
    DuplicateSlot { profile: ProfileId, slot: SlotId },
    InvalidGroupId { profile: ProfileId, group: String },
    DuplicateGroup { profile: ProfileId, group: String },
    GroupDepthExceeded { profile: ProfileId, group: String },
    InvalidContributionGroupId { contribution: ContributionId, group: String },
    DuplicateContributionGroup { contribution: ContributionId, group: String },
    ContributionGroupDepthExceeded { contribution: ContributionId, group: String },
    DuplicateComposedGroup(String),
    UnknownContribution { profile: ProfileId, slot: SlotId, contribution: ContributionId },
    UnknownProfile(ProfileId),
    UnknownItem { contribution: ContributionId, item: ItemId },
    DuplicateComposedItem(ItemId),
    ContextProxyInContribution(ContributionId),
    ZeroFlexibleWeightInContribution(ContributionId),
    ZeroFlexibleWeightInProfile(ProfileId),
    SpaceInGroupedSlot { profile: ProfileId, slot: SlotId, contribution: ContributionId },
}

impl ProfileError {
    /// What the message says.
    pub open spec fn wording(self) -> Seq<char> {
        match self {
            ProfileError::EmptyContributionId => "contribution IDs must not be empty"@,
            ProfileError::EmptyProfileId => "profile IDs must not be empty"@,
            ProfileError::EmptySlotId(profile) => "profile "@ + profile@ + " has an empty slot ID"@,
            ProfileError::EmptyModeId => "mode IDs must not be empty"@,
            ProfileError::DuplicateContribution(id) => "duplicate contribution "@ + id@,
            ProfileError::DuplicateProfile(id) => "duplicate profile "@ + id@,
            ProfileError::DuplicateSlot { profile, slot } => "profile "@ + profile@
                + " contains duplicate slot "@ + slot@,
            ProfileError::InvalidGroupId { profile, group } => "profile "@ + profile@
                + " has invalid group ID "@ + text::quotation(group@),
            ProfileError::DuplicateGroup { profile, group } => "profile "@ + profile@
                + " contains duplicate group "@ + group@,
            ProfileError::GroupDepthExceeded { profile, group } => "profile "@ + profile@
                + " group "@ + group@ + " exceeds the maximum nesting depth"@,
            ProfileError::InvalidContributionGroupId { contribution, group } => "contribution "@
                + contribution@ + " has invalid group ID "@ + text::quotation(group@),
            ProfileError::DuplicateContributionGroup { contribution, group } => "contribution "@
                + contribution@ + " contains duplicate group "@ + group@,
            ProfileError::ContributionGroupDepthExceeded { contribution, group } => "contribution "@
                + contribution@ + " group "@ + group@ + " exceeds the maximum nesting depth"@,
            ProfileError::DuplicateComposedGroup(group) => "composed profile contains group "@
                + group@ + " more than once"@,
            ProfileError::UnknownContribution { profile, slot, contribution } => "profile "@
                + profile@ + " slot "@ + slot@ + " references unknown contribution "@
                + contribution@,
            ProfileError::UnknownProfile(profile) => "unknown profile "@ + profile@,
            ProfileError::UnknownItem { contribution, item } => "contribution "@ + contribution@
                + " references unknown item "@ + item@,
            ProfileError::DuplicateComposedItem(item) => "composed profile contains item "@ + item@
                + " more than once"@,
            ProfileError::ContextProxyInContribution(contribution) => "contribution "@
                + contribution@ + " cannot contain a context proxy"@,
            ProfileError::ZeroFlexibleWeightInContribution(contribution) => "contribution "@
                + contribution@ + " contains a zero-weight flexible space"@,
            ProfileError::ZeroFlexibleWeightInProfile(profile) => "profile "@ + profile@
                + " contains a zero-weight flexible space"@,
            ProfileError::SpaceInGroupedSlot { profile, slot, contribution } => "profile "@
                + profile@ + " grouped slot "@ + slot@ + " binds contribution "@ + contribution@
                + " containing a space"@,
        }
    }

    /// The message for a person.
    pub fn message(&self) -> (text: String)
        ensures
            text@ == self.wording(),
    {
        match self {
            ProfileError::EmptyContributionId => "contribution IDs must not be empty".to_owned(),
            ProfileError::EmptyProfileId => "profile IDs must not be empty".to_owned(),
            ProfileError::EmptySlotId(profile) => text::joined3(
                "profile ",
                profile.as_str(),
                " has an empty slot ID",
            ),
            ProfileError::EmptyModeId => "mode IDs must not be empty".to_owned(),
            ProfileError::DuplicateContribution(id) => text::joined(
                "duplicate contribution ",
                id.as_str(),
            ),
            ProfileError::DuplicateProfile(id) => text::joined("duplicate profile ", id.as_str()),
            ProfileError::DuplicateSlot { profile, slot } => text::joined4(
                "profile ",
                profile.as_str(),
                " contains duplicate slot ",
                slot.as_str(),
            ),
            ProfileError::InvalidGroupId { profile, group } => text::joined4(
                "profile ",
                profile.as_str(),
                " has invalid group ID ",
                text::quoted(group.as_str()).as_str(),
            ),
            ProfileError::DuplicateGroup { profile, group } => text::joined4(
                "profile ",
                profile.as_str(),
                " contains duplicate group ",
                group.as_str(),
            ),
            ProfileError::GroupDepthExceeded { profile, group } => text::joined(
                text::joined4("profile ", profile.as_str(), " group ", group.as_str()).as_str(),
                " exceeds the maximum nesting depth",
            ),
            ProfileError::InvalidContributionGroupId { contribution, group } => text::joined4(
                "contribution ",
                contribution.as_str(),
                " has invalid group ID ",
                text::quoted(group.as_str()).as_str(),
            ),
            ProfileError::DuplicateContributionGroup { contribution, group } => text::joined4(
                "contribution ",
                contribution.as_str(),
                " contains duplicate group ",
                group.as_str(),
            ),
            ProfileError::ContributionGroupDepthExceeded { contribution, group } => text::joined(
                text::joined4(
                    "contribution ",
                    contribution.as_str(),
                    " group ",
                    group.as_str(),
                ).as_str(),
                " exceeds the maximum nesting depth",
            ),
            ProfileError::DuplicateComposedGroup(group) => text::joined3(
                "composed profile contains group ",
                group.as_str(),
                " more than once",
            ),
            ProfileError::UnknownContribution { profile, slot, contribution } => text::joined(
                text::joined(
                    text::joined4("profile ", profile.as_str(), " slot ", slot.as_str()).as_str(),
                    " references unknown contribution ",
                ).as_str(),
                contribution.as_str(),
            ),
            ProfileError::UnknownProfile(profile) => text::joined(
                "unknown profile ",
                profile.as_str(),
            ),
            ProfileError::UnknownItem { contribution, item } => text::joined4(
                "contribution ",
                contribution.as_str(),
                " references unknown item ",
                item.as_str(),
            ),
            ProfileError::DuplicateComposedItem(item) => text::joined3(
                "composed profile contains item ",
                item.as_str(),
                " more than once",
            ),
            ProfileError::ContextProxyInContribution(contribution) => text::joined3(
                "contribution ",
                contribution.as_str(),
                " cannot contain a context proxy",
            ),
            ProfileError::ZeroFlexibleWeightInContribution(contribution) => text::joined3(
                "contribution ",
                contribution.as_str(),
                " contains a zero-weight flexible space",
            ),
            ProfileError::ZeroFlexibleWeightInProfile(profile) => text::joined3(
                "profile ",
                profile.as_str(),
                " contains a zero-weight flexible space",
            ),
            ProfileError::SpaceInGroupedSlot { profile, slot, contribution } => text::joined(
                text::joined(
                    text::joined(
                        text::joined4(
                            "profile ",
                            profile.as_str(),
                            " grouped slot ",
                            slot.as_str(),
                        ).as_str(),
                        " binds contribution ",
                    ).as_str(),
                    contribution.as_str(),
                ).as_str(),
                " containing a space",
            ),
        }
    }
}

/// The contributions and profiles that are known.
#[derive(Clone, Debug)]
pub struct ProfileCatalog {
    contributions: TextMap<ContributionId, ContributionDefinition>,
    profiles: TextMap<ProfileId, ProfileDefinition>,
}

impl Default for ProfileCatalog {
    fn default() -> (catalog: Self)
        ensures
            catalog.wf(),
            catalog.contribution_map().keys().len() == 0,
            catalog.profile_map().keys().len() == 0,
    {
        ProfileCatalog { contributions: TextMap::new(), profiles: TextMap::new() }
    }
}

impl ProfileCatalog {
    /// The contributions by identifier.
    pub closed spec fn contribution_map(self) -> TextMap<ContributionId, ContributionDefinition> {
        self.contributions
    }

    /// The profiles by identifier.
    pub closed spec fn profile_map(self) -> TextMap<ProfileId, ProfileDefinition> {
        self.profiles
    }

    pub open spec fn wf(self) -> bool {
        self.contribution_map().wf() && self.profile_map().wf()
    }

    /// Registers a contribution. One whose identifier is taken is refused, and
    /// nothing changes.
    pub fn add_contribution(&mut self, contribution: ContributionDefinition) -> (result: Result<
        (),
        ProfileError,
    >)
        requires
            old(self).wf(),
        ensures
            final(self).wf(),
            final(self).profile_map() == old(self).profile_map(),
            result == (if text::is_blank(contribution.id@) {
                Err(ProfileError::EmptyContributionId)
            } else if old(self).contribution_map().has(contribution.id@) {
                Err(ProfileError::DuplicateContribution(contribution.id))
            } else {
                Ok(())
            }),
            result is Err ==> final(self).contribution_map() == old(self).contribution_map(),
            result is Ok ==> {
                &&& final(self).contribution_map().lookup(contribution.id@) == Some(contribution)
                &&& forall|other: Seq<char>|
                    other != contribution.id@ ==> #[trigger] final(self).contribution_map().lookup(
                        other,
                    ) == old(self).contribution_map().lookup(other)
            },
    {
        if text::blank(contribution.id.as_str()) {
            return Err(ProfileError::EmptyContributionId);
        }
        let id: ContributionId = contribution.id.clone();
        if self.contributions.contains(id.as_str()) {
            return Err(ProfileError::DuplicateContribution(id));
        }
        let ghost added = contribution;
        self.contributions.insert(id, contribution);
        proof {
            text::lemma_insert_lookup(old(self).contributions, self.contributions, id@, added);
        }
        Ok(())
    }

    /// Registers a profile. One whose identifier is taken is refused, and
    /// nothing changes.
    pub fn add_profile(&mut self, profile: ProfileDefinition) -> (result: Result<(), ProfileError>)
        requires
            old(self).wf(),
        ensures
            final(self).wf(),
            final(self).contribution_map() == old(self).contribution_map(),
            result == (if text::is_blank(profile.id@) {
                Err(ProfileError::EmptyProfileId)
            } else if old(self).profile_map().has(profile.id@) {
                Err(ProfileError::DuplicateProfile(profile.id))
            } else {
                Ok(())
            }),
            result is Err ==> final(self).profile_map() == old(self).profile_map(),
            result is Ok ==> {
                &&& final(self).profile_map().lookup(profile.id@) == Some(profile)
                &&& forall|other: Seq<char>|
                    other != profile.id@ ==> #[trigger] final(self).profile_map().lookup(other)
                        == old(self).profile_map().lookup(other)
            },
    {
        if text::blank(profile.id.as_str()) {
            return Err(ProfileError::EmptyProfileId);
        }
        let id: ProfileId = profile.id.clone();
        if self.profiles.contains(id.as_str()) {
            return Err(ProfileError::DuplicateProfile(id));
        }
        let ghost added = profile;
        self.profiles.insert(id, profile);
        proof {
            text::lemma_insert_lookup(old(self).profiles, self.profiles, id@, added);
        }
        Ok(())
    }

    pub fn profile(&self, id: &ProfileId) -> (profile: Option<&ProfileDefinition>)
        requires
            self.wf(),
        ensures
            self.profile_map().lookup(id@) == (match profile {
                Some(p) => Some(*p),
                None => None,
            }),
    {
        self.profiles.get(id.as_str())
    }

    pub fn contribution(&self, id: &ContributionId) -> (contribution: Option<
        &ContributionDefinition,
    >)
        requires
            self.wf(),
        ensures
            self.contribution_map().lookup(id@) == (match contribution {
                Some(c) => Some(*c),
                None => None,
            }),
    {
        self.contributions.get(id.as_str())
    }
}

// ---------------------------------------------------------------------------
// Validity of contributions

pub open spec fn part_check(
    items: TextMap<ItemId, ItemDefinition>,
    contribution: ContributionId,
    element: BarGroupElement,
    depth: int,
    seen: Set<Seq<char>>,
) -> Result<Set<Seq<char>>, ProfileError>
    decreases element,
{
    match element {
        BarGroupElement::Item(item) => if items.has(item@) {
            Ok(seen)
        } else {
            Err(ProfileError::UnknownItem { contribution, item })
        },
        BarGroupElement::Group(group) => cluster_check(items, contribution, group, depth, seen),
    }
}

pub open spec fn parts_check(
    items: TextMap<ItemId, ItemDefinition>,
    contribution: ContributionId,
    elements: Seq<BarGroupElement>,
    depth: int,
    seen: Set<Seq<char>>,
) -> Result<Set<Seq<char>>, ProfileError>
    decreases elements,
{
    if elements.len() == 0 {
        Ok(seen)
    } else {
        match parts_check(items, contribution, elements.drop_last(), depth, seen) {
            Err(e) => Err(e),
            Ok(next) => part_check(items, contribution, elements.last(), depth, next),
        }
    }
}

/// A group of a contribution has a name of its own in it, is not too deep, and
/// names only items that are known.
pub open spec fn cluster_check(
    items: TextMap<ItemId, ItemDefinition>,
    contribution: ContributionId,
    group: BarGroup,
    depth: int,
    seen: Set<Seq<char>>,
) -> Result<Set<Seq<char>>, ProfileError>
    decreases group,
{
    if text::is_blank(group.id@) {
        Err(ProfileError::InvalidContributionGroupId { contribution, group: group.id })
    } else if depth > MAX_GROUP_DEPTH {
        Err(ProfileError::ContributionGroupDepthExceeded { contribution, group: group.id })
    } else if seen.contains(group.id@) {
        Err(ProfileError::DuplicateContributionGroup { contribution, group: group.id })
    } else {
        parts_check(items, contribution, group.elements@, depth + 1, seen.insert(group.id@))
    }
}

pub open spec fn offer_check(
    items: TextMap<ItemId, ItemDefinition>,
    contribution: ContributionId,
    element: BarElement,
    seen: Set<Seq<char>>,
) -> Result<Set<Seq<char>>, ProfileError> {
    match element {
        BarElement::Item(item) => if items.has(item@) {
            Ok(seen)
        } else {
            Err(ProfileError::UnknownItem { contribution, item })
        },
        BarElement::Group(group) => cluster_check(items, contribution, group, 1, seen),
        BarElement::FixedSpace { .. } => Ok(seen),
        BarElement::FlexibleSpace { weight, .. } => if weight == 0 {
            Err(ProfileError::ZeroFlexibleWeightInContribution(contribution))
        } else {
            Ok(seen)
        },
        BarElement::ContextProxy => Err(ProfileError::ContextProxyInContribution(contribution)),
    }
}

/// The first `n` elements of a contribution.
pub open spec fn offers_check(
    items: TextMap<ItemId, ItemDefinition>,
    contribution: ContributionId,
    elements: Seq<BarElement>,
    n: int,
) -> Result<Set<Seq<char>>, ProfileError>
    decreases n,
{
    if n <= 0 {
        Ok(Set::empty())
    } else {
        match offers_check(items, contribution, elements, n - 1) {
            Err(e) => Err(e),
            Ok(seen) => offer_check(items, contribution, elements[n - 1], seen),
        }
    }
}

/// The first fault among the first `n` contributions.
pub open spec fn contributions_fault(
    items: TextMap<ItemId, ItemDefinition>,
    contributions: Seq<ContributionDefinition>,
    n: int,
) -> Option<ProfileError>
    decreases n,
{
    if n <= 0 {
        None
    } else {
        match contributions_fault(items, contributions, n - 1) {
            Some(e) => Some(e),
            None => {
                let c = contributions[n - 1];
                match offers_check(items, c.id, c.elements@, c.elements@.len() as int) {
                    Err(e) => Some(e),
                    Ok(_) => None,
                }
            },
        }
    }
}

// ---------------------------------------------------------------------------
// Validity of profiles

/// The names met so far in a profile.
#[verifier::ext_equal]
pub struct Names {
    pub slots: Set<Seq<char>>,
    pub groups: Set<Seq<char>>,
}

pub open spec fn has_space(elements: Seq<BarElement>) -> bool {
    exists|i: int|
        0 <= i < elements.len() && (#[trigger] elements[i] is FixedSpace
            || elements[i] is FlexibleSpace)
}

/// The first fault among the first `n` bindings of a slot.
pub open spec fn bindings_fault(
    contributions: TextMap<ContributionId, ContributionDefinition>,
    profile: ProfileId,
    slot: SlotDefinition,
    nested: bool,
    n: int,
) -> Option<ProfileError>
    decreases n,
{
    if n <= 0 {
        None
    } else {
        match bindings_fault(contributions, profile, slot, nested, n - 1) {
            Some(e) => Some(e),
            None => {
                let contribution = slot.bindings@[n - 1].contribution;
                match contributions.lookup(contribution@) {
                    None => Some(
                        ProfileError::UnknownContribution { profile, slot: slot.id, contribution },
                    ),
                    Some(known) => if nested && has_space(known.elements@) {
                        Some(
                            ProfileError::SpaceInGroupedSlot {
                                profile,
                                slot: slot.id,
                                contribution,
                            },
                        )
                    } else {
                        None
                    },
                }
            },
        }
    }
}

/// A slot has a name of its own in its profile and binds known contributions;
/// inside a group, only such without spaces.
pub open spec fn slot_check(
    contributions: TextMap<ContributionId, ContributionDefinition>,
    profile: ProfileId,
    slot: SlotDefinition,
    nested: bool,
    names: Names,
) -> Result<Names, ProfileError> {
    if text::is_blank(slot.id@) {
        Err(ProfileError::EmptySlotId(profile))
    } else if names.slots.contains(slot.id@) {
        Err(ProfileError::DuplicateSlot { profile, slot: slot.id })
    } else {
        match bindings_fault(contributions, profile, slot, nested, slot.bindings@.len() as int) {
            Some(e) => Err(e),
            None => Ok(Names { slots: names.slots.insert(slot.id@), groups: names.groups }),
        }
    }
}

pub open spec fn member_check(
    contributions: TextMap<ContributionId, ContributionDefinition>,
    profile: ProfileId,
    group: String,
    element: ProfileGroupElement,
    depth: int,
    names: Names,
) -> Result<Names, ProfileError>
    decreases element,
{
    match element {
        ProfileGroupElement::Slot(slot) => if depth >= MAX_GROUP_DEPTH {
            Err(ProfileError::GroupDepthExceeded { profile, group })
        } else {
            slot_check(contributions, profile, slot, true, names)
        },
        ProfileGroupElement::Group(child) => template_check(
            contributions,
            profile,
            child,
            depth + 1,
            names,
        ),
    }
}

pub open spec fn members_check(
    contributions: TextMap<ContributionId, ContributionDefinition>,
    profile: ProfileId,
    group: String,
    elements: Seq<ProfileGroupElement>,
    depth: int,
    names: Names,
) -> Result<Names, ProfileError>
    decreases elements,
{
    if elements.len() == 0 {
        Ok(names)
    } else {
        match members_check(contributions, profile, group, elements.drop_last(), depth, names) {
            Err(e) => Err(e),
            Ok(next) => member_check(contributions, profile, group, elements.last(), depth, next),
        }
    }
}

/// A group of slots has a name of its own in its profile that no slot could
/// have, and is not too deep.
pub open spec fn template_check(
    contributions: TextMap<ContributionId, ContributionDefinition>,
    profile: ProfileId,
    group: ProfileGroup,
    depth: int,
    names: Names,
) -> Result<Names, ProfileError>
    decreases group,
{
    if text::is_blank(group.id@) || text::begins(group.id@, "@slot/"@) {
        Err(ProfileError::InvalidGroupId { profile, group: group.id })
    } else if depth > MAX_GROUP_DEPTH {
        Err(ProfileError::GroupDepthExceeded { profile, group: group.id })
    } else if names.groups.contains(group.id@) {
        Err(ProfileError::DuplicateGroup { profile, group: group.id })
    } else {
        members_check(
            contributions,
            profile,
            group.id,
            group.elements@,
            depth,
            (Names { slots: names.slots, groups: names.groups.insert(group.id@) }),
        )
    }
}

pub open spec fn field_check(
    contributions: TextMap<ContributionId, ContributionDefinition>,
    profile: ProfileId,
    element: ProfileElement,
    names: Names,
) -> Result<Names, ProfileError> {
    match element {
        ProfileElement::Slot(slot) => slot_check(contributions, profile, slot, false, names),
        ProfileElement::Group(group) => template_check(contributions, profile, group, 1, names),
        ProfileElement::FixedSpace { .. } => Ok(names),
        ProfileElement::FlexibleSpace { weight, .. } => if weight == 0 {
            Err(ProfileError::ZeroFlexibleWeightInProfile(profile))
        } else {
            Ok(names)
        },
    }
}

/// The first `n` elements of a profile.
pub open spec fn fields_check(
    contributions: TextMap<ContributionId, ContributionDefinition>,
    profile: ProfileId,
    elements: Seq<ProfileElement>,
    n: int,
) -> Result<Names, ProfileError>
    decreases n,
{
    if n <= 0 {
        Ok(Names { slots: Set::empty(), groups: Set::empty() })
    } else {
        match fields_check(contributions, profile, elements, n - 1) {
            Err(e) => Err(e),
            Ok(names) => field_check(contributions, profile, elements[n - 1], names),
        }
    }
}

/// The first fault among the first `n` profiles.
pub open spec fn profiles_fault(
    contributions: TextMap<ContributionId, ContributionDefinition>,
    profiles: Seq<ProfileDefinition>,
    n: int,
) -> Option<ProfileError>
    decreases n,
{
    if n <= 0 {
        None
    } else {
        match profiles_fault(contributions, profiles, n - 1) {
            Some(e) => Some(e),
            None => {
                let p = profiles[n - 1];
                match fields_check(contributions, p.id, p.elements@, p.elements@.len() as int) {
                    Err(e) => Some(e),
                    Ok(_) => None,
                }
            },
        }
    }
}

/// What is wrong with a catalog, if anything: first the contributions in the
/// order of their identifiers, then the profiles.
pub open spec fn catalog_fault(catalog: ProfileCatalog, registry: Registry) -> Option<
    ProfileError,
> {
    let contributions = catalog.contribution_map();
    let profiles = catalog.profile_map();
    match contributions_fault(
        registry.item_map(),
        contributions.values(),
        contributions.values().len() as int,
    ) {
        Some(e) => Some(e),
        None => profiles_fault(contributions, profiles.values(), profiles.values().len() as int),
    }
}

// ---------------------------------------------------------------------------
// Checking

proof fn lemma_parts_check_prefix(
    items: TextMap<ItemId, ItemDefinition>,
    contribution: ContributionId,
    elements: Seq<BarGroupElement>,
    depth: int,
    seen: Set<Seq<char>>,
    k: int,
)
    requires
        0 <= k <= elements.len(),
    ensures
        parts_check(items, contribution, elements.subrange(0, k), depth, seen) matches Err(e)
            ==> parts_check(items, contribution, elements, depth, seen) == Err::<
            Set<Seq<char>>,
            ProfileError,
        >(e),
    decreases elements.len() - k,
{
    if k < elements.len() {
        lemma_parts_check_prefix(items, contribution, elements, depth, seen, k + 1);
        assert(elements.subrange(0, k + 1).drop_last() =~= elements.subrange(0, k));
    } else {
        assert(elements.subrange(0, k) =~= elements);
    }
}

pub proof fn lemma_offers_check_prefix(
    items: TextMap<ItemId, ItemDefinition>,
    contribution: ContributionId,
    elements: Seq<BarElement>,
    k: int,
    n: int,
)
    requires
        0 <= k <= n,
    ensures
        offers_check(items, contribution, elements, k) matches Err(e) ==> offers_check(
            items,
            contribution,
            elements,
            n,
        ) == Err::<Set<Seq<char>>, ProfileError>(e),
    decreases n - k,
{
    if k < n {
        lemma_offers_check_prefix(items, contribution, elements, k, n - 1);
    }
}

pub proof fn lemma_contributions_fault_prefix(
    items: TextMap<ItemId, ItemDefinition>,
    contributions: Seq<ContributionDefinition>,
    k: int,
    n: int,
)
    requires
        0 <= k <= n,
    ensures
        contributions_fault(items, contributions, k) is Some ==> contributions_fault(
            items,
            contributions,
            n,
        ) == contributions_fault(items, contributions, k),
    decreases n - k,
{
    if k < n {
        lemma_contributions_fault_prefix(items, contributions, k, n - 1);
    }
}

proof fn lemma_bindings_fault_prefix(
    contributions: TextMap<ContributionId, ContributionDefinition>,
    profile: ProfileId,
    slot: SlotDefinition,
    nested: bool,
    k: int,
    n: int,
)
    requires
        0 <= k <= n,
    ensures
        bindings_fault(contributions, profile, slot, nested, k) is Some ==> bindings_fault(
            contributions,
            profile,
            slot,
            nested,
            n,
        ) == bindings_fault(contributions, profile, slot, nested, k),
    decreases n - k,
{
    if k < n {
        lemma_bindings_fault_prefix(contributions, profile, slot, nested, k, n - 1);
    }
}

proof fn lemma_members_check_prefix(
    contributions: TextMap<ContributionId, ContributionDefinition>,
    profile: ProfileId,
    group: String,
    elements: Seq<ProfileGroupElement>,
    depth: int,
    names: Names,
    k: int,
)
    requires
        0 <= k <= elements.len(),
    ensures
        members_check(
            contributions,
            profile,
            group,
            elements.subrange(0, k),
            depth,
            names,
        ) matches Err(
            e,
        ) ==> members_check(contributions, profile, group, elements, depth, names) == Err::<
            Names,
            ProfileError,
        >(e),
    decreases elements.len() - k,
{
    if k < elements.len() {
        lemma_members_check_prefix(contributions, profile, group, elements, depth, names, k + 1);
        assert(elements.subrange(0, k + 1).drop_last() =~= elements.subrange(0, k));
    } else {
        assert(elements.subrange(0, k) =~= elements);
    }
}

proof fn lemma_fields_check_prefix(
    contributions: TextMap<ContributionId, ContributionDefinition>,
    profile: ProfileId,
    elements: Seq<ProfileElement>,
    k: int,
    n: int,
)
    requires
        0 <= k <= n,
    ensures
        fields_check(contributions, profile, elements, k) matches Err(e) ==> fields_check(
            contributions,
            profile,
            elements,
            n,
        ) == Err::<Names, ProfileError>(e),
    decreases n - k,
{
    if k < n {
        lemma_fields_check_prefix(contributions, profile, elements, k, n - 1);
    }
}

pub proof fn lemma_profiles_fault_prefix(
    contributions: TextMap<ContributionId, ContributionDefinition>,
    profiles: Seq<ProfileDefinition>,
    k: int,
    n: int,
)
    requires
        0 <= k <= n,
    ensures
        profiles_fault(contributions, profiles, k) is Some ==> profiles_fault(
            contributions,
            profiles,
            n,
        ) == profiles_fault(contributions, profiles, k),
    decreases n - k,
{
    if k < n {
        lemma_profiles_fault_prefix(contributions, profiles, k, n - 1);
    }
}

fn validate_parts(
    registry: &Registry,
    contribution: &ContributionId,
    elements: &Vec<BarGroupElement>,
    depth: usize,
    group_ids: &mut TextSet<String>,
) -> (result: Result<(), ProfileError>)
    requires
        registry.wf(),
        depth <= MAX_GROUP_DEPTH + 1,
        old(group_ids).wf(),
    ensures
        final(group_ids).wf(),
        parts_check(
            registry.item_map(),
            *contribution,
            elements@,
            depth as int,
            old(group_ids)@.to_set(),
        ) == (match result {
            Ok(_) => Ok::<Set<Seq<char>>, ProfileError>(final(group_ids)@.to_set()),
            Err(e) => Err(e),
        }),
    decreases elements,
{
    let ghost start = group_ids@.to_set();
    let mut i: usize = 0;
    while i < elements.len()
        invariant
            registry.wf(),
            depth <= MAX_GROUP_DEPTH + 1,
            i <= elements@.len(),
            group_ids.wf(),
            start == old(group_ids)@.to_set(),
            parts_check(
                registry.item_map(),
                *contribution,
                elements@.subrange(0, i as int),
                depth as int,
                start,
            ) == Ok::<Set<Seq<char>>, ProfileError>(group_ids@.to_set()),
        decreases elements@.len() - i,
    {
        let ghost after = elements@.subrange(0, i + 1);
        proof {
            assert(after.drop_last() =~= elements@.subrange(0, i as int));
            assert(after.last() == elements@[i as int]);
            lemma_parts_check_prefix(
                registry.item_map(),
                *contribution,
                elements@,
                depth as int,
                start,
                i + 1,
            );
            assert(parts_check(registry.item_map(), *contribution, after, depth as int, start)
                == part_check(
                registry.item_map(),
                *contribution,
                elements@[i as int],
                depth as int,
                group_ids@.to_set(),
            ));
        }
        match &elements[i] {
            BarGroupElement::Item(item) => {
                if registry.item(item).is_none() {
                    return Err(
                        ProfileError::UnknownItem {
                            contribution: contribution.clone(),
                            item: item.clone(),
                        },
                    );
                }
            },
            BarGroupElement::Group(group) => {
                validate_contribution_group(registry, contribution, group, depth, group_ids)?;
            },
        }
        i = i + 1;
    }
    proof {
        assert(elements@.subrange(0, elements@.len() as int) =~= elements@);
    }
    Ok(())
}

fn validate_contribution_group(
    registry: &Registry,
    contribution: &ContributionId,
    group: &BarGroup,
    depth: usize,
    group_ids: &mut TextSet<String>,
) -> (result: Result<(), ProfileError>)
    requires
        registry.wf(),
        depth <= MAX_GROUP_DEPTH + 1,
        old(group_ids).wf(),
    ensures
        final(group_ids).wf(),
        cluster_check(
            registry.item_map(),
            *contribution,
            *group,
            depth as int,
            old(group_ids)@.to_set(),
        ) == (match result {
            Ok(_) => Ok::<Set<Seq<char>>, ProfileError>(final(group_ids)@.to_set()),
            Err(e) => Err(e),
        }),
    decreases group,
{
    if text::blank(group.id.as_str()) {
        return Err(
            ProfileError::InvalidContributionGroupId {
                contribution: contribution.clone(),
                group: group.id.clone(),
            },
        );
    }
    if depth > MAX_GROUP_DEPTH {
        return Err(
            ProfileError::ContributionGroupDepthExceeded {
                contribution: contribution.clone(),
                group: group.id.clone(),
            },
        );
    }
    proof {
        text::lemma_rank(group_ids@, group.id@);
        text::lemma_insert_to_set(
            group_ids@,
            text::rank(group_ids@, group.id@) as int,
            group.id@,
        );
    }
    if !group_ids.insert(group.id.clone()) {
        return Err(
            ProfileError::DuplicateContributionGroup {
                contribution: contribution.clone(),
                group: group.id.clone(),
            },
        );
    }
    validate_parts(registry, contribution, &group.elements, depth + 1, group_ids)
}

fn validate_contribution(registry: &Registry, contribution: &ContributionDefinition) -> (result:
    Result<(), ProfileError>)
    requires
        registry.wf(),
    ensures
        ({
            let checked = offers_check(
                registry.item_map(),
                contribution.id,
                contribution.elements@,
                contribution.elements@.len() as int,
            );
            match result {
                Ok(_) => checked is Ok,
                Err(e) => checked == Err::<Set<Seq<char>>, ProfileError>(e),
            }
        }),
{
    let ghost elements = contribution.elements@;
    let ghost n = elements.len() as int;
    let mut group_ids: TextSet<String> = TextSet::new();
    let mut i: usize = 0;
    proof {
        assert(group_ids@.to_set() =~= Set::<Seq<char>>::empty());
    }
    while i < contribution.elements.len()
        invariant
            registry.wf(),
            elements == contribution.elements@,
            n == elements.len(),
            i <= n,
            group_ids.wf(),
            offers_check(registry.item_map(), contribution.id, elements, i as int) == Ok::<
                Set<Seq<char>>,
                ProfileError,
            >(group_ids@.to_set()),
        decreases n - i,
    {
        proof {
            lemma_offers_check_prefix(
                registry.item_map(),
                contribution.id,
                elements,
                i + 1,
                n,
            );
        }
        match &contribution.elements[i] {
            BarElement::Item(item) => {
                if registry.item(item).is_none() {
                    return Err(
                        ProfileError::UnknownItem {
                            contribution: contribution.id.clone(),
                            item: item.clone(),
                        },
                    );
                }
            },
            BarElement::Group(group) => {
                validate_contribution_group(
                    registry,
                    &contribution.id,
                    group,
                    1,
                    &mut group_ids,
                )?;
            },
            BarElement::FlexibleSpace { weight, .. } => {
                if *weight == 0 {
                    return Err(
                        ProfileError::ZeroFlexibleWeightInContribution(contribution.id.clone()),
                    );
                }
            },
            BarElement::FixedSpace { .. } => {},
            BarElement::ContextProxy => {
                return Err(ProfileError::ContextProxyInContribution(contribution.id.clone()));
            },
        }
        i = i + 1;
    }
    Ok(())
}

fn contains_space(elements: &Vec<BarElement>) -> (r: bool)
    ensures
        r == has_space(elements@),
{
    let mut i: usize = 0;
    while i < elements.len()
        invariant
            i <= elements@.len(),
            forall|k: int|
                0 <= k < i ==> !(
                    #[trigger] elements@[k] is FixedSpace || elements@[k] is FlexibleSpace
                ),
        decreases elements@.len() - i,
    {
        let space: bool = match &elements[i] {
            BarElement::FixedSpace { .. } => true,
            BarElement::FlexibleSpace { .. } => true,
            _ => false,
        };
        if space {
            return true;
        }
        i = i + 1;
    }
    false
}

spec fn names_of(slots: TextSet<SlotId>, groups: TextSet<String>) -> Names {
    Names { slots: slots@.to_set(), groups: groups@.to_set() }
}

impl ProfileCatalog {
    fn validate_slot(
        &self,
        profile: &ProfileId,
        slot: &SlotDefinition,
        nested: bool,
        slots: &mut TextSet<SlotId>,
    ) -> (result: Result<(), ProfileError>)
        requires
            self.wf(),
            old(slots).wf(),
        ensures
            final(slots).wf(),
            forall|groups: Set<Seq<char>>|
                slot_check(
                    self.contribution_map(),
                    *profile,
                    *slot,
                    nested,
                    (Names { slots: old(slots)@.to_set(), groups }),
                ) == (match result {
                    Ok(_) => Ok::<Names, ProfileError>(
                        (Names { slots: final(slots)@.to_set(), groups }),
                    ),
                    Err(e) => Err(e),
                }),
    {
        if text::blank(slot.id.as_str()) {
            return Err(ProfileError::EmptySlotId(profile.clone()));
        }
        proof {
            text::lemma_rank(slots@, slot.id@);
            text::lemma_insert_to_set(slots@, text::rank(slots@, slot.id@) as int, slot.id@);
        }
        if !slots.insert(slot.id.clone()) {
            return Err(
                ProfileError::DuplicateSlot { profile: profile.clone(), slot: slot.id.clone() },
            );
        }
        let ghost n = slot.bindings@.len() as int;
        let mut i: usize = 0;
        while i < slot.bindings.len()
            invariant
                self.wf(),
                n == slot.bindings@.len(),
                i <= n,
                slots.wf(),
                !text::is_blank(slot.id@),
                !old(slots)@.to_set().contains(slot.id@),
                slots@.to_set() == old(slots)@.to_set().insert(slot.id@),
                bindings_fault(self.contribution_map(), *profile, *slot, nested, i as int) is None,
            decreases n - i,
        {
            let binding: &ContributionBinding = &slot.bindings[i];
            proof {
                lemma_bindings_fault_prefix(
                    self.contribution_map(),
                    *profile,
                    *slot,
                    nested,
                    i + 1,
                    n,
                );
            }
            match self.contributions.get(binding.contribution.as_str()) {
                None => {
                    return Err(
                        ProfileError::UnknownContribution {
                            profile: profile.clone(),
                            slot: slot.id.clone(),
                            contribution: binding.contribution.clone(),
                        },
                    );
                },
                Some(contribution) => {
                    if nested && contains_space(&contribution.elements) {
                        return Err(
                            ProfileError::SpaceInGroupedSlot {
                                profile: profile.clone(),
                                slot: slot.id.clone(),
                                contribution: binding.contribution.clone(),
                            },
                        );
                    }
                },
            }
            i = i + 1;
        }
        Ok(())
    }

    fn validate_members(
        &self,
        profile: &ProfileId,
        group: &String,
        elements: &Vec<ProfileGroupElement>,
        depth: usize,
        slots: &mut TextSet<SlotId>,
        groups: &mut TextSet<String>,
    ) -> (result: Result<(), ProfileError>)
        requires
            self.wf(),
            depth <= MAX_GROUP_DEPTH,
            old(slots).wf(),
            old(groups).wf(),
        ensures
            final(slots).wf(),
            final(groups).wf(),
            members_check(
                self.contribution_map(),
                *profile,
                *group,
                elements@,
                depth as int,
                names_of(*old(slots), *old(groups)),
            ) == (match result {
                Ok(_) => Ok::<Names, ProfileError>(names_of(*final(slots), *final(groups))),
                Err(e) => Err(e),
            }),
        decreases elements,
    {
        let ghost start = names_of(*slots, *groups);
        let mut i: usize = 0;
        while i < elements.len()
            invariant
                self.wf(),
                depth <= MAX_GROUP_DEPTH,
                i <= elements@.len(),
                slots.wf(),
                groups.wf(),
                start == names_of(*old(slots), *old(groups)),
                members_check(
                    self.contribution_map(),
                    *profile,
                    *group,
                    elements@.subrange(0, i as int),
                    depth as int,
                    start,
                ) == Ok::<Names, ProfileError>(names_of(*slots, *groups)),
            decreases elements@.len() - i,
        {
            let ghost after = elements@.subrange(0, i + 1);
            let ghost now = names_of(*slots, *groups);
            proof {
                assert(after.drop_last() =~= elements@.subrange(0, i as int));
                assert(after.last() == elements@[i as int]);
                lemma_members_check_prefix(
                    self.contribution_map(),
                    *profile,
                    *group,
                    elements@,
                    depth as int,
                    start,
                    i + 1,
                );
                assert(members_check(
                    self.contribution_map(),
                    *profile,
                    *group,
                    after,
                    depth as int,
                    start,
                ) == member_check(
                    self.contribution_map(),
                    *profile,
                    *group,
                    elements@[i as int],
                    depth as int,
                    now,
                ));
                assert(now == (Names { slots: slots@.to_set(), groups: groups@.to_set() }));
            }
            match &elements[i] {
                ProfileGroupElement::Slot(slot) => {
                    if depth >= MAX_GROUP_DEPTH {
                        return Err(
                            ProfileError::GroupDepthExceeded {
                                profile: profile.clone(),
                                group: group.clone(),
                            },
                        );
                    }
                    self.validate_slot(profile, slot, true, slots)?;
                },
                ProfileGroupElement::Group(child) => {
                    self.validate_profile_group(profile, child, depth + 1, slots, groups)?;
                },
            }
            i = i + 1;
        }
        proof {
            assert(elements@.subrange(0, elements@.len() as int) =~= elements@);
        }
        Ok(())
    }

    fn validate_profile_group(
        &self,
        profile: &ProfileId,
        group: &ProfileGroup,
        depth: usize,
        slots: &mut TextSet<SlotId>,
        groups: &mut TextSet<String>,
    ) -> (result: Result<(), ProfileError>)
        requires
            self.wf(),
            depth <= MAX_GROUP_DEPTH + 1,
            old(slots).wf(),
            old(groups).wf(),
        ensures
            final(slots).wf(),
            final(groups).wf(),
            template_check(
                self.contribution_map(),
                *profile,
                *group,
                depth as int,
                names_of(*old(slots), *old(groups)),
            ) == (match result {
                Ok(_) => Ok::<Names, ProfileError>(names_of(*final(slots), *final(groups))),
                Err(e) => Err(e),
            }),
        decreases group,
    {
        if text::blank(group.id.as_str()) || text::starts_with(group.id.as_str(), "@slot/") {
            return Err(
                ProfileError::InvalidGroupId { profile: profile.clone(), group: group.id.clone() },
            );
        }
        if depth > MAX_GROUP_DEPTH {
            return Err(
                ProfileError::GroupDepthExceeded {
                    profile: profile.clone(),
                    group: group.id.clone(),
                },
            );
        }
        proof {
            text::lemma_rank(groups@, group.id@);
            text::lemma_insert_to_set(groups@, text::rank(groups@, group.id@) as int, group.id@);
        }
        if !groups.insert(group.id.clone()) {
            return Err(
                ProfileError::DuplicateGroup { profile: profile.clone(), group: group.id.clone() },
            );
        }
        self.validate_members(profile, &group.id, &group.elements, depth, slots, groups)
    }

    fn validate_profile(&self, profile: &ProfileDefinition) -> (result: Result<(), ProfileError>)
        requires
            self.wf(),
        ensures
            ({
                let checked = fields_check(
                    self.contribution_map(),
                    profile.id,
                    profile.elements@,
                    profile.elements@.len() as int,
                );
                match result {
                    Ok(_) => checked is Ok,
                    Err(e) => checked == Err::<Names, ProfileError>(e),
                }
            }),
    {
        let ghost elements = profile.elements@;
        let ghost n = elements.len() as int;
        let mut slots: TextSet<SlotId> = TextSet::new();
        let mut groups: TextSet<String> = TextSet::new();
        let mut i: usize = 0;
        proof {
            assert(names_of(slots, groups) =~= (Names {
                slots: Set::empty(),
                groups: Set::empty(),
            }));
        }
        while i < profile.elements.len()
            invariant
                self.wf(),
                elements == profile.elements@,
                n == elements.len(),
                i <= n,
                slots.wf(),
                groups.wf(),
                fields_check(self.contribution_map(), profile.id, elements, i as int) == Ok::<
                    Names,
                    ProfileError,
                >(names_of(slots, groups)),
            decreases n - i,
        {
            proof {
                lemma_fields_check_prefix(
                    self.contribution_map(),
                    profile.id,
                    elements,
                    i + 1,
                    n,
                );
                assert(names_of(slots, groups) == (Names {
                    slots: slots@.to_set(),
                    groups: groups@.to_set(),
                }));
            }
            match &profile.elements[i] {
                ProfileElement::Slot(slot) => {
                    self.validate_slot(&profile.id, slot, false, &mut slots)?;
                },
                ProfileElement::Group(group) => {
                    self.validate_profile_group(
                        &profile.id,
                        group,
                        1,
                        &mut slots,
                        &mut groups,
                    )?;
                },
                ProfileElement::FlexibleSpace { weight, .. } => {
                    if *weight == 0 {
                        return Err(
                            ProfileError::ZeroFlexibleWeightInProfile(profile.id.clone()),
                        );
                    }
                },
                ProfileElement::FixedSpace { .. } => {},
            }
            i = i + 1;
        }
        Ok(())
    }

    /// Refuses a catalog whose contributions or profiles refer to what is not
    /// there.
    pub fn validate(&self, registry: &Registry) -> (result: Result<(), ProfileError>)
        requires
            self.wf(),
            registry.wf(),
        ensures
            match result {
                Ok(_) => catalog_fault(*self, *registry) is None,
                Err(e) => catalog_fault(*self, *registry) == Some(e),
            },
    {
        let ghost contributions = self.contributions.values();
        let ghost profiles = self.profiles.values();
        let mut i: usize = 0;
        while i < self.contributions.len()
            invariant
                self.wf(),
                registry.wf(),
                contributions == self.contributions.values(),
                i <= contributions.len(),
                contributions.len() == self.contributions.keys().len(),
                contributions_fault(registry.item_map(), contributions, i as int) is None,
            decreases contributions.len() - i,
        {
            proof {
                lemma_contributions_fault_prefix(
                    registry.item_map(),
                    contributions,
                    i + 1,
                    contributions.len() as int,
                );
            }
            validate_contribution(registry, self.contributions.value_at(i))?;
            i = i + 1;
        }
        let mut k: usize = 0;
        while k < self.profiles.len()
            invariant
                self.wf(),
                contributions == self.contributions.values(),
                contributions_fault(
                    registry.item_map(),
                    contributions,
                    contributions.len() as int,
                ) is None,
                profiles == self.profiles.values(),
                k <= profiles.len(),
                profiles.len() == self.profiles.keys().len(),
                profiles_fault(self.contributions, profiles, k as int) is None,
            decreases profiles.len() - k,
        {
            proof {
                lemma_profiles_fault_prefix(
                    self.contributions,
                    profiles,
                    k + 1,
                    profiles.len() as int,
                );
            }
            self.validate_profile(self.profiles.value_at(k))?;
            k = k + 1;
        }
        Ok(())
    }
}

} // verus!
