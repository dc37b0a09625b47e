//! The items and bars that are known, and how active bars are put together.
use vstd::prelude::*;

use crate::layout::laws;
use crate::layout::place;
use crate::layout::{
    BarSpec, Element, GroupElement, GroupLayout, GroupSpec, ItemId, ItemSpec, MAX_GROUP_DEPTH,
};
use crate::model::BarId;
use crate::text;
use crate::text::{TextMap, TextSet};

verus! {

/// An item that can stand in a bar.
#[derive(Clone, Debug, PartialEq, Eq)]
pub struct ItemDefinition {
    pub layout: ItemSpec,
    /// Used by customization and accessibility interfaces.
    pub label: String,
    /// A temporary replacement bar opened by an ordinary activation.
    pub expanded_bar: Option<BarId>,
    /// An optional alternative bar opened by press-and-hold.
    pub press_and_hold_bar: Option<BarId>,
}

impl ItemDefinition {
    pub fn new(layout: ItemSpec, label: &str) -> (item: Self)
        ensures
            item.layout == layout,
            item.label@ == label@,
            item.expanded_bar is None,
            item.press_and_hold_bar is None,
    {
        ItemDefinition {
            layout,
            label: label.to_owned(),
            expanded_bar: None,
            press_and_hold_bar: None,
        }
    }

    pub fn expanded_bar(self, bar: &str) -> (item: Self)
        ensures
            item.expanded_bar matches Some(b) && b@ == bar@,
            item == (ItemDefinition { expanded_bar: item.expanded_bar, ..self }),
    {
        let mut item: ItemDefinition = self;
        item.expanded_bar = Some(BarId::new(bar));
        item
    }

    pub fn press_and_hold_bar(self, bar: &str) -> (item: Self)
        ensures
            item.press_and_hold_bar matches Some(b) && b@ == bar@,
            item == (ItemDefinition { press_and_hold_bar: item.press_and_hold_bar, ..self }),
    {
        let mut item: ItemDefinition = self;
        item.press_and_hold_bar = Some(BarId::new(bar));
        item
    }
}

/// An element of a bar definition.
#[derive(Clone, Debug, PartialEq, Eq)]
pub enum BarElement {
    Item(ItemId),
    Group(BarGroup),
    FixedSpace { width: u32 },
    FlexibleSpace { minimum: u32, weight: u32 },
    /// Content from the next more-specific active bar is inserted here.
    ContextProxy,
}

/// A member of a group.
#[derive(Debug, PartialEq, Eq)]
pub enum BarGroupElement {
    Item(ItemId),
    Group(BarGroup),
}

/// Items that stand together.
#[derive(Debug, PartialEq, Eq)]
pub struct BarGroup {
    pub id: String,
    pub elements: Vec<BarGroupElement>,
    pub layout: GroupLayout,
    pub spacing: u32,
    pub visibility_priority: i32,
    pub compression_priority: i32,
}

/// The members are the same, at any depth.
pub open spec fn alike_members(left: BarGroupElement, right: BarGroupElement) -> bool
    decreases left,
{
    match (left, right) {
        (BarGroupElement::Item(left), BarGroupElement::Item(right)) => left == right,
        (BarGroupElement::Group(left), BarGroupElement::Group(right)) => alike_groups(left, right),
        _ => false,
    }
}

/// The groups are the same, and so are their members.
pub open spec fn alike_groups(left: BarGroup, right: BarGroup) -> bool
    decreases left,
{
    &&& left.id@ == right.id@
    &&& left.layout == right.layout
    &&& left.spacing == right.spacing
    &&& left.visibility_priority == right.visibility_priority
    &&& left.compression_priority == right.compression_priority
    &&& left.elements@.len() == right.elements@.len()
    &&& forall|i: int|
        #![trigger left.elements@[i]]
        0 <= i < left.elements@.len() ==> alike_members(left.elements@[i], right.elements@[i])
}

fn copy_members(elements: &Vec<BarGroupElement>) -> (copy: Vec<BarGroupElement>)
    ensures
        copy@.len() == elements@.len(),
        forall|i: int|
            #![trigger elements@[i]]
            0 <= i < elements@.len() ==> alike_members(elements@[i], copy@[i]),
    decreases elements,
{
    let mut copy: Vec<BarGroupElement> = Vec::new();
    let mut i: usize = 0;
    while i < elements.len()
        invariant
            i <= elements@.len(),
            copy@.len() == i,
            forall|k: int|
                #![trigger elements@[k]]
                0 <= k < i ==> alike_members(elements@[k], copy@[k]),
        decreases elements@.len() - i,
    {
        let member: BarGroupElement = match &elements[i] {
            BarGroupElement::Item(id) => BarGroupElement::Item(id.clone()),
            BarGroupElement::Group(group) => BarGroupElement::Group(copy_group(group)),
        };
        copy.push(member);
        i = i + 1;
    }
    copy
}

fn copy_group(group: &BarGroup) -> (copy: BarGroup)
    ensures
        alike_groups(*group, copy),
    decreases group,
{
    BarGroup {
        id: group.id.clone(),
        elements: copy_members(&group.elements),
        layout: group.layout,
        spacing: group.spacing,
        visibility_priority: group.visibility_priority,
        compression_priority: group.compression_priority,
    }
}

impl Clone for BarGroupElement {
    fn clone(&self) -> (copy: Self)
        ensures
            alike_members(*self, copy),
    {
        match self {
            BarGroupElement::Item(id) => BarGroupElement::Item(id.clone()),
            BarGroupElement::Group(group) => BarGroupElement::Group(copy_group(group)),
        }
    }
}

impl Clone for BarGroup {
    fn clone(&self) -> (copy: Self)
        ensures
            alike_groups(*self, copy),
    {
        copy_group(self)
    }
}

impl BarGroup {
    pub fn new(id: &str, elements: Vec<BarGroupElement>) -> (group: Self)
        ensures
            group.id@ == id@,
            group.elements == elements,
            group.layout == GroupLayout::Natural,
            group.spacing == 0,
            group.visibility_priority == 0,
            group.compression_priority == 0,
    {
        BarGroup {
            id: id.to_owned(),
            elements,
            layout: GroupLayout::Natural,
            spacing: 0,
            visibility_priority: 0,
            compression_priority: 0,
        }
    }

    pub fn layout(self, layout: GroupLayout) -> (group: Self)
        ensures
            group == (BarGroup { layout, ..self }),
    {
        let mut group: BarGroup = self;
        group.layout = layout;
        group
    }

    pub fn spacing(self, spacing: u32) -> (group: Self)
        ensures
            group == (BarGroup { spacing, ..self }),
    {
        let mut group: BarGroup = self;
        group.spacing = spacing;
        group
    }

    pub fn visibility_priority(self, priority: i32) -> (group: Self)
        ensures
            group == (BarGroup { visibility_priority: priority, ..self }),
    {
        let mut group: BarGroup = self;
        group.visibility_priority = priority;
        group
    }

    pub fn compression_priority(self, priority: i32) -> (group: Self)
        ensures
            group == (BarGroup { compression_priority: priority, ..self }),
    {
        let mut group: BarGroup = self;
        group.compression_priority = priority;
        group
    }
}

/// A bar that can be active.
#[derive(Clone, Debug, PartialEq, Eq)]
pub struct BarDefinition {
    pub id: BarId,
    pub elements: Vec<BarElement>,
    pub principal_item: Option<ItemId>,
}

impl BarDefinition {
    pub fn new(id: &str, elements: Vec<BarElement>) -> (bar: Self)
        ensures
            bar.id@ == id@,
            bar.elements == elements,
            bar.principal_item is None,
    {
        BarDefinition { id: BarId::new(id), elements, principal_item: None }
    }

    pub fn principal_item(self, item: &str) -> (bar: Self)
        ensures
            bar.principal_item matches Some(i) && i@ == item@,
            bar == (BarDefinition { principal_item: bar.principal_item, ..self }),
    {
        let mut bar: BarDefinition = self;
        bar.principal_item = Some(ItemId::new(item));
        bar
    }
}

/// Why a registry or a chain of bars is refused.
#[derive(Clone, Debug, PartialEq, Eq)]
pub enum ModelError {
    EmptyItemId,
    EmptyItemLabel(ItemId),
    EmptyBarId,
    DuplicateItem(ItemId),
    DuplicateBar(BarId),
    UnknownItem { bar: BarId, item: ItemId },
    UnknownExpandedBar { item: ItemId, bar: BarId },
    MultipleContextProxies(BarId),
    ZeroFlexibleWeight(BarId),
    EmptyGroupId(BarId),
    DuplicateGroup { bar: BarId, group: String },
    GroupDepthExceeded { bar: BarId, group: String },
    PrincipalNotInBar { bar: BarId, item: ItemId },
    EmptyActiveChain,
    UnknownActiveBar(BarId),
    UnknownComposedItem(ItemId),
}

impl ModelError {
    /// What the message says.
    pub open spec fn wording(self) -> Seq<char> {
        match self {
            ModelError::EmptyItemId => "item identifiers must not be empty"@,
            ModelError::EmptyItemLabel(id) => "item "@ + id@ + " has no accessible label"@,
            ModelError::EmptyBarId => "bar identifiers must not be empty"@,
            ModelError::DuplicateItem(id) => "duplicate item identifier "@ + id@,
            ModelError::DuplicateBar(id) => "duplicate bar identifier "@ + id@,
            ModelError::UnknownItem { bar, item } => "bar "@ + bar@ + " references unknown item "@
                + item@,
            ModelError::UnknownExpandedBar { item, bar } => "item "@ + item@
                + " references unknown expanded bar "@ + bar@,
            ModelError::MultipleContextProxies(bar) => "bar "@ + bar@
                + " contains multiple context proxies"@,
            ModelError::ZeroFlexibleWeight(bar) => "bar "@ + bar@
                + " contains a zero-weight flexible space"@,
            ModelError::EmptyGroupId(bar) => "bar "@ + bar@ + " contains an empty group ID"@,
            ModelError::DuplicateGroup { bar, group } => "bar "@ + bar@
                + " contains duplicate group "@ + group@,
            ModelError::GroupDepthExceeded { bar, group } => "bar "@ + bar@ + " group "@ + group@
                + " exceeds the maximum nesting depth"@,
            ModelError::PrincipalNotInBar { bar, item } => "principal item "@ + item@
                + " is not in bar "@ + bar@,
            ModelError::EmptyActiveChain => "the active bar chain is empty"@,
            ModelError::UnknownActiveBar(bar) => "active bar "@ + bar@ + " is not registered"@,
            ModelError::UnknownComposedItem(item) => "composed bar contains unknown item "@ + item@,
        }
    }

    /// The message for a person.
    pub fn message(&self) -> (text: String)
        ensures
            text@ == self.wording(),
    {
        match self {
            ModelError::EmptyItemId => "item identifiers must not be empty".to_owned(),
            ModelError::EmptyItemLabel(id) => text::joined3(
                "item ",
                id.as_str(),
                " has no accessible label",
            ),
            ModelError::EmptyBarId => "bar identifiers must not be empty".to_owned(),
            ModelError::DuplicateItem(id) => text::joined(
                "duplicate item identifier ",
                id.as_str(),
            ),
            ModelError::DuplicateBar(id) => text::joined("duplicate bar identifier ", id.as_str()),
            ModelError::UnknownItem { bar, item } => text::joined4(
                "bar ",
                bar.as_str(),
                " references unknown item ",
                item.as_str(),
            ),
            ModelError::UnknownExpandedBar { item, bar } => text::joined4(
                "item ",
                item.as_str(),
                " references unknown expanded bar ",
                bar.as_str(),
            ),
            ModelError::MultipleContextProxies(bar) => text::joined3(
                "bar ",
                bar.as_str(),
                " contains multiple context proxies",
            ),
            ModelError::ZeroFlexibleWeight(bar) => text::joined3(
                "bar ",
                bar.as_str(),
                " contains a zero-weight flexible space",
            ),
            ModelError::EmptyGroupId(bar) => text::joined3(
                "bar ",
                bar.as_str(),
                " contains an empty group ID",
            ),
            ModelError::DuplicateGroup { bar, group } => text::joined4(
                "bar ",
                bar.as_str(),
                " contains duplicate group ",
                group.as_str(),
            ),
            ModelError::GroupDepthExceeded { bar, group } => text::joined(
                text::joined4("bar ", bar.as_str(), " group ", group.as_str()).as_str(),
                " exceeds the maximum nesting depth",
            ),
            ModelError::PrincipalNotInBar { bar, item } => text::joined4(
                "principal item ",
                item.as_str(),
                " is not in bar ",
                bar.as_str(),
            ),
            ModelError::EmptyActiveChain => "the active bar chain is empty".to_owned(),
            ModelError::UnknownActiveBar(bar) => text::joined3(
                "active bar ",
                bar.as_str(),
                " is not registered",
            ),
            ModelError::UnknownComposedItem(item) => text::joined(
                "composed bar contains unknown item ",
                item.as_str(),
            ),
        }
    }
}

/// Every item is found by its own identifier.
pub open spec fn named_items(items: TextMap<ItemId, ItemDefinition>) -> bool {
    forall|id: Seq<char>| #[trigger]
        items.lookup(id) matches Some(item) ==> item.layout.id@ == id
}

/// The items and bars that are known.
#[derive(Clone, Debug)]
pub struct Registry {
    items: TextMap<ItemId, ItemDefinition>,
    bars: TextMap<BarId, BarDefinition>,
}

impl Default for Registry {
    fn default() -> (registry: Self)
        ensures
            registry.wf(),
            registry.item_map().keys().len() == 0,
            registry.bar_map().keys().len() == 0,
    {
        Registry { items: TextMap::new(), bars: TextMap::new() }
    }
}

impl Registry {
    /// The items by identifier.
    pub closed spec fn item_map(self) -> TextMap<ItemId, ItemDefinition> {
        self.items
    }

    /// The bars by identifier.
    pub closed spec fn bar_map(self) -> TextMap<BarId, BarDefinition> {
        self.bars
    }

    /// Every item is found by its own identifier.
    pub open spec fn wf(self) -> bool {
        &&& self.item_map().wf()
        &&& self.bar_map().wf()
        &&& named_items(self.item_map())
    }

    /// Registers an item. An item whose identifier is taken is refused, and
    /// nothing changes.
    pub fn add_item(&mut self, item: ItemDefinition) -> (result: Result<(), ModelError>)
        requires
            old(self).wf(),
        ensures
            final(self).wf(),
            final(self).bar_map() == old(self).bar_map(),
            result == (if item.layout.id@.len() == 0 {
                Err(ModelError::EmptyItemId)
            } else if text::is_blank(item.label@) {
                Err(ModelError::EmptyItemLabel(item.layout.id))
            } else if old(self).item_map().has(item.layout.id@) {
                Err(ModelError::DuplicateItem(item.layout.id))
            } else {
                Ok(())
            }),
            result is Err ==> final(self).item_map() == old(self).item_map(),
            result is Ok ==> {
                &&& final(self).item_map().lookup(item.layout.id@) == Some(item)
                &&& forall|other: Seq<char>|
                    other != item.layout.id@ ==> #[trigger] final(self).item_map().lookup(other)
                        == old(self).item_map().lookup(other)
            },
    {
        let id: ItemId = item.layout.id.clone();
        if id.as_str().is_empty() {
            return Err(ModelError::EmptyItemId);
        }
        if text::blank(item.label.as_str()) {
            return Err(ModelError::EmptyItemLabel(id));
        }
        if self.items.contains(id.as_str()) {
            return Err(ModelError::DuplicateItem(id));
        }
        let ghost added = item;
        self.items.insert(id, item);
        proof {
            text::lemma_insert_lookup(old(self).items, self.items, id@, added);
        }
        Ok(())
    }

    /// Registers a bar. A bar whose identifier is taken is refused, and
    /// nothing changes.
    pub fn add_bar(&mut self, bar: BarDefinition) -> (result: Result<(), ModelError>)
        requires
            old(self).wf(),
        ensures
            final(self).wf(),
            final(self).item_map() == old(self).item_map(),
            result == (if bar.id@.len() == 0 {
                Err(ModelError::EmptyBarId)
            } else if old(self).bar_map().has(bar.id@) {
                Err(ModelError::DuplicateBar(bar.id))
            } else {
                Ok(())
            }),
            result is Err ==> final(self).bar_map() == old(self).bar_map(),
            result is Ok ==> {
                &&& final(self).bar_map().lookup(bar.id@) == Some(bar)
                &&& forall|other: Seq<char>|
                    other != bar.id@ ==> #[trigger] final(self).bar_map().lookup(other) == old(
                        self,
                    ).bar_map().lookup(other)
            },
    {
        if bar.id.as_str().is_empty() {
            return Err(ModelError::EmptyBarId);
        }
        let id: BarId = bar.id.clone();
        if self.bars.contains(id.as_str()) {
            return Err(ModelError::DuplicateBar(id));
        }
        let ghost added = bar;
        self.bars.insert(id, bar);
        proof {
            text::lemma_insert_lookup(old(self).bars, self.bars, id@, added);
        }
        Ok(())
    }

    pub fn item(&self, id: &ItemId) -> (item: Option<&ItemDefinition>)
        requires
            self.wf(),
        ensures
            self.item_map().lookup(id@) == (match item {
                Some(i) => Some(*i),
                None => None,
            }),
    {
        self.items.get(id.as_str())
    }

    pub fn bar(&self, id: &BarId) -> (bar: Option<&BarDefinition>)
        requires
            self.wf(),
        ensures
            self.bar_map().lookup(id@) == (match bar {
                Some(b) => Some(*b),
                None => None,
            }),
    {
        self.bars.get(id.as_str())
    }
}

// ---------------------------------------------------------------------------
// Which items bars name

pub open spec fn child_names(element: BarGroupElement, id: Seq<char>) -> bool
    decreases element,
{
    match element {
        BarGroupElement::Item(item) => item@ == id,
        BarGroupElement::Group(group) => group_names(group, id),
    }
}

/// The group has the item among its members, at any depth.
pub open spec fn group_names(group: BarGroup, id: Seq<char>) -> bool
    decreases group,
{
    exists|i: int| 0 <= i < group.elements@.len() && child_names(#[trigger] group.elements@[i], id)
}

pub open spec fn element_names(element: BarElement, id: Seq<char>) -> bool {
    match element {
        BarElement::Item(item) => item@ == id,
        BarElement::Group(group) => group_names(group, id),
        BarElement::FixedSpace { .. } => false,
        BarElement::FlexibleSpace { .. } => false,
        BarElement::ContextProxy => false,
    }
}

/// The bar has the item.
pub open spec fn names_item(elements: Seq<BarElement>, id: Seq<char>) -> bool {
    exists|i: int| 0 <= i < elements.len() && element_names(#[trigger] elements[i], id)
}

fn bar_group_contains_item(group: &BarGroup, target: &ItemId) -> (r: bool)
    ensures
        r == group_names(*group, target@),
    decreases group,
{
    let mut i: usize = 0;
    while i < group.elements.len()
        invariant
            i <= group.elements@.len(),
            forall|k: int|
                0 <= k < i ==> !child_names(#[trigger] group.elements@[k], target@),
        decreases group.elements@.len() - i,
    {
        let found: bool = match &group.elements[i] {
            BarGroupElement::Item(item) => text::same(item.as_str(), target.as_str()),
            BarGroupElement::Group(child) => bar_group_contains_item(child, target),
        };
        if found {
            proof {
                assert(child_names(group.elements@[i as int], target@));
            }
            return true;
        }
        i = i + 1;
    }
    false
}

fn bar_element_contains_item(element: &BarElement, target: &ItemId) -> (r: bool)
    ensures
        r == element_names(*element, target@),
{
    match element {
        BarElement::Item(item) => text::same(item.as_str(), target.as_str()),
        BarElement::Group(group) => bar_group_contains_item(group, target),
        _ => false,
    }
}

// ---------------------------------------------------------------------------
// Validity

/// An item opens a bar that is not registered.
pub open spec fn item_fault(item: ItemDefinition, bars: TextMap<BarId, BarDefinition>) -> Option<
    ModelError,
> {
    if item.expanded_bar matches Some(bar) && !bars.has(bar@) {
        Some(
            ModelError::UnknownExpandedBar { item: item.layout.id, bar: item.expanded_bar->Some_0 },
        )
    } else if item.press_and_hold_bar matches Some(bar) && !bars.has(bar@) {
        Some(
            ModelError::UnknownExpandedBar {
                item: item.layout.id,
                bar: item.press_and_hold_bar->Some_0,
            },
        )
    } else {
        None
    }
}

/// The first fault among the first `n` items.
pub open spec fn items_fault(
    items: Seq<ItemDefinition>,
    bars: TextMap<BarId, BarDefinition>,
    n: int,
) -> Option<ModelError>
    decreases n,
{
    if n <= 0 {
        None
    } else {
        match items_fault(items, bars, n - 1) {
            Some(e) => Some(e),
            None => item_fault(items[n - 1], bars),
        }
    }
}

pub open spec fn child_check(
    items: TextMap<ItemId, ItemDefinition>,
    bar: BarId,
    element: BarGroupElement,
    depth: int,
    seen: Set<Seq<char>>,
) -> Result<Set<Seq<char>>, ModelError>
    decreases element,
{
    match element {
        BarGroupElement::Item(item) => if items.has(item@) {
            Ok(seen)
        } else {
            Err(ModelError::UnknownItem { bar, item })
        },
        BarGroupElement::Group(group) => group_check(items, bar, group, depth, seen),
    }
}

pub open spec fn children_check(
    items: TextMap<ItemId, ItemDefinition>,
    bar: BarId,
    elements: Seq<BarGroupElement>,
    depth: int,
    seen: Set<Seq<char>>,
) -> Result<Set<Seq<char>>, ModelError>
    decreases elements,
{
    if elements.len() == 0 {
        Ok(seen)
    } else {
        match children_check(items, bar, elements.drop_last(), depth, seen) {
            Err(e) => Err(e),
            Ok(next) => child_check(items, bar, elements.last(), depth, next),
        }
    }
}

/// A group has a name of its own in its bar, is not too deep, and names only
/// items that are known.
pub open spec fn group_check(
    items: TextMap<ItemId, ItemDefinition>,
    bar: BarId,
    group: BarGroup,
    depth: int,
    seen: Set<Seq<char>>,
) -> Result<Set<Seq<char>>, ModelError>
    decreases group,
{
    if text::is_blank(group.id@) {
        Err(ModelError::EmptyGroupId(bar))
    } else if depth > MAX_GROUP_DEPTH {
        Err(ModelError::GroupDepthExceeded { bar, group: group.id })
    } else if seen.contains(group.id@) {
        Err(ModelError::DuplicateGroup { bar, group: group.id })
    } else {
        children_check(items, bar, group.elements@, depth + 1, seen.insert(group.id@))
    }
}

pub open spec fn element_check(
    items: TextMap<ItemId, ItemDefinition>,
    bar: BarId,
    element: BarElement,
    seen: Set<Seq<char>>,
) -> Result<Set<Seq<char>>, ModelError> {
    match element {
        BarElement::Item(item) => if items.has(item@) {
            Ok(seen)
        } else {
            Err(ModelError::UnknownItem { bar, item })
        },
        BarElement::Group(group) => group_check(items, bar, group, 1, seen),
        BarElement::FixedSpace { .. } => Ok(seen),
        BarElement::FlexibleSpace { weight, .. } => if weight == 0 {
            Err(ModelError::ZeroFlexibleWeight(bar))
        } else {
            Ok(seen)
        },
        BarElement::ContextProxy => Ok(seen),
    }
}

/// The first `n` elements of a bar.
pub open spec fn elements_check(
    items: TextMap<ItemId, ItemDefinition>,
    bar: BarId,
    elements: Seq<BarElement>,
    n: int,
) -> Result<Set<Seq<char>>, ModelError>
    decreases n,
{
    if n <= 0 {
        Ok(Set::empty())
    } else {
        match elements_check(items, bar, elements, n - 1) {
            Err(e) => Err(e),
            Ok(seen) => element_check(items, bar, elements[n - 1], seen),
        }
    }
}

/// How many proxies there are among the first `n` elements.
pub open spec fn proxies(elements: Seq<BarElement>, n: int) -> int
    decreases n,
{
    if n <= 0 {
        0
    } else {
        proxies(elements, n - 1) + (if elements[n - 1] is ContextProxy {
            1int
        } else {
            0int
        })
    }
}

/// What is wrong with a bar, if anything.
pub open spec fn bar_fault(items: TextMap<ItemId, ItemDefinition>, bar: BarDefinition) -> Option<
    ModelError,
> {
    let elements = bar.elements@;
    let n = elements.len() as int;
    if proxies(elements, n) > 1 {
        Some(ModelError::MultipleContextProxies(bar.id))
    } else {
        match elements_check(items, bar.id, elements, n) {
            Err(e) => Some(e),
            Ok(_) => if bar.principal_item is Some && !names_item(
                elements,
                bar.principal_item->Some_0@,
            ) {
                Some(
                    ModelError::PrincipalNotInBar {
                        bar: bar.id,
                        item: bar.principal_item->Some_0,
                    },
                )
            } else {
                None
            },
        }
    }
}

/// The first fault among the first `n` bars.
pub open spec fn bars_fault(
    items: TextMap<ItemId, ItemDefinition>,
    bars: Seq<BarDefinition>,
    n: int,
) -> Option<ModelError>
    decreases n,
{
    if n <= 0 {
        None
    } else {
        match bars_fault(items, bars, n - 1) {
            Some(e) => Some(e),
            None => bar_fault(items, bars[n - 1]),
        }
    }
}

/// What is wrong with a registry, if anything: first the items in the order
/// of their identifiers, then the bars.
pub open spec fn registry_fault(registry: Registry) -> Option<ModelError> {
    let items = registry.item_map();
    let bars = registry.bar_map();
    match items_fault(items.values(), bars, items.values().len() as int) {
        Some(e) => Some(e),
        None => bars_fault(items, bars.values(), bars.values().len() as int),
    }
}

proof fn lemma_items_fault_prefix(
    items: Seq<ItemDefinition>,
    bars: TextMap<BarId, BarDefinition>,
    k: int,
    n: int,
)
    requires
        0 <= k <= n,
    ensures
        items_fault(items, bars, k) is Some ==> items_fault(items, bars, n) == items_fault(
            items,
            bars,
            k,
        ),
    decreases n - k,
{
    if k < n {
        lemma_items_fault_prefix(items, bars, k, n - 1);
    }
}

proof fn lemma_bars_fault_prefix(
    items: TextMap<ItemId, ItemDefinition>,
    bars: Seq<BarDefinition>,
    k: int,
    n: int,
)
    requires
        0 <= k <= n,
    ensures
        bars_fault(items, bars, k) is Some ==> bars_fault(items, bars, n) == bars_fault(
            items,
            bars,
            k,
        ),
        bars_fault(items, bars, n) is None ==> bars_fault(items, bars, k) is None,
    decreases n - k,
{
    if k < n {
        lemma_bars_fault_prefix(items, bars, k, n - 1);
    }
}

proof fn lemma_elements_check_prefix(
    items: TextMap<ItemId, ItemDefinition>,
    bar: BarId,
    elements: Seq<BarElement>,
    k: int,
    n: int,
)
    requires
        0 <= k <= n,
    ensures
        elements_check(items, bar, elements, k) matches Err(e) ==> elements_check(
            items,
            bar,
            elements,
            n,
        ) == Err::<Set<Seq<char>>, ModelError>(e),
    decreases n - k,
{
    if k < n {
        lemma_elements_check_prefix(items, bar, elements, k, n - 1);
    }
}

proof fn lemma_children_check_prefix(
    items: TextMap<ItemId, ItemDefinition>,
    bar: BarId,
    elements: Seq<BarGroupElement>,
    depth: int,
    seen: Set<Seq<char>>,
    k: int,
)
    requires
        0 <= k <= elements.len(),
    ensures
        children_check(items, bar, elements.subrange(0, k), depth, seen) matches Err(e)
            ==> children_check(items, bar, elements, depth, seen) == Err::<
            Set<Seq<char>>,
            ModelError,
        >(e),
    decreases elements.len() - k,
{
    if k < elements.len() {
        lemma_children_check_prefix(items, bar, elements, depth, seen, k + 1);
        assert(elements.subrange(0, k + 1).drop_last() =~= elements.subrange(0, k));
    } else {
        assert(elements.subrange(0, k) =~= elements);
    }
}

impl Registry {
    fn validate_children(
        &self,
        bar: &BarId,
        elements: &Vec<BarGroupElement>,
        depth: usize,
        group_ids: &mut TextSet<String>,
    ) -> (result: Result<(), ModelError>)
        requires
            self.wf(),
            depth <= MAX_GROUP_DEPTH + 1,
            old(group_ids).wf(),
        ensures
            final(group_ids).wf(),
            children_check(
                self.item_map(),
                *bar,
                elements@,
                depth as int,
                old(group_ids)@.to_set(),
            ) == (match result {
                Ok(_) => Ok::<Set<Seq<char>>, ModelError>(final(group_ids)@.to_set()),
                Err(e) => Err(e),
            }),
        decreases elements,
    {
        let ghost start = group_ids@.to_set();
        let mut i: usize = 0;
        while i < elements.len()
            invariant
                self.wf(),
                depth <= MAX_GROUP_DEPTH + 1,
                i <= elements@.len(),
                group_ids.wf(),
                start == old(group_ids)@.to_set(),
                children_check(
                    self.item_map(),
                    *bar,
                    elements@.subrange(0, i as int),
                    depth as int,
                    start,
                ) == Ok::<Set<Seq<char>>, ModelError>(group_ids@.to_set()),
            decreases elements@.len() - i,
        {
            let ghost after = elements@.subrange(0, i + 1);
            proof {
                assert(after.drop_last() =~= elements@.subrange(0, i as int));
                assert(after.last() == elements@[i as int]);
                lemma_children_check_prefix(
                    self.item_map(),
                    *bar,
                    elements@,
                    depth as int,
                    start,
                    i + 1,
                );
                assert(children_check(self.item_map(), *bar, after, depth as int, start)
                    == child_check(
                    self.item_map(),
                    *bar,
                    elements@[i as int],
                    depth as int,
                    group_ids@.to_set(),
                ));
            }
            match &elements[i] {
                BarGroupElement::Item(item) => {
                    if !self.items.contains(item.as_str()) {
                        return Err(
                            ModelError::UnknownItem { bar: bar.clone(), item: item.clone() },
                        );
                    }
                },
                BarGroupElement::Group(group) => {
                    self.validate_bar_group(bar, group, depth, group_ids)?;
                },
            }
            i = i + 1;
        }
        proof {
            assert(elements@.subrange(0, elements@.len() as int) =~= elements@);
        }
        Ok(())
    }

    fn validate_bar_group(
        &self,
        bar: &BarId,
        group: &BarGroup,
        depth: usize,
        group_ids: &mut TextSet<String>,
    ) -> (result: Result<(), ModelError>)
        requires
            self.wf(),
            depth <= MAX_GROUP_DEPTH + 1,
            old(group_ids).wf(),
        ensures
            final(group_ids).wf(),
            group_check(self.item_map(), *bar, *group, depth as int, old(group_ids)@.to_set()) == (
            match result {
                Ok(_) => Ok::<Set<Seq<char>>, ModelError>(final(group_ids)@.to_set()),
                Err(e) => Err(e),
            }),
        decreases group,
    {
        if text::blank(group.id.as_str()) {
            return Err(ModelError::EmptyGroupId(bar.clone()));
        }
        if depth > MAX_GROUP_DEPTH {
            return Err(
                ModelError::GroupDepthExceeded { bar: bar.clone(), group: group.id.clone() },
            );
        }
        proof {
            text::lemma_rank(group_ids@, group.id@);
            text::lemma_insert_to_set(
                group_ids@,
                text::rank(group_ids@, group.id@) as int,
                group.id@,
            );
        }
        if !group_ids.insert(group.id.clone()) {
            return Err(ModelError::DuplicateGroup { bar: bar.clone(), group: group.id.clone() });
        }
        self.validate_children(bar, &group.elements, depth + 1, group_ids)
    }

    fn validate_bar(&self, bar: &BarDefinition) -> (result: Result<(), ModelError>)
        requires
            self.wf(),
        ensures
            match result {
                Ok(_) => bar_fault(self.item_map(), *bar) is None,
                Err(e) => bar_fault(self.item_map(), *bar) == Some(e),
            },
    {
        let ghost elements = bar.elements@;
        let ghost n = elements.len() as int;
        let mut count: usize = 0;
        let mut k: usize = 0;
        while k < bar.elements.len()
            invariant
                elements == bar.elements@,
                n == elements.len(),
                k <= n,
                count <= k,
                count == proxies(elements, k as int),
            decreases n - k,
        {
            if let BarElement::ContextProxy = &bar.elements[k] {
                count = count + 1;
            }
            k = k + 1;
        }
        if count > 1 {
            return Err(ModelError::MultipleContextProxies(bar.id.clone()));
        }
        let mut group_ids: TextSet<String> = TextSet::new();
        let mut i: usize = 0;
        proof {
            assert(group_ids@.to_set() =~= Set::<Seq<char>>::empty());
        }
        while i < bar.elements.len()
            invariant
                self.wf(),
                elements == bar.elements@,
                n == elements.len(),
                proxies(elements, n) <= 1,
                i <= n,
                group_ids.wf(),
                elements_check(self.item_map(), bar.id, elements, i as int) == Ok::<
                    Set<Seq<char>>,
                    ModelError,
                >(group_ids@.to_set()),
            decreases n - i,
        {
            proof {
                lemma_elements_check_prefix(self.item_map(), bar.id, elements, i + 1, n);
            }
            match &bar.elements[i] {
                BarElement::Item(item) => {
                    if !self.items.contains(item.as_str()) {
                        return Err(
                            ModelError::UnknownItem { bar: bar.id.clone(), item: item.clone() },
                        );
                    }
                },
                BarElement::Group(group) => {
                    self.validate_bar_group(&bar.id, group, 1, &mut group_ids)?;
                },
                BarElement::FlexibleSpace { weight, .. } => {
                    if *weight == 0 {
                        return Err(ModelError::ZeroFlexibleWeight(bar.id.clone()));
                    }
                },
                BarElement::FixedSpace { .. } => {},
                BarElement::ContextProxy => {},
            }
            i = i + 1;
        }
        if let Some(principal) = &bar.principal_item {
            if !any_contains_item(&bar.elements, principal) {
                return Err(
                    ModelError::PrincipalNotInBar { bar: bar.id.clone(), item: principal.clone() },
                );
            }
        }
        Ok(())
    }

    /// Refuses a registry whose items or bars refer to what is not there.
    pub fn validate(&self) -> (result: Result<(), ModelError>)
        requires
            self.wf(),
        ensures
            match result {
                Ok(_) => registry_fault(*self) is None,
                Err(e) => registry_fault(*self) == Some(e),
            },
    {
        let ghost items = self.items.values();
        let ghost bars = self.bars.values();
        let mut i: usize = 0;
        while i < self.items.len()
            invariant
                self.wf(),
                items == self.items.values(),
                i <= items.len(),
                items.len() == self.items.keys().len(),
                items_fault(items, self.bars, i as int) is None,
            decreases items.len() - i,
        {
            let item: &ItemDefinition = self.items.value_at(i);
            proof {
                lemma_items_fault_prefix(items, self.bars, i + 1, items.len() as int);
            }
            if let Some(target) = &item.expanded_bar {
                if !self.bars.contains(target.as_str()) {
                    return Err(
                        ModelError::UnknownExpandedBar {
                            item: item.layout.id.clone(),
                            bar: target.clone(),
                        },
                    );
                }
            }
            if let Some(target) = &item.press_and_hold_bar {
                if !self.bars.contains(target.as_str()) {
                    return Err(
                        ModelError::UnknownExpandedBar {
                            item: item.layout.id.clone(),
                            bar: target.clone(),
                        },
                    );
                }
            }
            i = i + 1;
        }
        let mut k: usize = 0;
        while k < self.bars.len()
            invariant
                self.wf(),
                items == self.items.values(),
                items_fault(items, self.bars, items.len() as int) is None,
                bars == self.bars.values(),
                k <= bars.len(),
                bars.len() == self.bars.keys().len(),
                bars_fault(self.items, bars, k as int) is None,
            decreases bars.len() - k,
        {
            proof {
                lemma_bars_fault_prefix(self.items, bars, k + 1, bars.len() as int);
            }
            self.validate_bar(self.bars.value_at(k))?;
            k = k + 1;
        }
        Ok(())
    }
}

fn any_contains_item(elements: &Vec<BarElement>, target: &ItemId) -> (r: bool)
    ensures
        r == names_item(elements@, target@),
{
    let mut i: usize = 0;
    while i < elements.len()
        invariant
            i <= elements@.len(),
            forall|k: int| 0 <= k < i ==> !element_names(#[trigger] elements@[k], target@),
        decreases elements@.len() - i,
    {
        if bar_element_contains_item(&elements[i], target) {
            return true;
        }
        i = i + 1;
    }
    false
}

// ---------------------------------------------------------------------------
// Composition

/// The first `n` elements without proxies.
pub open spec fn solid(elements: Seq<BarElement>, n: int) -> Seq<BarElement>
    decreases n,
{
    if n <= 0 {
        Seq::empty()
    } else if elements[n - 1] is ContextProxy {
        solid(elements, n - 1)
    } else {
        solid(elements, n - 1).push(elements[n - 1])
    }
}

/// The first proxy among the first `n` elements.
pub open spec fn proxy_at(elements: Seq<BarElement>, n: int) -> Option<int>
    decreases n,
{
    if n <= 0 {
        None
    } else {
        match proxy_at(elements, n - 1) {
            Some(i) => Some(i),
            None => if elements[n - 1] is ContextProxy {
                Some(n - 1)
            } else {
                None
            },
        }
    }
}

/// A bar around more specific content: in place of its proxy, or not at all.
pub open spec fn around(outer: Seq<BarElement>, inner: Seq<BarElement>) -> Seq<BarElement> {
    match proxy_at(outer, outer.len() as int) {
        Some(p) => outer.subrange(0, p) + inner + outer.subrange(p + 1, outer.len() as int),
        None => inner,
    }
}

/// The first of the first `n` active bars that is not registered.
pub open spec fn unknown_bar(
    bars: TextMap<BarId, BarDefinition>,
    active: Seq<BarId>,
    n: int,
) -> Option<BarId>
    decreases n,
{
    if n <= 0 {
        None
    } else {
        match unknown_bar(bars, active, n - 1) {
            Some(id) => Some(id),
            None => if bars.has(active[n - 1]@) {
                None
            } else {
                Some(active[n - 1])
            },
        }
    }
}

/// The elements of a registered bar.
pub open spec fn elements_of(bars: TextMap<BarId, BarDefinition>, id: BarId) -> Seq<BarElement> {
    bars.lookup(id@)->Some_0.elements@
}

/// The first `n` active bars put together, from the most specific one
/// outwards.
pub open spec fn assembled(
    bars: TextMap<BarId, BarDefinition>,
    active: Seq<BarId>,
    n: int,
) -> Seq<BarElement>
    decreases n,
{
    if n <= 0 {
        Seq::empty()
    } else {
        let own = elements_of(bars, active[n - 1]);
        if n == 1 {
            solid(own, own.len() as int)
        } else {
            around(own, assembled(bars, active, n - 1))
        }
    }
}

/// The principal item of the closest of the first `n` active bars that has one
/// among the assembled elements.
pub open spec fn closest_principal(
    bars: TextMap<BarId, BarDefinition>,
    active: Seq<BarId>,
    elements: Seq<BarElement>,
    n: int,
) -> Option<ItemId>
    decreases n,
{
    if n <= 0 {
        None
    } else {
        match closest_principal(bars, active, elements, n - 1) {
            Some(id) => Some(id),
            None => match bars.lookup(active[n - 1]@) {
                Some(bar) => match bar.principal_item {
                    Some(id) => if names_item(elements, id@) {
                        Some(id)
                    } else {
                        None
                    },
                    None => None,
                },
                None => None,
            },
        }
    }
}

pub open spec fn child_resolves(
    items: TextMap<ItemId, ItemDefinition>,
    element: BarGroupElement,
    out: GroupElement,
) -> bool
    decreases element,
{
    match element {
        BarGroupElement::Item(id) => match out {
            GroupElement::Item(item) => items.lookup(id@) matches Some(known) && known.layout
                == item,
            GroupElement::Group(_) => false,
        },
        BarGroupElement::Group(group) => match out {
            GroupElement::Item(_) => false,
            GroupElement::Group(resolved) => group_resolves(items, group, resolved),
        },
    }
}

/// The group is as defined, with the registered widths of its items.
pub open spec fn group_resolves(
    items: TextMap<ItemId, ItemDefinition>,
    group: BarGroup,
    out: GroupSpec,
) -> bool
    decreases group,
{
    &&& out.id == group.id
    &&& out.layout == group.layout
    &&& out.spacing == group.spacing
    &&& out.visibility_priority == group.visibility_priority
    &&& out.compression_priority == group.compression_priority
    &&& out.elements@.len() == group.elements@.len()
    &&& forall|i: int|
        0 <= i < group.elements@.len() ==> child_resolves(
            items,
            #[trigger] group.elements@[i],
            out.elements@[i],
        )
}

/// The element is as defined, with the registered widths of its items.
pub open spec fn element_resolves(
    items: TextMap<ItemId, ItemDefinition>,
    element: BarElement,
    out: Element,
) -> bool {
    match element {
        BarElement::Item(id) => items.lookup(id@) matches Some(known) && out == Element::Item(
            known.layout,
        ),
        BarElement::Group(group) => out matches Element::Group(resolved) && group_resolves(
            items,
            group,
            resolved,
        ),
        BarElement::FixedSpace { width } => out == (Element::FixedSpace { width }),
        BarElement::FlexibleSpace { minimum, weight } => out == (Element::FlexibleSpace {
            minimum,
            weight,
        }),
        BarElement::ContextProxy => false,
    }
}

/// The bar holds the elements with the registered widths of their items.
pub open spec fn elements_resolve(
    items: TextMap<ItemId, ItemDefinition>,
    elements: Seq<BarElement>,
    out: Seq<Element>,
) -> bool {
    out.len() == elements.len() && forall|i: int|
        0 <= i < elements.len() ==> element_resolves(items, #[trigger] elements[i], out[i])
}

/// The element names only items that are known.
pub open spec fn known_child(
    items: TextMap<ItemId, ItemDefinition>,
    element: BarGroupElement,
) -> bool
    decreases element,
{
    match element {
        BarGroupElement::Item(id) => items.has(id@),
        BarGroupElement::Group(group) => known_group(items, group),
    }
}

pub open spec fn known_group(items: TextMap<ItemId, ItemDefinition>, group: BarGroup) -> bool
    decreases group,
{
    forall|i: int|
        0 <= i < group.elements@.len() ==> known_child(items, #[trigger] group.elements@[i])
}

pub open spec fn known_element(
    items: TextMap<ItemId, ItemDefinition>,
    element: BarElement,
) -> bool {
    match element {
        BarElement::Item(id) => items.has(id@),
        BarElement::Group(group) => known_group(items, group),
        _ => true,
    }
}

proof fn lemma_known_child(
    items: TextMap<ItemId, ItemDefinition>,
    bar: BarId,
    element: BarGroupElement,
    depth: int,
    seen: Set<Seq<char>>,
)
    requires
        child_check(items, bar, element, depth, seen) is Ok,
    ensures
        known_child(items, element),
    decreases element,
{
    if let BarGroupElement::Group(group) = element {
        lemma_known_group(items, bar, group, depth, seen);
    }
}

proof fn lemma_known_children(
    items: TextMap<ItemId, ItemDefinition>,
    bar: BarId,
    elements: Seq<BarGroupElement>,
    depth: int,
    seen: Set<Seq<char>>,
    k: int,
)
    requires
        children_check(items, bar, elements, depth, seen) is Ok,
        0 <= k < elements.len(),
    ensures
        known_child(items, elements[k]),
    decreases elements,
{
    let rest = elements.drop_last();
    if k == elements.len() - 1 {
        lemma_known_child(
            items,
            bar,
            elements.last(),
            depth,
            children_check(items, bar, rest, depth, seen)->Ok_0,
        );
    } else {
        lemma_known_children(items, bar, rest, depth, seen, k);
    }
}

proof fn lemma_known_group(
    items: TextMap<ItemId, ItemDefinition>,
    bar: BarId,
    group: BarGroup,
    depth: int,
    seen: Set<Seq<char>>,
)
    requires
        group_check(items, bar, group, depth, seen) is Ok,
    ensures
        known_group(items, group),
    decreases group,
{
    assert forall|i: int| 0 <= i < group.elements@.len() implies known_child(
        items,
        #[trigger] group.elements@[i],
    ) by {
        lemma_known_children(
            items,
            bar,
            group.elements@,
            depth + 1,
            seen.insert(group.id@),
            i,
        );
    }
}

proof fn lemma_known_elements(
    items: TextMap<ItemId, ItemDefinition>,
    bar: BarId,
    elements: Seq<BarElement>,
    n: int,
    k: int,
)
    requires
        elements_check(items, bar, elements, n) is Ok,
        0 <= k < n,
    ensures
        known_element(items, elements[k]),
    decreases n,
{
    if k == n - 1 {
        if let BarElement::Group(group) = elements[k] {
            lemma_known_group(
                items,
                bar,
                group,
                1,
                elements_check(items, bar, elements, n - 1)->Ok_0,
            );
        }
    } else {
        lemma_known_elements(items, bar, elements, n - 1, k);
    }
}

/// The elements can be resolved: none is a proxy, and all items are known.
pub open spec fn resolvable(
    items: TextMap<ItemId, ItemDefinition>,
    elements: Seq<BarElement>,
) -> bool {
    forall|i: int|
        0 <= i < elements.len() ==> !(#[trigger] elements[i] is ContextProxy) && known_element(
            items,
            elements[i],
        )
}

proof fn lemma_bar_known(registry: Registry, id: Seq<char>)
    requires
        registry.wf(),
        registry_fault(registry) is None,
        registry.bar_map().has(id),
    ensures
        ({
            let elements = registry.bar_map().lookup(id)->Some_0.elements@;
            &&& proxies(elements, elements.len() as int) <= 1
            &&& forall|i: int|
                0 <= i < elements.len() ==> known_element(
                    registry.item_map(),
                    #[trigger] elements[i],
                )
        }),
{
    let bars = registry.bar_map();
    let k = text::rank(bars.keys(), id) as int;
    text::lemma_rank(bars.keys(), id);
    let bar = bars.values()[k];
    lemma_bars_fault_prefix(
        registry.item_map(),
        bars.values(),
        k + 1,
        bars.values().len() as int,
    );
    let elements = bar.elements@;
    assert forall|i: int| 0 <= i < elements.len() implies known_element(
        registry.item_map(),
        #[trigger] elements[i],
    ) by {
        lemma_known_elements(
            registry.item_map(),
            bar.id,
            elements,
            elements.len() as int,
            i,
        );
    }
}

proof fn lemma_solid(items: TextMap<ItemId, ItemDefinition>, elements: Seq<BarElement>, n: int)
    requires
        0 <= n <= elements.len(),
        forall|i: int| 0 <= i < elements.len() ==> known_element(items, #[trigger] elements[i]),
    ensures
        resolvable(items, solid(elements, n)),
    decreases n,
{
    if n > 0 {
        lemma_solid(items, elements, n - 1);
    }
}

proof fn lemma_proxy_at(elements: Seq<BarElement>, n: int)
    requires
        0 <= n <= elements.len(),
    ensures
        proxies(elements, n) >= 0,
        match proxy_at(elements, n) {
            Some(p) => {
                &&& 0 <= p < n
                &&& elements[p] is ContextProxy
                &&& proxies(elements, n) >= 1
                &&& proxies(elements, n) <= 1 ==> forall|i: int|
                    0 <= i < n && i != p ==> !(#[trigger] elements[i] is ContextProxy)
            },
            None => proxies(elements, n) == 0 && forall|i: int|
                0 <= i < n ==> !(#[trigger] elements[i] is ContextProxy),
        },
    decreases n,
{
    if n > 0 {
        lemma_proxy_at(elements, n - 1);
    }
}

proof fn lemma_around(
    items: TextMap<ItemId, ItemDefinition>,
    outer: Seq<BarElement>,
    inner: Seq<BarElement>,
)
    requires
        proxies(outer, outer.len() as int) <= 1,
        forall|i: int| 0 <= i < outer.len() ==> known_element(items, #[trigger] outer[i]),
        resolvable(items, inner),
    ensures
        resolvable(items, around(outer, inner)),
{
    let n = outer.len() as int;
    lemma_proxy_at(outer, n);
    if let Some(p) = proxy_at(outer, n) {
        let all = around(outer, inner);
        let m = inner.len() as int;
        assert forall|i: int| 0 <= i < all.len() implies !(#[trigger] all[i] is ContextProxy)
            && known_element(items, all[i]) by {
            if i < p {
                assert(all[i] == outer[i]);
            } else if i < p + m {
                assert(all[i] == inner[i - p]);
            } else {
                assert(all[i] == outer[i - m + 1]);
            }
        }
    }
}

proof fn lemma_assembled(registry: Registry, active: Seq<BarId>, n: int)
    requires
        registry.wf(),
        registry_fault(registry) is None,
        0 <= n <= active.len(),
        unknown_bar(registry.bar_map(), active, n) is None,
    ensures
        resolvable(registry.item_map(), assembled(registry.bar_map(), active, n)),
    decreases n,
{
    if n > 0 {
        lemma_assembled(registry, active, n - 1);
        let id = active[n - 1];
        lemma_bar_known(registry, id@);
        let own = elements_of(registry.bar_map(), id);
        if n == 1 {
            lemma_solid(registry.item_map(), own, own.len() as int);
        } else {
            lemma_around(
                registry.item_map(),
                own,
                assembled(registry.bar_map(), active, n - 1),
            );
        }
    }
}

proof fn lemma_unknown_bar_prefix(
    bars: TextMap<BarId, BarDefinition>,
    active: Seq<BarId>,
    k: int,
    n: int,
)
    requires
        0 <= k <= n,
    ensures
        unknown_bar(bars, active, k) is Some ==> unknown_bar(bars, active, n) == unknown_bar(
            bars,
            active,
            k,
        ),
    decreases n - k,
{
    if k < n {
        lemma_unknown_bar_prefix(bars, active, k, n - 1);
    }
}

/// The composition of a chain of active bars, or why there is none.
pub open spec fn chain_fault(registry: Registry, active: Seq<BarId>) -> Option<ModelError> {
    match registry_fault(registry) {
        Some(e) => Some(e),
        None => if active.len() == 0 {
            Some(ModelError::EmptyActiveChain)
        } else {
            match unknown_bar(registry.bar_map(), active, active.len() as int) {
                Some(id) => Some(ModelError::UnknownActiveBar(id)),
                None => None,
            }
        },
    }
}

/// The bar is the composition of the active bars.
pub open spec fn composes(registry: Registry, active: Seq<BarId>, bar: BarSpec) -> bool {
    let elements = assembled(registry.bar_map(), active, active.len() as int);
    &&& elements_resolve(registry.item_map(), elements, bar.elements@)
    &&& bar.principal_item == closest_principal(
        registry.bar_map(),
        active,
        elements,
        active.len() as int,
    )
}

/// The elements that references point to.
pub open spec fn targets(elements: Seq<&BarElement>) -> Seq<BarElement> {
    Seq::new(elements.len(), |i: int| *elements[i])
}

fn without_proxy(elements: &Vec<BarElement>) -> (kept: Vec<&BarElement>)
    ensures
        targets(kept@) == solid(elements@, elements@.len() as int),
{
    let mut kept: Vec<&BarElement> = Vec::new();
    let mut i: usize = 0;
    proof {
        assert(targets(kept@) =~= Seq::empty());
    }
    while i < elements.len()
        invariant
            i <= elements@.len(),
            targets(kept@) == solid(elements@, i as int),
        decreases elements@.len() - i,
    {
        let element: &BarElement = &elements[i];
        let is_proxy: bool = match element {
            BarElement::ContextProxy => true,
            _ => false,
        };
        if !is_proxy {
            let ghost before = kept@;
            kept.push(element);
            proof {
                assert(targets(kept@) =~= targets(before).push(*element));
            }
        }
        i = i + 1;
    }
    kept
}

/// Puts a bar around more specific content.
fn wrap<'a>(outer: &'a Vec<BarElement>, inner: Vec<&'a BarElement>) -> (wrapped: Vec<
    &'a BarElement,
>)
    ensures
        targets(wrapped@) == around(outer@, targets(inner@)),
{
    let ghost n = outer@.len() as int;
    let mut p: usize = 0;
    while p < outer.len()
        invariant
            n == outer@.len(),
            p <= n,
            proxy_at(outer@, p as int) is None,
        decreases n - p,
    {
        let is_proxy: bool = match &outer[p] {
            BarElement::ContextProxy => true,
            _ => false,
        };
        if is_proxy {
            proof {
                lemma_proxy_at_prefix(outer@, p + 1, n);
            }
            let mut wrapped: Vec<&'a BarElement> = Vec::new();
            let mut i: usize = 0;
            while i < p
                invariant
                    i <= p < outer@.len(),
                    wrapped@.len() == i,
                    forall|k: int| 0 <= k < i ==> *#[trigger] wrapped@[k] == outer@[k],
                decreases p - i,
            {
                wrapped.push(&outer[i]);
                i = i + 1;
            }
            let mut j: usize = 0;
            while j < inner.len()
                invariant
                    p < outer@.len(),
                    j <= inner@.len(),
                    wrapped@.len() == p + j,
                    forall|k: int| 0 <= k < p ==> *#[trigger] wrapped@[k] == outer@[k],
                    forall|k: int|
                        p <= k < p + j ==> *#[trigger] wrapped@[k] == *inner@[k - p],
                decreases inner@.len() - j,
            {
                wrapped.push(inner[j]);
                j = j + 1;
            }
            let ghost m = inner@.len() as int;
            let mut r: usize = p + 1;
            while r < outer.len()
                invariant
                    m == inner@.len(),
                    p < r <= outer@.len(),
                    wrapped@.len() == m + r - 1,
                    forall|k: int| 0 <= k < p ==> *#[trigger] wrapped@[k] == outer@[k],
                    forall|k: int|
                        p <= k < p + m ==> *#[trigger] wrapped@[k] == *inner@[k - p],
                    forall|k: int|
                        p + m <= k < m + r - 1 ==> *#[trigger] wrapped@[k] == outer@[k - m + 1],
                decreases outer@.len() - r,
            {
                wrapped.push(&outer[r]);
                r = r + 1;
            }
            proof {
                assert(targets(wrapped@) =~= around(outer@, targets(inner@)));
            }
            return wrapped;
        }
        p = p + 1;
    }
    inner
}

proof fn lemma_proxy_at_prefix(elements: Seq<BarElement>, k: int, n: int)
    requires
        0 <= k <= n,
    ensures
        proxy_at(elements, k) is Some ==> proxy_at(elements, n) == proxy_at(elements, k),
    decreases n - k,
{
    if k < n {
        lemma_proxy_at_prefix(elements, k, n - 1);
    }
}

fn any_target_contains_item(elements: &Vec<&BarElement>, target: &ItemId) -> (r: bool)
    ensures
        r == names_item(targets(elements@), target@),
{
    let ghost all = targets(elements@);
    let mut i: usize = 0;
    while i < elements.len()
        invariant
            all == targets(elements@),
            i <= elements@.len(),
            forall|k: int| 0 <= k < i ==> !element_names(#[trigger] all[k], target@),
        decreases elements@.len() - i,
    {
        if bar_element_contains_item(elements[i], target) {
            proof {
                assert(element_names(all[i as int], target@));
            }
            return true;
        }
        i = i + 1;
    }
    false
}

impl Registry {
    fn resolve_children(&self, elements: &Vec<BarGroupElement>) -> (result: Vec<GroupElement>)
        requires
            self.wf(),
            forall|i: int|
                0 <= i < elements@.len() ==> known_child(
                    self.item_map(),
                    #[trigger] elements@[i],
                ),
        ensures
            result@.len() == elements@.len(),
            forall|i: int|
                0 <= i < elements@.len() ==> child_resolves(
                    self.item_map(),
                    #[trigger] elements@[i],
                    result@[i],
                ),
        decreases elements,
    {
        let mut result: Vec<GroupElement> = Vec::new();
        let mut i: usize = 0;
        while i < elements.len()
            invariant
                self.wf(),
                forall|k: int|
                    0 <= k < elements@.len() ==> known_child(
                        self.item_map(),
                        #[trigger] elements@[k],
                    ),
                i <= elements@.len(),
                result@.len() == i,
                forall|k: int|
                    0 <= k < i ==> child_resolves(
                        self.item_map(),
                        #[trigger] elements@[k],
                        result@[k],
                    ),
            decreases elements@.len() - i,
        {
            proof {
                assert(known_child(self.item_map(), elements@[i as int]));
            }
            match &elements[i] {
                BarGroupElement::Item(id) => {
                    if let Some(item) = self.items.get(id.as_str()) {
                        result.push(GroupElement::Item(item.layout.clone()));
                    }
                },
                BarGroupElement::Group(group) => {
                    result.push(GroupElement::Group(self.resolve_bar_group(group)));
                },
            }
            i = i + 1;
        }
        result
    }

    fn resolve_bar_group(&self, group: &BarGroup) -> (result: GroupSpec)
        requires
            self.wf(),
            known_group(self.item_map(), *group),
        ensures
            group_resolves(self.item_map(), *group, result),
        decreases group,
    {
        GroupSpec {
            id: group.id.clone(),
            elements: self.resolve_children(&group.elements),
            layout: group.layout,
            spacing: group.spacing,
            visibility_priority: group.visibility_priority,
            compression_priority: group.compression_priority,
        }
    }

    fn resolve_elements(&self, elements: &Vec<&BarElement>) -> (result: Vec<Element>)
        requires
            self.wf(),
            resolvable(self.item_map(), targets(elements@)),
        ensures
            elements_resolve(self.item_map(), targets(elements@), result@),
    {
        let ghost all = targets(elements@);
        let mut result: Vec<Element> = Vec::new();
        let mut i: usize = 0;
        while i < elements.len()
            invariant
                self.wf(),
                all == targets(elements@),
                resolvable(self.item_map(), all),
                i <= elements@.len(),
                result@.len() == i,
                forall|k: int|
                    0 <= k < i ==> element_resolves(
                        self.item_map(),
                        #[trigger] all[k],
                        result@[k],
                    ),
            decreases elements@.len() - i,
        {
            proof {
                assert(!(all[i as int] is ContextProxy));
                assert(known_element(self.item_map(), all[i as int]));
            }
            match elements[i] {
                BarElement::Item(id) => {
                    if let Some(item) = self.items.get(id.as_str()) {
                        result.push(Element::Item(item.layout.clone()));
                    }
                },
                BarElement::Group(group) => {
                    result.push(Element::Group(self.resolve_bar_group(group)));
                },
                BarElement::FixedSpace { width } => {
                    result.push(Element::FixedSpace { width: *width });
                },
                BarElement::FlexibleSpace { minimum, weight } => {
                    result.push(
                        Element::FlexibleSpace { minimum: *minimum, weight: *weight },
                    );
                },
                BarElement::ContextProxy => {},
            }
            i = i + 1;
        }
        result
    }

    fn find_principal(&self, active: &[BarId], composed: &Vec<&BarElement>) -> (principal: Option<
        ItemId,
    >)
        requires
            self.wf(),
        ensures
            principal == closest_principal(
                self.bar_map(),
                active@,
                targets(composed@),
                active@.len() as int,
            ),
    {
        let mut i: usize = 0;
        while i < active.len()
            invariant
                self.wf(),
                i <= active@.len(),
                closest_principal(self.bar_map(), active@, targets(composed@), i as int) is None,
            decreases active@.len() - i,
        {
            if let Some(bar) = self.bars.get(active[i].as_str()) {
                if let Some(principal) = &bar.principal_item {
                    if any_target_contains_item(composed, principal) {
                        proof {
                            lemma_closest_prefix(
                                self.bar_map(),
                                active@,
                                targets(composed@),
                                i + 1,
                                active@.len() as int,
                            );
                        }
                        return Some(principal.clone());
                    }
                }
            }
            i = i + 1;
        }
        None
    }

    /// Compose active bars ordered from the focused/most-specific bar to the
    /// system/least-specific bar.
    ///
    /// A less-specific bar participates only when it contains `ContextProxy`.
    /// This mirrors the useful part of AppKit's other-items proxy behavior:
    /// focused content wins by default, while an enclosing bar can explicitly
    /// place persistent controls around it.
    pub fn compose_active_chain(&self, active: &[BarId]) -> (result: Result<BarSpec, ModelError>)
        requires
            self.wf(),
        ensures
            match result {
                Ok(bar) => chain_fault(*self, active@) is None && composes(*self, active@, bar),
                Err(e) => chain_fault(*self, active@) == Some(e),
            },
    {
        self.validate()?;
        if active.len() == 0 {
            return Err(ModelError::EmptyActiveChain);
        }
        let mut composed: Vec<&BarElement> = Vec::new();
        let mut i: usize = 0;
        proof {
            assert(targets(composed@) =~= Seq::empty());
        }
        while i < active.len()
            invariant
                self.wf(),
                registry_fault(*self) is None,
                active@.len() > 0,
                i <= active@.len(),
                unknown_bar(self.bar_map(), active@, i as int) is None,
                targets(composed@) == assembled(self.bar_map(), active@, i as int),
            decreases active@.len() - i,
        {
            match self.bars.get(active[i].as_str()) {
                Some(bar) => {
                    composed =
                    if i == 0 {
                        without_proxy(&bar.elements)
                    } else {
                        wrap(&bar.elements, composed)
                    };
                },
                None => {
                    proof {
                        lemma_unknown_bar_prefix(
                            self.bar_map(),
                            active@,
                            i + 1,
                            active@.len() as int,
                        );
                    }
                    return Err(ModelError::UnknownActiveBar(active[i].clone()));
                },
            }
            i = i + 1;
        }
        proof {
            lemma_assembled(*self, active@, active@.len() as int);
        }
        let principal_item: Option<ItemId> = self.find_principal(active, &composed);
        Ok(BarSpec { elements: self.resolve_elements(&composed), principal_item })
    }
}

proof fn lemma_closest_prefix(
    bars: TextMap<BarId, BarDefinition>,
    active: Seq<BarId>,
    elements: Seq<BarElement>,
    k: int,
    n: int,
)
    requires
        0 <= k <= n,
    ensures
        closest_principal(bars, active, elements, k) is Some ==> closest_principal(
            bars,
            active,
            elements,
            n,
        ) == closest_principal(bars, active, elements, k),
    decreases n - k,
{
    if k < n {
        lemma_closest_prefix(bars, active, elements, k, n - 1);
    }
}

/// A less specific bar without a proxy changes nothing.
pub proof fn bars_without_proxy_are_left_out(
    bars: TextMap<BarId, BarDefinition>,
    active: Seq<BarId>,
    n: int,
)
    requires
        1 <= n < active.len(),
        forall|i: int|
            0 <= i < elements_of(bars, active[n]).len() ==> !(#[trigger] elements_of(
                bars,
                active[n],
            )[i] is ContextProxy),
    ensures
        assembled(bars, active, n + 1) == assembled(bars, active, n),
{
    lemma_proxy_at(elements_of(bars, active[n]), elements_of(bars, active[n]).len() as int);
}

/// What the more specific bars show is kept, in one piece.
pub proof fn focused_content_is_kept(
    bars: TextMap<BarId, BarDefinition>,
    active: Seq<BarId>,
    n: int,
) -> (start: int)
    requires
        1 <= n < active.len(),
    ensures
        ({
            let inner = assembled(bars, active, n);
            let all = assembled(bars, active, n + 1);
            &&& 0 <= start
            &&& start + inner.len() <= all.len()
            &&& all.subrange(start, start + inner.len()) == inner
        }),
{
    let outer = elements_of(bars, active[n]);
    let inner = assembled(bars, active, n);
    let all = assembled(bars, active, n + 1);
    lemma_proxy_at(outer, outer.len() as int);
    match proxy_at(outer, outer.len() as int) {
        Some(p) => {
            assert(all.subrange(p, p + inner.len()) =~= inner);
            p
        },
        None => {
            assert(all.subrange(0, inner.len() as int) =~= inner);
            0
        },
    }
}

/// A composed bar holds no proxy and names only registered items.
pub proof fn composed_bars_are_complete(registry: Registry, active: Seq<BarId>)
    requires
        registry.wf(),
        chain_fault(registry, active) is None,
    ensures
        resolvable(
            registry.item_map(),
            assembled(registry.bar_map(), active, active.len() as int),
        ),
{
    lemma_assembled(registry, active, active.len() as int);
}

// ---------------------------------------------------------------------------
// What composed bars show

/// The item stands in the bar, at any depth.
pub open spec fn shows(bar: BarSpec, id: ItemId) -> bool {
    place::holds(laws::all_items(bar.elements@, bar.elements@.len() as int), id@)
}

/// The active bar with the given number has the item as its principal one.
pub open spec fn puts_first(registry: Registry, active: Seq<BarId>, k: int, id: ItemId) -> bool {
    &&& 0 <= k < active.len()
    &&& registry.bar_map().lookup(active[k]@) matches Some(bar) && bar.principal_item == Some(id)
}

proof fn lemma_names_child(
    items: TextMap<ItemId, ItemDefinition>,
    element: BarGroupElement,
    out: GroupElement,
    id: Seq<char>,
)
    requires
        named_items(items),
        child_resolves(items, element, out),
    ensures
        child_names(element, id) == place::holds(place::child_items(out), id),
    decreases element,
{
    match (element, out) {
        (BarGroupElement::Item(own), GroupElement::Item(item)) => {
            assert(items.lookup(own@) is Some);
            assert(place::child_items(out) =~= seq![item]);
            if item.id@ == id {
                assert(place::child_items(out)[0].id@ == id);
            }
        },
        (BarGroupElement::Group(group), GroupElement::Group(resolved)) => {
            lemma_names_group(items, group, resolved, id);
        },
        _ => {},
    }
}

proof fn lemma_names_members(
    items: TextMap<ItemId, ItemDefinition>,
    group: BarGroup,
    out: GroupSpec,
    n: int,
    id: Seq<char>,
)
    requires
        named_items(items),
        group_resolves(items, group, out),
        0 <= n <= group.elements@.len(),
    ensures
        place::holds(place::member_items(out.elements@.subrange(0, n)), id) <==> exists|i: int|
            0 <= i < n && child_names(#[trigger] group.elements@[i], id),
    decreases group, n,
{
    let some = out.elements@.subrange(0, n);
    if n > 0 {
        lemma_names_members(items, group, out, n - 1, id);
        assert(some.drop_last() =~= out.elements@.subrange(0, n - 1));
        assert(some.last() == out.elements@[n - 1]);
        assert(child_resolves(items, group.elements@[n - 1], out.elements@[n - 1]));
        lemma_names_child(items, group.elements@[n - 1], out.elements@[n - 1], id);
        place::lemma_holds_append(
            place::member_items(some.drop_last()),
            place::child_items(some.last()),
            id,
        );
        if place::holds(place::member_items(some), id) {
            if place::holds(place::member_items(some.drop_last()), id) {
                let i = choose|i: int|
                    0 <= i < n - 1 && child_names(#[trigger] group.elements@[i], id);
                assert(child_names(group.elements@[i], id));
            } else {
                assert(child_names(group.elements@[n - 1], id));
            }
        }
    }
}

proof fn lemma_names_group(
    items: TextMap<ItemId, ItemDefinition>,
    group: BarGroup,
    out: GroupSpec,
    id: Seq<char>,
)
    requires
        named_items(items),
        group_resolves(items, group, out),
    ensures
        group_names(group, id) == place::holds(place::member_items(out.elements@), id),
    decreases group, group.elements@.len() + 1,
{
    let n = group.elements@.len() as int;
    lemma_names_members(items, group, out, n, id);
    assert(out.elements@.subrange(0, n) =~= out.elements@);
}

proof fn lemma_names_elements(
    items: TextMap<ItemId, ItemDefinition>,
    elements: Seq<BarElement>,
    out: Seq<Element>,
    n: int,
    id: Seq<char>,
)
    requires
        named_items(items),
        elements_resolve(items, elements, out),
        0 <= n <= elements.len(),
    ensures
        place::holds(laws::all_items(out, n), id) <==> exists|i: int|
            0 <= i < n && element_names(#[trigger] elements[i], id),
    decreases n,
{
    if n > 0 {
        lemma_names_elements(items, elements, out, n - 1, id);
        let element = elements[n - 1];
        let shown = out[n - 1];
        assert(element_resolves(items, element, shown));
        assert(element_names(element, id) == place::holds(place::element_items(shown), id)) by {
            match (element, shown) {
                (BarElement::Item(own), Element::Item(item)) => {
                    assert(items.lookup(own@) is Some);
                    if item.id@ == id {
                        assert(place::element_items(shown)[0].id@ == id);
                    }
                },
                (BarElement::Group(group), Element::Group(resolved)) => {
                    lemma_names_group(items, group, resolved, id);
                },
                _ => {},
            }
        }
        place::lemma_holds_append(
            laws::all_items(out, n - 1),
            place::element_items(shown),
            id,
        );
        if place::holds(laws::all_items(out, n), id) {
            if place::holds(laws::all_items(out, n - 1), id) {
                let i = choose|i: int| 0 <= i < n - 1 && element_names(#[trigger] elements[i], id);
                assert(element_names(elements[i], id));
            } else {
                assert(element_names(elements[n - 1], id));
            }
        }
    }
}

proof fn lemma_closest(
    registry: Registry,
    active: Seq<BarId>,
    elements: Seq<BarElement>,
    bar: BarSpec,
    n: int,
)
    requires
        registry.wf(),
        elements_resolve(registry.item_map(), elements, bar.elements@),
        0 <= n <= active.len(),
    ensures
        match closest_principal(registry.bar_map(), active, elements, n) {
            Some(id) => exists|k: int|
                {
                    &&& 0 <= k < n
                    &&& #[trigger] puts_first(registry, active, k, id)
                    &&& shows(bar, id)
                    &&& forall|j: int, other: ItemId|
                        0 <= j < k && #[trigger] puts_first(registry, active, j, other) ==> !shows(
                            bar,
                            other,
                        )
                },
            None => forall|j: int, other: ItemId|
                0 <= j < n && #[trigger] puts_first(registry, active, j, other) ==> !shows(
                    bar,
                    other,
                ),
        },
    decreases n,
{
    if n > 0 {
        lemma_closest(registry, active, elements, bar, n - 1);
        if closest_principal(registry.bar_map(), active, elements, n - 1) is None {
            if let Some(last) = registry.bar_map().lookup(active[n - 1]@) {
                if let Some(id) = last.principal_item {
                    lemma_names_elements(
                        registry.item_map(),
                        elements,
                        bar.elements@,
                        elements.len() as int,
                        id@,
                    );
                    assert(puts_first(registry, active, n - 1, id));
                }
            }
        }
    }
}

/// The principal item of a composed bar is that of the first active bar, from the
/// most specific one on, whose principal item stands in the composed bar. There is
/// none only where no active bar has a principal item that stands there.
pub proof fn the_first_shown_principal_item_counts(
    registry: Registry,
    active: Seq<BarId>,
    bar: BarSpec,
)
    requires
        registry.wf(),
        chain_fault(registry, active) is None,
        composes(registry, active, bar),
    ensures
        match bar.principal_item {
            Some(id) => exists|k: int|
                {
                    &&& #[trigger] puts_first(registry, active, k, id)
                    &&& shows(bar, id)
                    &&& forall|j: int, other: ItemId|
                        j < k && #[trigger] puts_first(registry, active, j, other) ==> !shows(
                            bar,
                            other,
                        )
                },
            None => forall|j: int, other: ItemId| #[trigger]
                puts_first(registry, active, j, other) ==> !shows(bar, other),
        },
{
    let elements = assembled(registry.bar_map(), active, active.len() as int);
    lemma_closest(registry, active, elements, bar, active.len() as int);
}

/// The elements are those of another bar that are no proxies, in the same order.
pub open spec fn keeps_all_but_proxies(
    elements: Seq<BarElement>,
    kept: Seq<BarElement>,
    numbers: Seq<int>,
) -> bool {
    &&& numbers.len() == kept.len()
    &&& forall|j: int|
        #![trigger numbers[j]]
        0 <= j < numbers.len() ==> 0 <= numbers[j] < elements.len() && kept[j]
            == elements[numbers[j]] && !(kept[j] is ContextProxy)
    &&& forall|i: int|
        0 <= i < elements.len() && !(#[trigger] elements[i] is ContextProxy) ==> numbers.contains(i)
    &&& forall|i: int, j: int|
        #![trigger numbers[i], numbers[j]]
        0 <= i < j < numbers.len() ==> numbers[i] < numbers[j]
}

proof fn lemma_keeps(elements: Seq<BarElement>, n: int) -> (numbers: Seq<int>)
    requires
        0 <= n <= elements.len(),
    ensures
        keeps_all_but_proxies(elements.subrange(0, n), solid(elements, n), numbers),
    decreases n,
{
    if n == 0 {
        Seq::empty()
    } else {
        let before = lemma_keeps(elements, n - 1);
        let less = elements.subrange(0, n - 1);
        let more = elements.subrange(0, n);
        assert(more[n - 1] == elements[n - 1]);
        assert forall|i: int| 0 <= i < n - 1 implies more[i] == less[i] by {}
        if elements[n - 1] is ContextProxy {
            assert forall|i: int|
                0 <= i < more.len() && !(#[trigger] more[i] is ContextProxy) implies before.contains(
            i) by {
                assert(!(less[i] is ContextProxy));
            }
            assert forall|j: int|
                #![trigger before[j]]
                0 <= j < before.len() implies 0 <= before[j] < more.len() && solid(elements, n)[j]
                == more[before[j]] && !(solid(elements, n)[j] is ContextProxy) by {
                assert(less[before[j]] == more[before[j]]);
            }
            before
        } else {
            let numbers = before.push(n - 1);
            let kept = solid(elements, n);
            assert forall|i: int|
                0 <= i < more.len() && !(
                #[trigger] more[i] is ContextProxy) implies numbers.contains(i) by {
                if i < n - 1 {
                    assert(!(less[i] is ContextProxy));
                    let j = choose|j: int| 0 <= j < before.len() && before[j] == i;
                    assert(numbers[j] == i);
                } else {
                    assert(numbers[before.len() as int] == i);
                }
            }
            assert forall|j: int|
                #![trigger numbers[j]]
                0 <= j < numbers.len() implies 0 <= numbers[j] < more.len() && kept[j]
                == more[numbers[j]] && !(kept[j] is ContextProxy) by {
                if j < before.len() {
                    assert(numbers[j] == before[j]);
                    assert(less[before[j]] == more[before[j]]);
                }
            }
            assert forall|i: int, j: int|
                #![trigger numbers[i], numbers[j]]
                0 <= i < j < numbers.len() implies numbers[i] < numbers[j] by {
                assert(numbers[i] == before[i]);
                if j < before.len() {
                    assert(numbers[j] == before[j]);
                }
            }
            numbers
        }
    }
}

/// The most specific bar is shown whole but for its proxies. Each further bar that
/// has a proxy stands around what the ones before it show: its elements before the
/// proxy in front of that, and those after it behind that. One without a proxy adds
/// nothing.
pub proof fn outer_bars_stand_around_inner_ones(
    bars: TextMap<BarId, BarDefinition>,
    active: Seq<BarId>,
    n: int,
    p: int,
)
    requires
        1 <= n <= active.len(),
    ensures
        exists|numbers: Seq<int>|
            keeps_all_but_proxies(
                bars.lookup(active[0]@)->Some_0.elements@,
                assembled(bars, active, 1),
                numbers,
            ),
        n < active.len() ==> ({
            let outer = bars.lookup(active[n]@)->Some_0.elements@;
            let inner = assembled(bars, active, n);
            let all = assembled(bars, active, n + 1);
            &&& (forall|i: int| 0 <= i < outer.len() ==> !(#[trigger] outer[i] is ContextProxy))
                ==> all == inner
            &&& 0 <= p < outer.len() && outer[p] is ContextProxy && (forall|i: int|
                0 <= i < p ==> !(#[trigger] outer[i] is ContextProxy)) ==> {
                &&& all.len() == outer.len() - 1 + inner.len()
                &&& forall|i: int| 0 <= i < p ==> #[trigger] all[i] == outer[i]
                &&& forall|i: int| 0 <= i < inner.len() ==> all[p + i] == #[trigger] inner[i]
                &&& forall|i: int|
                    p < i < outer.len() ==> all[inner.len() + i - 1] == #[trigger] outer[i]
            }
        }),
{
    let own = elements_of(bars, active[0]);
    let numbers = lemma_keeps(own, own.len() as int);
    assert(own.subrange(0, own.len() as int) =~= own);
    assert(keeps_all_but_proxies(own, assembled(bars, active, 1), numbers));
    if n < active.len() {
        let outer = elements_of(bars, active[n]);
        lemma_first_proxy(outer, outer.len() as int);
    }
}

proof fn lemma_first_proxy(elements: Seq<BarElement>, n: int)
    requires
        0 <= n <= elements.len(),
    ensures
        match proxy_at(elements, n) {
            Some(p) => {
                &&& 0 <= p < n
                &&& elements[p] is ContextProxy
                &&& forall|i: int| 0 <= i < p ==> !(#[trigger] elements[i] is ContextProxy)
            },
            None => forall|i: int| 0 <= i < n ==> !(#[trigger] elements[i] is ContextProxy),
        },
    decreases n,
{
    if n > 0 {
        lemma_first_proxy(elements, n - 1);
    }
}

/// A composed bar shows element for element what was assembled: each item with the
/// widths and priorities under which it is registered, each space as it is, and each
/// group with its own settings and as many members.
pub proof fn composed_elements_are_as_registered(
    registry: Registry,
    active: Seq<BarId>,
    bar: BarSpec,
    i: int,
)
    requires
        registry.wf(),
        composes(registry, active, bar),
        0 <= i < bar.elements@.len(),
    ensures
        ({
            let elements = assembled(registry.bar_map(), active, active.len() as int);
            &&& elements.len() == bar.elements@.len()
            &&& match elements[i] {
                BarElement::Item(id) => {
                    &&& registry.item_map().lookup(id@) matches Some(known)
                    &&& known.layout.id@ == id@
                    &&& bar.elements@[i] == Element::Item(known.layout)
                },
                BarElement::Group(group) => {
                    &&& bar.elements@[i] matches Element::Group(shown)
                    &&& shown.id == group.id
                    &&& shown.layout == group.layout
                    &&& shown.spacing == group.spacing
                    &&& shown.visibility_priority == group.visibility_priority
                    &&& shown.compression_priority == group.compression_priority
                    &&& shown.elements@.len() == group.elements@.len()
                    &&& forall|k: int|
                        #![trigger group.elements@[k]]
                        0 <= k < group.elements@.len() ==> match group.elements@[k] {
                            BarGroupElement::Item(id) => {
                                &&& registry.item_map().lookup(id@) matches Some(known)
                                &&& shown.elements@[k] == GroupElement::Item(known.layout)
                            },
                            BarGroupElement::Group(_) => shown.elements@[k] is Group,
                        }
                },
                BarElement::FixedSpace { width } => bar.elements@[i] == (Element::FixedSpace {
                    width,
                }),
                BarElement::FlexibleSpace { minimum, weight } => bar.elements@[i] == (
                Element::FlexibleSpace { minimum, weight }),
                BarElement::ContextProxy => false,
            }
        }),
{
    let elements = assembled(registry.bar_map(), active, active.len() as int);
    assert(element_resolves(registry.item_map(), elements[i], bar.elements@[i]));
    if let BarElement::Group(group) = elements[i] {
        if let Element::Group(shown) = bar.elements@[i] {
            assert forall|k: int|
                #![trigger group.elements@[k]]
                0 <= k < group.elements@.len() implies match group.elements@[k] {
                BarGroupElement::Item(id) => {
                    &&& registry.item_map().lookup(id@) matches Some(known)
                    &&& shown.elements@[k] == GroupElement::Item(known.layout)
                },
                BarGroupElement::Group(_) => shown.elements@[k] is Group,
            } by {
                assert(child_resolves(
                    registry.item_map(),
                    group.elements@[k],
                    shown.elements@[k],
                ));
            }
        }
    }
}

} // verus!
