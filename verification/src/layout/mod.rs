//! Deterministic, serialization-independent layout for a composed Touch Bar.
//!
//! Plugins register items and bars elsewhere. This module resolves an already
//! composed, ordered bar into rectangles without knowing how items are
//! discovered, launched, rendered, or persisted.
pub mod laws;
pub mod order;
pub mod place;
pub mod resolve;
pub mod shape;
pub mod share;
pub mod sizing;
pub mod spaces;
pub mod sum;
pub mod validate;
pub mod visibility;

use vstd::prelude::*;

use crate::text;
use crate::text::TextKey;

pub use resolve::resolve;

verus! {

pub const VISIBILITY_PRIORITY_LOW: i32 = -1000;

pub const VISIBILITY_PRIORITY_NORMAL: i32 = 0;

pub const VISIBILITY_PRIORITY_HIGH: i32 = 1000;

/// How deep groups may be nested.
pub const MAX_GROUP_DEPTH: usize = 8;

/// Largest logical canvas any supported Touch Bar may present.
///
/// The canvas follows the attached panel, so manifests, profiles, and replay
/// scenarios are all bounded by this ceiling at parse time and then resolved
/// against the live width. It is a sanity limit, not the size of any real
/// panel: the Apple silicon strip is 2008 logical pixels.
pub const MAX_CANVAS_WIDTH: u32 = 8192;

/// Logical width of the Apple silicon Touch Bar: the reference full-strip
/// width, not a bound.
pub const REFERENCE_CANVAS_WIDTH: u32 = 2008;

/// The identifier of an item.
#[derive(Debug, PartialEq, Eq, Hash, PartialOrd, Ord)]
pub struct ItemId(String);

impl View for ItemId {
    type V = Seq<char>;

    closed spec fn view(&self) -> Seq<char> {
        self.0@
    }
}

impl ItemId {
    pub fn new(value: &str) -> (id: Self)
        ensures
            id@ == value@,
    {
        ItemId(value.to_owned())
    }

    pub fn as_str(&self) -> (text: &str)
        ensures
            text@ == self@,
    {
        self.0.as_str()
    }
}

impl Clone for ItemId {
    fn clone(&self) -> (copy: Self)
        ensures
            copy == *self,
    {
        ItemId(self.0.clone())
    }
}

impl TextKey for ItemId {
    open spec fn text(&self) -> Seq<char> {
        self@
    }

    fn as_text(&self) -> (text: &str) {
        self.as_str()
    }
}

impl From<&str> for ItemId {
    fn from(value: &str) -> (id: Self)
        ensures
            id@ == value@,
    {
        ItemId(value.to_owned())
    }
}

impl vstd::std_specs::convert::FromSpecImpl<&str> for ItemId {
    open spec fn obeys_from_spec() -> bool {
        false
    }

    open spec fn from_spec(value: &str) -> Self {
        arbitrary()
    }
}

impl From<String> for ItemId {
    fn from(value: String) -> (id: Self)
        ensures
            id@ == value@,
    {
        ItemId(value)
    }
}

impl vstd::std_specs::convert::FromSpecImpl<String> for ItemId {
    open spec fn obeys_from_spec() -> bool {
        false
    }

    open spec fn from_spec(value: String) -> Self {
        arbitrary()
    }
}

/// An item of a bar and the widths it can take.
#[derive(Debug, PartialEq, Eq)]
pub struct ItemSpec {
    pub id: ItemId,
    pub min_width: u32,
    pub preferred_width: u32,
    pub max_width: u32,
    pub visibility_priority: i32,
    pub compression_priority: i32,
    /// Items with the same nonempty group disappear as one atomic unit.
    pub visibility_group: Option<String>,
}

impl Clone for ItemSpec {
    fn clone(&self) -> (copy: Self)
        ensures
            copy == *self,
    {
        ItemSpec {
            id: self.id.clone(),
            min_width: self.min_width,
            preferred_width: self.preferred_width,
            max_width: self.max_width,
            visibility_priority: self.visibility_priority,
            compression_priority: self.compression_priority,
            visibility_group: match &self.visibility_group {
                None => None,
                Some(group) => Some(group.clone()),
            },
        }
    }
}

impl ItemSpec {
    pub fn new(id: &str, min_width: u32, preferred_width: u32, max_width: u32) -> (item: Self)
        ensures
            item.id@ == id@,
            item.min_width == min_width,
            item.preferred_width == preferred_width,
            item.max_width == max_width,
            item.visibility_priority == VISIBILITY_PRIORITY_NORMAL,
            item.compression_priority == VISIBILITY_PRIORITY_NORMAL,
            item.visibility_group is None,
    {
        ItemSpec {
            id: ItemId::new(id),
            min_width,
            preferred_width,
            max_width,
            visibility_priority: VISIBILITY_PRIORITY_NORMAL,
            compression_priority: VISIBILITY_PRIORITY_NORMAL,
            visibility_group: None,
        }
    }

    pub fn visibility_priority(self, priority: i32) -> (item: Self)
        ensures
            item == (ItemSpec { visibility_priority: priority, ..self }),
    {
        let mut item: ItemSpec = self;
        item.visibility_priority = priority;
        item
    }

    pub fn compression_priority(self, priority: i32) -> (item: Self)
        ensures
            item == (ItemSpec { compression_priority: priority, ..self }),
    {
        let mut item: ItemSpec = self;
        item.compression_priority = priority;
        item
    }

    pub fn visibility_group(self, group: &str) -> (item: Self)
        ensures
            item.visibility_group matches Some(g) && g@ == group@,
            item == (ItemSpec { visibility_group: item.visibility_group, ..self }),
    {
        let mut item: ItemSpec = self;
        item.visibility_group = Some(group.to_owned());
        item
    }
}

/// How a group shares its width among its members.
#[derive(Clone, Copy, Debug, PartialEq, Eq, Structural)]
pub enum GroupLayout {
    Natural,
    EqualWidth,
}

impl Default for GroupLayout {
    fn default() -> (layout: Self)
        ensures
            layout == GroupLayout::Natural,
    {
        GroupLayout::Natural
    }
}

/// A member of a group.
#[derive(Debug, PartialEq, Eq)]
pub enum GroupElement {
    Item(ItemSpec),
    Group(GroupSpec),
}

/// Members that stand together.
#[derive(Debug, PartialEq, Eq)]
pub struct GroupSpec {
    pub id: String,
    pub elements: Vec<GroupElement>,
    pub layout: GroupLayout,
    pub spacing: u32,
    pub visibility_priority: i32,
    pub compression_priority: i32,
}

fn copy_members(elements: &Vec<GroupElement>) -> (copy: Vec<GroupElement>)
    ensures
        shape::child_shapes(copy@) == shape::child_shapes(elements@),
    decreases elements,
{
    let mut copy: Vec<GroupElement> = Vec::new();
    let mut i: usize = 0;
    while i < elements.len()
        invariant
            i <= elements@.len(),
            shape::child_shapes(copy@) == shape::child_shapes(elements@.subrange(0, i as int)),
        decreases elements@.len() - i,
    {
        let ghost after = elements@.subrange(0, i + 1);
        proof {
            assert(after =~= elements@.subrange(0, i as int).push(elements@[i as int]));
            shape::lemma_child_shapes_push(elements@.subrange(0, i as int), elements@[i as int]);
        }
        let member: GroupElement = match &elements[i] {
            GroupElement::Item(item) => GroupElement::Item(item.clone()),
            GroupElement::Group(group) => GroupElement::Group(copy_group(group)),
        };
        proof {
            shape::lemma_child_shapes_push(copy@, member);
        }
        copy.push(member);
        i = i + 1;
    }
    proof {
        assert(elements@.subrange(0, elements@.len() as int) =~= elements@);
    }
    copy
}

fn copy_group(group: &GroupSpec) -> (copy: GroupSpec)
    ensures
        shape::group_shape(copy) == shape::group_shape(*group),
    decreases group,
{
    GroupSpec {
        id: group.id.clone(),
        elements: copy_members(&group.elements),
        layout: group.layout,
        spacing: group.spacing,
        visibility_priority: group.visibility_priority,
        compression_priority: group.compression_priority,
    }
}

impl Clone for GroupElement {
    fn clone(&self) -> (copy: Self)
        ensures
            shape::child_shape(copy) == shape::child_shape(*self),
    {
        match self {
            GroupElement::Item(item) => GroupElement::Item(item.clone()),
            GroupElement::Group(group) => GroupElement::Group(copy_group(group)),
        }
    }
}

impl Clone for GroupSpec {
    fn clone(&self) -> (copy: Self)
        ensures
            shape::group_shape(copy) == shape::group_shape(*self),
    {
        copy_group(self)
    }
}

impl GroupSpec {
    pub fn new(id: &str, elements: Vec<GroupElement>) -> (group: Self)
        ensures
            group.id@ == id@,
            group.elements == elements,
            group.layout == GroupLayout::Natural,
            group.spacing == 0,
            group.visibility_priority == VISIBILITY_PRIORITY_NORMAL,
            group.compression_priority == VISIBILITY_PRIORITY_NORMAL,
    {
        GroupSpec {
            id: id.to_owned(),
            elements,
            layout: GroupLayout::Natural,
            spacing: 0,
            visibility_priority: VISIBILITY_PRIORITY_NORMAL,
            compression_priority: VISIBILITY_PRIORITY_NORMAL,
        }
    }

    pub fn layout(self, layout: GroupLayout) -> (group: Self)
        ensures
            group == (GroupSpec { layout, ..self }),
    {
        let mut group: GroupSpec = self;
        group.layout = layout;
        group
    }

    pub fn spacing(self, spacing: u32) -> (group: Self)
        ensures
            group == (GroupSpec { spacing, ..self }),
    {
        let mut group: GroupSpec = self;
        group.spacing = spacing;
        group
    }

    pub fn visibility_priority(self, priority: i32) -> (group: Self)
        ensures
            group == (GroupSpec { visibility_priority: priority, ..self }),
    {
        let mut group: GroupSpec = self;
        group.visibility_priority = priority;
        group
    }

    pub fn compression_priority(self, priority: i32) -> (group: Self)
        ensures
            group == (GroupSpec { compression_priority: priority, ..self }),
    {
        let mut group: GroupSpec = self;
        group.compression_priority = priority;
        group
    }
}

/// An element of a bar.
#[derive(Clone, Debug, PartialEq, Eq)]
pub enum Element {
    Item(ItemSpec),
    Group(GroupSpec),
    FixedSpace { width: u32 },
    FlexibleSpace { minimum: u32, weight: u32 },
}

/// A composed bar.
#[derive(Clone, Debug, PartialEq, Eq)]
pub struct BarSpec {
    pub elements: Vec<Element>,
    pub principal_item: Option<ItemId>,
}

impl Default for BarSpec {
    fn default() -> (bar: Self)
        ensures
            bar.elements@.len() == 0,
            bar.principal_item is None,
    {
        BarSpec { elements: Vec::new(), principal_item: None }
    }
}

/// Where an item stands.
#[derive(Clone, Debug, PartialEq, Eq)]
pub struct Placement {
    pub id: ItemId,
    pub x: u32,
    pub width: u32,
}

/// A bar with all its items placed or hidden.
#[derive(Clone, Debug, PartialEq, Eq)]
pub struct ResolvedLayout {
    pub placements: Vec<Placement>,
    pub hidden_items: Vec<ItemId>,
    /// The right edge of the last element. It can be less than the bar width
    /// when no flexible space or principal item consumes trailing room.
    pub content_width: u32,
}

/// Why a bar cannot be resolved.
#[derive(Clone, Debug, PartialEq, Eq)]
pub enum LayoutError {
    EmptyItemId,
    DuplicateItem(ItemId),
    InvalidSizing(ItemId),
    InvalidFlexibleSpace { element: usize },
    UnknownPrincipal(ItemId),
    UnknownRequired(ItemId),
    EmptyGroupId,
    DuplicateGroup(String),
    GroupDepthExceeded(String),
    InvalidEqualWidthGroup(String),
    InconsistentVisibilityGroup(String),
    InsufficientWidth { available: u32, required: u32 },
}

impl LayoutError {
    /// What the message says.
    pub open spec fn wording(self) -> Seq<char> {
        match self {
            LayoutError::EmptyItemId => "item identifiers must not be empty"@,
            LayoutError::InvalidFlexibleSpace { element } => "flexible space at element "@
                + text::decimal(element as int) + " has zero weight"@,
            LayoutError::EmptyGroupId => "group identifiers must not be empty"@,
            LayoutError::DuplicateItem(id) => "duplicate item identifier "@ + id@,
            LayoutError::InvalidSizing(id) => "item "@ + id@
                + " must have a nonzero min width with min <= preferred <= max"@,
            LayoutError::UnknownPrincipal(id) => "principal item "@ + id@ + " is not in the bar"@,
            LayoutError::UnknownRequired(id) => "required item "@ + id@ + " is not in the bar"@,
            LayoutError::DuplicateGroup(id) => "duplicate group identifier "@ + id@,
            LayoutError::GroupDepthExceeded(id) => "group "@ + id@
                + " exceeds the maximum nesting depth"@,
            LayoutError::InvalidEqualWidthGroup(id) => "equal-width group "@ + id@
                + " has no width valid for every direct child"@,
            LayoutError::InconsistentVisibilityGroup(group) => "visibility group "@ + group@
                + " contains different visibility priorities"@,
            LayoutError::InsufficientWidth { available, required } => "bar has "@ + text::decimal(
                available as int,
            ) + " pixels but its required content needs "@ + text::decimal(required as int),
        }
    }

    /// The message for a person.
    pub fn message(&self) -> (text: String)
        ensures
            text@ == self.wording(),
    {
        match self {
            LayoutError::EmptyItemId => "item identifiers must not be empty".to_owned(),
            LayoutError::InvalidFlexibleSpace { element } => text::joined3(
                "flexible space at element ",
                text::decimal_text(*element as u64).as_str(),
                " has zero weight",
            ),
            LayoutError::EmptyGroupId => "group identifiers must not be empty".to_owned(),
            LayoutError::DuplicateItem(id) => text::joined(
                "duplicate item identifier ",
                id.as_str(),
            ),
            LayoutError::InvalidSizing(id) => text::joined3(
                "item ",
                id.as_str(),
                " must have a nonzero min width with min <= preferred <= max",
            ),
            LayoutError::UnknownPrincipal(id) => text::joined3(
                "principal item ",
                id.as_str(),
                " is not in the bar",
            ),
            LayoutError::UnknownRequired(id) => text::joined3(
                "required item ",
                id.as_str(),
                " is not in the bar",
            ),
            LayoutError::DuplicateGroup(id) => text::joined(
                "duplicate group identifier ",
                id.as_str(),
            ),
            LayoutError::GroupDepthExceeded(id) => text::joined3(
                "group ",
                id.as_str(),
                " exceeds the maximum nesting depth",
            ),
            LayoutError::InvalidEqualWidthGroup(id) => text::joined3(
                "equal-width group ",
                id.as_str(),
                " has no width valid for every direct child",
            ),
            LayoutError::InconsistentVisibilityGroup(group) => text::joined3(
                "visibility group ",
                group.as_str(),
                " contains different visibility priorities",
            ),
            LayoutError::InsufficientWidth { available, required } => text::joined(
                text::joined3(
                    "bar has ",
                    text::decimal_text(*available as u64).as_str(),
                    " pixels but its required content needs ",
                ).as_str(),
                text::decimal_text(*required as u64).as_str(),
            ),
        }
    }
}

} // verus!
