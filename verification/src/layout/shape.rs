//! Bars in mathematical terms.
use vstd::prelude::*;

use crate::layout::{Element, GroupElement, GroupLayout, GroupSpec, ItemSpec};

verus! {

/// A member of a group.
pub enum ChildShape {
    Item(ItemSpec),
    Group(GroupShape),
}

/// A group.
#[verifier::ext_equal]
pub struct GroupShape {
    pub id: Seq<char>,
    pub elements: Seq<ChildShape>,
    pub layout: GroupLayout,
    pub spacing: u32,
    pub visibility_priority: i32,
    pub compression_priority: i32,
}

/// An element of a bar.
pub enum ElementShape {
    Item(ItemSpec),
    Group(GroupShape),
    FixedSpace { width: u32 },
    FlexibleSpace { minimum: u32, weight: u32 },
}

pub open spec fn child_shape(element: GroupElement) -> ChildShape
    decreases element,
{
    match element {
        GroupElement::Item(item) => ChildShape::Item(item),
        GroupElement::Group(group) => ChildShape::Group(group_shape(group)),
    }
}

pub open spec fn child_shapes(elements: Seq<GroupElement>) -> Seq<ChildShape>
    decreases elements,
{
    if elements.len() == 0 {
        Seq::empty()
    } else {
        child_shapes(elements.drop_last()).push(child_shape(elements.last()))
    }
}

pub open spec fn group_shape(group: GroupSpec) -> GroupShape
    decreases group,
{
    GroupShape {
        id: group.id@,
        elements: child_shapes(group.elements@),
        layout: group.layout,
        spacing: group.spacing,
        visibility_priority: group.visibility_priority,
        compression_priority: group.compression_priority,
    }
}

pub open spec fn element_shape(element: Element) -> ElementShape {
    match element {
        Element::Item(item) => ElementShape::Item(item),
        Element::Group(group) => ElementShape::Group(group_shape(group)),
        Element::FixedSpace { width } => ElementShape::FixedSpace { width },
        Element::FlexibleSpace { minimum, weight } => ElementShape::FlexibleSpace {
            minimum,
            weight,
        },
    }
}

pub open spec fn element_shapes(elements: Seq<Element>) -> Seq<ElementShape> {
    Seq::new(elements.len(), |i: int| element_shape(elements[i]))
}

pub proof fn lemma_child_shapes(elements: Seq<GroupElement>)
    ensures
        child_shapes(elements).len() == elements.len(),
        forall|i: int|
            0 <= i < elements.len() ==> #[trigger] child_shapes(elements)[i] == child_shape(
                elements[i],
            ),
    decreases elements.len(),
{
    if elements.len() > 0 {
        lemma_child_shapes(elements.drop_last());
    }
}

pub proof fn lemma_child_shapes_push(elements: Seq<GroupElement>, element: GroupElement)
    ensures
        child_shapes(elements.push(element)) == child_shapes(elements).push(child_shape(element)),
{
    assert(elements.push(element).drop_last() =~= elements);
}

} // verus!
