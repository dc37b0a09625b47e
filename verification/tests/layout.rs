//! Resolving bars into placements.
use touchbar::layout::{
    resolve, BarSpec, Element, GroupElement, GroupLayout, GroupSpec, ItemId, ItemSpec, LayoutError,
    Placement, VISIBILITY_PRIORITY_LOW,
};
use touchbar::text::TextSet;

fn item(id: &str, minimum: u32, preferred: u32) -> Element {
    Element::Item(ItemSpec::new(id, minimum, preferred, preferred))
}

fn ids(values: &[&str]) -> TextSet<ItemId> {
    let mut set = TextSet::new();
    for value in values {
        set.insert(ItemId::from(*value));
    }
    set
}

fn group_item(id: &str, minimum: u32, preferred: u32, maximum: u32) -> GroupElement {
    GroupElement::Item(ItemSpec::new(id, minimum, preferred, maximum))
}

#[test]
fn flexible_space_pushes_trailing_content_to_the_edge() {
    let bar = BarSpec {
        elements: vec![
            item("leading", 40, 40),
            Element::FlexibleSpace {
                minimum: 0,
                weight: 1,
            },
            item("trailing", 40, 40),
        ],
        principal_item: None,
    };
    let layout = resolve(&bar, 200, &ids(&[])).unwrap();
    assert_eq!(layout.placements[0].x, 0);
    assert_eq!(layout.placements[1].x, 160);
    assert_eq!(layout.content_width, 200);
}

#[test]
fn principal_item_centers_without_left_center_right_zones() {
    let bar = BarSpec {
        elements: vec![
            item("wide-leading", 200, 200),
            item("principal", 100, 100),
            item("short-trailing", 50, 50),
        ],
        principal_item: Some("principal".into()),
    };
    let layout = resolve(&bar, 1000, &ids(&[])).unwrap();
    assert_eq!(layout.placements[0].x, 0);
    assert_eq!(layout.placements[1].x, 450);
    assert_eq!(layout.placements[2].x, 550);
}

#[test]
fn principal_item_clamps_when_one_side_is_too_large() {
    let bar = BarSpec {
        elements: vec![item("leading", 480, 480), item("principal", 100, 100)],
        principal_item: Some("principal".into()),
    };
    let layout = resolve(&bar, 600, &ids(&[])).unwrap();
    assert_eq!(layout.placements[1].x, 480);
}

#[test]
fn compresses_lower_resistance_before_hiding_items() {
    let bar = BarSpec {
        elements: vec![
            Element::Item(ItemSpec::new("elastic", 40, 100, 100).compression_priority(-10)),
            Element::Item(ItemSpec::new("rigid", 80, 100, 100).compression_priority(10)),
        ],
        principal_item: None,
    };
    let layout = resolve(&bar, 160, &ids(&[])).unwrap();
    assert_eq!(layout.hidden_items, vec![]);
    assert_eq!(layout.placements[0].width, 60);
    assert_eq!(layout.placements[1].width, 100);
}

#[test]
fn hides_a_low_priority_group_atomically() {
    let low = VISIBILITY_PRIORITY_LOW;
    let bar = BarSpec {
        elements: vec![
            Element::Item(
                ItemSpec::new("group-a", 50, 50, 50)
                    .visibility_priority(low)
                    .visibility_group("tools"),
            ),
            Element::Item(
                ItemSpec::new("group-b", 50, 50, 50)
                    .visibility_priority(low)
                    .visibility_group("tools"),
            ),
            item("core", 100, 100),
        ],
        principal_item: None,
    };
    let layout = resolve(&bar, 150, &ids(&["core"])).unwrap();
    assert_eq!(
        layout.hidden_items,
        vec![ItemId::from("group-a"), ItemId::from("group-b")]
    );
    assert_eq!(layout.placements.len(), 1);
    assert_eq!(layout.placements[0].id.as_str(), "core");
}

#[test]
fn equal_priority_overflow_hides_the_trailing_item_first() {
    let bar = BarSpec {
        elements: vec![item("a", 80, 80), item("b", 80, 80), item("c", 80, 80)],
        principal_item: None,
    };
    let layout = resolve(&bar, 160, &ids(&[])).unwrap();
    assert_eq!(layout.hidden_items, vec![ItemId::from("c")]);
}

#[test]
fn reports_when_required_content_cannot_fit() {
    let bar = BarSpec {
        elements: vec![item("a", 100, 100), item("b", 100, 100)],
        principal_item: None,
    };
    assert_eq!(
        resolve(&bar, 150, &ids(&["a", "b"])),
        Err(LayoutError::InsufficientWidth {
            available: 150,
            required: 200,
        })
    );
}

#[test]
fn what_cannot_be_hidden_is_what_is_required() {
    let bar = BarSpec {
        elements: vec![item("a", 100, 100), item("b", 70, 70), item("c", 30, 30)],
        principal_item: None,
    };
    assert_eq!(
        resolve(&bar, 99, &ids(&["a"])),
        Err(LayoutError::InsufficientWidth { available: 99, required: 100 })
    );
    assert_eq!(
        resolve(&bar, 129, &ids(&["a", "c"])),
        Err(LayoutError::InsufficientWidth { available: 129, required: 130 })
    );
    assert!(resolve(&bar, 130, &ids(&["a", "c"])).is_ok());
}

#[test]
fn wider_bars_hide_nothing_more() {
    let bar = BarSpec {
        elements: vec![item("a", 80, 80), item("b", 50, 50), item("c", 20, 20)],
        principal_item: None,
    };
    let mut hidden = resolve(&bar, 0, &ids(&[])).unwrap().hidden_items;
    assert_eq!(hidden.len(), 3);
    for width in 1..=160 {
        let next = resolve(&bar, width, &ids(&[])).unwrap().hidden_items;
        assert!(next.iter().all(|id| hidden.contains(id)), "{width}");
        hidden = next;
    }
    assert!(hidden.is_empty());
}

#[test]
fn rejects_inconsistent_atomic_group_priorities() {
    let bar = BarSpec {
        elements: vec![
            Element::Item(
                ItemSpec::new("a", 40, 40, 40)
                    .visibility_priority(-1)
                    .visibility_group("group"),
            ),
            Element::Item(
                ItemSpec::new("b", 40, 40, 40)
                    .visibility_priority(1)
                    .visibility_group("group"),
            ),
        ],
        principal_item: None,
    };
    assert_eq!(
        resolve(&bar, 40, &ids(&[])),
        Err(LayoutError::InconsistentVisibilityGroup("group".into()))
    );
}

#[test]
fn lays_out_nested_natural_groups_and_spacing() {
    let nested = GroupSpec::new(
        "nested",
        vec![group_item("b", 20, 30, 40), group_item("c", 30, 40, 50)],
    )
    .spacing(3);
    let bar = BarSpec {
        elements: vec![Element::Group(
            GroupSpec::new(
                "root",
                vec![group_item("a", 10, 20, 30), GroupElement::Group(nested)],
            )
            .spacing(5),
        )],
        principal_item: None,
    };

    let layout = resolve(&bar, 98, &ids(&[])).unwrap();
    assert_eq!(
        layout.placements,
        vec![
            Placement {
                id: "a".into(),
                x: 0,
                width: 20,
            },
            Placement {
                id: "b".into(),
                x: 25,
                width: 30,
            },
            Placement {
                id: "c".into(),
                x: 58,
                width: 40,
            },
        ]
    );
}

#[test]
fn equal_width_group_assigns_each_direct_child_the_same_space() {
    let bar = BarSpec {
        elements: vec![Element::Group(
            GroupSpec::new(
                "actions",
                vec![
                    group_item("short", 20, 30, 80),
                    group_item("wide", 40, 60, 80),
                    group_item("other", 25, 45, 80),
                ],
            )
            .layout(GroupLayout::EqualWidth)
            .spacing(2),
        )],
        principal_item: None,
    };

    let layout = resolve(&bar, 184, &ids(&[])).unwrap();
    assert_eq!(
        layout
            .placements
            .iter()
            .map(|placement| placement.width)
            .collect::<Vec<_>>(),
        vec![60, 60, 60]
    );
    assert_eq!(layout.placements[2].x, 124);
}

#[test]
fn equal_width_group_treats_a_nested_group_as_one_member() {
    let nested = GroupSpec::new(
        "transport",
        vec![
            group_item("previous", 20, 30, 60),
            group_item("next", 20, 30, 60),
        ],
    );
    let bar = BarSpec {
        elements: vec![Element::Group(
            GroupSpec::new(
                "columns",
                vec![GroupElement::Group(nested), group_item("play", 40, 60, 120)],
            )
            .layout(GroupLayout::EqualWidth),
        )],
        principal_item: None,
    };

    let layout = resolve(&bar, 120, &ids(&[])).unwrap();
    assert_eq!(layout.placements[0].width, 30);
    assert_eq!(layout.placements[1].width, 30);
    assert_eq!(layout.placements[2].width, 60);
    assert_eq!(layout.placements[2].x, 60);
}

#[test]
fn empty_nested_groups_collapse_without_spacing_or_equal_width() {
    let bar = BarSpec {
        elements: vec![Element::Group(
            GroupSpec::new(
                "columns",
                vec![
                    GroupElement::Group(GroupSpec::new("empty-slot", vec![])),
                    group_item("active", 40, 60, 80),
                ],
            )
            .layout(GroupLayout::EqualWidth)
            .spacing(12),
        )],
        principal_item: None,
    };

    let layout = resolve(&bar, 60, &ids(&[])).unwrap();
    assert_eq!(layout.content_width, 60);
    assert_eq!(layout.placements[0].x, 0);
    assert_eq!(layout.placements[0].width, 60);
}

#[test]
fn hides_a_composition_group_atomically() {
    let bar = BarSpec {
        elements: vec![
            Element::Group(
                GroupSpec::new(
                    "optional-tools",
                    vec![group_item("a", 40, 40, 40), group_item("b", 40, 40, 40)],
                )
                .visibility_priority(VISIBILITY_PRIORITY_LOW),
            ),
            item("core", 100, 100),
        ],
        principal_item: None,
    };

    let layout = resolve(&bar, 100, &ids(&["core"])).unwrap();
    assert_eq!(
        layout.hidden_items,
        vec![ItemId::from("a"), ItemId::from("b")]
    );
    assert_eq!(layout.placements[0].id.as_str(), "core");
}

#[test]
fn required_descendant_keeps_its_whole_group_visible() {
    let bar = BarSpec {
        elements: vec![
            Element::Group(
                GroupSpec::new(
                    "required-tools",
                    vec![group_item("a", 40, 40, 40), group_item("b", 40, 40, 40)],
                )
                .visibility_priority(VISIBILITY_PRIORITY_LOW),
            ),
            item("optional", 100, 100),
        ],
        principal_item: None,
    };

    let layout = resolve(&bar, 80, &ids(&["a"])).unwrap();
    assert!(layout.hidden_items.contains(&ItemId::from("optional")));
    assert_eq!(layout.placements.len(), 2);
}

#[test]
fn centers_a_principal_item_nested_inside_a_group() {
    let bar = BarSpec {
        elements: vec![
            item("leading", 100, 100),
            Element::FlexibleSpace {
                minimum: 0,
                weight: 1,
            },
            Element::Group(GroupSpec::new(
                "center",
                vec![
                    group_item("before", 20, 20, 20),
                    group_item("principal", 40, 40, 40),
                ],
            )),
            Element::FlexibleSpace {
                minimum: 0,
                weight: 1,
            },
            item("trailing", 20, 20),
        ],
        principal_item: Some("principal".into()),
    };

    let layout = resolve(&bar, 400, &ids(&[])).unwrap();
    let principal = layout
        .placements
        .iter()
        .find(|placement| placement.id.as_str() == "principal")
        .unwrap();
    assert_eq!(principal.x, 180);
}

#[test]
fn rejects_equal_width_children_without_a_common_valid_width() {
    let bar = BarSpec {
        elements: vec![Element::Group(
            GroupSpec::new(
                "impossible",
                vec![
                    group_item("small", 20, 20, 30),
                    group_item("large", 40, 40, 50),
                ],
            )
            .layout(GroupLayout::EqualWidth),
        )],
        principal_item: None,
    };

    assert_eq!(
        resolve(&bar, 100, &ids(&[])),
        Err(LayoutError::InvalidEqualWidthGroup("impossible".into()))
    );
}

#[test]
fn rejects_duplicate_nested_identifiers_and_excessive_depth() {
    let duplicate = BarSpec {
        elements: vec![
            item("same", 20, 20),
            Element::Group(GroupSpec::new(
                "group",
                vec![group_item("same", 20, 20, 20)],
            )),
        ],
        principal_item: None,
    };
    assert_eq!(
        resolve(&duplicate, 100, &ids(&[])),
        Err(LayoutError::DuplicateItem("same".into()))
    );

    let mut group = GroupSpec::new("depth-9", vec![]);
    for depth in (1..=8).rev() {
        group = GroupSpec::new(&format!("depth-{depth}"), vec![GroupElement::Group(group)]);
    }
    let too_deep = BarSpec {
        elements: vec![Element::Group(group)],
        principal_item: None,
    };
    assert_eq!(
        resolve(&too_deep, 100, &ids(&[])),
        Err(LayoutError::GroupDepthExceeded("depth-9".into()))
    );
}

#[test]
fn copies_of_bars_are_equal() {
    let inner = GroupSpec::new("inner", vec![group_item("a", 10, 20, 30)]).spacing(2);
    let outer = GroupSpec::new(
        "outer",
        vec![GroupElement::Group(inner), group_item("b", 10, 20, 30)],
    )
    .layout(GroupLayout::EqualWidth);
    let bar = BarSpec {
        elements: vec![Element::Group(outer), Element::FixedSpace { width: 4 }, item("c", 1, 2)],
        principal_item: Some(ItemId::from("b")),
    };
    assert_eq!(bar.clone(), bar);
}
