use touchbar::layout::{resolve, BarSpec, Element, GroupLayout, ItemId, ItemSpec};
use touchbar::model::{
    BarDefinition, BarElement, BarGroup, BarGroupElement, BarId, ContextPredicate, ContextRule,
    ContextScope, ContextSelector, ContextSnapshot, ContextValue, ItemDefinition, ModelError,
    Registry, TransactionalContext,
};
use touchbar::text::TextSet;

fn definition(id: &str) -> ItemDefinition {
    ItemDefinition::new(ItemSpec::new(id, 40, 40, 40), id)
}

fn registry() -> Registry {
    registry_with(None)
}

/// The registry, with a principal item for the system bar.
fn registry_with(principal: Option<&str>) -> Registry {
    let mut registry = Registry::default();
    for id in ["focused", "system-left", "system-right", "general"] {
        registry.add_item(definition(id)).unwrap();
    }
    registry
        .add_bar(
            BarDefinition::new("focused-bar", vec![BarElement::Item("focused".into())])
                .principal_item("focused"),
        )
        .unwrap();
    let mut system = BarDefinition::new(
        "system-bar",
        vec![
            BarElement::Item("system-left".into()),
            BarElement::FlexibleSpace { minimum: 0, weight: 1 },
            BarElement::ContextProxy,
            BarElement::Item("system-right".into()),
        ],
    );
    if let Some(item) = principal {
        system = system.principal_item(item);
    }
    registry.add_bar(system).unwrap();
    registry
        .add_bar(BarDefinition::new(
            "general-without-proxy",
            vec![BarElement::Item("general".into())],
        ))
        .unwrap();
    registry
}

fn item_ids(bar: &BarSpec) -> Vec<&str> {
    bar.elements
        .iter()
        .filter_map(|element| match element {
            Element::Item(item) => Some(item.id.as_str()),
            _ => None,
        })
        .collect()
}

#[test]
fn outer_proxy_wraps_more_specific_content() {
    let registry = registry();
    let composed = registry
        .compose_active_chain(&["focused-bar".into(), "system-bar".into()])
        .unwrap();
    assert_eq!(
        item_ids(&composed),
        ["system-left", "focused", "system-right"]
    );
    assert_eq!(composed.principal_item, Some("focused".into()));
}

#[test]
fn outer_bar_without_proxy_does_not_replace_focused_content() {
    let registry = registry();
    let composed = registry
        .compose_active_chain(&["focused-bar".into(), "general-without-proxy".into()])
        .unwrap();
    assert_eq!(item_ids(&composed), ["focused"]);
}

#[test]
fn closest_visible_principal_wins() {
    let registry = registry_with(Some("system-left"));
    let composed = registry
        .compose_active_chain(&["focused-bar".into(), "system-bar".into()])
        .unwrap();
    assert_eq!(composed.principal_item, Some("focused".into()));
}

#[test]
fn validates_expanded_bar_references_before_composition() {
    let mut registry = Registry::default();
    registry
        .add_item(definition("popover").expanded_bar("missing"))
        .unwrap();
    assert_eq!(
        registry.validate(),
        Err(ModelError::UnknownExpandedBar {
            item: "popover".into(),
            bar: "missing".into(),
        })
    );
}

#[test]
fn rejects_multiple_proxy_slots() {
    let mut registry = Registry::default();
    registry
        .add_bar(BarDefinition::new(
            "invalid",
            vec![BarElement::ContextProxy, BarElement::ContextProxy],
        ))
        .unwrap();
    assert_eq!(
        registry.validate(),
        Err(ModelError::MultipleContextProxies("invalid".into()))
    );
}

#[test]
fn duplicate_registration_does_not_replace_the_original() {
    let mut registry = Registry::default();
    registry.add_item(definition("item")).unwrap();
    let replacement = ItemDefinition::new(ItemSpec::new("item", 80, 80, 80), "replacement");
    assert_eq!(
        registry.add_item(replacement),
        Err(ModelError::DuplicateItem("item".into()))
    );
    assert_eq!(registry.item(&"item".into()).unwrap().label, "item");
}

#[test]
fn composed_bar_resolves_principal_and_system_content_together() {
    let registry = registry();
    let composed = registry
        .compose_active_chain(&["focused-bar".into(), "system-bar".into()])
        .unwrap();
    let layout = resolve(&composed, 1000, &TextSet::new()).unwrap();
    let focused = layout
        .placements
        .iter()
        .find(|placement| placement.id.as_str() == "focused")
        .unwrap();
    assert_eq!(focused.x, 480);
    assert_eq!(focused.width, 40);
}

#[test]
fn bar_registry_resolves_nested_equal_width_groups_and_principal_items() {
    let mut registry = registry();
    registry
        .add_bar(
            BarDefinition::new(
                "grouped",
                vec![
                    BarElement::FlexibleSpace {
                        minimum: 0,
                        weight: 1,
                    },
                    BarElement::Group(
                        BarGroup::new(
                            "system-actions",
                            vec![
                                BarGroupElement::Item("system-left".into()),
                                BarGroupElement::Item("system-right".into()),
                            ],
                        )
                        .layout(GroupLayout::EqualWidth)
                        .spacing(4),
                    ),
                    BarElement::FlexibleSpace {
                        minimum: 0,
                        weight: 1,
                    },
                ],
            )
            .principal_item("system-right"),
        )
        .unwrap();

    let bar = registry.compose_active_chain(&["grouped".into()]).unwrap();
    let layout = resolve(&bar, 200, &TextSet::new()).unwrap();
    assert_eq!(layout.placements[0].width, 40);
    assert_eq!(layout.placements[1].width, 40);
    assert_eq!(layout.placements[1].x, 80);
}

#[test]
fn context_selector_builds_a_deterministic_specificity_chain() {
    let selector = ContextSelector {
        fallback: "system".into(),
        rules: vec![
            ContextRule {
                bar: "browser".into(),
                scope: ContextScope::Application,
                priority: 10,
                predicate: ContextPredicate::Equals(
                    "application.id".into(),
                    ContextValue::Text("firefox".into()),
                ),
            },
            ContextRule {
                bar: "browser-lower-priority".into(),
                scope: ContextScope::Application,
                priority: 5,
                predicate: ContextPredicate::Present("application.id".into()),
            },
            ContextRule {
                bar: "private-window".into(),
                scope: ContextScope::Window,
                priority: 10,
                predicate: ContextPredicate::Equals(
                    "window.private".into(),
                    ContextValue::Boolean(true),
                ),
            },
        ],
    };
    let context = ContextSnapshot::default()
        .text("application.id", "firefox")
        .boolean("window.private", true);

    assert_eq!(
        selector.select_chain(&context),
        vec![
            BarId::from("private-window"),
            BarId::from("browser"),
            BarId::from("system")
        ]
    );
}

#[test]
fn focus_updates_commit_after_all_captured_contacts_end() {
    let selector = ContextSelector {
        fallback: "system".into(),
        rules: vec![ContextRule {
            bar: "editor".into(),
            scope: ContextScope::Application,
            priority: 0,
            predicate: ContextPredicate::Equals(
                "application.id".into(),
                ContextValue::Text("editor".into()),
            ),
        }],
    };
    let initial = ContextSnapshot::default().text("application.id", "terminal");
    let mut context = TransactionalContext::new(selector, &initial);
    context.capture_started(7);
    context.capture_started(8);

    let editor = ContextSnapshot {
        generation: 2,
        ..ContextSnapshot::default().text("application.id", "editor")
    };
    assert_eq!(context.update(&editor), None);
    assert_eq!(context.current().active_bars, vec![BarId::from("system")]);
    assert_eq!(context.capture_ended(7), None);
    assert_eq!(context.current().active_bars, vec![BarId::from("system")]);

    let committed = context.capture_ended(8).unwrap();
    assert_eq!(committed.context_generation, 2);
    assert_eq!(
        committed.active_bars,
        vec![BarId::from("editor"), BarId::from("system")]
    );
}

#[test]
fn registries_refuse_what_does_not_fit() {
    let bar = |elements| BarDefinition::new("b", elements);
    let refused = |bar: BarDefinition| {
        let mut registry = Registry::default();
        registry.add_item(definition("a")).unwrap();
        registry.add_bar(bar).unwrap();
        registry.validate().unwrap_err()
    };
    assert_eq!(
        refused(bar(vec![BarElement::Item("x".into())])),
        ModelError::UnknownItem { bar: "b".into(), item: "x".into() }
    );
    assert_eq!(
        refused(bar(vec![BarElement::FlexibleSpace { minimum: 0, weight: 0 }])),
        ModelError::ZeroFlexibleWeight("b".into())
    );
    assert_eq!(
        refused(bar(vec![BarElement::Group(BarGroup::new("", Vec::new()))])),
        ModelError::EmptyGroupId("b".into())
    );
    let twice = vec![
        BarElement::Group(BarGroup::new("g", vec![BarGroupElement::Item("a".into())])),
        BarElement::Group(BarGroup::new("g", Vec::new())),
    ];
    assert_eq!(
        refused(bar(twice)),
        ModelError::DuplicateGroup { bar: "b".into(), group: "g".into() }
    );
    assert_eq!(
        refused(bar(Vec::new()).principal_item("a")),
        ModelError::PrincipalNotInBar { bar: "b".into(), item: "a".into() }
    );
    let mut registry = Registry::default();
    assert_eq!(registry.add_item(definition("")), Err(ModelError::EmptyItemId));
    let nameless = ItemDefinition::new(ItemSpec::new("a", 1, 1, 1), "");
    assert_eq!(registry.add_item(nameless), Err(ModelError::EmptyItemLabel("a".into())));
    assert_eq!(registry.add_bar(BarDefinition::new("", Vec::new())), Err(ModelError::EmptyBarId));
    registry.add_bar(BarDefinition::new("b", Vec::new())).unwrap();
    assert_eq!(
        registry.add_bar(BarDefinition::new("b", Vec::new())),
        Err(ModelError::DuplicateBar("b".into()))
    );
    assert_eq!(registry.compose_active_chain(&[]), Err(ModelError::EmptyActiveChain));
    assert_eq!(
        registry.compose_active_chain(&["x".into()]),
        Err(ModelError::UnknownActiveBar("x".into()))
    );
    let item: ItemId = "x".into();
    assert!(registry.item(&item).is_none());
    assert_eq!(ModelError::DuplicateItem("x".into()).message(), "duplicate item identifier x");
}

#[test]
fn predicates_are_combined() {
    let context = ContextSnapshot::default().text("a", "1").boolean("b", true);
    let present = |key: &str| ContextPredicate::Present(key.into());
    assert!(ContextPredicate::Always.matches(&context));
    assert!(ContextPredicate::All(Vec::new()).matches(&context));
    assert!(!ContextPredicate::Any(Vec::new()).matches(&context));
    assert!(ContextPredicate::All(vec![present("a"), present("b")]).matches(&context));
    assert!(!ContextPredicate::All(vec![present("a"), present("c")]).matches(&context));
    assert!(ContextPredicate::Any(vec![present("c"), present("b")]).matches(&context));
    assert!(ContextPredicate::Not(Box::new(present("c"))).matches(&context));
    let equals = ContextPredicate::Equals("a".into(), ContextValue::Boolean(true));
    assert!(!equals.matches(&context));
}
