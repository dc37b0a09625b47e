use touchbar::layout::{resolve, BarSpec, Element, GroupLayout, ItemId, ItemSpec};
use touchbar::model::{
    BarElement, ComposedSlot, CompositionController, CompositionDelta, ContextPredicate,
    ContextScope, ContextSnapshot, ContextValue, ContributionBinding, ContributionDefinition,
    ContributionId, ControlOwner, ControllerCommand, ItemDefinition, ProfileCatalog,
    ProfileDefinition, ProfileElement, ProfileError, ProfileGroup, ProfileGroupElement, ProfileId,
    ProfileRule, ProfileSelector, Registry, SlotDefinition, SlotPolicy,
};
use touchbar::text::TextSet;

fn item(id: &str) -> ItemDefinition {
    ItemDefinition::new(ItemSpec::new(id, 40, 80, 240), id)
}

fn slot(id: &str, policy: SlotPolicy, contributions: &[(&str, i32)]) -> ProfileElement {
    ProfileElement::Slot(SlotDefinition::new(
        id,
        policy,
        contributions
            .iter()
            .map(|(id, order)| ContributionBinding::new(id).order(*order))
            .collect(),
    ))
}

fn fixture() -> (Registry, ProfileCatalog, ProfileSelector) {
    fixture_with(
        ContributionDefinition::new("terminal", vec![BarElement::Item("terminal".into())])
            .priority(-100),
        Vec::new(),
    )
}

/// The fixture with another contribution for terminals, and with more elements
/// in its default profile.
fn fixture_with(
    terminal: ContributionDefinition,
    more: Vec<ProfileElement>,
) -> (Registry, ProfileCatalog, ProfileSelector) {
    let mut registry = Registry::default();
    for id in [
        "volume",
        "terminal",
        "browser",
        "status",
        "recording",
        "play",
        "timeline",
    ] {
        registry.add_item(item(id)).unwrap();
    }

    let mut catalog = ProfileCatalog::default();
    catalog
        .add_contribution(
            ContributionDefinition::new("persistent", vec![BarElement::Item("volume".into())])
                // Fixed slots deliberately ignore this predicate.
                .when(ContextPredicate::Present("never".into())),
        )
        .unwrap();
    catalog.add_contribution(terminal).unwrap();
    catalog
        .add_contribution(
            ContributionDefinition::new("browser", vec![BarElement::Item("browser".into())])
                .when(ContextPredicate::Equals(
                    "application.id".into(),
                    ContextValue::Text("firefox".into()),
                ))
                .scope(ContextScope::Application)
                .priority(10),
        )
        .unwrap();
    catalog
        .add_contribution(ContributionDefinition::new(
            "status",
            vec![BarElement::Item("status".into())],
        ))
        .unwrap();
    catalog
        .add_contribution(
            ContributionDefinition::new(
                "recording",
                vec![BarElement::Item("recording".into())],
            )
            .when(ContextPredicate::Equals(
                "recording".into(),
                ContextValue::Boolean(true),
            )),
        )
        .unwrap();
    catalog
        .add_contribution(ContributionDefinition::new(
            "media",
            vec![
                BarElement::Item("play".into()),
                BarElement::Item("timeline".into()),
            ],
        ))
        .unwrap();

    let mut elements = vec![
        slot("persistent", SlotPolicy::Fixed, &[("persistent", 0)]),
        ProfileElement::FlexibleSpace { minimum: 8, weight: 1 },
        slot("application", SlotPolicy::Select, &[("terminal", 0), ("browser", 10)]),
        ProfileElement::FlexibleSpace { minimum: 8, weight: 1 },
        slot("status", SlotPolicy::Collect, &[("recording", -10), ("status", 0)]),
    ];
    elements.extend(more);
    catalog.add_profile(ProfileDefinition::new("default", elements)).unwrap();
    catalog
        .add_profile(ProfileDefinition::new(
            "media",
            vec![
                slot("persistent", SlotPolicy::Fixed, &[("persistent", 0)]),
                ProfileElement::FlexibleSpace {
                    minimum: 8,
                    weight: 1,
                },
                slot("transport", SlotPolicy::Collect, &[("media", 0)]),
            ],
        ))
        .unwrap();

    let selector = ProfileSelector {
        fallback: "default".into(),
        rules: vec![ProfileRule {
            profile: "media".into(),
            priority: 10,
            predicate: ContextPredicate::Equals(
                "mode.media".into(),
                ContextValue::Boolean(true),
            ),
        }],
    };
    (registry, catalog, selector)
}

fn ordered_items(bar: &BarSpec) -> Vec<&str> {
    bar.elements
        .iter()
        .filter_map(|element| match element {
            Element::Item(item) => Some(item.id.as_str()),
            _ => None,
        })
        .collect()
}

#[test]
fn app_changes_replace_only_the_select_slot() {
    let (registry, catalog, _) = fixture();
    let terminal = ContextSnapshot::default().text("application.id", "terminal");
    let browser = ContextSnapshot::default().text("application.id", "firefox");

    let before = catalog
        .compose(&registry, &"default".into(), &terminal)
        .unwrap();
    let after = catalog
        .compose(&registry, &"default".into(), &browser)
        .unwrap();
    assert_eq!(ordered_items(&before.bar), ["volume", "terminal", "status"]);
    assert_eq!(ordered_items(&after.bar), ["volume", "browser", "status"]);
    assert_eq!(
        after.slots,
        [
            ComposedSlot {
                id: "persistent".into(),
                path: vec![],
                elements: 0..1,
            },
            ComposedSlot {
                id: "application".into(),
                path: vec![],
                elements: 2..3,
            },
            ComposedSlot {
                id: "status".into(),
                path: vec![],
                elements: 4..5,
            },
        ]
    );
    assert_eq!(
        after.active_contributions,
        [
            ContributionId::from("persistent"),
            ContributionId::from("browser"),
            ContributionId::from("status")
        ]
    );
    assert!(resolve(&after.bar, 2008, &TextSet::new()).is_ok());
}

#[test]
fn collect_slots_include_all_active_contributions_in_user_order() {
    let (registry, catalog, _) = fixture();
    let context = ContextSnapshot::default().boolean("recording", true);
    let composition = catalog
        .compose(&registry, &"default".into(), &context)
        .unwrap();
    assert_eq!(
        ordered_items(&composition.bar),
        ["volume", "terminal", "recording", "status"]
    );
}

#[test]
fn profile_switch_reports_stable_items_for_surface_reconciliation() {
    let (registry, catalog, selector) = fixture();
    let context = ContextSnapshot::default().text("application.id", "firefox");
    let mut controller =
        CompositionController::new(catalog, registry, selector, context).unwrap();
    let snapshot = controller
        .apply(ControllerCommand::SelectProfile("media".into()))
        .unwrap()
        .unwrap();

    assert_eq!(
        ordered_items(&snapshot.composition.bar),
        ["volume", "play", "timeline"]
    );
    assert_eq!(snapshot.delta.retained_items, [ItemId::from("volume")]);
    assert_eq!(
        snapshot.delta.entering_items,
        [ItemId::from("play"), ItemId::from("timeline")]
    );
    assert_eq!(
        snapshot.delta.leaving_items,
        [ItemId::from("browser"), ItemId::from("status")]
    );
}

#[test]
fn manual_selection_overrides_leased_and_automatic_profiles() {
    let (registry, catalog, selector) = fixture();
    let context = ContextSnapshot::default().boolean("mode.media", false);
    let mut controller =
        CompositionController::new(catalog, registry, selector, context).unwrap();
    let owner = ControlOwner(7);

    controller
        .apply(ControllerCommand::ActivateMode {
            owner,
            mode: "editing".into(),
            profile: "media".into(),
            priority: 20,
        })
        .unwrap();
    assert_eq!(
        controller.current().composition.profile,
        ProfileId::from("media")
    );

    controller
        .apply(ControllerCommand::SelectProfile("default".into()))
        .unwrap();
    assert_eq!(
        controller.current().composition.profile,
        ProfileId::from("default")
    );

    controller
        .apply(ControllerCommand::UseAutomaticProfile)
        .unwrap();
    assert_eq!(
        controller.current().composition.profile,
        ProfileId::from("media")
    );

    controller
        .apply(ControllerCommand::ReleaseOwner(owner))
        .unwrap();
    assert_eq!(
        controller.current().composition.profile,
        ProfileId::from("default")
    );
}

#[test]
fn automatic_profile_rules_follow_context() {
    let (registry, catalog, selector) = fixture();
    let context = ContextSnapshot::default().boolean("mode.media", true);
    let controller = CompositionController::new(catalog, registry, selector, context).unwrap();
    assert_eq!(
        controller.current().composition.profile,
        ProfileId::from("media")
    );
}

#[test]
fn profile_leases_resolve_by_priority_then_recency() {
    let (registry, catalog, selector) = fixture();
    let mut controller =
        CompositionController::new(catalog, registry, selector, ContextSnapshot::default())
            .unwrap();
    controller
        .apply(ControllerCommand::ActivateMode {
            owner: ControlOwner(1),
            mode: "first".into(),
            profile: "media".into(),
            priority: 10,
        })
        .unwrap();
    controller
        .apply(ControllerCommand::ActivateMode {
            owner: ControlOwner(2),
            mode: "higher".into(),
            profile: "default".into(),
            priority: 20,
        })
        .unwrap();
    assert_eq!(
        controller.current().composition.profile,
        ProfileId::from("default")
    );

    controller
        .apply(ControllerCommand::ActivateMode {
            owner: ControlOwner(3),
            mode: "newer-equal".into(),
            profile: "media".into(),
            priority: 20,
        })
        .unwrap();
    assert_eq!(
        controller.current().composition.profile,
        ProfileId::from("media")
    );

    controller
        .apply(ControllerCommand::ReleaseOwner(ControlOwner(3)))
        .unwrap();
    assert_eq!(
        controller.current().composition.profile,
        ProfileId::from("default")
    );
}

#[test]
fn latest_profile_change_waits_for_every_captured_contact() {
    let (registry, catalog, selector) = fixture();
    let context = ContextSnapshot::default().text("application.id", "terminal");
    let mut controller =
        CompositionController::new(catalog, registry, selector, context).unwrap();
    controller.capture_started(1);
    controller.capture_started(2);

    let browser = ContextSnapshot {
        generation: 2,
        ..ContextSnapshot::default().text("application.id", "firefox")
    };
    assert_eq!(
        controller.apply(ControllerCommand::SetContext(browser)),
        Ok(None)
    );
    assert_eq!(
        controller.apply(ControllerCommand::SelectProfile("media".into())),
        Ok(None)
    );
    assert_eq!(
        ordered_items(&controller.current().composition.bar),
        ["volume", "terminal", "status"]
    );
    assert_eq!(controller.capture_ended(1), None);

    let committed = controller.capture_ended(2).unwrap();
    assert_eq!(committed.context_generation, 2);
    assert_eq!(
        ordered_items(&committed.composition.bar),
        ["volume", "play", "timeline"]
    );
    assert_eq!(
        committed.delta.leaving_items,
        [ItemId::from("status"), ItemId::from("terminal")]
    );
}

#[test]
fn invalid_contextual_composition_rolls_back_the_command() {
    let (mut registry, mut catalog, selector) = fixture_with(
        ContributionDefinition::new("terminal", vec![BarElement::Item("terminal".into())])
            .priority(-100),
        vec![slot(
            "invalid-when-active",
            SlotPolicy::Collect,
            &[("duplicate-a", 0), ("duplicate-b", 1)],
        )],
    );
    registry.add_item(item("duplicate")).unwrap();
    catalog
        .add_contribution(ContributionDefinition::new(
            "duplicate-a",
            vec![BarElement::Item("duplicate".into())],
        ))
        .unwrap();
    catalog
        .add_contribution(
            ContributionDefinition::new(
                "duplicate-b",
                vec![BarElement::Item("duplicate".into())],
            )
            .when(ContextPredicate::Equals(
                "bad".into(),
                ContextValue::Boolean(true),
            )),
        )
        .unwrap();
    let initial = ContextSnapshot {
        generation: 1,
        ..ContextSnapshot::default().boolean("bad", false)
    };
    let mut controller =
        CompositionController::new(catalog, registry, selector, initial).unwrap();
    let invalid = ContextSnapshot {
        generation: 2,
        ..ContextSnapshot::default().boolean("bad", true)
    };

    assert_eq!(
        controller.apply(ControllerCommand::SetContext(invalid)),
        Err(ProfileError::DuplicateComposedItem("duplicate".into()))
    );
    assert_eq!(controller.context().generation, 1);
    assert_eq!(controller.current().generation, 1);
}

#[test]
fn equal_priority_select_ties_follow_binding_order() {
    let (registry, catalog, _) = fixture_with(
        ContributionDefinition::new("terminal", vec![BarElement::Item("terminal".into())])
            .priority(10)
            .scope(ContextScope::Application),
        Vec::new(),
    );
    let context = ContextSnapshot::default().text("application.id", "firefox");
    let composition = catalog
        .compose(&registry, &"default".into(), &context)
        .unwrap();
    assert!(ordered_items(&composition.bar).contains(&"terminal"));
    assert!(!ordered_items(&composition.bar).contains(&"browser"));
}

#[test]
fn grouped_slots_compose_to_stable_paths_and_equal_width_columns() {
    let mut registry = Registry::default();
    registry.add_item(item("left")).unwrap();
    registry.add_item(item("right")).unwrap();
    let mut catalog = ProfileCatalog::default();
    catalog
        .add_contribution(ContributionDefinition::new(
            "left-content",
            vec![BarElement::Item("left".into())],
        ))
        .unwrap();
    catalog
        .add_contribution(ContributionDefinition::new(
            "right-content",
            vec![BarElement::Item("right".into())],
        ))
        .unwrap();
    catalog
        .add_profile(ProfileDefinition::new(
            "grouped",
            vec![ProfileElement::Group(
                ProfileGroup::new(
                    "columns",
                    vec![
                        ProfileGroupElement::Slot(SlotDefinition::new(
                            "left-slot",
                            SlotPolicy::Fixed,
                            vec![ContributionBinding::new("left-content")],
                        )),
                        ProfileGroupElement::Slot(SlotDefinition::new(
                            "right-slot",
                            SlotPolicy::Fixed,
                            vec![ContributionBinding::new("right-content")],
                        )),
                    ],
                )
                .layout(GroupLayout::EqualWidth)
                .spacing(4),
            )],
        ))
        .unwrap();

    let composition = catalog
        .compose(&registry, &"grouped".into(), &ContextSnapshot::default())
        .unwrap();
    assert_eq!(composition.slots[0].path, [0, 0]);
    assert_eq!(composition.slots[1].path, [0, 1]);
    assert_eq!(composition.slots[0].elements, 0..1);
    let layout = resolve(&composition.bar, 164, &TextSet::new()).unwrap();
    assert_eq!(layout.placements[0].width, 80);
    assert_eq!(layout.placements[1].width, 80);
    assert_eq!(layout.placements[1].x, 84);
}

#[test]
fn the_last_commands_decide() {
    let (registry, catalog, selector) = fixture();
    let mut controller =
        CompositionController::new(catalog, registry, selector, ContextSnapshot::default())
            .unwrap();
    let mode = |owner: u64, mode: &str, profile: &str, priority: i32| {
        ControllerCommand::ActivateMode {
            owner: ControlOwner(owner),
            mode: mode.into(),
            profile: profile.into(),
            priority,
        }
    };
    let steps = [
        (mode(1, "a", "media", 5), "media"),
        (mode(2, "b", "default", 5), "default"),
        // a mode that is activated again is the most recent one
        (mode(1, "a", "media", 5), "media"),
        (mode(2, "b", "default", 4), "media"),
        (ControllerCommand::SelectProfile("default".into()), "default"),
        (mode(3, "c", "media", 9), "default"),
        (ControllerCommand::UseAutomaticProfile, "media"),
        (ControllerCommand::ReleaseOwner(ControlOwner(3)), "media"),
        (ControllerCommand::ReleaseMode { owner: ControlOwner(1), mode: "a".into() }, "default"),
        (
            ControllerCommand::SetContext(ContextSnapshot::default().boolean("mode.media", true)),
            "default",
        ),
        (ControllerCommand::ReleaseOwner(ControlOwner(2)), "media"),
    ];
    for (command, profile) in steps {
        controller.apply(command).unwrap();
        assert_eq!(controller.current().composition.profile, ProfileId::from(profile));
    }
}

#[test]
fn places_lead_to_what_slots_contribute() {
    let (registry, catalog, _) = fixture();
    let composition =
        catalog.compose(&registry, &"media".into(), &ContextSnapshot::default()).unwrap();
    let contents: Vec<Vec<&str>> = composition
        .slots
        .iter()
        .map(|slot| {
            assert!(slot.path.is_empty());
            composition.bar.elements[slot.elements.clone()]
                .iter()
                .map(|element| match element {
                    Element::Item(item) => item.id.as_str(),
                    other => panic!("{other:?}"),
                })
                .collect()
        })
        .collect();
    assert_eq!(contents, [vec!["volume"], vec!["play", "timeline"]]);
}

#[test]
fn nothing_is_composed_twice() {
    let again = slot("again", SlotPolicy::Fixed, &[("status", 0)]);
    let (registry, catalog, _) = fixture_with(
        ContributionDefinition::new("terminal", vec![BarElement::Item("terminal".into())]),
        vec![again],
    );
    assert_eq!(
        catalog.compose(&registry, &"default".into(), &ContextSnapshot::default()).unwrap_err(),
        ProfileError::DuplicateComposedItem("status".into())
    );
}

#[test]
fn catalogs_refuse_what_does_not_fit() {
    let mut registry = Registry::default();
    registry.add_item(item("a")).unwrap();
    let refused = |contribution: ContributionDefinition, profile: ProfileDefinition| {
        let mut catalog = ProfileCatalog::default();
        catalog.add_contribution(contribution).unwrap();
        catalog.add_profile(profile).unwrap();
        catalog.validate(&registry).unwrap_err()
    };
    let plain = || ContributionDefinition::new("c", vec![BarElement::Item("a".into())]);
    let empty = || ProfileDefinition::new("p", Vec::new());
    assert_eq!(
        refused(ContributionDefinition::new("c", vec![BarElement::Item("x".into())]), empty()),
        ProfileError::UnknownItem { contribution: "c".into(), item: "x".into() }
    );
    assert_eq!(
        refused(ContributionDefinition::new("c", vec![BarElement::ContextProxy]), empty()),
        ProfileError::ContextProxyInContribution("c".into())
    );
    let weightless = vec![BarElement::FlexibleSpace { minimum: 0, weight: 0 }];
    assert_eq!(
        refused(ContributionDefinition::new("c", weightless), empty()),
        ProfileError::ZeroFlexibleWeightInContribution("c".into())
    );
    let profile = |elements| ProfileDefinition::new("p", elements);
    assert_eq!(
        refused(plain(), profile(vec![ProfileElement::FlexibleSpace { minimum: 0, weight: 0 }])),
        ProfileError::ZeroFlexibleWeightInProfile("p".into())
    );
    assert_eq!(
        refused(plain(), profile(vec![slot("", SlotPolicy::Fixed, &[])])),
        ProfileError::EmptySlotId("p".into())
    );
    let twice = vec![slot("s", SlotPolicy::Fixed, &[]), slot("s", SlotPolicy::Fixed, &[])];
    assert_eq!(
        refused(plain(), profile(twice)),
        ProfileError::DuplicateSlot { profile: "p".into(), slot: "s".into() }
    );
    assert_eq!(
        refused(plain(), profile(vec![slot("s", SlotPolicy::Fixed, &[("x", 0)])])),
        ProfileError::UnknownContribution {
            profile: "p".into(),
            slot: "s".into(),
            contribution: "x".into(),
        }
    );
    let mut catalog = ProfileCatalog::default();
    assert_eq!(
        catalog.add_contribution(ContributionDefinition::new("", Vec::new())),
        Err(ProfileError::EmptyContributionId)
    );
    catalog.add_contribution(plain()).unwrap();
    assert_eq!(
        catalog.add_contribution(plain()),
        Err(ProfileError::DuplicateContribution("c".into()))
    );
    assert_eq!(
        catalog.add_profile(ProfileDefinition::new("", Vec::new())),
        Err(ProfileError::EmptyProfileId)
    );
    catalog.add_profile(empty()).unwrap();
    assert_eq!(catalog.add_profile(empty()), Err(ProfileError::DuplicateProfile("p".into())));
    let context = ContextSnapshot::default();
    assert_eq!(
        catalog.compose(&registry, &"x".into(), &context),
        Err(ProfileError::UnknownProfile("x".into()))
    );
    let composition = catalog.compose(&registry, &"p".into(), &context).unwrap();
    let delta = CompositionDelta::between(None, &composition.bar);
    assert!(delta.entering_items.is_empty() && delta.leaving_items.is_empty());
}

#[test]
fn commands_that_fail_change_nothing() {
    let (registry, catalog, selector) = fixture();
    let mut controller =
        CompositionController::new(catalog, registry, selector, ContextSnapshot::default())
            .unwrap();
    assert_eq!(
        controller.apply(ControllerCommand::SelectProfile("missing".into())),
        Err(ProfileError::UnknownProfile("missing".into()))
    );
    assert_eq!(controller.current().composition.profile, ProfileId::from("default"));
    let nameless = ControllerCommand::ActivateMode {
        owner: ControlOwner(1),
        mode: "".into(),
        profile: "media".into(),
        priority: 0,
    };
    assert_eq!(controller.apply(nameless), Err(ProfileError::EmptyModeId));
    assert_eq!(controller.current().generation, 1);
}

#[test]
fn copies_are_equal() {
    let predicate = ContextPredicate::All(vec![
        ContextPredicate::Not(Box::new(ContextPredicate::Present("a".into()))),
        ContextPredicate::Any(vec![ContextPredicate::Equals(
            "b".into(),
            ContextValue::Boolean(true),
        )]),
        ContextPredicate::Always,
    ]);
    assert_eq!(predicate.clone(), predicate);
    let context = ContextSnapshot::default().boolean("b", true);
    assert!(predicate.clone().matches(&context) && predicate.matches(&context));

    let inner = ProfileGroup::new(
        "inner",
        vec![ProfileGroupElement::Slot(SlotDefinition::new(
            "slot",
            SlotPolicy::Collect,
            vec![ContributionBinding::new("status").order(3)],
        ))],
    );
    let outer = ProfileGroup::new("outer", vec![ProfileGroupElement::Group(inner)]).spacing(4);
    assert_eq!(outer.clone(), outer);

    let (registry, catalog, selector) = fixture();
    let composition =
        catalog.compose(&registry, &"media".into(), &ContextSnapshot::default()).unwrap();
    assert_eq!(composition.clone(), composition);
    let copy = catalog.clone();
    let again = copy.compose(&registry.clone(), &"media".into(), &ContextSnapshot::default());
    assert_eq!(again.unwrap(), composition);
    assert_eq!(selector.clone(), selector);
}
