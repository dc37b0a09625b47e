//! Stable item registry, user-owned profiles, and contextual composition.
//!
//! This module does not discover context or parse plugin manifests. A caller
//! supplies typed context snapshots and profile policy. The pure model
//! produces deterministic ordered bars and transaction metadata without
//! knowing about Wayland, Hyprland, configuration syntax, or process
//! supervision.
pub mod compose;
pub mod context;
pub mod controller;
pub mod delta;
pub mod history;
pub mod ids;
pub mod placement;
pub mod profiles;
pub mod registry;
pub mod select;
pub mod soundness;

use vstd::prelude::*;

use crate::text::TextKey;

pub use compose::{ComposedSlot, ProfileComposition};
pub use context::{
    CompositionSnapshot, ContextPredicate, ContextRule, ContextScope, ContextSelector,
    ContextSnapshot, ContextValue, TransactionalContext,
};

pub use controller::{
    CompositionController, ControlOwner, ControllerCommand, ProfileCompositionSnapshot,
};
pub use delta::CompositionDelta;
pub use ids::{ContributionId, ProfileId, SlotId};
pub use profiles::{
    ContributionBinding, ContributionDefinition, ProfileCatalog, ProfileDefinition, ProfileElement,
    ProfileError, ProfileGroup, ProfileGroupElement, SlotDefinition, SlotPolicy,
};
pub use registry::{
    BarDefinition, BarElement, BarGroup, BarGroupElement, ItemDefinition, ModelError, Registry,
};

pub use select::{ProfileRule, ProfileSelector};

verus! {

/// The identifier of a bar.
#[derive(Debug, PartialEq, Eq, Hash, PartialOrd, Ord)]
pub struct BarId(String);

impl View for BarId {
    type V = Seq<char>;

    closed spec fn view(&self) -> Seq<char> {
        self.0@
    }
}

impl BarId {
    pub fn new(value: &str) -> (id: Self)
        ensures
            id@ == value@,
    {
        BarId(value.to_owned())
    }

    pub fn as_str(&self) -> (text: &str)
        ensures
            text@ == self@,
    {
        self.0.as_str()
    }
}

impl Clone for BarId {
    fn clone(&self) -> (copy: Self)
        ensures
            copy == *self,
    {
        BarId(self.0.clone())
    }
}

impl TextKey for BarId {
    open spec fn text(&self) -> Seq<char> {
        self@
    }

    fn as_text(&self) -> (text: &str) {
        self.as_str()
    }
}

impl From<&str> for BarId {
    fn from(value: &str) -> (id: Self)
        ensures
            id@ == value@,
    {
        BarId(value.to_owned())
    }
}

impl vstd::std_specs::convert::FromSpecImpl<&str> for BarId {
    open spec fn obeys_from_spec() -> bool {
        false
    }

    open spec fn from_spec(value: &str) -> Self {
        arbitrary()
    }
}

impl From<String> for BarId {
    fn from(value: String) -> (id: Self)
        ensures
            id@ == value@,
    {
        BarId(value)
    }
}

impl vstd::std_specs::convert::FromSpecImpl<String> for BarId {
    open spec fn obeys_from_spec() -> bool {
        false
    }

    open spec fn from_spec(value: String) -> Self {
        arbitrary()
    }
}

} // verus!
