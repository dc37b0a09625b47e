//! Identifiers of profiles and their parts.
use vstd::prelude::*;

use crate::text::TextKey;

verus! {

/// The identifier of a profile.
#[derive(Debug, PartialEq, Eq, Hash, PartialOrd, Ord)]
pub struct ProfileId(String);

impl View for ProfileId {
    type V = Seq<char>;

    closed spec fn view(&self) -> Seq<char> {
        self.0@
    }
}

impl ProfileId {
    pub fn new(value: &str) -> (id: Self)
        ensures
            id@ == value@,
    {
        ProfileId(value.to_owned())
    }

    pub fn as_str(&self) -> (text: &str)
        ensures
            text@ == self@,
    {
        self.0.as_str()
    }
}

impl Clone for ProfileId {
    fn clone(&self) -> (copy: Self)
        ensures
            copy == *self,
    {
        ProfileId(self.0.clone())
    }
}

impl TextKey for ProfileId {
    open spec fn text(&self) -> Seq<char> {
        self@
    }

    fn as_text(&self) -> (text: &str) {
        self.as_str()
    }
}

impl From<&str> for ProfileId {
    fn from(value: &str) -> (id: Self)
        ensures
            id@ == value@,
    {
        ProfileId(value.to_owned())
    }
}

impl vstd::std_specs::convert::FromSpecImpl<&str> for ProfileId {
    open spec fn obeys_from_spec() -> bool {
        false
    }

    open spec fn from_spec(value: &str) -> Self {
        arbitrary()
    }
}

impl From<String> for ProfileId {
    fn from(value: String) -> (id: Self)
        ensures
            id@ == value@,
    {
        ProfileId(value)
    }
}

impl vstd::std_specs::convert::FromSpecImpl<String> for ProfileId {
    open spec fn obeys_from_spec() -> bool {
        false
    }

    open spec fn from_spec(value: String) -> Self {
        arbitrary()
    }
}

/// The identifier of a slot.
#[derive(Debug, PartialEq, Eq, Hash, PartialOrd, Ord)]
pub struct SlotId(String);

impl View for SlotId {
    type V = Seq<char>;

    closed spec fn view(&self) -> Seq<char> {
        self.0@
    }
}

impl SlotId {
    pub fn new(value: &str) -> (id: Self)
        ensures
            id@ == value@,
    {
        SlotId(value.to_owned())
    }

    pub fn as_str(&self) -> (text: &str)
        ensures
            text@ == self@,
    {
        self.0.as_str()
    }
}

impl Clone for SlotId {
    fn clone(&self) -> (copy: Self)
        ensures
            copy == *self,
    {
        SlotId(self.0.clone())
    }
}

impl TextKey for SlotId {
    open spec fn text(&self) -> Seq<char> {
        self@
    }

    fn as_text(&self) -> (text: &str) {
        self.as_str()
    }
}

impl From<&str> for SlotId {
    fn from(value: &str) -> (id: Self)
        ensures
            id@ == value@,
    {
        SlotId(value.to_owned())
    }
}

impl vstd::std_specs::convert::FromSpecImpl<&str> for SlotId {
    open spec fn obeys_from_spec() -> bool {
        false
    }

    open spec fn from_spec(value: &str) -> Self {
        arbitrary()
    }
}

impl From<String> for SlotId {
    fn from(value: String) -> (id: Self)
        ensures
            id@ == value@,
    {
        SlotId(value)
    }
}

impl vstd::std_specs::convert::FromSpecImpl<String> for SlotId {
    open spec fn obeys_from_spec() -> bool {
        false
    }

    open spec fn from_spec(value: String) -> Self {
        arbitrary()
    }
}

/// The identifier of a contribution.
#[derive(Debug, PartialEq, Eq, Hash, PartialOrd, Ord)]
pub struct ContributionId(String);

impl View for ContributionId {
    type V = Seq<char>;

    closed spec fn view(&self) -> Seq<char> {
        self.0@
    }
}

impl ContributionId {
    pub fn new(value: &str) -> (id: Self)
        ensures
            id@ == value@,
    {
        ContributionId(value.to_owned())
    }

    pub fn as_str(&self) -> (text: &str)
        ensures
            text@ == self@,
    {
        self.0.as_str()
    }
}

impl Clone for ContributionId {
    fn clone(&self) -> (copy: Self)
        ensures
            copy == *self,
    {
        ContributionId(self.0.clone())
    }
}

impl TextKey for ContributionId {
    open spec fn text(&self) -> Seq<char> {
        self@
    }

    fn as_text(&self) -> (text: &str) {
        self.as_str()
    }
}

impl From<&str> for ContributionId {
    fn from(value: &str) -> (id: Self)
        ensures
            id@ == value@,
    {
        ContributionId(value.to_owned())
    }
}

impl vstd::std_specs::convert::FromSpecImpl<&str> for ContributionId {
    open spec fn obeys_from_spec() -> bool {
        false
    }

    open spec fn from_spec(value: &str) -> Self {
        arbitrary()
    }
}

impl From<String> for ContributionId {
    fn from(value: String) -> (id: Self)
        ensures
            id@ == value@,
    {
        ContributionId(value)
    }
}

impl vstd::std_specs::convert::FromSpecImpl<String> for ContributionId {
    open spec fn obeys_from_spec() -> bool {
        false
    }

    open spec fn from_spec(value: String) -> Self {
        arbitrary()
    }
}

} // verus!
