//! The identity of a package: a repository on GitHub.
use vstd::prelude::*;

use crate::text;

verus! {

/// A repository on GitHub and its owner.
#[derive(Debug, PartialEq, Eq, PartialOrd, Ord)]
pub struct GithubSource {
    owner: String,
    repository: String,
}

impl Clone for GithubSource {
    fn clone(&self) -> (copy: Self)
        ensures
            copy == *self,
    {
        GithubSource { owner: self.owner.clone(), repository: self.repository.clone() }
    }
}

impl GithubSource {
    /// Who owns the repository.
    pub closed spec fn owned_by(self) -> Seq<char> {
        self.owner@
    }

    /// What the repository is called.
    pub closed spec fn called(self) -> Seq<char> {
        self.repository@
    }

    /// The same repository of the same owner.
    pub open spec fn same(self, other: Self) -> bool {
        self.owned_by() == other.owned_by() && self.called() == other.called()
    }

    /// How the identity is written.
    pub open spec fn written(self) -> Seq<char> {
        "github:"@ + self.owned_by() + "/"@ + self.called()
    }

    /// The repository of the given name and owner.
    pub fn named(owner: &str, repository: &str) -> (source: Self)
        ensures
            source.owned_by() == owner@,
            source.called() == repository@,
    {
        GithubSource { owner: owner.to_owned(), repository: repository.to_owned() }
    }

    pub fn owner(&self) -> (owner: &str)
        ensures
            owner@ == self.owned_by(),
    {
        self.owner.as_str()
    }

    pub fn repository(&self) -> (repository: &str)
        ensures
            repository@ == self.called(),
    {
        self.repository.as_str()
    }

    pub fn is_same(&self, other: &Self) -> (r: bool)
        ensures
            r == self.same(*other),
    {
        text::same(self.owner.as_str(), other.owner.as_str()) && text::same(
            self.repository.as_str(),
            other.repository.as_str(),
        )
    }

    /// How the identity is written.
    pub fn text(&self) -> (text: String)
        ensures
            text@ == self.written(),
    {
        text::joined4("github:", self.owner.as_str(), "/", self.repository.as_str())
    }
}

} // verus!
