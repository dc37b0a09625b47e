//! Publishing a release: a draft, its one asset, and then the release itself;
//! or else no trace of it.
use vstd::prelude::*;

use super::location;
use super::location::{Address, AddressView, Origins};
use super::problem;
use super::problem::{Failure, FailureView, Problem};
use super::release;
use super::release::RELEASE_ASSET_NAME;
use crate::source::GithubSource;
use crate::text;

verus! {

/// A release that is being published, as GitHub describes it.
#[derive(Debug)]
pub struct ApiPublishRelease {
    pub id: u64,
    pub tag_name: String,
    pub draft: bool,
    pub upload_url: String,
}

/// A file that was uploaded, as GitHub describes it.
#[derive(Debug)]
pub struct ApiPublishedAsset {
    pub id: u64,
    pub name: String,
    pub state: String,
    pub size: u64,
    pub digest: String,
}

/// A release that was published.
#[derive(Clone, Debug, PartialEq, Eq)]
pub struct PublishedRelease {
    pub release_id: u64,
    pub asset_id: u64,
    pub tag: String,
    pub asset_name: String,
    pub asset_size: u64,
    pub asset_digest: String,
}

/// [`PublishedRelease`], field by field.
#[verifier::ext_equal]
pub struct PublishedReleaseView {
    pub release_id: u64,
    pub asset_id: u64,
    pub tag: Seq<char>,
    pub asset_name: Seq<char>,
    pub asset_size: u64,
    pub asset_digest: Seq<char>,
}

impl View for PublishedRelease {
    type V = PublishedReleaseView;

    open spec fn view(&self) -> PublishedReleaseView {
        PublishedReleaseView {
            release_id: self.release_id,
            asset_id: self.asset_id,
            tag: self.tag@,
            asset_name: self.asset_name@,
            asset_size: self.asset_size,
            asset_digest: self.asset_digest@,
        }
    }
}

/// What is published, and where.
#[verifier::ext_equal]
pub struct Plan {
    pub api: Seq<char>,
    pub upload: AddressView,
    pub source: GithubSource,
    pub tag: Seq<char>,
    pub asset_size: u64,
    pub asset_digest: Seq<char>,
}

/// What an answer is awaited to.
#[derive(Debug)]
pub enum Stage {
    /// Whether there is such a tag.
    Tag,
    /// The draft.
    Draft,
    /// The asset, for the draft with this number.
    Asset(u64),
    /// The release with this number and this asset.
    Release(u64, u64),
    /// The removal of the draft with this number, for this reason.
    Removal(u64, Failure),
    /// None.
    Over,
}

/// [`Stage`], by the views of what it holds.
pub enum StageView {
    Tag,
    Draft,
    Asset(u64),
    Release(u64, u64),
    Removal(u64, FailureView),
    Over,
}

impl View for Stage {
    type V = StageView;

    open spec fn view(&self) -> StageView {
        match self {
            Stage::Tag => StageView::Tag,
            Stage::Draft => StageView::Draft,
            Stage::Asset(id) => StageView::Asset(*id),
            Stage::Release(id, asset) => StageView::Release(*id, *asset),
            Stage::Removal(id, failure) => StageView::Removal(*id, failure@),
            Stage::Over => StageView::Over,
        }
    }
}

/// An answer of GitHub.
#[derive(Debug)]
pub enum Reply {
    /// The full name of a tag.
    Reference(String),
    Release(ApiPublishRelease),
    Asset(ApiPublishedAsset),
    Removed,
}

/// What is to be done next.
#[derive(Debug)]
pub enum Action {
    /// Ask for the tag at this address.
    VerifyTag(String),
    /// Create the draft at this address.
    CreateDraft(String),
    /// Send the asset to this address.
    Upload(String),
    /// Publish the draft at this address.
    Publish(String),
    /// Remove the draft at this address.
    Remove(String),
    /// Nothing: it is over.
    Finished(Result<PublishedRelease, Failure>),
}

/// [`Action`], by the views of what it holds.
pub enum ActionView {
    VerifyTag(Seq<char>),
    CreateDraft(Seq<char>),
    Upload(Seq<char>),
    Publish(Seq<char>),
    Remove(Seq<char>),
    Finished(Result<PublishedReleaseView, FailureView>),
}

impl View for Action {
    type V = ActionView;

    open spec fn view(&self) -> ActionView {
        match self {
            Action::VerifyTag(address) => ActionView::VerifyTag(address@),
            Action::CreateDraft(address) => ActionView::CreateDraft(address@),
            Action::Upload(address) => ActionView::Upload(address@),
            Action::Publish(address) => ActionView::Publish(address@),
            Action::Remove(address) => ActionView::Remove(address@),
            Action::Finished(result) => ActionView::Finished(problem::outcome(*result)),
        }
    }
}

/// An answer that fits what it is an answer to.
pub open spec fn fitting(stage: StageView, reply: Result<Reply, Failure>) -> bool {
    match (stage, reply) {
        (StageView::Over, _) => false,
        (_, Err(_)) => true,
        (StageView::Tag, Ok(reply)) => reply is Reference,
        (StageView::Draft, Ok(reply)) => reply is Release,
        (StageView::Asset(_), Ok(reply)) => reply is Asset,
        (StageView::Release(_, _), Ok(reply)) => reply is Release,
        (StageView::Removal(_, _), Ok(reply)) => reply is Removed,
    }
}

// ---------------------------------------------------------------------------
// What comes next

/// It is over, and nothing was published.
pub open spec fn abandoned(failure: FailureView) -> (StageView, ActionView) {
    (StageView::Over, ActionView::Finished(Err(failure)))
}

/// The draft could not be removed either.
pub open spec fn kept(release_id: u64, failure: FailureView, cleanup: FailureView) -> FailureView {
    problem::failed_by(
        Problem::DraftKept(release_id),
        problem::said(cleanup) + ": "@ + problem::said(failure),
    )
}

/// What follows the origin of GitHub's interface for a release.
pub open spec fn release_suffix(release_id: u64) -> Seq<char> {
    "releases/"@ + text::decimal(release_id as int)
}

/// The draft must be removed.
pub open spec fn withdrawn(plan: Plan, release_id: u64, failure: FailureView) -> (
    StageView,
    ActionView,
) {
    match location::endpoint(plan.api, plan.source, release_suffix(release_id)) {
        Ok(address) => (StageView::Removal(release_id, failure), ActionView::Remove(address)),
        Err(cleanup) => abandoned(kept(release_id, failure, cleanup)),
    }
}

/// What comes first.
pub open spec fn begun(plan: Plan) -> (StageView, ActionView) {
    match location::endpoint(plan.api, plan.source, "git/ref/tags/"@ + plan.tag) {
        Ok(address) => (StageView::Tag, ActionView::VerifyTag(address)),
        Err(failure) => abandoned(failure),
    }
}

/// What follows the name of the tag.
pub open spec fn after_tag(plan: Plan, reference: Seq<char>) -> (StageView, ActionView) {
    if reference != "refs/tags/"@ + plan.tag {
        abandoned(problem::failed(Problem::OtherReference))
    } else {
        match location::endpoint(plan.api, plan.source, "releases"@) {
            Ok(address) => (StageView::Draft, ActionView::CreateDraft(address)),
            Err(failure) => abandoned(failure),
        }
    }
}

/// What follows the draft.
pub open spec fn after_draft(plan: Plan, created: ApiPublishRelease) -> (StageView, ActionView) {
    if created.id == 0 {
        abandoned(problem::failed(Problem::ZeroRelease))
    } else if created.tag_name@ != plan.tag || !created.draft {
        withdrawn(plan, created.id, problem::failed(Problem::NotTheDraft))
    } else {
        match location::upload_checked(
            plan.upload,
            plan.source,
            created.id,
            created.upload_url@,
            location::address_of(location::before_brace(created.upload_url@)),
        ) {
            Err(failure) => withdrawn(plan, created.id, failure),
            Ok(address) => (StageView::Asset(created.id), ActionView::Upload(address)),
        }
    }
}

/// What is wrong with the asset that was uploaded, if anything is.
pub open spec fn uploaded_checked(plan: Plan, asset: ApiPublishedAsset) -> Result<(), FailureView> {
    if asset.id == 0 || asset.name@ != RELEASE_ASSET_NAME@ || asset.state@ != "uploaded"@
        || asset.size != plan.asset_size {
        Err(problem::failed(Problem::InconsistentAsset))
    } else if !release::is_digest(asset.digest@) {
        Err(problem::failed(Problem::MalformedDigest))
    } else if asset.digest@ != plan.asset_digest {
        Err(problem::failed(Problem::StagedDigestDiffers))
    } else {
        Ok(())
    }
}

/// What follows the asset.
pub open spec fn after_asset(plan: Plan, release_id: u64, asset: ApiPublishedAsset) -> (
    StageView,
    ActionView,
) {
    match uploaded_checked(plan, asset) {
        Err(failure) => withdrawn(plan, release_id, failure),
        Ok(_) => match location::endpoint(plan.api, plan.source, release_suffix(release_id)) {
            Err(failure) => withdrawn(plan, release_id, failure),
            Ok(address) => (
                StageView::Release(release_id, asset.id),
                ActionView::Publish(address),
            ),
        },
    }
}

/// What was published.
pub open spec fn published(plan: Plan, release_id: u64, asset_id: u64) -> PublishedReleaseView {
    PublishedReleaseView {
        release_id,
        asset_id,
        tag: plan.tag,
        asset_name: RELEASE_ASSET_NAME@,
        asset_size: plan.asset_size,
        asset_digest: plan.asset_digest,
    }
}

/// What follows the release.
pub open spec fn after_release(
    plan: Plan,
    release_id: u64,
    asset_id: u64,
    answer: ApiPublishRelease,
) -> (StageView, ActionView) {
    if answer.id != release_id || answer.tag_name@ != plan.tag || answer.draft {
        withdrawn(plan, release_id, problem::failed(Problem::InconsistentRelease))
    } else {
        (StageView::Over, ActionView::Finished(Ok(published(plan, release_id, asset_id))))
    }
}

/// What follows an answer.
pub open spec fn followed(plan: Plan, stage: StageView, reply: Result<Reply, Failure>) -> (
    StageView,
    ActionView,
) {
    match (stage, reply) {
        (StageView::Tag, Ok(Reply::Reference(reference))) => after_tag(plan, reference@),
        (StageView::Draft, Ok(Reply::Release(created))) => after_draft(plan, created),
        (StageView::Asset(id), Ok(Reply::Asset(asset))) => after_asset(plan, id, asset),
        (StageView::Asset(id), Err(failure)) => withdrawn(plan, id, failure@),
        (StageView::Release(id, asset), Ok(Reply::Release(answer))) => after_release(
            plan,
            id,
            asset,
            answer,
        ),
        (StageView::Release(id, _), Err(failure)) => withdrawn(plan, id, failure@),
        (StageView::Removal(_, why), Ok(_)) => abandoned(
            problem::failed_by(Problem::DraftRemoved, problem::said(why)),
        ),
        (StageView::Removal(id, why), Err(failure)) => abandoned(kept(id, why, failure@)),
        (_, Err(failure)) => abandoned(failure@),
        _ => abandoned(problem::failed(Problem::Request)),
    }
}

// ---------------------------------------------------------------------------

/// A release that is being published.
#[derive(Debug)]
pub struct Publication {
    origins: Origins,
    source: GithubSource,
    tag: String,
    asset_size: u64,
    asset_digest: String,
    stage: Stage,
}

impl Publication {
    pub closed spec fn plan(self) -> Plan {
        Plan {
            api: self.origins.api@,
            upload: self.origins.upload@,
            source: self.source,
            tag: self.tag@,
            asset_size: self.asset_size,
            asset_digest: self.asset_digest@,
        }
    }

    pub closed spec fn awaiting(self) -> StageView {
        self.stage@
    }

    /// What is published, once its tag has been found to be one that releases
    /// are published under.
    pub fn new(
        origins: Origins,
        source: GithubSource,
        tag: &str,
        asset_size: u64,
        asset_digest: String,
    ) -> (result: Result<Self, Failure>)
        ensures
            match release::publish_tag_checked(tag@, release::tagged_version(tag@)) {
                Err(why) => result is Err && result->Err_0@ == why,
                Ok(_) => result is Ok && result->Ok_0.awaiting() is Over && result->Ok_0.plan() == (
                Plan {
                    api: origins.api@,
                    upload: origins.upload@,
                    source,
                    tag: tag@,
                    asset_size,
                    asset_digest: asset_digest@,
                }),
            },
    {
        release::validate_publish_tag(tag)?;
        Ok(
            Publication {
                origins,
                source,
                tag: text::copied(tag),
                asset_size,
                asset_digest,
                stage: Stage::Over,
            },
        )
    }

    fn release_endpoint(&self, release_id: u64) -> (result: Result<String, Failure>)
        ensures
            problem::outcome(result) == location::endpoint(
                self.plan().api,
                self.plan().source,
                release_suffix(release_id),
            ),
    {
        let number = text::decimal_text(release_id);
        let suffix = text::joined("releases/", number.as_str());
        location::api_endpoint(self.origins.api.as_str(), &self.source, suffix.as_str())
    }

    fn withdraw(&mut self, release_id: u64, failure: Failure) -> (action: Action)
        ensures
            final(self).plan() == old(self).plan(),
            (final(self).awaiting(), action@) == withdrawn(
                old(self).plan(),
                release_id,
                failure@,
            ),
    {
        match self.release_endpoint(release_id) {
            Ok(address) => {
                self.stage = Stage::Removal(release_id, failure);
                Action::Remove(address)
            },
            Err(cleanup) => {
                self.stage = Stage::Over;
                let kept = keep(release_id, &failure, &cleanup);
                Action::Finished(Err(kept))
            },
        }
    }

    fn abandon(&mut self, failure: Failure) -> (action: Action)
        ensures
            final(self).plan() == old(self).plan(),
            (final(self).awaiting(), action@) == abandoned(failure@),
    {
        self.stage = Stage::Over;
        Action::Finished(Err(failure))
    }

    /// What comes first.
    pub fn begin(&mut self) -> (action: Action)
        ensures
            final(self).plan() == old(self).plan(),
            (final(self).awaiting(), action@) == begun(old(self).plan()),
    {
        let suffix = text::joined("git/ref/tags/", self.tag.as_str());
        match location::api_endpoint(self.origins.api.as_str(), &self.source, suffix.as_str()) {
            Ok(address) => {
                self.stage = Stage::Tag;
                Action::VerifyTag(address)
            },
            Err(failure) => self.abandon(failure),
        }
    }

    fn see_tag(&mut self, reference: &str) -> (action: Action)
        ensures
            final(self).plan() == old(self).plan(),
            (final(self).awaiting(), action@) == after_tag(old(self).plan(), reference@),
    {
        let wanted = text::joined("refs/tags/", self.tag.as_str());
        if !text::same(reference, wanted.as_str()) {
            return self.abandon(Failure::of(Problem::OtherReference));
        }
        match location::api_endpoint(self.origins.api.as_str(), &self.source, "releases") {
            Ok(address) => {
                self.stage = Stage::Draft;
                Action::CreateDraft(address)
            },
            Err(failure) => self.abandon(failure),
        }
    }

    fn see_draft(&mut self, created: &ApiPublishRelease) -> (action: Action)
        ensures
            final(self).plan() == old(self).plan(),
            (final(self).awaiting(), action@) == after_draft(old(self).plan(), *created),
    {
        if created.id == 0 {
            return self.abandon(Failure::of(Problem::ZeroRelease));
        }
        if !text::same(created.tag_name.as_str(), self.tag.as_str()) || !created.draft {
            return self.withdraw(created.id, Failure::of(Problem::NotTheDraft));
        }
        match location::validated_upload_url(
            &self.origins.upload,
            &self.source,
            created.id,
            created.upload_url.as_str(),
        ) {
            Err(failure) => self.withdraw(created.id, failure),
            Ok(address) => {
                self.stage = Stage::Asset(created.id);
                Action::Upload(address)
            },
        }
    }

    fn check_uploaded(&self, asset: &ApiPublishedAsset) -> (result: Result<(), Failure>)
        ensures
            problem::outcome(result) == uploaded_checked(self.plan(), *asset),
    {
        if asset.id == 0 || !text::same(asset.name.as_str(), RELEASE_ASSET_NAME) || !text::same(
            asset.state.as_str(),
            "uploaded",
        ) || asset.size != self.asset_size {
            return Err(Failure::of(Problem::InconsistentAsset));
        }
        release::validate_sha256(asset.digest.as_str())?;
        if !text::same(asset.digest.as_str(), self.asset_digest.as_str()) {
            return Err(Failure::of(Problem::StagedDigestDiffers));
        }
        Ok(())
    }

    fn see_asset(&mut self, release_id: u64, asset: &ApiPublishedAsset) -> (action: Action)
        ensures
            final(self).plan() == old(self).plan(),
            (final(self).awaiting(), action@) == after_asset(old(self).plan(), release_id, *asset),
    {
        match self.check_uploaded(asset) {
            Err(failure) => self.withdraw(release_id, failure),
            Ok(_) => match self.release_endpoint(release_id) {
                Err(failure) => self.withdraw(release_id, failure),
                Ok(address) => {
                    self.stage = Stage::Release(release_id, asset.id);
                    Action::Publish(address)
                },
            },
        }
    }

    fn see_release(
        &mut self,
        release_id: u64,
        asset_id: u64,
        answer: &ApiPublishRelease,
    ) -> (action:
        Action)
        ensures
            final(self).plan() == old(self).plan(),
            (final(self).awaiting(), action@) == after_release(
                old(self).plan(),
                release_id,
                asset_id,
                *answer,
            ),
    {
        if answer.id != release_id || !text::same(answer.tag_name.as_str(), self.tag.as_str())
            || answer.draft {
            return self.withdraw(release_id, Failure::of(Problem::InconsistentRelease));
        }
        self.stage = Stage::Over;
        Action::Finished(
            Ok(
                PublishedRelease {
                    release_id,
                    asset_id,
                    tag: text::copied(self.tag.as_str()),
                    asset_name: text::copied(RELEASE_ASSET_NAME),
                    asset_size: self.asset_size,
                    asset_digest: text::copied(self.asset_digest.as_str()),
                },
            ),
        )
    }

    /// What follows an answer, or the failure to get one.
    pub fn advance(&mut self, reply: Result<Reply, Failure>) -> (action: Action)
        requires
            fitting(old(self).awaiting(), reply),
        ensures
            final(self).plan() == old(self).plan(),
            (final(self).awaiting(), action@) == followed(
                old(self).plan(),
                old(self).awaiting(),
                reply,
            ),
    {
        let mut stage = Stage::Over;
        std::mem::swap(&mut self.stage, &mut stage);
        match (stage, reply) {
            (Stage::Tag, Ok(Reply::Reference(reference))) => self.see_tag(reference.as_str()),
            (Stage::Draft, Ok(Reply::Release(created))) => self.see_draft(&created),
            (Stage::Asset(id), Ok(Reply::Asset(asset))) => self.see_asset(id, &asset),
            (Stage::Asset(id), Err(failure)) => self.withdraw(id, failure),
            (Stage::Release(id, asset), Ok(Reply::Release(answer))) => self.see_release(
                id,
                asset,
                &answer,
            ),
            (Stage::Release(id, _), Err(failure)) => self.withdraw(id, failure),
            (Stage::Removal(_, why), Ok(_)) => {
                let why = why.message();
                self.abandon(Failure::because(Problem::DraftRemoved, why))
            },
            (Stage::Removal(id, why), Err(failure)) => {
                let kept = keep(id, &why, &failure);
                self.abandon(kept)
            },
            (_, Err(failure)) => self.abandon(failure),
            _ => self.abandon(Failure::of(Problem::Request)),
        }
    }
}

fn keep(release_id: u64, failure: &Failure, cleanup: &Failure) -> (both: Failure)
    ensures
        both@ == kept(release_id, failure@, cleanup@),
{
    let failure = failure.message();
    let cleanup = cleanup.message();
    Failure::because(
        Problem::DraftKept(release_id),
        text::joined3(cleanup.as_str(), ": ", failure.as_str()),
    )
}

// ---------------------------------------------------------------------------
// Laws

/// A draft whose asset or release failed is never forgotten: either its
/// removal is asked for, or the user is told that it is still there, or the
/// release was published.
pub proof fn drafts_are_never_forgotten(plan: Plan, stage: StageView, reply: Result<Reply, Failure>)
    requires
        fitting(stage, reply),
        stage is Asset || stage is Release || stage is Removal,
    ensures
        match followed(plan, stage, reply) {
            (StageView::Over, ActionView::Finished(Ok(done))) => stage matches StageView::Release(
                id,
                asset,
            ) && done == published(plan, id, asset),
            (StageView::Over, ActionView::Finished(Err(failure))) => failure.problem is DraftKept
                || (stage is Removal && failure.problem is DraftRemoved),
            (next, action) => next is Removal == action is Remove,
        },
{
}

/// Nothing is published before its asset was found to be the one that was
/// staged.
pub proof fn only_the_staged_package_is_published(
    plan: Plan,
    stage: StageView,
    reply: Result<Reply, Failure>,
)
    requires
        fitting(stage, reply),
        followed(plan, stage, reply).1 is Publish,
    ensures
        stage is Asset,
        reply matches Ok(Reply::Asset(asset)) && asset.digest@ == plan.asset_digest && asset.size
            == plan.asset_size && asset.name@ == RELEASE_ASSET_NAME@,
{
}

/// What is published under a tag has this tag, and the digest of what was
/// staged.
pub proof fn publications_are_what_was_planned(
    plan: Plan,
    stage: StageView,
    reply: Result<Reply, Failure>,
)
    requires
        fitting(stage, reply),
        followed(plan, stage, reply).1 matches ActionView::Finished(Ok(_)),
    ensures
        stage is Release,
        followed(plan, stage, reply).1->Finished_0->Ok_0.tag == plan.tag,
        followed(plan, stage, reply).1->Finished_0->Ok_0.asset_digest == plan.asset_digest,
        reply matches Ok(Reply::Release(answer)) && answer.tag_name@ == plan.tag && !answer.draft,
{
}

/// A publication goes on where each answer is what it must be, and only there.
pub proof fn publications_go_on_where_all_agrees(
    plan: Plan,
    reference: String,
    created: ApiPublishRelease,
    release_id: u64,
    asset: ApiPublishedAsset,
    asset_id: u64,
    answer: ApiPublishRelease,
)
    ensures
        followed(plan, StageView::Tag, Ok(Reply::Reference(reference))).0 is Draft <==> reference@
            == "refs/tags/"@ + plan.tag && location::endpoint(
            plan.api,
            plan.source,
            "releases"@,
        ) is Ok,
        followed(plan, StageView::Draft, Ok(Reply::Release(created))).0 is Asset <==> created.id
            != 0 && created.tag_name@ == plan.tag && created.draft && location::upload_checked(
            plan.upload,
            plan.source,
            created.id,
            created.upload_url@,
            location::address_of(location::before_brace(created.upload_url@)),
        ) is Ok,
        followed(plan, StageView::Draft, Ok(Reply::Release(created))).0 matches StageView::Asset(
            id,
        ) ==> id == created.id,
        followed(plan, StageView::Asset(release_id), Ok(Reply::Asset(asset))).0 is Release <==> {
            &&& asset.id != 0
            &&& asset.name@ == "touchbar-plugin.touchbar"@
            &&& asset.state@ == "uploaded"@
            &&& asset.size == plan.asset_size
            &&& release::is_digest(asset.digest@)
            &&& asset.digest@ == plan.asset_digest
            &&& location::endpoint(
                plan.api,
                plan.source,
                "releases/"@ + text::decimal(release_id as int),
            ) is Ok
        },
        followed(plan, StageView::Asset(release_id), Ok(Reply::Asset(asset))).0 matches
            StageView::Release(id, staged) ==> id == release_id && staged == asset.id,
        (followed(
            plan,
            StageView::Release(release_id, asset_id),
            Ok(Reply::Release(answer)),
        ).1 matches ActionView::Finished(Ok(_))) <==> answer.id == release_id && answer.tag_name@
            == plan.tag && !answer.draft,
        followed(
            plan,
            StageView::Release(release_id, asset_id),
            Ok(Reply::Release(answer)),
        ).1 matches ActionView::Finished(Ok(release)) ==> {
            &&& release.release_id == release_id
            &&& release.asset_id == asset_id
            &&& release.tag == plan.tag
            &&& release.asset_name == "touchbar-plugin.touchbar"@
            &&& release.asset_size == plan.asset_size
            &&& release.asset_digest == plan.asset_digest
        },
{
}

/// A draft that does not become a release is removed.
pub proof fn failed_drafts_are_removed(
    plan: Plan,
    release_id: u64,
    asset_id: u64,
    stage: StageView,
    reply: Result<Reply, Failure>,
    address: Seq<char>,
)
    requires
        fitting(stage, reply),
        stage == StageView::Asset(release_id) || stage == StageView::Release(release_id, asset_id)
            || (stage is Draft && (reply matches Ok(Reply::Release(created)) && created.id
            == release_id) && release_id != 0),
        location::endpoint(
            plan.api,
            plan.source,
            "releases/"@ + text::decimal(release_id as int),
        ) == Ok::<Seq<char>, FailureView>(address),
    ensures
        ({
            let (next, action) = followed(plan, stage, reply);
            ||| action is Upload && next == StageView::Asset(release_id)
            ||| action == ActionView::Publish(address)
            ||| action matches ActionView::Finished(Ok(_))
            ||| action == ActionView::Remove(address) && next is Removal && next->Removal_0
                == release_id
        }),
{
}

} // verus!
