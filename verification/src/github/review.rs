//! Going through the attestations of a release until one is verified.
use vstd::prelude::*;

use super::problem;
use super::problem::{Failure, FailureView, Problem};
use crate::text;

verus! {

/// An attestation, as GitHub describes it.
#[derive(Debug)]
pub struct ApiAttestation {
    pub repository_id: u64,
    /// Who asked for the attestation.
    pub initiator: String,
    /// The evidence itself, where it is given.
    pub bundle: Option<Vec<u8>>,
    /// Where the evidence is, where it is not given.
    pub bundle_url: Option<String>,
}

/// How far a review has come.
#[verifier::ext_equal]
pub struct Standing {
    /// How many attestations have been looked at.
    pub at: int,
    /// Why none of them counted so far.
    pub failures: Seq<Seq<char>>,
    /// Some of them could have counted.
    pub seen: bool,
    /// One of them was verified.
    pub verified: bool,
}

/// What comes next in a review.
#[derive(Debug)]
pub enum ReviewStep {
    /// No one claims anything of the release.
    Unattested,
    /// The provenance is verified.
    Attested,
    /// The evidence of the attestation with this number must be verified.
    Load(usize),
    /// Something was claimed, and nothing could be verified.
    Refused(Failure),
}

/// [`ReviewStep`], by the views of what it holds.
pub enum ReviewStepView {
    Unattested,
    Attested,
    Load(usize),
    Refused(FailureView),
}

impl View for ReviewStep {
    type V = ReviewStepView;

    open spec fn view(&self) -> ReviewStepView {
        match self {
            ReviewStep::Unattested => ReviewStepView::Unattested,
            ReviewStep::Attested => ReviewStepView::Attested,
            ReviewStep::Load(i) => ReviewStepView::Load(*i),
            ReviewStep::Refused(failure) => ReviewStepView::Refused(failure@),
        }
    }
}

/// Nothing has been looked at.
pub open spec fn fresh() -> Standing {
    Standing { at: 0, failures: Seq::empty(), seen: false, verified: false }
}

/// An attestation that a user asked for; others do not count.
pub open spec fn counts(attestation: ApiAttestation) -> bool {
    attestation.initiator@ == "user"@
}

/// What comes next, and how far the review has come then.
pub open spec fn advanced(
    attestations: Seq<ApiAttestation>,
    repository_id: u64,
    standing: Standing,
) -> (Standing, ReviewStepView)
    decreases attestations.len() - standing.at,
{
    if standing.verified {
        (standing, ReviewStepView::Attested)
    } else if standing.at >= attestations.len() {
        if standing.seen {
            (
                standing,
                ReviewStepView::Refused(
                    problem::failed_by(
                        Problem::NoProvenance,
                        text::listed(standing.failures, "; "@),
                    ),
                ),
            )
        } else {
            (standing, ReviewStepView::Unattested)
        }
    } else if !counts(attestations[standing.at]) {
        advanced(attestations, repository_id, Standing { at: standing.at + 1, ..standing })
    } else if attestations[standing.at].repository_id != repository_id {
        advanced(
            attestations,
            repository_id,
            Standing {
                at: standing.at + 1,
                seen: true,
                failures: standing.failures.push(problem::wording(Problem::OtherRepository)),
                ..standing
            },
        )
    } else {
        (
            Standing { at: standing.at + 1, seen: true, ..standing },
            ReviewStepView::Load(standing.at as usize),
        )
    }
}

/// How far the review has come once the evidence has been verified, or not.
pub open spec fn settled(standing: Standing, result: Result<(), FailureView>) -> Standing {
    match result {
        Ok(_) => Standing { verified: true, ..standing },
        Err(failure) => Standing {
            failures: standing.failures.push(problem::said(failure)),
            ..standing
        },
    }
}

/// A review of the attestations of a release.
#[derive(Debug)]
pub struct AttestationReview {
    attestations: Vec<ApiAttestation>,
    repository_id: u64,
    at: usize,
    failures: Vec<String>,
    seen: bool,
    verified: bool,
}

impl AttestationReview {
    /// What is looked at.
    pub closed spec fn subject(self) -> Seq<ApiAttestation> {
        self.attestations@
    }

    /// Which repository the release belongs to.
    pub closed spec fn repository(self) -> u64 {
        self.repository_id
    }

    /// How far the review has come.
    pub closed spec fn standing(self) -> Standing {
        Standing {
            at: self.at as int,
            failures: text::texts(self.failures@),
            seen: self.seen,
            verified: self.verified,
        }
    }

    /// No more has been looked at than there is.
    pub open spec fn wf(self) -> bool {
        self.standing().at <= self.subject().len()
    }

    pub fn new(attestations: Vec<ApiAttestation>, repository_id: u64) -> (review: Self)
        ensures
            review.wf(),
            review.subject() == attestations@,
            review.repository() == repository_id,
            review.standing() == fresh(),
    {
        let review = AttestationReview {
            attestations,
            repository_id,
            at: 0,
            failures: Vec::new(),
            seen: false,
            verified: false,
        };
        proof {
            assert(text::texts(review.failures@) =~= Seq::empty());
        }
        review
    }

    /// An attestation.
    pub fn attestation(&self, i: usize) -> (attestation: &ApiAttestation)
        requires
            i < self.subject().len(),
        ensures
            *attestation == self.subject()[i as int],
    {
        &self.attestations[i]
    }

    fn fail(&mut self, message: String)
        ensures
            final(self).subject() == old(self).subject(),
            final(self).repository() == old(self).repository(),
            final(self).standing() == (Standing {
                failures: old(self).standing().failures.push(message@),
                ..old(self).standing()
            }),
    {
        let ghost before = self.failures@;
        self.failures.push(message);
        proof {
            assert(text::texts(self.failures@) =~= text::texts(before).push(message@));
        }
    }

    /// What comes next.
    pub fn next(&mut self) -> (step: ReviewStep)
        requires
            old(self).wf(),
        ensures
            final(self).wf(),
            final(self).subject() == old(self).subject(),
            final(self).repository() == old(self).repository(),
            (final(self).standing(), step@) == advanced(
                old(self).subject(),
                old(self).repository(),
                old(self).standing(),
            ),
            step matches ReviewStep::Load(i) ==> i < old(self).subject().len(),
    {
        if self.verified {
            return ReviewStep::Attested;
        }
        while self.at < self.attestations.len()
            invariant
                self.wf(),
                !self.verified,
                self.subject() == old(self).subject(),
                self.repository() == old(self).repository(),
                advanced(old(self).subject(), old(self).repository(), old(self).standing())
                    == advanced(self.subject(), self.repository(), self.standing()),
            decreases self.attestations@.len() - self.at,
        {
            let i: usize = self.at;
            let wanted: bool = text::same(self.attestations[i].initiator.as_str(), "user");
            if wanted {
                let ours: bool = self.attestations[i].repository_id == self.repository_id;
                self.seen = true;
                if ours {
                    self.at = i + 1;
                    return ReviewStep::Load(i);
                }
                let message = Problem::OtherRepository.wording();
                self.fail(message);
            }
            self.at = i + 1;
        }
        if self.seen {
            let failures = text::list(&self.failures, "; ");
            ReviewStep::Refused(Failure::because(Problem::NoProvenance, failures))
        } else {
            ReviewStep::Unattested
        }
    }

    /// Takes note of what became of the evidence.
    pub fn settle(&mut self, result: Result<(), Failure>)
        requires
            old(self).wf(),
        ensures
            final(self).wf(),
            final(self).subject() == old(self).subject(),
            final(self).repository() == old(self).repository(),
            final(self).standing() == settled(old(self).standing(), problem::outcome(result)),
    {
        match result {
            Ok(_) => {
                self.verified = true;
            },
            Err(failure) => {
                let message = failure.message();
                self.fail(message);
            },
        }
    }
}

/// Attestations that no user asked for say nothing of a release.
pub proof fn others_do_not_count(
    attestations: Seq<ApiAttestation>,
    repository_id: u64,
    standing: Standing,
)
    requires
        0 <= standing.at <= attestations.len(),
        !standing.seen,
        !standing.verified,
        forall|i: int| 0 <= i < attestations.len() ==> !counts(#[trigger] attestations[i]),
    ensures
        advanced(attestations, repository_id, standing).1 is Unattested,
    decreases attestations.len() - standing.at,
{
    if standing.at < attestations.len() {
        others_do_not_count(
            attestations,
            repository_id,
            Standing { at: standing.at + 1, ..standing },
        );
    }
}

/// A release counts as attested only after its evidence was verified, and
/// evidence is asked for only of a user's attestation for its own repository.
pub proof fn only_verified_evidence_counts(
    attestations: Seq<ApiAttestation>,
    repository_id: u64,
    standing: Standing,
)
    requires
        0 <= standing.at <= attestations.len() <= usize::MAX,
    ensures
        match advanced(attestations, repository_id, standing).1 {
            ReviewStepView::Attested => standing.verified,
            ReviewStepView::Load(i) => {
                &&& standing.at <= i < attestations.len()
                &&& counts(attestations[i as int])
                &&& attestations[i as int].repository_id == repository_id
            },
            ReviewStepView::Refused(_) => !standing.verified,
            ReviewStepView::Unattested => !standing.verified && !standing.seen,
        },
    decreases attestations.len() - standing.at,
{
    if !standing.verified && standing.at < attestations.len() {
        if !counts(attestations[standing.at]) {
            only_verified_evidence_counts(
                attestations,
                repository_id,
                Standing { at: standing.at + 1, ..standing },
            );
        } else if attestations[standing.at].repository_id != repository_id {
            only_verified_evidence_counts(
                attestations,
                repository_id,
                Standing {
                    at: standing.at + 1,
                    seen: true,
                    failures: standing.failures.push(problem::wording(Problem::OtherRepository)),
                    ..standing
                },
            );
        }
    }
}

/// An attestation that a user asked for, of the repository.
pub open spec fn worth_loading(attestation: ApiAttestation, repository_id: u64) -> bool {
    attestation.initiator@ == "user"@ && attestation.repository_id == repository_id
}

/// The evidence that is loaded next is that of the first attestation, of those
/// not looked at, that a user asked for and that is of the repository. Where
/// there is none, the release is refused if a user asked for any attestation,
/// and unattested if not.
pub proof fn evidence_is_loaded_in_order(
    attestations: Seq<ApiAttestation>,
    repository_id: u64,
    standing: Standing,
)
    requires
        0 <= standing.at <= attestations.len() <= usize::MAX,
        !standing.verified,
    ensures
        ({
            let (next, step) = advanced(attestations, repository_id, standing);
            &&& !next.verified
            &&& match step {
                ReviewStepView::Load(i) => {
                    &&& standing.at <= i < attestations.len()
                    &&& worth_loading(attestations[i as int], repository_id)
                    &&& forall|j: int|
                        standing.at <= j < i ==> !worth_loading(
                            #[trigger] attestations[j],
                            repository_id,
                        )
                    &&& next.at == i + 1
                    &&& next.seen
                },
                ReviewStepView::Unattested => {
                    &&& !standing.seen
                    &&& forall|j: int|
                        standing.at <= j < attestations.len() ==> (#[trigger] attestations[j]).initiator@
                            != "user"@
                },
                ReviewStepView::Refused(_) => {
                    &&& forall|j: int|
                        standing.at <= j < attestations.len() ==> !worth_loading(
                            #[trigger] attestations[j],
                            repository_id,
                        )
                    &&& standing.seen || exists|j: int|
                        standing.at <= j < attestations.len() && (#[trigger] attestations[j]).initiator@
                            == "user"@
                },
                ReviewStepView::Attested => false,
            }
        }),
    decreases attestations.len() - standing.at,
{
    if standing.at < attestations.len() {
        let this = attestations[standing.at];
        if !counts(this) {
            evidence_is_loaded_in_order(
                attestations,
                repository_id,
                Standing { at: standing.at + 1, ..standing },
            );
        } else if this.repository_id != repository_id {
            evidence_is_loaded_in_order(
                attestations,
                repository_id,
                Standing {
                    at: standing.at + 1,
                    seen: true,
                    failures: standing.failures.push(problem::wording(Problem::OtherRepository)),
                    ..standing
                },
            );
        }
    }
}

/// One piece of evidence that is verified is enough, whatever failed before it.
pub proof fn one_verified_piece_is_enough(
    attestations: Seq<ApiAttestation>,
    repository_id: u64,
    standing: Standing,
    failure: FailureView,
)
    ensures
        advanced(attestations, repository_id, settled(standing, Ok(()))).1 is Attested,
        settled(standing, Err(failure)).verified == standing.verified,
        settled(standing, Err(failure)).at == standing.at,
        settled(standing, Err(failure)).failures == standing.failures.push(
            problem::said(failure),
        ),
{
}

} // verus!
