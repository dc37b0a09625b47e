//! Why something on GitHub could not be had or done.
use vstd::prelude::*;

use crate::text;

verus! {

/// What went wrong.
#[derive(Clone, Copy, Debug, PartialEq, Eq, Structural)]
pub enum Problem {
    UnpublishedRelease,
    TagForm,
    TagNotSemantic,
    TagNotCanonical,
    VersionNotPlain,
    OtherVersion,
    NoPackageAsset,
    DuplicateAssets,
    IncompleteAsset,
    AssetOverLimit,
    NoDigest,
    MalformedDigest,
    ZeroRepositoryId,
    InactiveRepository,
    MetadataOverLimit,
    ApiOriginUnreadable,
    ApiOriginInvalid,
    UploadOriginUnreadable,
    UploadOriginInvalid,
    UploadUrlUnreadable,
    UploadUrlOutside,
    Endpoint,
    TokenMissing,
    TokenNotText,
    TokenEmpty,
    TokenInvalid,
    AssetNotAFile,
    AssetSize,
    OtherReference,
    ZeroRelease,
    NotTheDraft,
    InconsistentAsset,
    StagedDigestDiffers,
    InconsistentRelease,
    DraftRemoved,
    LengthDiffers,
    AssetTooLong,
    Truncated,
    DigestDiffers,
    NoBundle,
    BundleUrlUnreadable,
    BundleUrlOutside,
    CompressedOverLimit,
    CompressedSize,
    BundleOverLimit,
    Compressed,
    InlineBundle,
    Bundle,
    Identity,
    TrustRoot,
    NoLogEntry,
    UnknownLog,
    NoInclusionProof,
    NoOrigin,
    ForeignOrigin,
    DigestPrefix,
    DigestEncoding,
    Provenance,
    OtherRepository,
    NoProvenance,
    /// The draft with this number is still there.
    DraftKept(u64),
    /// A request that was not answered; the cause says all there is to say.
    Request,
}

/// What the message of a problem says.
pub open spec fn wording(problem: Problem) -> Seq<char> {
    match problem {
        Problem::UnpublishedRelease => "stable installs require a published non-prerelease GitHub release"@,
        Problem::TagForm => "release tag must have the exact form vMAJOR.MINOR.PATCH"@,
        Problem::TagNotSemantic => "release tag is not a semantic version"@,
        Problem::TagNotCanonical => "release tag is not the canonical vMAJOR.MINOR.PATCH form"@,
        Problem::VersionNotPlain => "stable installs require a plain MAJOR.MINOR.PATCH release version"@,
        Problem::OtherVersion => "GitHub returned a release other than the requested version"@,
        Problem::NoPackageAsset => "release has no touchbar-plugin.touchbar asset"@,
        Problem::DuplicateAssets => "release contains duplicate standard package assets"@,
        Problem::IncompleteAsset => "release package asset is incomplete"@,
        Problem::AssetOverLimit => "release package asset exceeds the 264 MiB download limit"@,
        Problem::NoDigest => "GitHub did not provide a digest for the release package asset"@,
        Problem::MalformedDigest => "GitHub asset digest must be sha256 followed by 64 lowercase hexadecimal digits"@,
        Problem::ZeroRepositoryId => "GitHub repository identity contains a zero numeric id"@,
        Problem::InactiveRepository => "stable installs require an active public GitHub repository"@,
        Problem::MetadataOverLimit => "GitHub release metadata exceeds its size limit"@,
        Problem::ApiOriginUnreadable => "parse GitHub API origin"@,
        Problem::ApiOriginInvalid => "GitHub API origin is invalid"@,
        Problem::UploadOriginUnreadable => "parse GitHub upload API origin"@,
        Problem::UploadOriginInvalid => "GitHub upload API origin is invalid"@,
        Problem::UploadUrlUnreadable => "parse GitHub release upload URL"@,
        Problem::UploadUrlOutside => "GitHub release upload URL is outside the exact repository endpoint"@,
        Problem::Endpoint => "construct GitHub API endpoint"@,
        Problem::TokenMissing => "GITHUB_TOKEN is required to publish a GitHub release"@,
        Problem::TokenNotText => "GITHUB_TOKEN must be UTF-8"@,
        Problem::TokenEmpty => "GITHUB_TOKEN must not be empty"@,
        Problem::TokenInvalid => "GITHUB_TOKEN is not a valid HTTP header value"@,
        Problem::AssetNotAFile => "release asset must be a regular file"@,
        Problem::AssetSize => "release asset must be between 1 byte and 264 MiB"@,
        Problem::OtherReference => "GitHub returned a different release tag reference"@,
        Problem::ZeroRelease => "GitHub created a release with a zero id"@,
        Problem::NotTheDraft => "GitHub did not create the requested draft release"@,
        Problem::InconsistentAsset => "GitHub returned inconsistent release-asset metadata"@,
        Problem::StagedDigestDiffers => "GitHub release-asset digest differs from the staged package"@,
        Problem::InconsistentRelease => "GitHub returned inconsistent published-release metadata"@,
        Problem::DraftRemoved => "draft release was removed"@,
        Problem::LengthDiffers => "GitHub asset Content-Length differs from release metadata"@,
        Problem::AssetTooLong => "GitHub release asset exceeds its declared size or host limit"@,
        Problem::Truncated => "GitHub release asset is truncated"@,
        Problem::DigestDiffers => "GitHub release asset digest does not match its API metadata"@,
        Problem::NoBundle => "GitHub attestation has neither an inline bundle nor a bundle URL"@,
        Problem::BundleUrlUnreadable => "parse GitHub attestation bundle URL"@,
        Problem::BundleUrlOutside => "GitHub attestation bundle URL is outside the approved HTTPS host"@,
        Problem::CompressedOverLimit => "compressed attestation bundle exceeds its size limit"@,
        Problem::CompressedSize => "read raw-Snappy attestation size"@,
        Problem::BundleOverLimit => "decompressed attestation bundle exceeds its size limit"@,
        Problem::Compressed => "decompress raw-Snappy attestation bundle"@,
        Problem::InlineBundle => "parse inline attestation bundle"@,
        Problem::Bundle => "parse GitHub attestation bundle"@,
        Problem::Identity => "construct attestation repository identity"@,
        Problem::TrustRoot => "load embedded Sigstore public-good trust root"@,
        Problem::NoLogEntry => "build-provenance bundle has no transparency-log entry"@,
        Problem::UnknownLog => "attestation uses an unknown transparency-log key"@,
        Problem::NoInclusionProof => "attestation has no Rekor inclusion proof"@,
        Problem::NoOrigin => "attestation checkpoint has no signed origin"@,
        Problem::ForeignOrigin => "attestation checkpoint is not from the public Rekor deployment"@,
        Problem::DigestPrefix => "release digest lost its sha256 prefix"@,
        Problem::DigestEncoding => "decode release digest"@,
        Problem::Provenance => "verify GitHub build provenance"@,
        Problem::OtherRepository => "attestation repository id differs from resolved repository"@,
        Problem::NoProvenance => "GitHub advertised build provenance, but native cryptographic verification failed"@,
        Problem::DraftKept(id) => "draft release "@ + text::decimal(id as int)
            + " could not be removed"@,
        Problem::Request => ""@,
    }
}

impl Problem {
    /// What the message says.
    pub fn wording(&self) -> (text: String)
        ensures
            text@ == wording(*self),
    {
        let fixed: &'static str = match *self {
            Problem::UnpublishedRelease => "stable installs require a published non-prerelease GitHub release",
            Problem::TagForm => "release tag must have the exact form vMAJOR.MINOR.PATCH",
            Problem::TagNotSemantic => "release tag is not a semantic version",
            Problem::TagNotCanonical => "release tag is not the canonical vMAJOR.MINOR.PATCH form",
            Problem::VersionNotPlain => "stable installs require a plain MAJOR.MINOR.PATCH release version",
            Problem::OtherVersion => "GitHub returned a release other than the requested version",
            Problem::NoPackageAsset => "release has no touchbar-plugin.touchbar asset",
            Problem::DuplicateAssets => "release contains duplicate standard package assets",
            Problem::IncompleteAsset => "release package asset is incomplete",
            Problem::AssetOverLimit => "release package asset exceeds the 264 MiB download limit",
            Problem::NoDigest => "GitHub did not provide a digest for the release package asset",
            Problem::MalformedDigest => "GitHub asset digest must be sha256 followed by 64 lowercase hexadecimal digits",
            Problem::ZeroRepositoryId => "GitHub repository identity contains a zero numeric id",
            Problem::InactiveRepository => "stable installs require an active public GitHub repository",
            Problem::MetadataOverLimit => "GitHub release metadata exceeds its size limit",
            Problem::ApiOriginUnreadable => "parse GitHub API origin",
            Problem::ApiOriginInvalid => "GitHub API origin is invalid",
            Problem::UploadOriginUnreadable => "parse GitHub upload API origin",
            Problem::UploadOriginInvalid => "GitHub upload API origin is invalid",
            Problem::UploadUrlUnreadable => "parse GitHub release upload URL",
            Problem::UploadUrlOutside => "GitHub release upload URL is outside the exact repository endpoint",
            Problem::Endpoint => "construct GitHub API endpoint",
            Problem::TokenMissing => "GITHUB_TOKEN is required to publish a GitHub release",
            Problem::TokenNotText => "GITHUB_TOKEN must be UTF-8",
            Problem::TokenEmpty => "GITHUB_TOKEN must not be empty",
            Problem::TokenInvalid => "GITHUB_TOKEN is not a valid HTTP header value",
            Problem::AssetNotAFile => "release asset must be a regular file",
            Problem::AssetSize => "release asset must be between 1 byte and 264 MiB",
            Problem::OtherReference => "GitHub returned a different release tag reference",
            Problem::ZeroRelease => "GitHub created a release with a zero id",
            Problem::NotTheDraft => "GitHub did not create the requested draft release",
            Problem::InconsistentAsset => "GitHub returned inconsistent release-asset metadata",
            Problem::StagedDigestDiffers => "GitHub release-asset digest differs from the staged package",
            Problem::InconsistentRelease => "GitHub returned inconsistent published-release metadata",
            Problem::DraftRemoved => "draft release was removed",
            Problem::LengthDiffers => "GitHub asset Content-Length differs from release metadata",
            Problem::AssetTooLong => "GitHub release asset exceeds its declared size or host limit",
            Problem::Truncated => "GitHub release asset is truncated",
            Problem::DigestDiffers => "GitHub release asset digest does not match its API metadata",
            Problem::NoBundle => "GitHub attestation has neither an inline bundle nor a bundle URL",
            Problem::BundleUrlUnreadable => "parse GitHub attestation bundle URL",
            Problem::BundleUrlOutside => "GitHub attestation bundle URL is outside the approved HTTPS host",
            Problem::CompressedOverLimit => "compressed attestation bundle exceeds its size limit",
            Problem::CompressedSize => "read raw-Snappy attestation size",
            Problem::BundleOverLimit => "decompressed attestation bundle exceeds its size limit",
            Problem::Compressed => "decompress raw-Snappy attestation bundle",
            Problem::InlineBundle => "parse inline attestation bundle",
            Problem::Bundle => "parse GitHub attestation bundle",
            Problem::Identity => "construct attestation repository identity",
            Problem::TrustRoot => "load embedded Sigstore public-good trust root",
            Problem::NoLogEntry => "build-provenance bundle has no transparency-log entry",
            Problem::UnknownLog => "attestation uses an unknown transparency-log key",
            Problem::NoInclusionProof => "attestation has no Rekor inclusion proof",
            Problem::NoOrigin => "attestation checkpoint has no signed origin",
            Problem::ForeignOrigin => "attestation checkpoint is not from the public Rekor deployment",
            Problem::DigestPrefix => "release digest lost its sha256 prefix",
            Problem::DigestEncoding => "decode release digest",
            Problem::Provenance => "verify GitHub build provenance",
            Problem::OtherRepository => "attestation repository id differs from resolved repository",
            Problem::NoProvenance => "GitHub advertised build provenance, but native cryptographic verification failed",
            Problem::DraftKept(id) => {
                let number = text::decimal_text(id);
                return text::joined3("draft release ", number.as_str(), " could not be removed");
            },
            Problem::Request => "",
        };
        text::copied(fixed)
    }
}

/// A problem, and what another part of the system said of it.
#[derive(Debug, PartialEq, Eq)]
pub struct Failure {
    pub problem: Problem,
    pub cause: Option<String>,
}

/// [`Failure`], field by field.
#[verifier::ext_equal]
pub struct FailureView {
    pub problem: Problem,
    pub cause: Option<Seq<char>>,
}

impl View for Failure {
    type V = FailureView;

    open spec fn view(&self) -> FailureView {
        FailureView {
            problem: self.problem,
            cause: match self.cause {
                Some(cause) => Some(cause@),
                None => None,
            },
        }
    }
}

/// A problem that explains itself.
pub open spec fn failed(problem: Problem) -> FailureView {
    FailureView { problem, cause: None }
}

/// A problem that another part of the system explains.
pub open spec fn failed_by(problem: Problem, cause: Seq<char>) -> FailureView {
    FailureView { problem, cause: Some(cause) }
}

/// The whole message of a failure.
pub open spec fn said(failure: FailureView) -> Seq<char> {
    match failure.cause {
        None => wording(failure.problem),
        Some(cause) => if failure.problem == Problem::Request {
            cause
        } else {
            wording(failure.problem) + ": "@ + cause
        },
    }
}

/// A result, by the views of what it holds.
pub open spec fn outcome<T: View>(result: Result<T, Failure>) -> Result<T::V, FailureView> {
    match result {
        Ok(value) => Ok(value@),
        Err(failure) => Err(failure@),
    }
}

impl Failure {
    pub fn of(problem: Problem) -> (failure: Self)
        ensures
            failure@ == failed(problem),
    {
        Failure { problem, cause: None }
    }

    pub fn because(problem: Problem, cause: String) -> (failure: Self)
        ensures
            failure@ == failed_by(problem, cause@),
    {
        Failure { problem, cause: Some(cause) }
    }

    /// The message, with what caused it.
    pub fn message(&self) -> (text: String)
        ensures
            text@ == said(self@),
    {
        let wording = self.problem.wording();
        match &self.cause {
            None => wording,
            Some(cause) => {
                if self.problem == Problem::Request {
                    text::copied(cause.as_str())
                } else {
                    text::joined3(wording.as_str(), ": ", cause.as_str())
                }
            },
        }
    }
}

} // verus!
