//! Which release may be installed, and where its parts are.
use vstd::prelude::*;

use super::problem;
use super::problem::{Failure, FailureView, Problem};
use super::version;
use super::version::{Version, VersionView};
use crate::source::GithubSource;
use crate::text;

verus! {

/// The one asset of a release that holds the package.
pub const RELEASE_ASSET_NAME: &'static str = "touchbar-plugin.touchbar";

/// Where GitHub answers questions.
pub const API_ROOT: &'static str = "https://api.github.com";

pub const MAX_RELEASE_METADATA_BYTES: u64 = 2097152;

pub const MAX_RELEASE_ASSET_BYTES: u64 = 276824064;

/// A file that belongs to a release, as GitHub describes it.
#[derive(Debug)]
pub struct ApiAsset {
    pub id: u64,
    pub name: String,
    pub state: String,
    pub size: u64,
    pub digest: Option<String>,
}

/// A release, as GitHub describes it.
#[derive(Debug)]
pub struct ApiRelease {
    pub id: u64,
    pub tag_name: String,
    pub draft: bool,
    pub prerelease: bool,
    pub immutable: bool,
    pub assets: Vec<ApiAsset>,
}

/// A repository, as GitHub describes it.
#[derive(Debug)]
pub struct ApiRepository {
    pub id: u64,
    pub owner_id: u64,
    pub private: bool,
    pub archived: bool,
    pub disabled: bool,
}

/// A release that may be installed.
#[derive(Clone, Debug)]
pub struct ResolvedRelease {
    pub source: GithubSource,
    pub version: Version,
    pub release_id: u64,
    pub tag: String,
    pub immutable: bool,
    pub asset_id: u64,
    pub asset_name: String,
    pub asset_size: u64,
    pub asset_digest: String,
    pub repository_id: u64,
    pub owner_id: u64,
}

/// Where an installed package came from.
#[derive(Debug, PartialEq, Eq)]
pub enum InstalledOrigin {
    LocalDevelopment,
    GithubRelease {
        release_id: u64,
        tag: String,
        asset_id: u64,
        asset_name: String,
        asset_digest: String,
        immutable: bool,
        attested: bool,
    },
}

impl ResolvedRelease {
    /// What is written down about the release once it is installed.
    pub fn installed_origin(&self, attested: bool) -> (origin: InstalledOrigin)
        ensures
            origin == (InstalledOrigin::GithubRelease {
                release_id: self.release_id,
                tag: self.tag,
                asset_id: self.asset_id,
                asset_name: self.asset_name,
                asset_digest: self.asset_digest,
                immutable: self.immutable,
                attested,
            }),
    {
        InstalledOrigin::GithubRelease {
            release_id: self.release_id,
            tag: self.tag.clone(),
            asset_id: self.asset_id,
            asset_name: self.asset_name.clone(),
            asset_digest: self.asset_digest.clone(),
            immutable: self.immutable,
            attested,
        }
    }
}

// ---------------------------------------------------------------------------
// Digests

/// A digit or one of the letters from `a` to `f`.
pub open spec fn lower_hex(c: char) -> bool {
    '0' <= c <= '9' || 'a' <= c <= 'f'
}

/// `sha256:` and 64 lowercase hexadecimal digits.
pub open spec fn is_digest(text: Seq<char>) -> bool {
    match text::following(text, "sha256:"@) {
        None => false,
        Some(hex) => hex.len() == 64
            && forall|i: int| 0 <= i < hex.len() ==> #[trigger] lower_hex(hex[i]),
    }
}

/// Whether a text is the digest of an asset.
pub fn digest_is_valid(value: &str) -> (valid: bool)
    ensures
        valid == is_digest(value@),
{
    match text::strip_prefix(value, "sha256:") {
        None => false,
        Some(hex) => {
            let chars: Vec<char> = text::characters(hex.as_str());
            if chars.len() != 64 {
                return false;
            }
            let mut i: usize = 0;
            while i < chars.len()
                invariant
                    i <= chars@.len(),
                    chars@ == hex@,
                    text::following(value@, "sha256:"@) == Some(hex@),
                    forall|k: int| 0 <= k < i ==> #[trigger] lower_hex(hex@[k]),
                decreases chars@.len() - i,
            {
                let c: char = chars[i];
                if !(('0' <= c && c <= '9') || ('a' <= c && c <= 'f')) {
                    proof {
                        assert(!lower_hex(hex@[i as int]));
                    }
                    return false;
                }
                i = i + 1;
            }
            true
        },
    }
}

pub fn validate_sha256(value: &str) -> (result: Result<(), Failure>)
    ensures
        problem::outcome(result) == (if is_digest(value@) {
            Ok(())
        } else {
            Err(problem::failed(Problem::MalformedDigest))
        }),
{
    if digest_is_valid(value) {
        Ok(())
    } else {
        Err(Failure::of(Problem::MalformedDigest))
    }
}

// ---------------------------------------------------------------------------
// Tags

/// What a parsed tag says of the release that is wanted.
pub open spec fn tag_checked(
    tag: Seq<char>,
    parsed: Result<VersionView, Seq<char>>,
    requested: Option<VersionView>,
) -> Result<VersionView, FailureView> {
    match text::following(tag, "v"@) {
        None => Err(problem::failed(Problem::TagForm)),
        Some(_) => match parsed {
            Err(cause) => Err(problem::failed_by(Problem::TagNotSemantic, cause)),
            Ok(version) => if tag != "v"@ + version.written() {
                Err(problem::failed(Problem::TagNotCanonical))
            } else if !version.plain() {
                Err(problem::failed(Problem::VersionNotPlain))
            } else if requested is Some && requested->0 != version {
                Err(problem::failed(Problem::OtherVersion))
            } else {
                Ok(version)
            },
        },
    }
}

/// An optional version, by its view.
pub open spec fn requested_view(requested: Option<&Version>) -> Option<VersionView> {
    match requested {
        Some(version) => Some(version@),
        None => None,
    }
}

/// The version behind the letter of a tag, as far as there is one.
pub open spec fn tagged_version(tag: Seq<char>) -> Result<VersionView, Seq<char>> {
    match text::following(tag, "v"@) {
        Some(rest) => version::version_of(rest),
        None => Err(Seq::empty()),
    }
}

/// The tag of the plain version with the given numbers.
pub open spec fn plain_tag(major: u64, minor: u64, patch: u64) -> Seq<char> {
    "v"@ + version::numbered(major, minor, patch).written()
}

fn check_tag(
    tag: &str,
    parsed: Result<Version, String>,
    requested: Option<&Version>,
) -> (result: Result<Version, Failure>)
    ensures
        problem::outcome(result) == tag_checked(
            tag@,
            version::parsed_view(parsed),
            requested_view(requested),
        ),
{
    if !text::starts_with(tag, "v") {
        return Err(Failure::of(Problem::TagForm));
    }
    let version = match parsed {
        Ok(version) => version,
        Err(cause) => {
            return Err(Failure::because(Problem::TagNotSemantic, cause));
        },
    };
    let number = version.text();
    let canonical = text::joined("v", number.as_str());
    if !text::same(tag, canonical.as_str()) {
        return Err(Failure::of(Problem::TagNotCanonical));
    }
    if !version.is_plain() {
        return Err(Failure::of(Problem::VersionNotPlain));
    }
    if let Some(requested) = requested {
        if !requested.is_same(&version) {
            return Err(Failure::of(Problem::OtherVersion));
        }
    }
    Ok(version)
}

/// Reads the version behind the letter of a tag.
fn parse_tag(tag: &str) -> (parsed: Result<Version, String>)
    ensures
        version::parsed_view(parsed) == tagged_version(tag@),
        parsed is Ok ==> tag@ == "v"@ + parsed->Ok_0@.written(),
        forall|major: u64, minor: u64, patch: u64|
            tag@ == #[trigger] plain_tag(major, minor, patch) ==> parsed is Ok && parsed->Ok_0@
                == version::numbered(major, minor, patch),
{
    proof {
        reveal_strlit("v");
    }
    match text::strip_prefix(tag, "v") {
        Some(rest) => {
            proof {
                assert(tag@ =~= "v"@ + rest@);
                assert forall|major: u64, minor: u64, patch: u64|
                    tag@ == #[trigger] plain_tag(major, minor, patch) implies rest@
                    == version::numbered(major, minor, patch).written() by {
                    assert(plain_tag(major, minor, patch).subrange(1, tag@.len() as int)
                        =~= version::numbered(major, minor, patch).written());
                }
            }
            version::parse_version(rest.as_str())
        },
        None => {
            proof {
                assert forall|major: u64, minor: u64, patch: u64| tag@ != #[trigger] plain_tag(
                    major,
                    minor,
                    patch,
                ) by {
                    assert(plain_tag(major, minor, patch).subrange(0, 1) =~= "v"@);
                }
            }
            Err(String::new())
        },
    }
}

/// The tag that a release is published under: exactly `v`, three numbers, and
/// nothing behind them.
pub fn validate_publish_tag(tag: &str) -> (result: Result<Version, Failure>)
    ensures
        problem::outcome(result) == publish_tag_checked(tag@, tagged_version(tag@)),
        result is Ok ==> result->Ok_0@.plain() && tag@ == "v"@ + result->Ok_0@.written(),
        forall|major: u64, minor: u64, patch: u64|
            tag@ == #[trigger] plain_tag(major, minor, patch) ==> result is Ok && result->Ok_0@
                == version::numbered(major, minor, patch),
{
    let parsed = parse_tag(tag);
    proof {
        reveal_strlit("v");
        assert forall|major: u64, minor: u64, patch: u64| #[trigger]
            plain_tag(major, minor, patch).len() >= 1 && plain_tag(major, minor, patch).subrange(
                0,
                1,
            ) == "v"@ by {
            assert(plain_tag(major, minor, patch).subrange(0, 1) =~= "v"@);
        }
    }
    check_publish_tag(tag, parsed)
}

/// What a parsed tag says of a release that is to be published.
pub open spec fn publish_tag_checked(
    tag: Seq<char>,
    parsed: Result<VersionView, Seq<char>>,
) -> Result<VersionView, FailureView> {
    match text::following(tag, "v"@) {
        None => Err(problem::failed(Problem::TagForm)),
        Some(_) => match parsed {
            Err(cause) => Err(problem::failed_by(Problem::TagNotSemantic, cause)),
            Ok(version) => if tag != "v"@ + version.written() || !version.plain() {
                Err(problem::failed(Problem::TagForm))
            } else {
                Ok(version)
            },
        },
    }
}

/// [`validate_publish_tag`], once the version behind the letter has been read.
pub fn check_publish_tag(tag: &str, parsed: Result<Version, String>) -> (result: Result<
    Version,
    Failure,
>)
    ensures
        problem::outcome(result) == publish_tag_checked(tag@, version::parsed_view(parsed)),
{
    if !text::starts_with(tag, "v") {
        return Err(Failure::of(Problem::TagForm));
    }
    let version = match parsed {
        Ok(version) => version,
        Err(cause) => {
            return Err(Failure::because(Problem::TagNotSemantic, cause));
        },
    };
    let number = version.text();
    let canonical = text::joined("v", number.as_str());
    if !text::same(tag, canonical.as_str()) || !version.is_plain() {
        return Err(Failure::of(Problem::TagForm));
    }
    Ok(version)
}

// ---------------------------------------------------------------------------
// Releases

/// Where the first package asset from `from` on stands, or the number of
/// assets where there is none.
pub open spec fn first_package(assets: Seq<ApiAsset>, from: int) -> int
    decreases assets.len() - from,
{
    if from >= assets.len() {
        assets.len() as int
    } else if assets[from].name@ == RELEASE_ASSET_NAME@ {
        from
    } else {
        first_package(assets, from + 1)
    }
}

/// What is wrong with the package asset of a release, if anything is.
pub open spec fn asset_checked(asset: ApiAsset) -> Result<(), FailureView> {
    if asset.id == 0 || asset.state@ != "uploaded"@ || asset.size == 0 {
        Err(problem::failed(Problem::IncompleteAsset))
    } else if asset.size > MAX_RELEASE_ASSET_BYTES {
        Err(problem::failed(Problem::AssetOverLimit))
    } else {
        match asset.digest {
            None => Err(problem::failed(Problem::NoDigest)),
            Some(digest) => if is_digest(digest@) {
                Ok(())
            } else {
                Err(problem::failed(Problem::MalformedDigest))
            },
        }
    }
}

/// Which version and which asset a release offers for installation.
pub open spec fn offered(
    release: ApiRelease,
    parsed: Result<VersionView, Seq<char>>,
    requested: Option<VersionView>,
) -> Result<(VersionView, int), FailureView> {
    if release.id == 0 || release.draft || release.prerelease {
        Err(problem::failed(Problem::UnpublishedRelease))
    } else {
        match tag_checked(release.tag_name@, parsed, requested) {
            Err(failure) => Err(failure),
            Ok(version) => {
                let at = first_package(release.assets@, 0);
                if at >= release.assets@.len() {
                    Err(problem::failed(Problem::NoPackageAsset))
                } else if first_package(release.assets@, at + 1) < release.assets@.len() {
                    Err(problem::failed(Problem::DuplicateAssets))
                } else {
                    match asset_checked(release.assets@[at]) {
                        Err(failure) => Err(failure),
                        Ok(_) => Ok((version, at)),
                    }
                }
            },
        }
    }
}

/// The release as it is offered, with the numbers of its repository still open.
pub open spec fn taken_from(
    resolved: ResolvedRelease,
    source: GithubSource,
    release: ApiRelease,
    version: VersionView,
    at: int,
) -> bool {
    let asset = release.assets@[at];
    &&& resolved.source == source
    &&& resolved.version@ == version
    &&& resolved.release_id == release.id
    &&& resolved.tag@ == release.tag_name@
    &&& resolved.immutable == release.immutable
    &&& resolved.asset_id == asset.id
    &&& resolved.asset_name@ == RELEASE_ASSET_NAME@
    &&& resolved.asset_size == asset.size
    &&& asset.digest is Some
    &&& resolved.asset_digest@ == asset.digest->0@
}

/// What a release resolves to.
pub open spec fn resolves(
    result: Result<ResolvedRelease, Failure>,
    source: GithubSource,
    release: ApiRelease,
    parsed: Result<VersionView, Seq<char>>,
    requested: Option<VersionView>,
    repository_id: u64,
    owner_id: u64,
) -> bool {
    match (result, offered(release, parsed, requested)) {
        (Ok(resolved), Ok((version, at))) => {
            &&& taken_from(resolved, source, release, version, at)
            &&& resolved.repository_id == repository_id
            &&& resolved.owner_id == owner_id
        },
        (Err(failure), Err(why)) => failure@ == why,
        _ => false,
    }
}

fn find_package(assets: &Vec<ApiAsset>, from: usize) -> (at: usize)
    requires
        from <= assets@.len(),
    ensures
        at == first_package(assets@, from as int),
        from <= at <= assets@.len(),
        at < assets@.len() ==> assets@[at as int].name@ == RELEASE_ASSET_NAME@,
{
    let mut at: usize = from;
    while at < assets.len()
        invariant
            from <= at <= assets@.len(),
            first_package(assets@, from as int) == first_package(assets@, at as int),
        decreases assets@.len() - at,
    {
        if text::same(assets[at].name.as_str(), RELEASE_ASSET_NAME) {
            return at;
        }
        at = at + 1;
    }
    at
}

fn check_asset(asset: &ApiAsset) -> (result: Result<(), Failure>)
    ensures
        problem::outcome(result) == asset_checked(*asset),
{
    if asset.id == 0 || !text::same(asset.state.as_str(), "uploaded") || asset.size == 0 {
        return Err(Failure::of(Problem::IncompleteAsset));
    }
    if asset.size > MAX_RELEASE_ASSET_BYTES {
        return Err(Failure::of(Problem::AssetOverLimit));
    }
    match &asset.digest {
        None => Err(Failure::of(Problem::NoDigest)),
        Some(digest) => validate_sha256(digest.as_str()),
    }
}

/// [`resolve_metadata`], once the version behind the letter of the tag has been
/// read.
pub fn resolve_parsed(
    source: &GithubSource,
    requested: Option<&Version>,
    release: &ApiRelease,
    parsed: Result<Version, String>,
) -> (result: Result<ResolvedRelease, Failure>)
    ensures
        resolves(
            result,
            *source,
            *release,
            version::parsed_view(parsed),
            requested_view(requested),
            1,
            1,
        ),
{
    if release.id == 0 || release.draft || release.prerelease {
        return Err(Failure::of(Problem::UnpublishedRelease));
    }
    let version = check_tag(release.tag_name.as_str(), parsed, requested)?;
    let at: usize = find_package(&release.assets, 0);
    if at >= release.assets.len() {
        return Err(Failure::of(Problem::NoPackageAsset));
    }
    if find_package(&release.assets, at + 1) < release.assets.len() {
        return Err(Failure::of(Problem::DuplicateAssets));
    }
    let asset = &release.assets[at];
    check_asset(asset)?;
    let asset_digest = match &asset.digest {
        Some(digest) => digest.clone(),
        None => String::new(),
    };
    Ok(
        ResolvedRelease {
            source: source.clone(),
            version,
            release_id: release.id,
            tag: release.tag_name.clone(),
            immutable: release.immutable,
            asset_id: asset.id,
            asset_name: asset.name.clone(),
            asset_size: asset.size,
            asset_digest,
            repository_id: 1,
            owner_id: 1,
        },
    )
}

/// The package that a release offers, where it may be installed.
///
/// The numbers of the repository are not known yet; see [`with_repository`].
pub fn resolve_metadata(
    source: &GithubSource,
    requested: Option<&Version>,
    release: &ApiRelease,
) -> (result: Result<ResolvedRelease, Failure>)
    ensures
        resolves(
            result,
            *source,
            *release,
            tagged_version(release.tag_name@),
            requested_view(requested),
            1,
            1,
        ),
        result is Ok ==> result->Ok_0.version@.plain() && release.tag_name@ == "v"@
            + result->Ok_0.version@.written(),
        forall|major: u64, minor: u64, patch: u64|
            release.tag_name@ == #[trigger] plain_tag(major, minor, patch) ==> resolves(
                result,
                *source,
                *release,
                Ok(version::numbered(major, minor, patch)),
                requested_view(requested),
                1,
                1,
            ),
{
    let parsed = parse_tag(release.tag_name.as_str());
    resolve_parsed(source, requested, release, parsed)
}

/// What a repository must be for its releases to be installed.
pub open spec fn repository_checked(repository: ApiRepository) -> Result<(), FailureView> {
    if repository.id == 0 || repository.owner_id == 0 {
        Err(problem::failed(Problem::ZeroRepositoryId))
    } else if repository.private || repository.archived || repository.disabled {
        Err(problem::failed(Problem::InactiveRepository))
    } else {
        Ok(())
    }
}

pub fn check_repository(repository: &ApiRepository) -> (result: Result<(), Failure>)
    ensures
        problem::outcome(result) == repository_checked(*repository),
{
    if repository.id == 0 || repository.owner_id == 0 {
        return Err(Failure::of(Problem::ZeroRepositoryId));
    }
    if repository.private || repository.archived || repository.disabled {
        return Err(Failure::of(Problem::InactiveRepository));
    }
    Ok(())
}

/// The package that a release of a repository offers, where it may be installed.
pub fn resolve_release(
    source: &GithubSource,
    requested: Option<&Version>,
    repository: &ApiRepository,
    release: &ApiRelease,
) -> (result: Result<ResolvedRelease, Failure>)
    ensures
        match repository_checked(*repository) {
            Err(why) => result is Err && result->Err_0@ == why,
            Ok(_) => resolves(
                result,
                *source,
                *release,
                tagged_version(release.tag_name@),
                requested_view(requested),
                repository.id,
                repository.owner_id,
            ),
        },
        forall|major: u64, minor: u64, patch: u64|
            repository_checked(*repository) is Ok && release.tag_name@ == #[trigger] plain_tag(
                major,
                minor,
                patch,
            ) ==> resolves(
                result,
                *source,
                *release,
                Ok(version::numbered(major, minor, patch)),
                requested_view(requested),
                repository.id,
                repository.owner_id,
            ),
{
    check_repository(repository)?;
    let resolved = resolve_metadata(source, requested, release)?;
    Ok(with_repository(resolved, repository))
}

/// A resolved release, with the numbers of its repository.
pub fn with_repository(resolved: ResolvedRelease, repository: &ApiRepository) -> (full:
    ResolvedRelease)
    ensures
        full == (ResolvedRelease {
            repository_id: repository.id,
            owner_id: repository.owner_id,
            ..resolved
        }),
{
    let mut full = resolved;
    full.repository_id = repository.id;
    full.owner_id = repository.owner_id;
    full
}

// ---------------------------------------------------------------------------
// Endpoints

/// Where GitHub describes a repository.
pub open spec fn repository_path(source: GithubSource) -> Seq<char> {
    API_ROOT@ + "/repos/"@ + source.owned_by() + "/"@ + source.called()
}

pub fn repository_endpoint(source: &GithubSource) -> (endpoint: String)
    ensures
        endpoint@ == repository_path(*source),
{
    let owner = text::joined3(API_ROOT, "/repos/", source.owner());
    text::joined3(owner.as_str(), "/", source.repository())
}

/// Where GitHub describes the wanted release, or else the latest one.
pub open spec fn release_path(source: GithubSource, requested: Option<VersionView>) -> Seq<char> {
    repository_path(source) + (match requested {
        Some(version) => "/releases/tags/v"@ + version.written(),
        None => "/releases/latest"@,
    })
}

pub fn release_endpoint(source: &GithubSource, requested: Option<&Version>) -> (endpoint: String)
    ensures
        endpoint@ == release_path(*source, requested_view(requested)),
{
    let repository = repository_endpoint(source);
    match requested {
        Some(version) => {
            let number = version.text();
            let endpoint = text::joined3(repository.as_str(), "/releases/tags/v", number.as_str());
            proof {
                assert(endpoint@ =~= release_path(*source, requested_view(requested)));
            }
            endpoint
        },
        None => text::joined(repository.as_str(), "/releases/latest"),
    }
}

/// Where GitHub keeps the bytes of an asset.
pub fn asset_endpoint(release: &ResolvedRelease) -> (endpoint: String)
    ensures
        endpoint@ == repository_path(release.source) + "/releases/assets/"@ + text::decimal(
            release.asset_id as int,
        ),
{
    let repository = repository_endpoint(&release.source);
    let number = text::decimal_text(release.asset_id);
    text::joined3(repository.as_str(), "/releases/assets/", number.as_str())
}

/// Where GitHub keeps the attestations of an asset.
pub fn attestation_endpoint(release: &ResolvedRelease) -> (endpoint: String)
    ensures
        endpoint@ == repository_path(release.source) + "/attestations/"@ + release.asset_digest@
            + "?predicate_type=https%3A%2F%2Fslsa.dev%2Fprovenance%2Fv1&per_page=100"@,
{
    let repository = repository_endpoint(&release.source);
    text::joined4(
        repository.as_str(),
        "/attestations/",
        release.asset_digest.as_str(),
        "?predicate_type=https%3A%2F%2Fslsa.dev%2Fprovenance%2Fv1&per_page=100",
    )
}

/// Whether an answer of GitHub is short enough to be read.
pub fn check_metadata_length(length: u64) -> (result: Result<(), Failure>)
    ensures
        problem::outcome(result) == (if length > MAX_RELEASE_METADATA_BYTES {
            Err(problem::failed(Problem::MetadataOverLimit))
        } else {
            Ok(())
        }),
{
    if length > MAX_RELEASE_METADATA_BYTES {
        Err(Failure::of(Problem::MetadataOverLimit))
    } else {
        Ok(())
    }
}

// ---------------------------------------------------------------------------
// What is offered

/// A digest is `sha256:` and 64 characters behind it, each a digit or one of the letters
/// from `a` to `f`.
pub proof fn digests_have_64_lowercase_digits(text: Seq<char>)
    ensures
        is_digest(text) <==> {
            &&& text.len() == 7 + 64
            &&& text[0] == 's' && text[1] == 'h' && text[2] == 'a' && text[3] == '2' && text[4]
                == '5' && text[5] == '6' && text[6] == ':'
            &&& forall|i: int|
                7 <= i < text.len() ==> ('0' <= #[trigger] text[i] <= '9' || 'a' <= text[i] <= 'f')
        },
{
    reveal_strlit("sha256:");
    let mark = "sha256:"@;
    if text.len() >= 7 {
        let start = text.subrange(0, 7);
        let hex = text.subrange(7, text.len() as int);
        assert(start[0] == text[0] && start[1] == text[1] && start[2] == text[2] && start[3]
            == text[3] && start[4] == text[4] && start[5] == text[5] && start[6] == text[6]);
        if text[0] == 's' && text[1] == 'h' && text[2] == 'a' && text[3] == '2' && text[4] == '5'
            && text[5] == '6' && text[6] == ':' {
            assert(start =~= mark);
        }
        if is_digest(text) {
            assert forall|i: int| 7 <= i < text.len() implies ('0' <= #[trigger] text[i] <= '9'
                || 'a' <= text[i] <= 'f') by {
                assert(lower_hex(hex[i - 7]));
            }
        }
        if forall|i: int|
            7 <= i < text.len() ==> ('0' <= #[trigger] text[i] <= '9' || 'a' <= text[i] <= 'f') {
            assert forall|i: int| 0 <= i < hex.len() implies #[trigger] lower_hex(hex[i]) by {
                assert(hex[i] == text[7 + i]);
            }
        }
    }
}

/// The asset is uploaded, not empty and not too large, and has a digest.
pub open spec fn complete_asset(asset: ApiAsset) -> bool {
    &&& asset.id != 0
    &&& asset.state@ == "uploaded"@
    &&& 0 < asset.size <= MAX_RELEASE_ASSET_BYTES
    &&& asset.digest matches Some(digest) && is_digest(digest@)
}

/// A release is offered for installation exactly where it is published and no pre-release,
/// its tag is the letter `v` and the plain version that it is parsed as, that version is the
/// one that is asked for if one is, and exactly one of its assets is called like a package,
/// and that one is complete. What is offered then is that version and that asset.
pub proof fn only_complete_releases_are_offered(
    release: ApiRelease,
    parsed: Result<VersionView, Seq<char>>,
    requested: Option<VersionView>,
)
    ensures
        offered(release, parsed, requested) is Ok <==> {
            &&& release.id != 0
            &&& !release.draft
            &&& !release.prerelease
            &&& parsed matches Ok(version)
            &&& release.tag_name@ == "v"@ + version.written()
            &&& version.pre.len() == 0
            &&& version.build.len() == 0
            &&& requested is None || requested == Some(version)
            &&& exists|at: int|
                {
                    &&& 0 <= at < release.assets@.len()
                    &&& (#[trigger] release.assets@[at]).name@ == RELEASE_ASSET_NAME@
                    &&& complete_asset(release.assets@[at])
                    &&& forall|i: int|
                        0 <= i < release.assets@.len() && (#[trigger] release.assets@[i]).name@
                            == RELEASE_ASSET_NAME@ ==> i == at
                }
        },
        offered(release, parsed, requested) matches Ok((version, at)) ==> {
            &&& parsed == Ok::<VersionView, Seq<char>>(version)
            &&& 0 <= at < release.assets@.len()
            &&& release.assets@[at].name@ == RELEASE_ASSET_NAME@
        },
{
    let assets = release.assets@;
    let n = assets.len() as int;
    lemma_first_package(assets, 0);
    let at = first_package(assets, 0);
    if at < n {
        lemma_first_package(assets, at + 1);
    }
    if parsed is Ok {
        let version = parsed->Ok_0;
        if release.tag_name@ == "v"@ + version.written() {
            reveal_strlit("v");
            assert(release.tag_name@.subrange(0, 1) =~= "v"@);
        }
    }
    if offered(release, parsed, requested) is Ok {
        assert(complete_asset(assets[at]));
    }
}

proof fn lemma_first_package(assets: Seq<ApiAsset>, from: int)
    requires
        0 <= from <= assets.len(),
    ensures
        from <= first_package(assets, from) <= assets.len(),
        first_package(assets, from) < assets.len() ==> assets[first_package(
            assets,
            from,
        )].name@ == RELEASE_ASSET_NAME@,
        forall|i: int|
            from <= i < first_package(assets, from) ==> (#[trigger] assets[i]).name@
                != RELEASE_ASSET_NAME@,
    decreases assets.len() - from,
{
    if from < assets.len() && assets[from].name@ != RELEASE_ASSET_NAME@ {
        lemma_first_package(assets, from + 1);
    }
}

} // verus!
