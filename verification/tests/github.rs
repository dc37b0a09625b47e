use sha2::Digest;
use touchbar::github::attestation::{
    bundle_location, check_bundle_url, check_compressed_length, check_unpacked_length, claim,
    conclude, is_public_origin, unpack_bundle, verify_build_provenance, ProvenanceBundle,
    MAX_ATTESTATION_BYTES, MAX_ATTESTATION_COMPRESSED_BYTES,
};
use touchbar::github::digest::{check_package_length, digest_text, AssetReceiver};
use touchbar::github::hosts::{
    allowed_attestation_host, allowed_download_host, bearer, github_token_header, redirect_asset,
    redirect_attestation, Redirect, MAX_ASSET_REDIRECTS, MAX_ATTESTATION_REDIRECTS,
};
use touchbar::github::location::{
    api_endpoint, check_upload_url, normalized_origin, validated_upload_url, Origin, Origins,
    UPLOAD_ROOT,
};
use touchbar::github::publish::{
    Action, ApiPublishRelease, ApiPublishedAsset, Publication, Reply,
};
use touchbar::github::release::{
    asset_endpoint, attestation_endpoint, check_metadata_length, check_publish_tag,
    check_repository, digest_is_valid, release_endpoint, repository_endpoint, resolve_metadata,
    resolve_parsed, resolve_release, validate_publish_tag, validate_sha256, ApiAsset, ApiRelease, ApiRepository,
    InstalledOrigin, ResolvedRelease, API_ROOT, MAX_RELEASE_ASSET_BYTES,
    MAX_RELEASE_METADATA_BYTES, RELEASE_ASSET_NAME,
};
use touchbar::github::report::{
    github_error_details, refused, safe_error_value, Refusal, MAX_ERROR_BODY_BYTES,
};
use touchbar::github::review::{ApiAttestation, AttestationReview, ReviewStep};
use touchbar::github::{Failure, Problem, Version};
use touchbar::source::GithubSource;

fn source() -> GithubSource {
    GithubSource::named("alice", "demo")
}

fn sha256_text(bytes: &[u8]) -> String {
    let digest = sha2::Sha256::digest(bytes);
    let digits: String = digest.iter().map(|byte| format!("{byte:02x}")).collect();
    format!("sha256:{digits}")
}

/// The message of a refusal, as it stands in its body.
fn message(body: &[u8]) -> Option<String> {
    let value: serde_json::Value = serde_json::from_slice(body).ok()?;
    value.get("message")?.as_str().map(str::to_owned)
}

fn silent(status: u16) -> Refusal<'static> {
    Refusal {
        status,
        body_length: 0,
        message: None,
        request_id: None,
        rate_remaining: None,
        rate_reset: None,
        retry_after: None,
    }
}

#[test]
fn installer_token_is_optional_but_never_accepted_empty() {
    assert!(github_token_header(None).unwrap().is_none());
    assert!(github_token_header(Some("")).is_err());
    let header = github_token_header(Some("token-value")).unwrap().unwrap();
    assert_eq!(header.text, "Bearer token-value");
    assert!(header.sensitive);
}

#[test]
fn rate_limit_error_is_bounded_and_actionable() {
    let body = br#"{"message":"API rate limit exceeded"}"#;
    let text = message(body);
    let details = github_error_details(&Refusal {
        status: 403,
        body_length: body.len() as u64,
        message: text.as_deref(),
        request_id: Some("ABC:123"),
        rate_remaining: Some("0"),
        rate_reset: Some("1770000123"),
        retry_after: None,
    });
    assert!(details.contains("API rate limit exceeded"));
    assert!(details.contains("request ABC:123"));
    assert!(details.contains("reset at Unix time 1770000123"));
    assert!(details.contains("set GITHUB_TOKEN"));

    let oversized = vec![b'x'; MAX_ERROR_BODY_BYTES as usize + 1];
    let text = message(&oversized);
    let details = github_error_details(&Refusal {
        body_length: oversized.len() as u64,
        message: text.as_deref(),
        ..silent(429)
    });
    assert!(!details.contains(&"x".repeat(32)));
    assert!(details.contains("GitHub API rate limit exhausted"));
}

#[test]
fn unsafe_github_error_metadata_is_not_reflected() {
    let body = br#"{"message":"unsafe\nterminal text"}"#;
    let text = message(body);
    assert_eq!(text.as_deref(), Some("unsafe\nterminal text"));
    let details = github_error_details(&Refusal {
        body_length: body.len() as u64,
        message: text.as_deref(),
        ..silent(400)
    });
    assert!(details.is_empty());
    assert!(safe_error_value("").is_none());
    assert!(safe_error_value("unsafe\rvalue").is_none());
}

#[test]
fn refusals_are_worded_in_full() {
    let refusal = Refusal {
        body_length: 10,
        message: Some("  Not Found "),
        request_id: Some("ABC"),
        retry_after: Some("60"),
        ..silent(429)
    };
    assert_eq!(
        refused("GitHub release", "429 Too Many Requests", &refusal),
        "GitHub release request failed with HTTP 429 Too Many Requests: Not Found; request ABC; \
         GitHub API rate limit exhausted; retry after 60; set GITHUB_TOKEN to use an \
         authenticated API limit"
    );
    // a message behind a body that is too long is not read
    let long = Refusal { body_length: MAX_ERROR_BODY_BYTES + 1, ..refusal };
    assert!(!github_error_details(&long).contains("Not Found"));
    assert_eq!(safe_error_value(&"a".repeat(300)).unwrap(), "a".repeat(256));
    assert_eq!(github_error_details(&Refusal { rate_remaining: Some("1"), ..silent(403) }), "");
}

fn release(immutable: bool) -> ApiRelease {
    ApiRelease {
        id: 7,
        tag_name: "v1.2.3".into(),
        draft: false,
        prerelease: false,
        immutable,
        assets: vec![ApiAsset {
            id: 9,
            name: RELEASE_ASSET_NAME.into(),
            state: "uploaded".into(),
            size: 128,
            digest: Some(format!("sha256:{}", "a".repeat(64))),
        }],
    }
}

#[test]
fn exact_release_asset_becomes_typed_installer_provenance() {
    let resolved =
        resolve_metadata(&source(), Some(&Version::new(1, 2, 3)), &release(true)).unwrap();
    assert!(resolved.version.is_same(&Version::new(1, 2, 3)));
    let origin = resolved.installed_origin(true);
    assert_eq!(
        origin,
        InstalledOrigin::GithubRelease {
            release_id: 7,
            tag: "v1.2.3".into(),
            asset_id: 9,
            asset_name: RELEASE_ASSET_NAME.into(),
            asset_digest: format!("sha256:{}", "a".repeat(64)),
            immutable: true,
            attested: true,
        }
    );

    let mutable = resolve_metadata(&source(), None, &release(false)).unwrap();
    assert!(matches!(
        mutable.installed_origin(false),
        InstalledOrigin::GithubRelease { immutable: false, attested: false, .. }
    ));
}

#[test]
fn malformed_or_ambiguous_release_metadata_fails_closed() {
    let mut wrong_tag = release(true);
    wrong_tag.tag_name = "1.2.3".into();
    assert!(resolve_metadata(&source(), None, &wrong_tag).is_err());

    let mut duplicate = release(true);
    duplicate.assets.push(ApiAsset {
        id: 10,
        name: RELEASE_ASSET_NAME.into(),
        state: "uploaded".into(),
        size: 128,
        digest: Some(format!("sha256:{}", "b".repeat(64))),
    });
    assert!(resolve_metadata(&source(), None, &duplicate).is_err());

    let mut bad_digest = release(true);
    bad_digest.assets[0].digest = Some(format!("sha256:{}", "A".repeat(64)));
    assert!(resolve_metadata(&source(), None, &bad_digest).is_err());
}

fn problem_of(release: &ApiRelease, requested: Option<&Version>) -> Problem {
    resolve_metadata(&source(), requested, release).unwrap_err().problem
}

#[test]
fn each_fault_of_a_release_is_named() {
    let mut draft = release(true);
    draft.draft = true;
    assert_eq!(problem_of(&draft, None), Problem::UnpublishedRelease);
    let mut early = release(true);
    early.prerelease = true;
    assert_eq!(problem_of(&early, None), Problem::UnpublishedRelease);
    for (tag, problem) in [
        ("1.2.3", Problem::TagForm),
        ("vnext", Problem::TagNotSemantic),
        ("v01.2.3", Problem::TagNotSemantic),
        ("v1.2.3-rc.1", Problem::VersionNotPlain),
    ] {
        let mut tagged = release(true);
        tagged.tag_name = tag.into();
        assert_eq!(problem_of(&tagged, None), problem, "{tag}");
    }
    assert_eq!(problem_of(&release(true), Some(&Version::new(1, 2, 4))), Problem::OtherVersion);
    let mut other = release(true);
    other.assets[0].name = "other".into();
    assert_eq!(problem_of(&other, None), Problem::NoPackageAsset);
    let mut new = release(true);
    new.assets[0].state = "new".into();
    assert_eq!(problem_of(&new, None), Problem::IncompleteAsset);
    let mut huge = release(true);
    huge.assets[0].size = MAX_RELEASE_ASSET_BYTES + 1;
    assert_eq!(problem_of(&huge, None), Problem::AssetOverLimit);
    huge.assets[0].size = MAX_RELEASE_ASSET_BYTES;
    assert!(resolve_metadata(&source(), None, &huge).is_ok());
    let mut bare = release(true);
    bare.assets[0].digest = None;
    assert_eq!(problem_of(&bare, None), Problem::NoDigest);
    bare.assets[0].digest = Some("sha256:".into());
    assert_eq!(problem_of(&bare, None), Problem::MalformedDigest);
}

#[test]
fn digests_are_lowercase_and_complete() {
    assert!(digest_is_valid(&format!("sha256:{}", "0123456789abcdef".repeat(4))));
    assert!(!digest_is_valid(&format!("sha256:{}", "a".repeat(63))));
    assert!(!digest_is_valid(&format!("sha256:{}", "a".repeat(65))));
    assert!(!digest_is_valid(&format!("sha256:{}g", "a".repeat(63))));
    assert!(!digest_is_valid(&"a".repeat(64)));
    assert!(validate_sha256(&format!("sha256:{}", "f".repeat(64))).is_ok());
    assert_eq!(validate_sha256("").unwrap_err().problem, Problem::MalformedDigest);
}

#[test]
fn publish_tags_are_canonical() {
    assert!(validate_publish_tag("v1.2.3").unwrap().is_same(&Version::new(1, 2, 3)));
    assert_eq!(validate_publish_tag("1.2.3").unwrap_err().problem, Problem::TagForm);
    assert!(validate_publish_tag("v1.2").is_err());
    assert!(validate_publish_tag("v1.2.3+build").is_err());
    assert!(validate_publish_tag("v1.2.3-pre").is_err());
    // a version that is written otherwise than its tag
    let parsed = Version::new(1, 2, 3);
    assert_eq!(
        check_publish_tag("v1.2.03", Ok(parsed)).unwrap_err().problem,
        Problem::TagForm
    );
    let mut tagged = release(true);
    tagged.tag_name = "v1.2.03".into();
    assert_eq!(
        resolve_parsed(&source(), None, &tagged, Ok(Version::new(1, 2, 3))).unwrap_err().problem,
        Problem::TagNotCanonical
    );
}

#[test]
fn repositories_must_be_public_and_active() {
    let repository =
        ApiRepository { id: 3, owner_id: 4, private: false, archived: false, disabled: false };
    assert!(check_repository(&repository).is_ok());
    let resolved = resolve_release(&source(), None, &repository, &release(true)).unwrap();
    assert_eq!((resolved.repository_id, resolved.owner_id), (3, 4));
    let nameless = ApiRepository { id: 0, ..repository };
    assert_eq!(check_repository(&nameless).unwrap_err().problem, Problem::ZeroRepositoryId);
    let ownerless =
        ApiRepository { id: 3, owner_id: 0, private: false, archived: false, disabled: false };
    assert_eq!(check_repository(&ownerless).unwrap_err().problem, Problem::ZeroRepositoryId);
    for (private, archived, disabled) in
        [(true, false, false), (false, true, false), (false, false, true)]
    {
        let closed = ApiRepository { id: 3, owner_id: 4, private, archived, disabled };
        assert_eq!(check_repository(&closed).unwrap_err().problem, Problem::InactiveRepository);
    }
    assert!(check_metadata_length(MAX_RELEASE_METADATA_BYTES).is_ok());
    assert!(check_metadata_length(MAX_RELEASE_METADATA_BYTES + 1).is_err());
}

#[test]
fn endpoints_name_the_repository() {
    assert_eq!(repository_endpoint(&source()), "https://api.github.com/repos/alice/demo");
    assert_eq!(
        release_endpoint(&source(), None),
        "https://api.github.com/repos/alice/demo/releases/latest"
    );
    assert_eq!(
        release_endpoint(&source(), Some(&Version::new(1, 2, 3))),
        "https://api.github.com/repos/alice/demo/releases/tags/v1.2.3"
    );
    let resolved = resolve_metadata(&source(), None, &release(true)).unwrap();
    assert_eq!(
        asset_endpoint(&resolved),
        "https://api.github.com/repos/alice/demo/releases/assets/9"
    );
    assert!(attestation_endpoint(&resolved)
        .starts_with("https://api.github.com/repos/alice/demo/attestations/sha256:aaaa"));
}

#[test]
fn redirect_allowlist_is_https_github_only() {
    assert!(allowed_download_host("objects.githubusercontent.com"));
    assert!(allowed_download_host("release-assets.githubusercontent.com"));
    assert!(!allowed_download_host("githubusercontent.com.attacker.test"));
    assert!(!allowed_download_host("example.com"));
    assert!(allowed_attestation_host("tmaproduction.blob.core.windows.net"));
    assert!(!allowed_attestation_host("tmaproduction.blob.core.windows.net.attacker.test"));
}

#[test]
fn redirects_are_few_and_stay_inside() {
    let host = Some("objects.githubusercontent.com");
    assert!(matches!(redirect_asset(0, "https", host), Redirect::Follow));
    assert!(matches!(redirect_asset(0, "http", host), Redirect::Outside));
    assert!(matches!(redirect_asset(0, "https", None), Redirect::Outside));
    assert!(matches!(redirect_asset(MAX_ASSET_REDIRECTS, "https", host), Redirect::TooMany));
    let blob = Some("tmaproduction.blob.core.windows.net");
    assert!(matches!(redirect_attestation(0, "https", blob), Redirect::Follow));
    assert!(matches!(redirect_attestation(0, "https", host), Redirect::Outside));
    assert!(matches!(redirect_asset(0, "https", blob), Redirect::Outside));
    assert!(matches!(
        redirect_attestation(MAX_ATTESTATION_REDIRECTS, "https", blob),
        Redirect::TooMany
    ));
}

#[test]
fn header_text_is_what_the_transport_accepts() {
    assert_eq!(bearer("a b").unwrap().text, "Bearer a b");
    assert_eq!(bearer("a\nb").unwrap_err().problem, Problem::TokenInvalid);
    assert_eq!(github_token_header(Some("\u{7f}")).unwrap_err().problem, Problem::TokenInvalid);
    assert_eq!(github_token_header(Some("")).unwrap_err().problem, Problem::TokenEmpty);
}

fn resolved_for(bytes: &[u8]) -> ResolvedRelease {
    let mut resolved = resolve_metadata(&source(), None, &release(true)).unwrap();
    resolved.asset_size = bytes.len() as u64;
    resolved.asset_digest = sha256_text(bytes);
    resolved
}

fn received(
    chunks: &[&[u8]],
    content_length: Option<u64>,
    release: &ResolvedRelease,
) -> Result<Vec<u8>, Failure> {
    let mut receiver = AssetReceiver::new(content_length, release)?;
    for chunk in chunks {
        receiver.accept(chunk)?;
    }
    receiver.finish()
}

#[test]
fn downloaded_bytes_must_match_declared_size_and_github_digest() {
    let bytes = b"package archive";
    let resolved = resolved_for(bytes);
    let whole = received(&[&bytes[..]], Some(bytes.len() as u64), &resolved).unwrap();
    assert_eq!(whole, bytes);

    assert!(received(&[&bytes[..bytes.len() - 1]], None, &resolved).is_err());
    assert!(received(&[b"package archivf".as_slice()], None, &resolved).is_err());
}

#[test]
fn each_fault_of_a_download_is_named() {
    let bytes = b"package archive";
    let resolved = resolved_for(bytes);
    assert_eq!(received(&[&bytes[..7], &bytes[7..]], None, &resolved).unwrap(), bytes);
    let length = received(&[], Some(3), &resolved).unwrap_err();
    assert_eq!(length.problem, Problem::LengthDiffers);
    let long = received(&[&bytes[..], b"!"], None, &resolved).unwrap_err();
    assert_eq!(long.problem, Problem::AssetTooLong);
    let short = received(&[&bytes[..3]], None, &resolved).unwrap_err();
    assert_eq!(short.problem, Problem::Truncated);
    let other = received(&[b"package archivf".as_slice()], None, &resolved).unwrap_err();
    assert_eq!(other.problem, Problem::DigestDiffers);
    assert_eq!(
        digest_text(b"abc"),
        "sha256:ba7816bf8f01cfea414140de5dae2223b00361a396177a9cb410ff61f20015ad"
    );
}

#[test]
fn packages_are_neither_empty_nor_too_long() {
    assert_eq!(check_package_length(0).unwrap_err().problem, Problem::AssetSize);
    assert!(check_package_length(7).is_ok());
    assert!(check_package_length(MAX_RELEASE_ASSET_BYTES).is_ok());
    assert!(check_package_length(MAX_RELEASE_ASSET_BYTES + 1).is_err());
}

fn draft(template: &str, draft: bool) -> Reply {
    Reply::Release(ApiPublishRelease {
        id: 42,
        tag_name: "v1.2.3".into(),
        draft,
        upload_url: template.into(),
    })
}

fn publication(root: &str, bytes: &[u8]) -> Publication {
    let origins = Origins::build(root, root, false).unwrap();
    Publication::new(origins, source(), "v1.2.3", bytes.len() as u64, sha256_text(bytes)).unwrap()
}

#[test]
fn native_publisher_uses_a_draft_transaction_and_fixed_asset() {
    let root = "http://127.0.0.1:4242/";
    let bytes = b"package";
    let digest = sha256_text(bytes);
    let template = format!("{root}repos/alice/demo/releases/42/assets{{?name,label}}");
    let mut publication = publication(root, bytes);
    match publication.begin() {
        Action::VerifyTag(address) => {
            assert_eq!(address, format!("{root}repos/alice/demo/git/ref/tags/v1.2.3"))
        }
        other => panic!("{other:?}"),
    }
    match publication.advance(Ok(Reply::Reference("refs/tags/v1.2.3".into()))) {
        Action::CreateDraft(address) => {
            assert_eq!(address, format!("{root}repos/alice/demo/releases"))
        }
        other => panic!("{other:?}"),
    }
    match publication.advance(Ok(draft(&template, true))) {
        Action::Upload(address) => assert_eq!(
            address,
            format!("{root}repos/alice/demo/releases/42/assets?name={RELEASE_ASSET_NAME}")
        ),
        other => panic!("{other:?}"),
    }
    let asset = ApiPublishedAsset {
        id: 9,
        name: RELEASE_ASSET_NAME.into(),
        state: "uploaded".into(),
        size: bytes.len() as u64,
        digest: digest.clone(),
    };
    match publication.advance(Ok(Reply::Asset(asset))) {
        Action::Publish(address) => {
            assert_eq!(address, format!("{root}repos/alice/demo/releases/42"))
        }
        other => panic!("{other:?}"),
    }
    match publication.advance(Ok(draft(&template, false))) {
        Action::Finished(Ok(published)) => {
            assert_eq!(published.release_id, 42);
            assert_eq!(published.asset_id, 9);
            assert_eq!(published.asset_digest, digest);
        }
        other => panic!("{other:?}"),
    }
}

/// A publication whose draft exists, and whose asset is awaited.
fn drafted(root: &str) -> Publication {
    let template = format!("{root}repos/alice/demo/releases/42/assets{{?name,label}}");
    let mut publication = publication(root, b"package");
    publication.begin();
    publication.advance(Ok(Reply::Reference("refs/tags/v1.2.3".into())));
    assert!(matches!(publication.advance(Ok(draft(&template, true))), Action::Upload(_)));
    publication
}

fn failure(text: &str) -> Failure {
    Failure { problem: Problem::Request, cause: Some(text.into()) }
}

#[test]
fn failed_asset_upload_removes_the_incomplete_draft() {
    let root = "http://127.0.0.1:4242/";
    let mut publication = drafted(root);
    match publication.advance(Err(failure("HTTP 500"))) {
        Action::Remove(address) => {
            assert_eq!(address, format!("{root}repos/alice/demo/releases/42"))
        }
        other => panic!("{other:?}"),
    }
    match publication.advance(Ok(Reply::Removed)) {
        Action::Finished(Err(error)) => {
            assert!(error.message().contains("draft release was removed"))
        }
        other => panic!("{other:?}"),
    }
}

#[test]
fn drafts_that_cannot_be_removed_are_named() {
    let mut publication = drafted("http://127.0.0.1:4242/");
    publication.advance(Err(failure("HTTP 500")));
    match publication.advance(Err(failure("HTTP 502"))) {
        Action::Finished(Err(error)) => {
            assert_eq!(error.problem, Problem::DraftKept(42));
            assert!(error.message().contains("draft release 42 could not be removed"));
            assert!(error.message().contains("HTTP 500"));
            assert!(error.message().contains("HTTP 502"));
        }
        other => panic!("{other:?}"),
    }
}

#[test]
fn a_publication_ends_where_github_answers_otherwise() {
    let root = "http://127.0.0.1:4242/";
    let mut other_tag = publication(root, b"package");
    other_tag.begin();
    match other_tag.advance(Ok(Reply::Reference("refs/tags/v9".into()))) {
        Action::Finished(Err(error)) => assert_eq!(error.problem, Problem::OtherReference),
        other => panic!("{other:?}"),
    }
    let mut nameless = publication(root, b"package");
    nameless.begin();
    nameless.advance(Ok(Reply::Reference("refs/tags/v1.2.3".into())));
    let zero = ApiPublishRelease {
        id: 0,
        tag_name: "v1.2.3".into(),
        draft: true,
        upload_url: String::new(),
    };
    match nameless.advance(Ok(Reply::Release(zero))) {
        Action::Finished(Err(error)) => assert_eq!(error.problem, Problem::ZeroRelease),
        other => panic!("{other:?}"),
    }
    // a wrong digest is noticed before anything is published
    let mut changed = drafted(root);
    let asset = ApiPublishedAsset {
        id: 9,
        name: RELEASE_ASSET_NAME.into(),
        state: "uploaded".into(),
        size: 7,
        digest: format!("sha256:{}", "0".repeat(64)),
    };
    assert!(matches!(changed.advance(Ok(Reply::Asset(asset))), Action::Remove(_)));
    let origins = Origins::build(root, root, false).unwrap();
    let tagged = Publication::new(origins, source(), "1.2.3", 7, String::new());
    assert_eq!(tagged.unwrap_err().problem, Problem::TagForm);
}

#[test]
fn publisher_rejects_upload_origin_and_repository_confusion() {
    let origins = Origins::build(API_ROOT, UPLOAD_ROOT, true).unwrap();
    for advertised in [
        "https://uploads.github.com.attacker.test/repos/alice/demo/releases/42/assets{?name,label}",
        "https://uploads.github.com/repos/mallory/demo/releases/42/assets{?name,label}",
        "https://uploads.github.com/repos/alice/demo/releases/43/assets{?name,label}",
    ] {
        assert!(validated_upload_url(&origins.upload, &source(), 42, advertised).is_err());
    }
    assert_eq!(
        validated_upload_url(
            &origins.upload,
            &source(),
            42,
            "https://uploads.github.com/repos/alice/demo/releases/42/assets{?name,label}",
        )
        .unwrap(),
        format!(
            "https://uploads.github.com/repos/alice/demo/releases/42/assets?name={RELEASE_ASSET_NAME}"
        )
    );
    let unread = check_upload_url(&origins.upload, &source(), 42, "x", Err("bad".into()));
    assert_eq!(unread.unwrap_err().message(), "parse GitHub release upload URL: bad");
}

#[test]
fn origins_have_no_path_and_no_query() {
    assert_eq!(
        normalized_origin(Origin::Api, "https://api.github.com", true).unwrap(),
        "https://api.github.com/"
    );
    for value in [
        "http://api.github.com",
        "https://api.github.com/?a=b",
        "https://api.github.com/#a",
    ] {
        let wrong = normalized_origin(Origin::Api, value, true).unwrap_err();
        assert_eq!(wrong.problem, Problem::ApiOriginInvalid, "{value}");
    }
    let unread = normalized_origin(Origin::Upload, "::", true).unwrap_err();
    assert_eq!(unread.problem, Problem::UploadOriginUnreadable);
    assert_eq!(
        api_endpoint("https://api.github.com/", &source(), "releases").unwrap(),
        "https://api.github.com/repos/alice/demo/releases"
    );
    assert!(Origins::build("http://127.0.0.1:1/", "https://uploads.github.com", true).is_err());
}

#[test]
fn bundles_are_unpacked_within_limits() {
    let json = br#"{"neither":"a bundle"}"#;
    let packed = snap::raw::Encoder::new().compress_vec(json).unwrap();
    let unread = unpack_bundle(&packed).unwrap_err();
    assert_eq!(unread.problem, Problem::Bundle);
    assert!(unread.cause.is_some());
    assert_eq!(unpack_bundle(&[0xff; 8]).unwrap_err().problem, Problem::CompressedSize);
    assert_eq!(unpack_bundle(&[]).unwrap_err().problem, Problem::Compressed);
    let broken = unpack_bundle(&packed[..packed.len() - 1]).unwrap_err();
    assert_eq!(broken.problem, Problem::Compressed);
    let inline = ProvenanceBundle::inline(b"{}".to_vec()).unwrap_err();
    assert_eq!(inline.problem, Problem::InlineBundle);
    assert!(check_compressed_length(MAX_ATTESTATION_COMPRESSED_BYTES).is_ok());
    assert!(check_compressed_length(MAX_ATTESTATION_COMPRESSED_BYTES + 1).is_err());
    assert!(check_unpacked_length(Ok(MAX_ATTESTATION_BYTES)).is_ok());
    let over = check_unpacked_length(Ok(MAX_ATTESTATION_BYTES + 1)).unwrap_err();
    assert_eq!(over.problem, Problem::BundleOverLimit);
    // the announced length is looked at before anything is unpacked
    let bomb = snap::raw::Encoder::new()
        .compress_vec(&vec![0u8; MAX_ATTESTATION_BYTES + 1])
        .unwrap();
    assert_eq!(unpack_bundle(&bomb).unwrap_err().problem, Problem::BundleOverLimit);
}

#[test]
fn bundle_locations_are_approved() {
    let url = "https://tmaproduction.blob.core.windows.net/attestations/1?sig=a";
    assert_eq!(bundle_location(Some(url)).unwrap(), url);
    assert_eq!(bundle_location(None).unwrap_err().problem, Problem::NoBundle);
    for outside in ["http://tmaproduction.blob.core.windows.net/", "https://example.com/"] {
        let wrong = bundle_location(Some(outside)).unwrap_err();
        assert_eq!(wrong.problem, Problem::BundleUrlOutside);
    }
    let unread = bundle_location(Some("no address")).unwrap_err();
    assert_eq!(unread.problem, Problem::BundleUrlUnreadable);
    let stated = check_bundle_url(Err("bad".into())).unwrap_err();
    assert_eq!(stated.message(), "parse GitHub attestation bundle URL: bad");
}

/// A bundle with the given transparency-log entries.
fn bundle(entries: &str) -> Vec<u8> {
    format!(
        r#"{{"mediaType":"application/vnd.dev.sigstore.bundle.v0.3+json",
            "verificationMaterial":{{
                "certificate":{{"rawBytes":"AAAA"}},
                "tlogEntries":[{entries}],
                "timestampVerificationData":{{}}
            }},
            "dsseEnvelope":{{
                "payload":"AAAA",
                "payloadType":"application/vnd.in-toto+json",
                "signatures":[{{"sig":"AAAA"}}]
            }}}}"#
    )
    .into_bytes()
}

/// An entry of the log with the key `[0, 0, 0]`.
fn entry(inclusion: &str) -> String {
    format!(
        r#"{{"logIndex":"1","logId":{{"keyId":"AAAA"}},
            "kindVersion":{{"kind":"dsse","version":"0.0.1"}},
            "integratedTime":"1"{inclusion},"canonicalizedBody":"AAAA"}}"#
    )
}

fn included(checkpoint: &str) -> String {
    format!(
        r#","inclusionProof":{{"logIndex":"1","rootHash":"AAAA","treeSize":"2",
            "hashes":[],"checkpoint":{{"envelope":"{checkpoint}"}}}}"#
    )
}

#[test]
fn claims_name_the_log_the_origin_and_the_digest() {
    let resolved = resolved_for(b"package");
    let keys = || Ok(vec![vec![9, 9], vec![0, 0, 0]]);
    let public = included(r"rekor.sigstore.dev - 12\n34\nhash\n");
    let read = ProvenanceBundle::inline(bundle(&entry(&public))).unwrap();
    let stated = claim(&resolved, &read, keys()).unwrap();
    assert_eq!(stated.log, 1);
    assert_eq!(stated.origin, "rekor.sigstore.dev - 12");
    assert_eq!(format!("sha256:{}", stated.digest), resolved.asset_digest);

    let problem = |json: Vec<u8>| {
        let read = ProvenanceBundle::inline(json).unwrap();
        claim(&resolved, &read, keys()).unwrap_err().problem
    };
    assert_eq!(problem(bundle("")), Problem::NoLogEntry);
    assert_eq!(problem(bundle(&entry(""))), Problem::NoInclusionProof);
    assert_eq!(problem(bundle(&entry(&included("")))), Problem::NoOrigin);
    let foreign = included(r"rekor.example.com - 12\n");
    assert_eq!(problem(bundle(&entry(&foreign))), Problem::ForeignOrigin);
    assert_eq!(
        claim(&resolved, &read, Ok(vec![vec![9, 9]])).unwrap_err().problem,
        Problem::UnknownLog
    );
    assert_eq!(
        claim(&resolved, &read, Err("gone".into())).unwrap_err().message(),
        "load embedded Sigstore public-good trust root: gone"
    );
    let mut undigested = resolved_for(b"package");
    undigested.asset_digest = "abc".into();
    assert_eq!(claim(&undigested, &read, keys()).unwrap_err().problem, Problem::DigestPrefix);
    undigested.asset_digest = "sha256:abc".into();
    let unread = claim(&undigested, &read, keys()).unwrap_err();
    assert_eq!(unread.problem, Problem::DigestEncoding);
    let cause = attestation_verify::Subject::from_digest_hex("abc").unwrap_err().to_string();
    assert_eq!(unread.cause, Some(cause));
    let mut elsewhere = resolved_for(b"package");
    elsewhere.source = GithubSource::named("a/b", "demo");
    let unnamed = claim(&elsewhere, &read, keys()).unwrap_err();
    assert_eq!(unnamed.problem, Problem::Identity);
    let cause = attestation_verify::RepositoryIdentity::parse("a/b/demo").unwrap_err();
    assert_eq!(unnamed.cause, Some(cause.to_string()));
}

#[test]
fn evidence_of_a_trusted_log_is_looked_at() {
    let store = attestation_verify::TrustStore::embedded_public_good().unwrap();
    let resolved = resolved_for(b"package");
    let public = included(r"rekor.sigstore.dev - 12\n34\nhash\n");
    for log in &store.tlogs {
        let key = base64(&log.log_id_key_id);
        let known = entry(&public).replace(r#""keyId":"AAAA""#, &format!(r#""keyId":"{key}""#));
        let read = ProvenanceBundle::inline(bundle(&known)).unwrap();
        let refused = verify_build_provenance(&resolved, &read).unwrap_err();
        assert_eq!(refused.problem, Problem::Provenance);
        assert!(refused.cause.is_some());
    }
    assert!(!store.tlogs.is_empty());
}

fn base64(bytes: &[u8]) -> String {
    let digits = b"ABCDEFGHIJKLMNOPQRSTUVWXYZabcdefghijklmnopqrstuvwxyz0123456789+/";
    let mut text = String::new();
    for group in bytes.chunks(3) {
        let mut word = 0u32;
        for place in 0..3 {
            word = word << 8 | u32::from(*group.get(place).unwrap_or(&0));
        }
        for place in 0..4 {
            if place <= group.len() {
                text.push(digits[(word >> (18 - 6 * place)) as usize & 63] as char);
            } else {
                text.push('=');
            }
        }
    }
    text
}

#[test]
fn evidence_of_an_unknown_log_is_not_verified() {
    let resolved = resolved_for(b"package");
    let public = included(r"rekor.sigstore.dev - 12\n34\nhash\n");
    let read = ProvenanceBundle::inline(bundle(&entry(&public))).unwrap();
    let refused = verify_build_provenance(&resolved, &read).unwrap_err();
    assert_eq!(refused.problem, Problem::UnknownLog);
    let packed = snap::raw::Encoder::new().compress_vec(&bundle(&entry(&public))).unwrap();
    let unpacked = unpack_bundle(&packed).unwrap();
    assert_eq!(claim(&resolved, &unpacked, Ok(vec![vec![0, 0, 0]])).unwrap().log, 0);
}

#[test]
fn only_public_log_origins_count() {
    assert!(is_public_origin("rekor.sigstore.dev - 2605736670972794746"));
    assert!(is_public_origin("rekor.sigstore.dev - "));
    assert!(!is_public_origin("rekor.sigstore.dev - 12a"));
    assert!(!is_public_origin("rekor.example.com - 12"));
}

#[test]
fn verdicts_are_final() {
    assert!(conclude(Ok(())).is_ok());
    assert_eq!(
        conclude(Err("no".into())).unwrap_err().message(),
        "verify GitHub build provenance: no"
    );
}

fn attestation(repository_id: u64, initiator: &str) -> ApiAttestation {
    ApiAttestation {
        repository_id,
        initiator: initiator.into(),
        bundle: None,
        bundle_url: Some("https://tmaproduction.blob.core.windows.net/a".into()),
    }
}

#[test]
fn a_review_ends_with_the_first_verified_evidence() {
    let mut none = AttestationReview::new(Vec::new(), 3);
    assert!(matches!(none.next(), ReviewStep::Unattested));

    let mut review = AttestationReview::new(
        vec![attestation(4, "user"), attestation(3, "user"), attestation(3, "user")],
        3,
    );
    match review.next() {
        ReviewStep::Load(1) => {}
        other => panic!("{other:?}"),
    }
    review.settle(Err(failure("HTTP 500")));
    match review.next() {
        ReviewStep::Load(2) => {}
        other => panic!("{other:?}"),
    }
    review.settle(Ok(()));
    assert!(matches!(review.next(), ReviewStep::Attested));
}

#[test]
fn claims_that_cannot_be_verified_are_refused() {
    let mut review =
        AttestationReview::new(vec![attestation(4, "user"), attestation(3, "user")], 3);
    assert!(matches!(review.next(), ReviewStep::Load(1)));
    review.settle(Err(failure("HTTP 500")));
    match review.next() {
        ReviewStep::Refused(error) => assert_eq!(
            error.message(),
            "GitHub advertised build provenance, but native cryptographic verification failed: \
             attestation repository id differs from resolved repository; HTTP 500"
        ),
        other => panic!("{other:?}"),
    }
}
