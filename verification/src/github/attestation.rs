//! The provenance of a release: which attestations count, and what they must
//! say.
use vstd::prelude::*;

use super::hosts;
use super::location;
use super::location::{Address, AddressView};
use super::problem;
use super::problem::{Failure, FailureView, Problem};
use super::release::ResolvedRelease;
use crate::scan;
use crate::source::GithubSource;
use crate::text;

use attestation_verify::RefPolicy::Exact;
use attestation_verify::WorkflowRevisionPolicy::{Any, Ref};
use attestation_verify::{
    Bundle, CheckpointOriginPolicy, CommitSha, GithubPolicy, RepositoryIdentity, SignerPolicy,
    SourcePolicy, Subject, TrustStore, Verifier, WorkflowPath,
};

verus! {

pub const MAX_ATTESTATION_COMPRESSED_BYTES: u64 = 4194304;

pub const MAX_ATTESTATION_BYTES: usize = 16777216;

/// The workflow that must have built a release.
pub const RELEASE_WORKFLOW: &'static str = ".github/workflows/release.yml";

/// How the origin of a checkpoint of the public Rekor deployment begins.
pub const PUBLIC_REKOR_ORIGIN_PREFIX: &'static str = "rekor.sigstore.dev - ";

// ---------------------------------------------------------------------------
// Bundles

/// What a bundle says of one entry of a transparency log.
#[derive(Debug, PartialEq, Eq)]
pub struct LogEntry {
    /// Which log it is.
    pub key_id: Vec<u8>,
    /// The signed checkpoint of the inclusion proof, where there is one.
    pub checkpoint: Option<String>,
}

/// [`LogEntry`], field by field.
#[verifier::ext_equal]
pub struct LogEntryView {
    pub key_id: Seq<u8>,
    pub checkpoint: Option<Seq<char>>,
}

impl View for LogEntry {
    type V = LogEntryView;

    open spec fn view(&self) -> LogEntryView {
        LogEntryView {
            key_id: self.key_id@,
            checkpoint: match self.checkpoint {
                Some(text) => Some(text@),
                None => None,
            },
        }
    }
}

pub open spec fn entries_view(entries: Seq<LogEntry>) -> Seq<LogEntryView> {
    Seq::new(entries.len(), |i: int| entries[i]@)
}

/// The log entries that `attestation_verify::Bundle::from_json` reads from some
/// bytes, or what it says is wrong with them.
pub uninterp spec fn log_entries_of(json: Seq<u8>) -> Result<Seq<LogEntryView>, Seq<char>>;

/// The log entries of a bundle that `attestation_verify::Bundle::from_json`
/// reads, or the message of its error.
#[verifier::external_body]
fn bundle_entries(json: &[u8]) -> (entries: Result<Vec<LogEntry>, String>)
    ensures
        log_entries_of(json@) == (match entries {
            Ok(entries) => Ok::<Seq<LogEntryView>, Seq<char>>(entries_view(entries@)),
            Err(message) => Err(message@),
        }),
{
    let bundle = Bundle::from_json(json).map_err(|error| error.to_string())?;
    let entries = bundle.verification_material.tlog_entries.into_iter();
    Ok(
        entries.map(|entry| LogEntry {
            key_id: entry.log_id_key_id,
            checkpoint: entry.inclusion_proof.map(|proof| proof.checkpoint.envelope),
        }).collect(),
    )
}

/// A bundle of evidence that could be read.
#[derive(Debug)]
pub struct ProvenanceBundle {
    json: Vec<u8>,
    entries: Vec<LogEntry>,
}

impl ProvenanceBundle {
    /// The bytes of the bundle.
    pub closed spec fn bytes(self) -> Seq<u8> {
        self.json@
    }

    /// What it says of transparency logs.
    pub closed spec fn logged(self) -> Seq<LogEntryView> {
        entries_view(self.entries@)
    }

    #[verifier::type_invariant]
    spec fn consistent(self) -> bool {
        log_entries_of(self.json@) == Ok::<Seq<LogEntryView>, Seq<char>>(
            entries_view(self.entries@),
        )
    }

    fn read(json: Vec<u8>, problem: Problem) -> (result: Result<Self, Failure>)
        ensures
            match log_entries_of(json@) {
                Ok(entries) => {
                    &&& result is Ok
                    &&& result->Ok_0.bytes() == json@
                    &&& result->Ok_0.logged() == entries
                },
                Err(cause) => result is Err && result->Err_0@ == problem::failed_by(problem, cause),
            },
    {
        match bundle_entries(json.as_slice()) {
            Ok(entries) => Ok(ProvenanceBundle { json, entries }),
            Err(cause) => Err(Failure::because(problem, cause)),
        }
    }

    /// A bundle that stands in the description of the attestation itself.
    pub fn inline(json: Vec<u8>) -> (result: Result<Self, Failure>)
        ensures
            match log_entries_of(json@) {
                Ok(entries) => {
                    &&& result is Ok
                    &&& result->Ok_0.bytes() == json@
                    &&& result->Ok_0.logged() == entries
                },
                Err(cause) => result is Err && result->Err_0@ == problem::failed_by(
                    Problem::InlineBundle,
                    cause,
                ),
            },
    {
        Self::read(json, Problem::InlineBundle)
    }
}

/// How many bytes `snap::raw::decompress_len` says there will be, or what it
/// says is wrong with what is there.
pub uninterp spec fn unpacked_length(packed: Seq<u8>) -> Result<usize, Seq<char>>;

/// `snap::raw::decompress_len`, with the message of its error.
#[verifier::external_body]
fn decompress_len(packed: &[u8]) -> (length: Result<usize, String>)
    ensures
        unpacked_length(packed@) == (match length {
            Ok(length) => Ok::<usize, Seq<char>>(length),
            Err(message) => Err(message@),
        }),
{
    snap::raw::decompress_len(packed).map_err(|error| error.to_string())
}

/// What `decompress_vec` of a new `snap::raw::Decoder` makes of some bytes, or
/// what it says is wrong with them.
pub uninterp spec fn unpacked(packed: Seq<u8>) -> Result<Seq<u8>, Seq<char>>;

/// `decompress_vec` of a new `snap::raw::Decoder`, with the message of its
/// error. It makes room for as many bytes as are announced, so that they must
/// not be too many, and succeeds only with exactly so many.
#[verifier::external_body]
fn decompress(packed: &[u8]) -> (bytes: Result<Vec<u8>, String>)
    requires
        length_checked(unpacked_length(packed@)) is Ok,
    ensures
        unpacked(packed@) == (match bytes {
            Ok(bytes) => Ok::<Seq<u8>, Seq<char>>(bytes@),
            Err(message) => Err(message@),
        }),
        bytes matches Ok(bytes) ==> bytes@.len() == unpacked_length(packed@)->Ok_0,
{
    snap::raw::Decoder::new().decompress_vec(packed).map_err(|error| error.to_string())
}

/// Whether a packed bundle is short enough to be read.
pub fn check_compressed_length(length: u64) -> (result: Result<(), Failure>)
    ensures
        problem::outcome(result) == (if length > MAX_ATTESTATION_COMPRESSED_BYTES {
            Err(problem::failed(Problem::CompressedOverLimit))
        } else {
            Ok(())
        }),
{
    if length > MAX_ATTESTATION_COMPRESSED_BYTES {
        Err(Failure::of(Problem::CompressedOverLimit))
    } else {
        Ok(())
    }
}

/// Whether a bundle of the announced length may be unpacked.
pub open spec fn length_checked(length: Result<usize, Seq<char>>) -> Result<(), FailureView> {
    match length {
        Err(cause) => Err(problem::failed_by(Problem::CompressedSize, cause)),
        Ok(length) => if length > MAX_ATTESTATION_BYTES {
            Err(problem::failed(Problem::BundleOverLimit))
        } else {
            Ok(())
        },
    }
}

/// Whether a bundle of the announced length may be unpacked.
pub fn check_unpacked_length(length: Result<usize, String>) -> (result: Result<(), Failure>)
    ensures
        problem::outcome(result) == length_checked(
            match length {
                Ok(length) => Ok(length),
                Err(message) => Err(message@),
            },
        ),
{
    match length {
        Err(cause) => Err(Failure::because(Problem::CompressedSize, cause)),
        Ok(length) => {
            if length > MAX_ATTESTATION_BYTES {
                Err(Failure::of(Problem::BundleOverLimit))
            } else {
                Ok(())
            }
        },
    }
}

/// The bytes of a packed bundle, as far as they may be read.
pub open spec fn bundle_bytes(packed: Seq<u8>) -> Result<Seq<u8>, FailureView> {
    if packed.len() > MAX_ATTESTATION_COMPRESSED_BYTES {
        Err(problem::failed(Problem::CompressedOverLimit))
    } else {
        match length_checked(unpacked_length(packed)) {
            Err(failure) => Err(failure),
            Ok(_) => match unpacked(packed) {
                Err(cause) => Err(problem::failed_by(Problem::Compressed, cause)),
                Ok(bytes) => Ok(bytes),
            },
        }
    }
}

/// A bundle that was downloaded.
pub fn unpack_bundle(packed: &[u8]) -> (result: Result<ProvenanceBundle, Failure>)
    ensures
        match bundle_bytes(packed@) {
            Err(why) => result is Err && result->Err_0@ == why,
            Ok(json) => match log_entries_of(json) {
                Ok(entries) => {
                    &&& result is Ok
                    &&& result->Ok_0.bytes() == json
                    &&& result->Ok_0.logged() == entries
                },
                Err(cause) => result is Err && result->Err_0@ == problem::failed_by(
                    Problem::Bundle,
                    cause,
                ),
            },
        },
        result matches Ok(bundle) ==> bundle.bytes().len() <= MAX_ATTESTATION_BYTES,
{
    check_compressed_length(packed.len() as u64)?;
    let length = decompress_len(packed);
    check_unpacked_length(length)?;
    match decompress(packed) {
        Err(cause) => Err(Failure::because(Problem::Compressed, cause)),
        Ok(json) => ProvenanceBundle::read(json, Problem::Bundle),
    }
}

/// Where a bundle may be downloaded from.
pub open spec fn bundle_url_checked(parsed: Result<AddressView, Seq<char>>) -> Result<
    Seq<char>,
    FailureView,
> {
    match parsed {
        Err(cause) => Err(problem::failed_by(Problem::BundleUrlUnreadable, cause)),
        Ok(address) => if address.scheme == "https"@ && address.host is Some
            && hosts::serves_attestations(address.host->0) {
            Ok(address.text)
        } else {
            Err(problem::failed(Problem::BundleUrlOutside))
        },
    }
}

/// [`bundle_location`], once the address has been read.
pub fn check_bundle_url(parsed: Result<Address, String>) -> (result: Result<String, Failure>)
    ensures
        problem::outcome(result) == bundle_url_checked(location::parsed_view(parsed)),
{
    match parsed {
        Err(cause) => Err(Failure::because(Problem::BundleUrlUnreadable, cause)),
        Ok(address) => {
            if let Some(host) = &address.host {
                if text::same(address.scheme.as_str(), "https") && hosts::allowed_attestation_host(
                    host.as_str(),
                ) {
                    return Ok(address.text);
                }
            }
            Err(Failure::of(Problem::BundleUrlOutside))
        },
    }
}

/// Where the bundle of an attestation is downloaded from.
pub fn bundle_location(url: Option<&str>) -> (result: Result<String, Failure>)
    ensures
        problem::outcome(result) == (match url {
            None => Err(problem::failed(Problem::NoBundle)),
            Some(url) => bundle_url_checked(location::address_of(url@)),
        }),
{
    match url {
        None => Err(Failure::of(Problem::NoBundle)),
        Some(url) => {
            let parsed = location::parse_address(url);
            check_bundle_url(parsed)
        },
    }
}

// ---------------------------------------------------------------------------
// Provenance

/// The first line of a text, where it has one.
pub open spec fn first_line(text: Seq<char>) -> Option<Seq<char>> {
    if text.len() == 0 {
        None
    } else {
        Some(scan::line_at(text, 0))
    }
}

fn take_line(text: &str) -> (line: Option<String>)
    ensures
        first_line(text@) == (match line {
            Some(line) => Some(line@),
            None => None::<Seq<char>>,
        }),
{
    let chars: Vec<char> = text::characters(text);
    if chars.len() == 0 {
        return None;
    }
    Some(scan::take_line(&chars, 0).0)
}

/// The origin of a checkpoint of the public Rekor deployment.
pub open spec fn public_origin(origin: Seq<char>) -> bool {
    match text::following(origin, PUBLIC_REKOR_ORIGIN_PREFIX@) {
        None => false,
        Some(rest) => forall|i: int| 0 <= i < rest.len() ==> #[trigger] scan::is_digit(rest[i]),
    }
}

/// Whether an origin is that of the public Rekor deployment.
pub fn is_public_origin(origin: &str) -> (public: bool)
    ensures
        public == public_origin(origin@),
{
    match text::strip_prefix(origin, PUBLIC_REKOR_ORIGIN_PREFIX) {
        None => false,
        Some(rest) => {
            let chars: Vec<char> = text::characters(rest.as_str());
            let mut i: usize = 0;
            while i < chars.len()
                invariant
                    i <= chars@.len(),
                    chars@ == rest@,
                    text::following(origin@, PUBLIC_REKOR_ORIGIN_PREFIX@) == Some(rest@),
                    forall|k: int| 0 <= k < i ==> #[trigger] scan::is_digit(rest@[k]),
                decreases chars@.len() - i,
            {
                let c: char = chars[i];
                if !('0' <= c && c <= '9') {
                    proof {
                        let behind = text::following(origin@, PUBLIC_REKOR_ORIGIN_PREFIX@)->0;
                        assert(!scan::is_digit(behind[i as int]));
                    }
                    return false;
                }
                i = i + 1;
            }
            true
        },
    }
}

pub open spec fn any_hex(c: char) -> bool {
    '0' <= c <= '9' || 'a' <= c <= 'f' || 'A' <= c <= 'F'
}

/// A number of hexadecimal digits.
pub open spec fn hex_digits(text: Seq<char>, count: nat) -> bool {
    text.len() == count && forall|i: int| 0 <= i < text.len() ==> #[trigger] any_hex(text[i])
}

/// 64 hexadecimal digits.
pub open spec fn hex_digest(text: Seq<char>) -> bool {
    hex_digits(text, 64)
}

/// What `attestation_verify::Subject::from_digest_hex` says of a text.
pub uninterp spec fn subject_of(text: Seq<char>) -> Result<(), Seq<char>>;

/// A check by another crate, by its view.
pub open spec fn check_view(checked: Result<(), String>) -> Result<(), Seq<char>> {
    match checked {
        Ok(_) => Ok(()),
        Err(message) => Err(message@),
    }
}

/// Whether `attestation_verify::Subject::from_digest_hex` accepts a text: it
/// does where there are exactly 64 hexadecimal digits, and otherwise says what
/// is wrong.
#[verifier::external_body]
fn parse_digest(text: &str) -> (checked: Result<(), String>)
    ensures
        check_view(checked) == subject_of(text@),
        checked is Ok <==> hex_digest(text@),
{
    Subject::from_digest_hex(text).map(|_| ()).map_err(|error| error.to_string())
}

/// The name of a repository or an owner: not empty, without a slash.
pub open spec fn name_part(name: Seq<char>) -> bool {
    name.len() > 0 && !name.contains('/')
}

/// An owner and a repository with a slash between them, and no other slash.
pub open spec fn owner_and_name(text: Seq<char>) -> bool {
    exists|at: int|
        {
            &&& 0 < at < text.len() - 1
            &&& #[trigger] text[at] == '/'
            &&& forall|i: int| 0 <= i < text.len() && i != at ==> text[i] != '/'
        }
}

/// How a repository is written with its owner.
pub open spec fn full_name(source: GithubSource) -> Seq<char> {
    source.owned_by() + "/"@ + source.called()
}

/// What `attestation_verify::RepositoryIdentity::parse` says of a text.
pub uninterp spec fn identity_of(text: Seq<char>) -> Result<(), Seq<char>>;

/// Whether `attestation_verify::RepositoryIdentity::parse` accepts a text: it
/// does where exactly one slash stands between two parts that are not empty,
/// and otherwise says what is wrong.
#[verifier::external_body]
fn parse_identity(text: &str) -> (checked: Result<(), String>)
    ensures
        check_view(checked) == identity_of(text@),
        checked is Ok <==> owner_and_name(text@),
{
    RepositoryIdentity::parse(text).map(|_| ()).map_err(|error| error.to_string())
}

/// A repository is identified by its owner and its name where both are parts
/// of a name.
proof fn lemma_full_name(source: GithubSource)
    ensures
        owner_and_name(full_name(source)) == (name_part(source.owned_by()) && name_part(
            source.called(),
        )),
{
    let owner = source.owned_by();
    let name = source.called();
    let text = full_name(source);
    reveal_strlit("/");
    assert(text.len() == owner.len() + 1 + name.len());
    assert(text[owner.len() as int] == '/');
    assert(forall|i: int| 0 <= i < owner.len() ==> text[i] == owner[i]);
    assert(forall|i: int| 0 <= i < name.len() ==> text[owner.len() + 1 + i] == #[trigger] name[i]);
    if name_part(owner) && name_part(name) {
        let at = owner.len() as int;
        assert forall|i: int| 0 <= i < text.len() && i != at implies text[i] != '/' by {
            if i < at {
                assert(owner.contains(owner[i]));
            } else {
                assert(text[owner.len() + 1 + (i - at - 1)] == name[i - at - 1]);
                assert(name.contains(name[i - at - 1]));
            }
        }
        assert(owner_and_name(text));
    } else if owner_and_name(text) {
        let at = choose|at: int|
            {
                &&& 0 < at < text.len() - 1
                &&& #[trigger] text[at] == '/'
                &&& forall|i: int| 0 <= i < text.len() && i != at ==> text[i] != '/'
            };
        assert(at == owner.len());
        if owner.contains('/') {
            let i = choose|i: int| 0 <= i < owner.len() && owner[i] == '/';
            assert(text[i] == '/');
        }
        if name.contains('/') {
            let i = choose|i: int| 0 <= i < name.len() && name[i] == '/';
            assert(text[owner.len() + 1 + i] == '/');
        }
    }
}

/// Where the first key that is the given one stands, or else the end.
pub open spec fn key_position(keys: Seq<Seq<u8>>, key: Seq<u8>, from: int) -> int
    decreases keys.len() - from,
{
    if from >= keys.len() {
        keys.len() as int
    } else if keys[from] == key {
        from
    } else {
        key_position(keys, key, from + 1)
    }
}

pub open spec fn keys_view(keys: Seq<Vec<u8>>) -> Seq<Seq<u8>> {
    Seq::new(keys.len(), |i: int| keys[i]@)
}

fn same_bytes(a: &Vec<u8>, b: &Vec<u8>) -> (same: bool)
    ensures
        same == (a@ == b@),
{
    if a.len() != b.len() {
        return false;
    }
    let mut i: usize = 0;
    while i < a.len()
        invariant
            i <= a@.len(),
            a@.len() == b@.len(),
            forall|k: int| 0 <= k < i ==> a@[k] == b@[k],
        decreases a@.len() - i,
    {
        if a[i] != b[i] {
            return false;
        }
        i = i + 1;
    }
    proof {
        assert(a@ =~= b@);
    }
    true
}

fn find_key(keys: &Vec<Vec<u8>>, key: &Vec<u8>) -> (at: usize)
    ensures
        at == key_position(keys_view(keys@), key@, 0),
        at <= keys@.len(),
{
    let mut at: usize = 0;
    while at < keys.len()
        invariant
            at <= keys@.len(),
            key_position(keys_view(keys@), key@, 0) == key_position(
                keys_view(keys@),
                key@,
                at as int,
            ),
        decreases keys@.len() - at,
    {
        if same_bytes(&keys[at], key) {
            return at;
        }
        at = at + 1;
    }
    at
}

/// What is to be verified of a release: which log vouches for it, under which
/// origin, and what its digest is.
#[derive(Debug)]
pub struct Claim {
    pub log: usize,
    pub origin: String,
    pub digest: String,
}

/// [`Claim`], field by field.
#[verifier::ext_equal]
pub struct ClaimView {
    pub log: usize,
    pub origin: Seq<char>,
    pub digest: Seq<char>,
}

impl View for Claim {
    type V = ClaimView;

    open spec fn view(&self) -> ClaimView {
        ClaimView { log: self.log, origin: self.origin@, digest: self.digest@ }
    }
}

/// What the checkpoint of a log entry says of its origin.
pub open spec fn origin_checked(entry: LogEntryView) -> Result<Seq<char>, FailureView> {
    match entry.checkpoint {
        None => Err(problem::failed(Problem::NoInclusionProof)),
        Some(checkpoint) => match first_line(checkpoint) {
            None => Err(problem::failed(Problem::NoOrigin)),
            Some(origin) => if public_origin(origin) {
                Ok(origin)
            } else {
                Err(problem::failed(Problem::ForeignOrigin))
            },
        },
    }
}

/// What is left of the digest of a release without its prefix.
pub open spec fn digest_checked(digest: Seq<char>) -> Result<Seq<char>, FailureView> {
    match text::following(digest, "sha256:"@) {
        None => Err(problem::failed(Problem::DigestPrefix)),
        Some(hex) => if hex_digest(hex) {
            Ok(hex)
        } else {
            Err(problem::failed_by(Problem::DigestEncoding, subject_of(hex)->Err_0))
        },
    }
}

/// What is to be verified of a release, given the logs that are trusted.
pub open spec fn claimed(
    release: ResolvedRelease,
    entries: Seq<LogEntryView>,
    keys: Result<Seq<Seq<u8>>, Seq<char>>,
) -> Result<ClaimView, FailureView> {
    if !name_part(release.source.owned_by()) || !name_part(release.source.called()) {
        Err(problem::failed_by(Problem::Identity, identity_of(full_name(release.source))->Err_0))
    } else {
        match keys {
            Err(cause) => Err(problem::failed_by(Problem::TrustRoot, cause)),
            Ok(keys) => if entries.len() == 0 {
                Err(problem::failed(Problem::NoLogEntry))
            } else {
                let log = key_position(keys, entries[0].key_id, 0);
                if log >= keys.len() {
                    Err(problem::failed(Problem::UnknownLog))
                } else {
                    match origin_checked(entries[0]) {
                        Err(failure) => Err(failure),
                        Ok(origin) => match digest_checked(release.asset_digest@) {
                            Err(failure) => Err(failure),
                            Ok(digest) => Ok(ClaimView { log: log as usize, origin, digest }),
                        },
                    }
                }
            },
        }
    }
}

fn check_origin(entry: &LogEntry) -> (result: Result<String, Failure>)
    ensures
        problem::outcome(result) == origin_checked(entry@),
{
    match &entry.checkpoint {
        None => Err(Failure::of(Problem::NoInclusionProof)),
        Some(checkpoint) => match take_line(checkpoint.as_str()) {
            None => Err(Failure::of(Problem::NoOrigin)),
            Some(origin) => {
                if is_public_origin(origin.as_str()) {
                    Ok(origin)
                } else {
                    Err(Failure::of(Problem::ForeignOrigin))
                }
            },
        },
    }
}

fn check_digest(digest: &str) -> (result: Result<String, Failure>)
    ensures
        problem::outcome(result) == digest_checked(digest@),
{
    match text::strip_prefix(digest, "sha256:") {
        None => Err(Failure::of(Problem::DigestPrefix)),
        Some(hex) => match parse_digest(hex.as_str()) {
            Ok(_) => Ok(hex),
            Err(cause) => Err(Failure::because(Problem::DigestEncoding, cause)),
        },
    }
}

/// The keys of the logs that are trusted, by their views.
pub open spec fn trusted_view(
    keys: Result<Vec<Vec<u8>>, String>,
) -> Result<Seq<Seq<u8>>, Seq<char>> {
    match keys {
        Ok(keys) => Ok(keys_view(keys@)),
        Err(message) => Err(message@),
    }
}

/// What is to be verified of a release, given the logs that are trusted.
pub fn claim(
    release: &ResolvedRelease,
    bundle: &ProvenanceBundle,
    keys: Result<Vec<Vec<u8>>, String>,
) -> (result: Result<Claim, Failure>)
    ensures
        problem::outcome(result) == claimed(*release, bundle.logged(), trusted_view(keys)),
{
    let repository = text::joined3(release.source.owner(), "/", release.source.repository());
    proof {
        lemma_full_name(release.source);
    }
    if let Err(cause) = parse_identity(repository.as_str()) {
        return Err(Failure::because(Problem::Identity, cause));
    }
    let keys = match keys {
        Ok(keys) => keys,
        Err(cause) => {
            return Err(Failure::because(Problem::TrustRoot, cause));
        },
    };
    if bundle.entries.len() == 0 {
        return Err(Failure::of(Problem::NoLogEntry));
    }
    let entry = &bundle.entries[0];
    let log: usize = find_key(&keys, &entry.key_id);
    if log >= keys.len() {
        return Err(Failure::of(Problem::UnknownLog));
    }
    let origin = check_origin(entry)?;
    let digest = check_digest(release.asset_digest.as_str())?;
    Ok(Claim { log, origin, digest })
}

// ---------------------------------------------------------------------------
// Logs that are trusted

/// The key of the log with the given number in
/// `attestation_verify::TrustStore::embedded_public_good`, nothing behind the
/// last log, or what is wrong with the store.
pub uninterp spec fn trusted_log(index: usize) -> Result<Option<Seq<u8>>, Seq<char>>;

/// The key of a log, by its view.
pub open spec fn log_view(log: Result<Option<Vec<u8>>, String>) -> Result<
    Option<Seq<u8>>,
    Seq<char>,
> {
    match log {
        Ok(Some(key)) => Ok(Some(key@)),
        Ok(None) => Ok(None),
        Err(message) => Err(message@),
    }
}

/// The key of the log with the given number among the logs of
/// `attestation_verify::TrustStore::embedded_public_good`, or the message of
/// its error. The store is a text that is part of the crate.
#[verifier::external_body]
fn trusted_log_at(index: usize) -> (log: Result<Option<Vec<u8>>, String>)
    ensures
        log_view(log) == trusted_log(index),
{
    let store = TrustStore::embedded_public_good().map_err(|error| error.to_string())?;
    Ok(store.tlogs.get(index).map(|log| log.log_id_key_id.clone()))
}

/// The keys of the trusted logs from a number on.
pub open spec fn trusted_from(index: int) -> Result<Seq<Seq<u8>>, Seq<char>>
    decreases usize::MAX - index,
{
    if index < 0 || index >= usize::MAX {
        Ok(Seq::empty())
    } else {
        match trusted_log(index as usize) {
            Err(cause) => Err(cause),
            Ok(None) => Ok(Seq::empty()),
            Ok(Some(key)) => match trusted_from(index + 1) {
                Err(cause) => Err(cause),
                Ok(rest) => Ok(seq![key] + rest),
            },
        }
    }
}

/// The keys of the trusted logs, in their order.
pub open spec fn trusted_keys() -> Result<Seq<Seq<u8>>, Seq<char>> {
    trusted_from(0)
}

/// The keys from a number on, behind those that are known.
pub open spec fn behind(known: Seq<Seq<u8>>, rest: Result<Seq<Seq<u8>>, Seq<char>>) -> Result<
    Seq<Seq<u8>>,
    Seq<char>,
> {
    match rest {
        Err(cause) => Err(cause),
        Ok(rest) => Ok(known + rest),
    }
}

fn trusted_log_keys() -> (keys: Result<Vec<Vec<u8>>, String>)
    ensures
        trusted_view(keys) == trusted_keys(),
{
    let mut keys: Vec<Vec<u8>> = Vec::new();
    let mut index: usize = 0;
    proof {
        assert(keys_view(keys@) =~= Seq::empty());
        if let Ok(all) = trusted_from(0) {
            assert(Seq::<Seq<u8>>::empty() + all =~= all);
        }
    }
    while index < usize::MAX
        invariant
            keys@.len() == index,
            trusted_keys() == behind(keys_view(keys@), trusted_from(index as int)),
        decreases usize::MAX - index,
    {
        let ghost known = keys_view(keys@);
        match trusted_log_at(index) {
            Err(cause) => {
                return Err(cause);
            },
            Ok(None) => {
                proof {
                    assert(known + Seq::<Seq<u8>>::empty() =~= known);
                }
                return Ok(keys);
            },
            Ok(Some(key)) => {
                let ghost found = key@;
                keys.push(key);
                proof {
                    assert(keys_view(keys@) =~= known.push(found));
                    if let Ok(rest) = trusted_from(index + 1) {
                        assert(known + (seq![found] + rest) =~= known.push(found) + rest);
                    }
                }
            },
        }
        index = index + 1;
    }
    proof {
        assert(keys_view(keys@) + Seq::<Seq<u8>>::empty() =~= keys_view(keys@));
    }
    Ok(keys)
}

/// Every key among the trusted ones is that of the log with its number.
proof fn lemma_trusted(index: int, at: int)
    requires
        0 <= index,
        trusted_from(index) is Ok,
        0 <= at < trusted_from(index)->Ok_0.len(),
    ensures
        index + at < usize::MAX,
        trusted_log((index + at) as usize) == Ok::<Option<Seq<u8>>, Seq<char>>(
            Some(trusted_from(index)->Ok_0[at]),
        ),
    decreases at,
{
    if at > 0 {
        lemma_trusted(index + 1, at - 1);
        assert(trusted_from(index)->Ok_0[at] == trusted_from(index + 1)->Ok_0[at - 1]);
    }
}

// ---------------------------------------------------------------------------
// The verdict

/// What `attestation_verify::Verifier::verify_digest` says of a bundle: that a
/// workflow of the signer, run for exactly the given reference of the source,
/// built what has the digest, as the log with the given number in the embedded
/// trust store witnesses under the given origin; or what is wrong.
pub uninterp spec fn verdict_of(
    bundle: Seq<u8>,
    source: Seq<char>,
    owner_id: u64,
    repository_id: u64,
    exact_ref: Seq<char>,
    commit: Option<Seq<char>>,
    signer: Seq<char>,
    workflow: Seq<char>,
    revision: Option<Seq<char>>,
    log: usize,
    origin: Seq<char>,
    digest: Seq<char>,
) -> Result<(), Seq<char>>;

/// A line in the sense of a signed note.
pub open spec fn one_line(text: Seq<char>) -> bool {
    text.len() > 0 && !text.contains('\r') && !text.contains('\n')
}

/// `attestation_verify::Verifier::verify_digest` under the policy that the
/// arguments describe, or the message of its error. The reference must be the
/// given one exactly; a commit or a revision that is not given is not asked for. It reads neither a clock nor the network.
/// Nothing that is built on the way to it fails on what is required here.
#[verifier::external_body]
fn verify_digest(
    bundle: &[u8],
    source: &str,
    owner_id: u64,
    repository_id: u64,
    exact_ref: String,
    commit: Option<&str>,
    signer: &str,
    workflow: &str,
    revision: Option<String>,
    log: usize,
    origin: &str,
    digest: &str,
) -> (verdict: Result<(), String>)
    requires
        log_entries_of(bundle@) is Ok,
        owner_and_name(source@),
        commit matches Some(commit) ==> hex_digits(commit@, 40),
        owner_and_name(signer@),
        workflow@.len() > 0,
        trusted_log(log) matches Ok(Some(_)),
        one_line(origin@),
        hex_digest(digest@),
    ensures
        check_view(verdict) == verdict_of(
            bundle@,
            source@,
            owner_id,
            repository_id,
            exact_ref@,
            (match commit {
                Some(commit) => Some(commit@),
                None => None,
            }),
            signer@,
            workflow@,
            (match revision {
                Some(revision) => Some(revision@),
                None => None,
            }),
            log,
            origin@,
            digest@,
        ),
{
    (|| {
        let store = TrustStore::embedded_public_good()?;
        Verifier::builder().checkpoint_origin_policy(
            CheckpointOriginPolicy::for_log(&store.tlogs[log], [origin])?
        ).trust_store(store).github_policy(
            GithubPolicy::builder().source(SourcePolicy {
                repository: RepositoryIdentity::parse(source)?.with_owner_id(owner_id).with_repository_id(repository_id),
                git_ref: Exact(exact_ref), commit: commit.map(CommitSha::new).transpose()?
            }).signer(SignerPolicy {
                repository: RepositoryIdentity::parse(signer)?,
                path: WorkflowPath::new(workflow)?, revision: revision.map_or(Any, Ref)
            }).build()?
        ).build()?.verify_digest(&Subject::from_digest_hex(digest)?, &Bundle::from_json(bundle)?).map(|_| ())
    })().map_err(|error| error.to_string())
}

/// What a verdict means.
pub open spec fn concluded(verdict: Result<(), Seq<char>>) -> Result<(), FailureView> {
    match verdict {
        Ok(_) => Ok(()),
        Err(cause) => Err(problem::failed_by(Problem::Provenance, cause)),
    }
}

/// What a verdict means.
pub fn conclude(verdict: Result<(), String>) -> (result: Result<(), Failure>)
    ensures
        problem::outcome(result) == concluded(check_view(verdict)),
{
    match verdict {
        Ok(_) => Ok(()),
        Err(cause) => Err(Failure::because(Problem::Provenance, cause)),
    }
}

/// What the evidence says of a release, given the logs that are trusted. The
/// repository must be both where the release comes from and where the workflow
/// stands, at whatever commit and in whatever revision.
pub open spec fn provenance_under(
    release: ResolvedRelease,
    bundle: Seq<u8>,
    entries: Seq<LogEntryView>,
    keys: Result<Seq<Seq<u8>>, Seq<char>>,
) -> Result<(), FailureView> {
    match claimed(release, entries, keys) {
        Err(failure) => Err(failure),
        Ok(claim) => concluded(
            verdict_of(
                bundle,
                full_name(release.source),
                release.owner_id,
                release.repository_id,
                "refs/tags/"@ + release.tag@,
                None,
                full_name(release.source),
                RELEASE_WORKFLOW@,
                None,
                claim.log,
                claim.origin,
                claim.digest,
            ),
        ),
    }
}

/// What the evidence says of a release.
pub open spec fn provenance(
    release: ResolvedRelease,
    bundle: Seq<u8>,
    entries: Seq<LogEntryView>,
) -> Result<(), FailureView> {
    provenance_under(release, bundle, entries, trusted_keys())
}

/// The origin of a checkpoint of the public deployment is one line.
proof fn lemma_public_origin(origin: Seq<char>)
    requires
        public_origin(origin),
    ensures
        one_line(origin),
{
    reveal_strlit("rekor.sigstore.dev - ");
    let prefix = PUBLIC_REKOR_ORIGIN_PREFIX@;
    let rest = text::following(origin, prefix)->0;
    assert forall|i: int| 0 <= i < origin.len() implies origin[i] != '\r' && origin[i] != '\n' by {
        if i < prefix.len() {
            assert(origin[i] == prefix[i]);
        } else {
            assert(scan::is_digit(rest[i - prefix.len()]));
        }
    }
}

/// Whether the release was built by the release workflow of its repository,
/// from its tag, as the public Rekor deployment witnesses.
pub fn verify_build_provenance(release: &ResolvedRelease, bundle: &ProvenanceBundle) -> (result:
    Result<(), Failure>)
    ensures
        problem::outcome(result) == provenance(*release, bundle.bytes(), bundle.logged()),
{
    let keys = trusted_log_keys();
    let claim = claim(release, bundle, keys)?;
    let repository = text::joined3(release.source.owner(), "/", release.source.repository());
    let git_ref = text::joined("refs/tags/", release.tag.as_str());
    proof {
        let trusted = trusted_keys()->Ok_0;
        let entry = bundle.logged()[0];
        lemma_full_name(release.source);
        lemma_key_position(trusted, entry.key_id, 0);
        lemma_trusted(0, claim.log as int);
        lemma_public_origin(claim.origin@);
        reveal_strlit(".github/workflows/release.yml");
        use_type_invariant(bundle);
    }
    let verdict = verify_digest(
        bundle.json.as_slice(),
        repository.as_str(),
        release.owner_id,
        release.repository_id,
        git_ref,
        None,
        repository.as_str(),
        RELEASE_WORKFLOW,
        None,
        claim.log,
        claim.origin.as_str(),
        claim.digest.as_str(),
    );
    conclude(verdict)
}

/// Evidence of another log than a trusted one, or of another deployment than
/// the public one, proves nothing, whatever else it says.
pub proof fn only_public_logs_count(
    release: ResolvedRelease,
    bundle: Seq<u8>,
    entries: Seq<LogEntryView>,
)
    requires
        provenance(release, bundle, entries) is Ok,
    ensures
        entries.len() > 0,
        exists|index: usize|
            #[trigger] trusted_log(index) == Ok::<Option<Seq<u8>>, Seq<char>>(
                Some(entries[0].key_id),
            ),
        entries[0].checkpoint is Some,
        first_line(entries[0].checkpoint->0) is Some,
        public_origin(first_line(entries[0].checkpoint->0)->0),
{
    let keys = trusted_keys()->Ok_0;
    lemma_key_position(keys, entries[0].key_id, 0);
    let log = key_position(keys, entries[0].key_id, 0);
    lemma_trusted(0, log);
    assert(trusted_log(log as usize) == Ok::<Option<Seq<u8>>, Seq<char>>(Some(keys[log])));
}

proof fn lemma_key_position(keys: Seq<Seq<u8>>, key: Seq<u8>, from: int)
    requires
        0 <= from <= keys.len(),
    ensures
        from <= key_position(keys, key, from) <= keys.len(),
        key_position(keys, key, from) < keys.len() ==> keys[key_position(keys, key, from)] == key,
    decreases keys.len() - from,
{
    if from < keys.len() && keys[from] != key {
        lemma_key_position(keys, key, from + 1);
    }
}

/// The origin of the public deployment, and a number behind it.
pub open spec fn of_the_deployment(origin: Seq<char>) -> bool {
    &&& origin.len() >= 21
    &&& origin.subrange(0, 21) == "rekor.sigstore.dev - "@
    &&& forall|i: int| 21 <= i < origin.len() ==> '0' <= #[trigger] origin[i] <= '9'
}

/// A text with characters and without a slash.
pub open spec fn unsplit(name: Seq<char>) -> bool {
    name.len() > 0 && forall|i: int| 0 <= i < name.len() ==> #[trigger] name[i] != '/'
}

/// What is claimed of a release: that the first trusted log with the key of the
/// first entry witnesses, under the first line of its checkpoint, the 64 digits
/// of the digest. Where one of these is missing, nothing is claimed.
pub proof fn claims_are_made_of_all_that_is_said(
    release: ResolvedRelease,
    entries: Seq<LogEntryView>,
    keys: Seq<Seq<u8>>,
    at: int,
    hex: Seq<char>,
)
    requires
        keys.len() <= usize::MAX,
    ensures
        ({
            let made = claimed(release, entries, Ok(keys));
            &&& made matches Ok(claim) ==> {
                &&& unsplit(release.source.owned_by())
                &&& unsplit(release.source.called())
                &&& entries.len() > 0
                &&& claim.log < keys.len()
                &&& keys[claim.log as int] == entries[0].key_id
                &&& forall|i: int|
                    0 <= i < claim.log ==> #[trigger] keys[i] != entries[0].key_id
                &&& entries[0].checkpoint is Some
                &&& entries[0].checkpoint->0.len() > 0
                &&& claim.origin == scan::line_at(entries[0].checkpoint->0, 0)
                &&& of_the_deployment(claim.origin)
                &&& release.asset_digest@ == "sha256:"@ + claim.digest
                &&& claim.digest.len() == 64
                &&& forall|i: int|
                    0 <= i < 64 ==> any_hex(#[trigger] claim.digest[i])
            }
            &&& {
                &&& unsplit(release.source.owned_by())
                &&& unsplit(release.source.called())
                &&& entries.len() > 0
                &&& 0 <= at < keys.len()
                &&& keys[at] == entries[0].key_id
                &&& entries[0].checkpoint is Some
                &&& entries[0].checkpoint->0.len() > 0
                &&& of_the_deployment(scan::line_at(entries[0].checkpoint->0, 0))
                &&& release.asset_digest@ == "sha256:"@ + hex
                &&& hex.len() == 64
                &&& forall|i: int| 0 <= i < 64 ==> any_hex(#[trigger] hex[i])
            } ==> made is Ok
        }),
{
    reveal_strlit("rekor.sigstore.dev - ");
    reveal_strlit("sha256:");
    let digest = release.asset_digest@;
    if entries.len() > 0 {
        lemma_first_key(keys, entries[0].key_id, 0);
        if let Some(checkpoint) = entries[0].checkpoint {
            let origin = scan::line_at(checkpoint, 0);
            assert(PUBLIC_REKOR_ORIGIN_PREFIX@ == "rekor.sigstore.dev - "@);
            if public_origin(origin) {
                let rest = text::following(origin, PUBLIC_REKOR_ORIGIN_PREFIX@)->0;
                assert forall|i: int| 21 <= i < origin.len() implies '0' <= #[trigger] origin[i]
                    <= '9' by {
                    assert(scan::is_digit(rest[i - 21]));
                }
            }
            if of_the_deployment(origin) {
                let rest = origin.subrange(21, origin.len() as int);
                assert forall|i: int| 0 <= i < rest.len() implies #[trigger] scan::is_digit(
                    rest[i],
                ) by {
                    assert('0' <= origin[i + 21] <= '9');
                }
                assert(public_origin(origin));
            }
        }
    }
    if text::begins(digest, "sha256:"@) {
        let rest = digest.subrange(7, digest.len() as int);
        assert(digest =~= digest.subrange(0, 7) + rest);
    }
    if digest == "sha256:"@ + hex {
        assert(digest.subrange(0, 7) =~= "sha256:"@);
        assert(digest.subrange(7, digest.len() as int) =~= hex);
    }
    let owner = release.source.owned_by();
    let name = release.source.called();
    assert(name_part(owner) == unsplit(owner)) by {
        if !unsplit(owner) && owner.len() > 0 {
            let i = choose|i: int| 0 <= i < owner.len() && #[trigger] owner[i] == '/';
            assert(owner.contains('/'));
        }
    }
    assert(name_part(name) == unsplit(name)) by {
        if !unsplit(name) && name.len() > 0 {
            let i = choose|i: int| 0 <= i < name.len() && #[trigger] name[i] == '/';
            assert(name.contains('/'));
        }
    }
}

proof fn lemma_first_key(keys: Seq<Seq<u8>>, key: Seq<u8>, from: int)
    requires
        0 <= from <= keys.len(),
    ensures
        from <= key_position(keys, key, from) <= keys.len(),
        key_position(keys, key, from) < keys.len() ==> keys[key_position(keys, key, from)] == key,
        forall|i: int|
            from <= i < key_position(keys, key, from) ==> #[trigger] keys[i] != key,
    decreases keys.len() - from,
{
    if from < keys.len() && keys[from] != key {
        lemma_first_key(keys, key, from + 1);
    }
}

/// A release is genuine where what is claimed of it was built by its own
/// workflow, for its own tag.
pub proof fn releases_are_built_for_their_tags(
    release: ResolvedRelease,
    bundle: Seq<u8>,
    entries: Seq<LogEntryView>,
    keys: Result<Seq<Seq<u8>>, Seq<char>>,
)
    ensures
        provenance_under(release, bundle, entries, keys) is Ok <==> (claimed(
            release,
            entries,
            keys,
        ) matches Ok(claim) && verdict_of(
            bundle,
            release.source.owned_by() + "/"@ + release.source.called(),
            release.owner_id,
            release.repository_id,
            "refs/tags/"@ + release.tag@,
            None,
            release.source.owned_by() + "/"@ + release.source.called(),
            ".github/workflows/release.yml"@,
            None,
            claim.log,
            claim.origin,
            claim.digest,
        ) is Ok),
{
}

/// A bundle is read where neither it nor what it was packed from is too long.
pub proof fn bundles_are_read_within_limits(packed: Seq<u8>)
    ensures
        bundle_bytes(packed) is Ok <==> packed.len() <= 4194304 && unpacked_length(packed) is Ok
            && unpacked_length(packed)->Ok_0 <= 16777216 && unpacked(packed) is Ok,
        bundle_bytes(packed) is Ok ==> bundle_bytes(packed)->Ok_0 == unpacked(packed)->Ok_0,
{
}

/// A bundle is downloaded from one host alone, and in secret.
pub proof fn bundles_come_from_one_host(parsed: Result<AddressView, Seq<char>>)
    ensures
        bundle_url_checked(parsed) is Ok <==> parsed is Ok && parsed->Ok_0.scheme == "https"@
            && parsed->Ok_0.host == Some("tmaproduction.blob.core.windows.net"@),
        bundle_url_checked(parsed) is Ok ==> bundle_url_checked(parsed)->Ok_0
            == parsed->Ok_0.text,
{
}

} // verus!
