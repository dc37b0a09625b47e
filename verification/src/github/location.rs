//! The addresses that a publisher may send to.
use vstd::prelude::*;

use super::problem;
use super::problem::{Failure, FailureView, Problem};
use super::release::RELEASE_ASSET_NAME;
use super::report;
use crate::source::GithubSource;
use crate::text;

verus! {

/// Where GitHub takes the files of a release.
pub const UPLOAD_ROOT: &'static str = "https://uploads.github.com";

/// An address, in its parts.
#[derive(Debug, PartialEq, Eq)]
pub struct Address {
    /// The whole address.
    pub text: String,
    pub scheme: String,
    pub username: String,
    pub password: Option<String>,
    pub host: Option<String>,
    /// The port, where one is written that is not the usual one.
    pub port: Option<u16>,
    /// The port, or else the usual one of the scheme.
    pub known_port: Option<u16>,
    pub path: String,
    pub query: Option<String>,
    pub fragment: Option<String>,
    /// Nothing can be relative to this address.
    pub no_base: bool,
}

/// [`Address`], field by field.
#[verifier::ext_equal]
pub struct AddressView {
    pub text: Seq<char>,
    pub scheme: Seq<char>,
    pub username: Seq<char>,
    pub password: Option<Seq<char>>,
    pub host: Option<Seq<char>>,
    pub port: Option<u16>,
    pub known_port: Option<u16>,
    pub path: Seq<char>,
    pub query: Option<Seq<char>>,
    pub fragment: Option<Seq<char>>,
    pub no_base: bool,
}

impl View for Address {
    type V = AddressView;

    open spec fn view(&self) -> AddressView {
        AddressView {
            text: self.text@,
            scheme: self.scheme@,
            username: self.username@,
            password: report::text_view(self.password),
            host: report::text_view(self.host),
            port: self.port,
            known_port: self.known_port,
            path: self.path@,
            query: report::text_view(self.query),
            fragment: report::text_view(self.fragment),
            no_base: self.no_base,
        }
    }
}

/// What `url::Url::parse` makes of a text: the parts of the address, or what
/// it says is wrong with the text.
pub uninterp spec fn address_of(text: Seq<char>) -> Result<AddressView, Seq<char>>;

/// A parsed address, by its view.
pub open spec fn parsed_view(parsed: Result<Address, String>) -> Result<AddressView, Seq<char>> {
    match parsed {
        Ok(address) => Ok(address@),
        Err(message) => Err(message@),
    }
}

/// `url::Url::parse`, with the parts of the address and the message of the
/// error as plain values.
#[verifier::external_body]
pub(crate) fn parse_address(text: &str) -> (parsed: Result<Address, String>)
    ensures
        parsed_view(parsed) == address_of(text@),
{
    url::Url::parse(text).map_err(|error| error.to_string()).map(|url| Address {
        text: url.as_str().to_owned(),
        scheme: url.scheme().to_owned(),
        username: url.username().to_owned(),
        password: url.password().map(str::to_owned),
        host: url.host_str().map(str::to_owned),
        port: url.port(),
        known_port: url.port_or_known_default(),
        path: url.path().to_owned(),
        query: url.query().map(str::to_owned),
        fragment: url.fragment().map(str::to_owned),
        no_base: url.cannot_be_a_base(),
    })
}

/// What `url::Url::set_path` makes of an address, or what `url::Url::parse` says
/// is wrong with it.
pub uninterp spec fn replaced_path(address: Seq<char>, path: Seq<char>) -> Result<
    Seq<char>,
    Seq<char>,
>;

/// A changed address, by its view.
pub open spec fn changed_view(changed: Result<String, String>) -> Result<Seq<char>, Seq<char>> {
    match changed {
        Ok(address) => Ok(address@),
        Err(message) => Err(message@),
    }
}

/// The address with another path, by `url::Url::set_path`, or the message of
/// `url::Url::parse`, which comes exactly where the text is no address.
#[verifier::external_body]
fn with_path(address: &str, path: &str) -> (changed: Result<String, String>)
    ensures
        changed_view(changed) == replaced_path(address@, path@),
        changed is Ok <==> address_of(address@) is Ok,
        changed matches Err(message) ==> address_of(address@)->Err_0 == message@,
{
    let mut url = url::Url::parse(address).map_err(|error| error.to_string())?;
    url.set_path(path);
    Ok(String::from(url))
}

/// What `url::Url::join` makes of an address and a relative one.
pub uninterp spec fn relative_to(
    base: Seq<char>,
    relative: Seq<char>,
) -> Result<Seq<char>, Seq<char>>;

/// The address that a relative one stands for, by `url::Url::join`, or the
/// message of its error.
#[verifier::external_body]
fn join(base: &str, relative: &str) -> (joined: Result<String, String>)
    ensures
        changed_view(joined) == relative_to(base@, relative@),
{
    url::Url::parse(base).and_then(|url| url.join(relative)).map(String::from).map_err(
        |error| error.to_string(),
    )
}

/// What `append_pair` of `url::Url::query_pairs_mut` makes of an address, or
/// what `url::Url::parse` says is wrong with it.
pub uninterp spec fn with_query(
    address: Seq<char>,
    name: Seq<char>,
    value: Seq<char>,
) -> Result<Seq<char>, Seq<char>>;

/// The address with one more pair in its query, by `append_pair` of
/// `url::Url::query_pairs_mut`, or the message of `url::Url::parse`, which comes
/// exactly where the text is no address.
#[verifier::external_body]
fn append_pair(address: &str, name: &str, value: &str) -> (changed: Result<String, String>)
    ensures
        changed_view(changed) == with_query(address@, name@, value@),
        changed is Ok <==> address_of(address@) is Ok,
        changed matches Err(message) ==> address_of(address@)->Err_0 == message@,
{
    let mut url = url::Url::parse(address).map_err(|error| error.to_string())?;
    url.query_pairs_mut().append_pair(name, value);
    Ok(String::from(url))
}

// ---------------------------------------------------------------------------
// Origins

/// Which of the two origins of a publisher.
#[derive(Clone, Copy, Debug, PartialEq, Eq, Structural)]
pub enum Origin {
    Api,
    Upload,
}

/// The origin cannot be read.
pub open spec fn unreadable(origin: Origin) -> Problem {
    match origin {
        Origin::Api => Problem::ApiOriginUnreadable,
        Origin::Upload => Problem::UploadOriginUnreadable,
    }
}

fn unreadable_problem(origin: Origin) -> (problem: Problem)
    ensures
        problem == unreadable(origin),
{
    match origin {
        Origin::Api => Problem::ApiOriginUnreadable,
        Origin::Upload => Problem::UploadOriginUnreadable,
    }
}

/// The origin is none that may be sent to.
pub open spec fn invalid(origin: Origin) -> Problem {
    match origin {
        Origin::Api => Problem::ApiOriginInvalid,
        Origin::Upload => Problem::UploadOriginInvalid,
    }
}

/// An address that other addresses can be made from.
pub open spec fn is_origin(address: AddressView, require_https: bool) -> bool {
    &&& !address.no_base
    &&& address.host is Some
    &&& require_https ==> address.scheme == "https"@
    &&& address.query is None
    &&& address.fragment is None
}

/// What an origin is once it has been read.
pub open spec fn origin_checked(
    origin: Origin,
    value: Seq<char>,
    parsed: Result<AddressView, Seq<char>>,
    require_https: bool,
) -> Result<Seq<char>, FailureView> {
    match parsed {
        Err(cause) => Err(problem::failed_by(unreadable(origin), cause)),
        Ok(address) => if is_origin(address, require_https) {
            match replaced_path(value, "/"@) {
                Ok(address) => Ok(address),
                Err(cause) => Err(problem::failed_by(unreadable(origin), cause)),
            }
        } else {
            Err(problem::failed(invalid(origin)))
        },
    }
}

/// [`normalized_origin`], once the address has been read.
pub fn check_origin(
    origin: Origin,
    value: &str,
    parsed: Result<Address, String>,
    require_https: bool,
) -> (result: Result<String, Failure>)
    ensures
        problem::outcome(result) == origin_checked(
            origin,
            value@,
            parsed_view(parsed),
            require_https,
        ),
        address_of(value@) is Ok ==> (result is Ok <==> parsed is Ok && is_origin(
            parsed->Ok_0@,
            require_https,
        )),
{
    match parsed {
        Err(cause) => Err(Failure::because(unreadable_problem(origin), cause)),
        Ok(address) => {
            if address.no_base || address.host.is_none() || (require_https && !text::same(
                address.scheme.as_str(),
                "https",
            )) || address.query.is_some() || address.fragment.is_some() {
                let problem = match origin {
                    Origin::Api => Problem::ApiOriginInvalid,
                    Origin::Upload => Problem::UploadOriginInvalid,
                };
                return Err(Failure::of(problem));
            }
            match with_path(value, "/") {
                Ok(address) => Ok(address),
                Err(cause) => Err(Failure::because(unreadable_problem(origin), cause)),
            }
        },
    }
}

/// The origin with an empty path, where it is one that may be sent to.
pub fn normalized_origin(origin: Origin, value: &str, require_https: bool) -> (result: Result<
    String,
    Failure,
>)
    ensures
        problem::outcome(result) == origin_checked(
            origin,
            value@,
            address_of(value@),
            require_https,
        ),
        result is Ok <==> (address_of(value@) matches Ok(address) && is_origin(
            address,
            require_https,
        )),
{
    let parsed = parse_address(value);
    check_origin(origin, value, parsed, require_https)
}

/// The same scheme, host and port.
pub open spec fn one_origin(left: AddressView, right: AddressView) -> bool {
    left.scheme == right.scheme && left.host == right.host && left.known_port == right.known_port
}

pub fn same_text(left: &Option<String>, right: &Option<String>) -> (same: bool)
    ensures
        same == (report::text_view(*left) == report::text_view(*right)),
{
    match (left, right) {
        (Some(left), Some(right)) => text::same(left.as_str(), right.as_str()),
        (None, None) => true,
        _ => false,
    }
}

pub fn same_origin(left: &Address, right: &Address) -> (same: bool)
    ensures
        same == one_origin(left@, right@),
{
    let ports: bool = match (left.known_port, right.known_port) {
        (Some(a), Some(b)) => a == b,
        (None, None) => true,
        _ => false,
    };
    text::same(left.scheme.as_str(), right.scheme.as_str()) && same_text(&left.host, &right.host)
        && ports
}

/// Having the same origin is an equivalence.
pub proof fn origins_are_classes(a: AddressView, b: AddressView, c: AddressView)
    ensures
        one_origin(a, a),
        one_origin(a, b) == one_origin(b, a),
        one_origin(a, b) && one_origin(b, c) ==> one_origin(a, c),
{
}

/// The two origins of a publisher.
#[derive(Debug)]
pub struct Origins {
    /// Where requests go.
    pub api: String,
    /// Where files go.
    pub upload: Address,
}

impl Origins {
    /// The origins as they are written, each with an empty path.
    pub fn build(api_root: &str, upload_root: &str, require_https: bool) -> (result: Result<
        Self,
        Failure,
    >)
        ensures
            match origin_checked(Origin::Api, api_root@, address_of(api_root@), require_https) {
                Err(why) => result is Err && result->Err_0@ == why,
                Ok(api) => match origin_checked(
                    Origin::Upload,
                    upload_root@,
                    address_of(upload_root@),
                    require_https,
                ) {
                    Err(why) => result is Err && result->Err_0@ == why,
                    Ok(upload) => match address_of(upload) {
                        Err(cause) => result is Err && result->Err_0@ == problem::failed_by(
                            Problem::UploadOriginUnreadable,
                            cause,
                        ),
                        Ok(address) => result is Ok && result->Ok_0.api@ == api
                            && result->Ok_0.upload@ == address,
                    },
                },
            },
    {
        let api = normalized_origin(Origin::Api, api_root, require_https)?;
        let upload = normalized_origin(Origin::Upload, upload_root, require_https)?;
        match parse_address(upload.as_str()) {
            Ok(upload) => Ok(Origins { api, upload }),
            Err(cause) => Err(Failure::because(Problem::UploadOriginUnreadable, cause)),
        }
    }
}

// ---------------------------------------------------------------------------
// Endpoints

/// What follows the origin of GitHub's interface for a repository.
pub open spec fn endpoint_path(source: GithubSource, suffix: Seq<char>) -> Seq<char> {
    "repos/"@ + source.owned_by() + "/"@ + source.called() + "/"@ + suffix
}

/// The address that a request about a repository goes to.
pub open spec fn endpoint(root: Seq<char>, source: GithubSource, suffix: Seq<char>) -> Result<
    Seq<char>,
    FailureView,
> {
    match relative_to(root, endpoint_path(source, suffix)) {
        Ok(address) => Ok(address),
        Err(cause) => Err(problem::failed_by(Problem::Endpoint, cause)),
    }
}

pub fn api_endpoint(root: &str, source: &GithubSource, suffix: &str) -> (result: Result<
    String,
    Failure,
>)
    ensures
        problem::outcome(result) == endpoint(root@, *source, suffix@),
{
    let owner = text::joined3("repos/", source.owner(), "/");
    let path = text::joined4(owner.as_str(), source.repository(), "/", suffix);
    proof {
        assert(path@ =~= endpoint_path(*source, suffix@));
    }
    match join(root, path.as_str()) {
        Ok(address) => Ok(address),
        Err(cause) => Err(Failure::because(Problem::Endpoint, cause)),
    }
}

/// Where the first opening brace from `from` on stands, or else the end.
pub open spec fn brace(text: Seq<char>, from: int) -> int
    decreases text.len() - from,
{
    if from >= text.len() {
        text.len() as int
    } else if text[from] == '{' {
        from
    } else {
        brace(text, from + 1)
    }
}

/// What stands before the first opening brace.
pub open spec fn before_brace(text: Seq<char>) -> Seq<char> {
    text.subrange(0, brace(text, 0))
}

fn cut_at_brace(text: &str) -> (short: String)
    ensures
        short@ == before_brace(text@),
{
    let chars: Vec<char> = text::characters(text);
    let mut i: usize = 0;
    while i < chars.len()
        invariant
            i <= chars@.len(),
            chars@ == text@,
            brace(text@, 0) == brace(text@, i as int),
        decreases chars@.len() - i,
    {
        if chars[i] == '{' {
            return text::text_of(&chars, 0, i);
        }
        i = i + 1;
    }
    text::text_of(&chars, 0, i)
}

/// The one path that the files of a release are sent to.
pub open spec fn upload_path(source: GithubSource, release_id: u64) -> Seq<char> {
    "/repos/"@ + source.owned_by() + "/"@ + source.called() + "/releases/"@ + text::decimal(
        release_id as int,
    ) + "/assets"@
}

/// The address is exactly where the files of this release are sent to.
pub open spec fn is_upload_address(
    address: AddressView,
    root: AddressView,
    source: GithubSource,
    release_id: u64,
) -> bool {
    &&& one_origin(address, root)
    &&& address.query is None
    &&& address.fragment is None
    &&& address.path == upload_path(source, release_id)
}

/// Where the package of a release is sent to.
pub open spec fn upload_checked(
    root: AddressView,
    source: GithubSource,
    release_id: u64,
    advertised: Seq<char>,
    parsed: Result<AddressView, Seq<char>>,
) -> Result<Seq<char>, FailureView> {
    match parsed {
        Err(cause) => Err(problem::failed_by(Problem::UploadUrlUnreadable, cause)),
        Ok(address) => if is_upload_address(address, root, source, release_id) {
            match with_query(before_brace(advertised), "name"@, RELEASE_ASSET_NAME@) {
                Ok(address) => Ok(address),
                Err(cause) => Err(problem::failed_by(Problem::UploadUrlUnreadable, cause)),
            }
        } else {
            Err(problem::failed(Problem::UploadUrlOutside))
        },
    }
}

/// [`validated_upload_url`], once the address has been read.
pub fn check_upload_url(
    root: &Address,
    source: &GithubSource,
    release_id: u64,
    advertised: &str,
    parsed: Result<Address, String>,
) -> (result: Result<String, Failure>)
    ensures
        problem::outcome(result) == upload_checked(
            root@,
            *source,
            release_id,
            advertised@,
            parsed_view(parsed),
        ),
        address_of(before_brace(advertised@)) is Ok ==> (result is Ok <==> parsed is Ok
            && is_upload_address(parsed->Ok_0@, root@, *source, release_id)),
{
    let address = match parsed {
        Ok(address) => address,
        Err(cause) => {
            return Err(Failure::because(Problem::UploadUrlUnreadable, cause));
        },
    };
    let number = text::decimal_text(release_id);
    let owner = text::joined4("/repos/", source.owner(), "/", source.repository());
    let path = text::joined4(owner.as_str(), "/releases/", number.as_str(), "/assets");
    proof {
        assert(path@ =~= upload_path(*source, release_id));
    }
    if !same_origin(&address, root) || address.query.is_some() || address.fragment.is_some()
        || !text::same(address.path.as_str(), path.as_str()) {
        return Err(Failure::of(Problem::UploadUrlOutside));
    }
    let short = cut_at_brace(advertised);
    match append_pair(short.as_str(), "name", RELEASE_ASSET_NAME) {
        Ok(address) => Ok(address),
        Err(cause) => Err(Failure::because(Problem::UploadUrlUnreadable, cause)),
    }
}

/// Where the package of a release is sent to. What GitHub advertises is
/// accepted only if it is exactly the endpoint of the repository.
pub fn validated_upload_url(
    root: &Address,
    source: &GithubSource,
    release_id: u64,
    advertised: &str,
) -> (result: Result<String, Failure>)
    ensures
        problem::outcome(result) == upload_checked(
            root@,
            *source,
            release_id,
            advertised@,
            address_of(before_brace(advertised@)),
        ),
        result is Ok <==> (address_of(before_brace(advertised@)) matches Ok(address)
            && is_upload_address(address, root@, *source, release_id)),
{
    let short = cut_at_brace(advertised);
    let parsed = parse_address(short.as_str());
    check_upload_url(root, source, release_id, advertised, parsed)
}

/// An address on another origin, or for another repository or release, is
/// never accepted for an upload.
pub proof fn uploads_stay_at_the_endpoint(
    root: AddressView,
    source: GithubSource,
    release_id: u64,
    advertised: Seq<char>,
    address: AddressView,
)
    requires
        !one_origin(address, root) || address.path != upload_path(source, release_id),
    ensures
        upload_checked(root, source, release_id, advertised, Ok(address)) is Err,
{
}

/// An advertised address counts up to its first opening brace: what is checked is the part of
/// it that has none, and it is followed by one or by nothing.
pub proof fn addresses_end_at_the_first_brace(text: Seq<char>)
    ensures
        before_brace(text).len() <= text.len(),
        forall|i: int|
            0 <= i < before_brace(text).len() ==> #[trigger] before_brace(text)[i] == text[i]
                && text[i] != '{',
        before_brace(text).len() < text.len() ==> text[before_brace(text).len() as int] == '{',
{
    lemma_first_brace(text, 0);
}

proof fn lemma_first_brace(text: Seq<char>, from: int)
    requires
        0 <= from <= text.len(),
    ensures
        from <= brace(text, from) <= text.len(),
        brace(text, from) < text.len() ==> text[brace(text, from)] == '{',
        forall|i: int| from <= i < brace(text, from) ==> #[trigger] text[i] != '{',
    decreases text.len() - from,
{
    if from < text.len() && text[from] != '{' {
        lemma_first_brace(text, from + 1);
    }
}

} // verus!
