//! Which hosts may serve what a release consists of.
use vstd::prelude::*;

use super::problem;
use super::problem::{Failure, FailureView, Problem};
use crate::text;

verus! {

/// The hosts of GitHub that serve the assets of releases.
pub open spec fn serves_assets(host: Seq<char>) -> bool {
    host == "api.github.com"@ || host == "github.com"@ || host == "objects.githubusercontent.com"@
        || host == "github-releases.githubusercontent.com"@ || text::ends(
        host,
        ".githubusercontent.com"@,
    )
}

pub fn allowed_download_host(host: &str) -> (allowed: bool)
    ensures
        allowed == serves_assets(host@),
{
    text::same(host, "api.github.com") || text::same(host, "github.com") || text::same(
        host,
        "objects.githubusercontent.com",
    ) || text::same(host, "github-releases.githubusercontent.com") || text::ends_with(
        host,
        ".githubusercontent.com",
    )
}

/// The host that serves the bundles of attestations.
pub open spec fn serves_attestations(host: Seq<char>) -> bool {
    host == "tmaproduction.blob.core.windows.net"@
}

pub fn allowed_attestation_host(host: &str) -> (allowed: bool)
    ensures
        allowed == serves_attestations(host@),
{
    text::same(host, "tmaproduction.blob.core.windows.net")
}

/// What becomes of a redirect.
#[derive(Clone, Copy, Debug, PartialEq, Eq, Structural)]
pub enum Redirect {
    Follow,
    TooMany,
    Outside,
}

/// How many redirects of an asset are followed.
pub const MAX_ASSET_REDIRECTS: usize = 5;

/// How many redirects of a bundle are followed.
pub const MAX_ATTESTATION_REDIRECTS: usize = 2;

/// What becomes of a redirect of an asset, after so many others.
pub fn redirect_asset(previous: usize, scheme: &str, host: Option<&str>) -> (redirect: Redirect)
    ensures
        redirect == (if previous >= MAX_ASSET_REDIRECTS {
            Redirect::TooMany
        } else if scheme@ == "https"@ && host is Some && serves_assets(host->0@) {
            Redirect::Follow
        } else {
            Redirect::Outside
        }),
{
    if previous >= MAX_ASSET_REDIRECTS {
        return Redirect::TooMany;
    }
    if let Some(host) = host {
        if text::same(scheme, "https") && allowed_download_host(host) {
            return Redirect::Follow;
        }
    }
    Redirect::Outside
}

/// What becomes of a redirect of a bundle, after so many others.
pub fn redirect_attestation(previous: usize, scheme: &str, host: Option<&str>) -> (redirect:
    Redirect)
    ensures
        redirect == (if previous >= MAX_ATTESTATION_REDIRECTS {
            Redirect::TooMany
        } else if scheme@ == "https"@ && host is Some && serves_attestations(host->0@) {
            Redirect::Follow
        } else {
            Redirect::Outside
        }),
{
    if previous >= MAX_ATTESTATION_REDIRECTS {
        return Redirect::TooMany;
    }
    if let Some(host) = host {
        if text::same(scheme, "https") && allowed_attestation_host(host) {
            return Redirect::Follow;
        }
    }
    Redirect::Outside
}

impl Redirect {
    /// The message about a redirect of an asset that is not followed.
    pub fn asset_message(&self) -> (text: &'static str)
        ensures
            text@ == (match *self {
                Redirect::Follow => ""@,
                Redirect::TooMany => "too many GitHub asset redirects"@,
                Redirect::Outside => "GitHub asset redirected outside approved HTTPS hosts"@,
            }),
    {
        match self {
            Redirect::Follow => "",
            Redirect::TooMany => "too many GitHub asset redirects",
            Redirect::Outside => "GitHub asset redirected outside approved HTTPS hosts",
        }
    }

    /// The message about a redirect of a bundle that is not followed.
    pub fn attestation_message(&self) -> (text: &'static str)
        ensures
            text@ == (match *self {
                Redirect::Follow => ""@,
                Redirect::TooMany => "too many attestation bundle redirects"@,
                Redirect::Outside => "attestation bundle redirected outside approved HTTPS hosts"@,
            }),
    {
        match self {
            Redirect::Follow => "",
            Redirect::TooMany => "too many attestation bundle redirects",
            Redirect::Outside => "attestation bundle redirected outside approved HTTPS hosts",
        }
    }
}

/// No host serves both assets and attestations.
pub proof fn assets_and_attestations_are_apart(host: Seq<char>)
    ensures
        !(serves_assets(host) && serves_attestations(host)),
{
    reveal_strlit("tmaproduction.blob.core.windows.net");
    reveal_strlit("api.github.com");
    reveal_strlit("github.com");
    reveal_strlit("objects.githubusercontent.com");
    reveal_strlit("github-releases.githubusercontent.com");
    reveal_strlit(".githubusercontent.com");
    if serves_assets(host) && serves_attestations(host) {
        assert(host.last() == 't');
        if text::ends(host, ".githubusercontent.com"@) {
            assert(host.subrange(host.len() - 22, host.len() as int).last() == 'm');
        }
    }
}

// ---------------------------------------------------------------------------
// The token

/// A character that may stand in the value of a header.
pub open spec fn header_char(c: char) -> bool {
    (c as u32 >= 32 && c as u32 != 127) || c == '\t'
}

/// A text that may be the value of a header.
pub open spec fn header_text(text: Seq<char>) -> bool {
    forall|i: int| 0 <= i < text.len() ==> #[trigger] header_char(text[i])
}

/// Whether `reqwest::header::HeaderValue::from_str` accepts a text: it does
/// unless a control character other than the tabulator stands in it. (Every
/// byte of a character outside ASCII is at least 128, and accepted.)
#[verifier::external_body]
fn is_header_text(text: &str) -> (valid: bool)
    ensures
        valid == header_text(text@),
{
    reqwest::header::HeaderValue::from_str(text).is_ok()
}

/// The value of a header. A sensitive one is never shown.
#[derive(Debug, PartialEq, Eq)]
pub struct HeaderText {
    pub text: String,
    pub sensitive: bool,
}

/// [`HeaderText`], field by field.
#[verifier::ext_equal]
pub struct HeaderTextView {
    pub text: Seq<char>,
    pub sensitive: bool,
}

impl View for HeaderText {
    type V = HeaderTextView;

    open spec fn view(&self) -> HeaderTextView {
        HeaderTextView { text: self.text@, sensitive: self.sensitive }
    }
}

/// The header that a token stands in.
pub open spec fn token_checked(token: Seq<char>) -> Result<HeaderTextView, FailureView> {
    let value = "Bearer "@ + token;
    if token.len() == 0 {
        Err(problem::failed(Problem::TokenEmpty))
    } else if !header_text(value) {
        Err(problem::failed(Problem::TokenInvalid))
    } else {
        Ok(HeaderTextView { text: value, sensitive: true })
    }
}

/// The header that a token stands in.
pub fn bearer(token: &str) -> (result: Result<HeaderText, Failure>)
    ensures
        problem::outcome(result) == token_checked(token@),
{
    if token.is_empty() {
        return Err(Failure::of(Problem::TokenEmpty));
    }
    let value = text::joined("Bearer ", token);
    if !is_header_text(value.as_str()) {
        return Err(Failure::of(Problem::TokenInvalid));
    }
    Ok(HeaderText { text: value, sensitive: true })
}

/// The header of an installer: none without a token, and never an empty one.
pub fn github_token_header(token: Option<&str>) -> (result: Result<Option<HeaderText>, Failure>)
    ensures
        match token {
            None => result == Ok::<Option<HeaderText>, Failure>(None),
            Some(token) => match (result, token_checked(token@)) {
                (Ok(Some(header)), Ok(value)) => header@ == value,
                (Err(failure), Err(why)) => failure@ == why,
                _ => false,
            },
        },
{
    match token {
        None => Ok(None),
        Some(token) => match bearer(token) {
            Ok(header) => Ok(Some(header)),
            Err(failure) => Err(failure),
        },
    }
}

/// Assets come from GitHub's own hosts, and from those under one other name.
pub proof fn assets_come_from_github(host: Seq<char>)
    ensures
        serves_assets(host) <==> host == "api.github.com"@ || host == "github.com"@ || (host.len()
            >= 22 && forall|i: int|
            0 <= i < 22 ==> #[trigger] host[host.len() - 22 + i] == ".githubusercontent.com"@[i]),
{
    reveal_strlit(".githubusercontent.com");
    reveal_strlit("objects.githubusercontent.com");
    reveal_strlit("github-releases.githubusercontent.com");
    let suffix = ".githubusercontent.com"@;
    if host.len() >= 22 {
        let end = host.subrange(host.len() - 22, host.len() as int);
        if forall|i: int| 0 <= i < 22 ==> #[trigger] host[host.len() - 22 + i] == suffix[i] {
            assert forall|i: int| 0 <= i < 22 implies #[trigger] end[i] == suffix[i] by {
                assert(host[host.len() - 22 + i] == suffix[i]);
            }
            assert(end =~= suffix);
        }
        if text::ends(host, suffix) {
            assert forall|i: int| 0 <= i < 22 implies #[trigger] host[host.len() - 22 + i]
                == suffix[i] by {
                assert(end[i] == suffix[i]);
            }
        }
    }
}

/// Neither a control character nor a line's end: a tab may stand there.
pub open spec fn visible(c: char) -> bool {
    c == '\t' || (32 <= c as u32 && c as u32 != 127)
}

/// A token stands behind `Bearer `, and is kept secret. One that is empty or
/// holds what no header may hold is refused.
pub proof fn tokens_stand_in_headers(token: Seq<char>)
    ensures
        token_checked(token) is Ok <==> token.len() > 0 && forall|i: int|
            0 <= i < token.len() ==> visible(#[trigger] token[i]),
        token_checked(token) is Ok ==> token_checked(token)->Ok_0.text == "Bearer "@ + token
            && token_checked(token)->Ok_0.sensitive,
{
    reveal_strlit("Bearer ");
    let value = "Bearer "@ + token;
    if header_text(value) {
        assert forall|i: int| 0 <= i < token.len() implies visible(#[trigger] token[i]) by {
            assert(header_char(value[i + 7]));
        }
    }
    if forall|i: int| 0 <= i < token.len() ==> visible(#[trigger] token[i]) {
        assert forall|i: int| 0 <= i < value.len() implies #[trigger] header_char(value[i]) by {
            if i >= 7 {
                assert(value[i] == token[i - 7]);
            }
        }
    }
}

} // verus!
