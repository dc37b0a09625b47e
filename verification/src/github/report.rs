//! What a refused request says to the user.
use vstd::prelude::*;

use crate::text;

verus! {

/// How much of an error is read.
pub const MAX_ERROR_BODY_BYTES: u64 = 8192;

/// How much of a message is shown.
pub const MAX_ERROR_MESSAGE_CHARS: usize = 256;

/// A remark of GitHub that may be shown: trimmed, cut short, and only if no
/// control character stands in it.
pub open spec fn shown(value: Seq<char>) -> Option<Seq<char>> {
    let short = text::trimmed(value);
    if short.len() == 0 || text::has_control(short) {
        None
    } else if short.len() <= MAX_ERROR_MESSAGE_CHARS {
        Some(short)
    } else {
        Some(short.subrange(0, MAX_ERROR_MESSAGE_CHARS as int))
    }
}

pub open spec fn text_view(text: Option<String>) -> Option<Seq<char>> {
    match text {
        Some(text) => Some(text@),
        None => None,
    }
}

pub open spec fn str_view(text: Option<&str>) -> Option<Seq<char>> {
    match text {
        Some(text) => Some(text@),
        None => None,
    }
}

pub fn safe_error_value(value: &str) -> (safe: Option<String>)
    ensures
        text_view(safe) == shown(value@),
{
    let short = text::trim(value);
    if short.as_str().is_empty() || text::contains_control(short.as_str()) {
        return None;
    }
    let chars: Vec<char> = text::characters(short.as_str());
    if chars.len() <= MAX_ERROR_MESSAGE_CHARS {
        return Some(short);
    }
    Some(text::text_of(&chars, 0, MAX_ERROR_MESSAGE_CHARS))
}

/// The remark, where there is one that may be shown.
pub open spec fn shown_part(value: Option<Seq<char>>) -> Option<Seq<char>> {
    match value {
        Some(value) => shown(value),
        None => None,
    }
}

fn safe_part(value: Option<&str>) -> (safe: Option<String>)
    ensures
        text_view(safe) == shown_part(str_view(value)),
{
    match value {
        Some(value) => safe_error_value(value),
        None => None,
    }
}

/// What GitHub answered to a request that failed.
#[derive(Debug)]
pub struct Refusal<'a> {
    /// The number of the status.
    pub status: u16,
    /// How many bytes the answer has.
    pub body_length: u64,
    /// The message in the answer, where it could be read.
    pub message: Option<&'a str>,
    pub request_id: Option<&'a str>,
    pub rate_remaining: Option<&'a str>,
    pub rate_reset: Option<&'a str>,
    pub retry_after: Option<&'a str>,
}

/// The limit on requests is used up.
pub open spec fn exhausted(refusal: Refusal) -> bool {
    refusal.status == 429 || (refusal.status == 403 && shown_part(str_view(refusal.rate_remaining))
        == Some("0"@))
}

/// What to do about a limit that is used up.
pub open spec fn rate_advice(
    retry_after: Option<Seq<char>>,
    reset: Option<Seq<char>>,
) -> Seq<char> {
    "GitHub API rate limit exhausted"@ + (match retry_after {
        Some(delay) => "; retry after "@ + delay,
        None => match reset {
            Some(time) => "; reset at Unix time "@ + time,
            None => Seq::empty(),
        },
    }) + "; set GITHUB_TOKEN to use an authenticated API limit"@
}

/// One more remark, behind the ones before it.
pub open spec fn with_remark(before: Seq<char>, remark: Option<Seq<char>>) -> Seq<char> {
    match remark {
        None => before,
        Some(remark) => if before.len() == 0 {
            ": "@ + remark
        } else {
            before + "; "@ + remark
        },
    }
}

/// All there is to say of a refusal.
pub open spec fn details(refusal: Refusal) -> Seq<char> {
    let message = if refusal.body_length <= MAX_ERROR_BODY_BYTES {
        shown_part(str_view(refusal.message))
    } else {
        None
    };
    let request = match shown_part(str_view(refusal.request_id)) {
        Some(id) => Some("request "@ + id),
        None => None,
    };
    let rate = if exhausted(refusal) {
        Some(
            rate_advice(
                shown_part(str_view(refusal.retry_after)),
                shown_part(str_view(refusal.rate_reset)),
            ),
        )
    } else {
        None
    };
    with_remark(with_remark(with_remark(Seq::empty(), message), request), rate)
}

fn add_remark(before: String, remark: Option<String>) -> (after: String)
    ensures
        after@ == with_remark(before@, text_view(remark)),
{
    match remark {
        None => before,
        Some(remark) => {
            if before.as_str().is_empty() {
                text::joined(": ", remark.as_str())
            } else {
                text::joined3(before.as_str(), "; ", remark.as_str())
            }
        },
    }
}

fn is_exhausted(refusal: &Refusal) -> (r: bool)
    ensures
        r == exhausted(*refusal),
{
    if refusal.status == 429 {
        return true;
    }
    if refusal.status != 403 {
        return false;
    }
    match safe_part(refusal.rate_remaining) {
        Some(remaining) => text::same(remaining.as_str(), "0"),
        None => false,
    }
}

fn advise(refusal: &Refusal) -> (advice: String)
    ensures
        advice@ == rate_advice(
            shown_part(str_view(refusal.retry_after)),
            shown_part(str_view(refusal.rate_reset)),
        ),
{
    let middle = match safe_part(refusal.retry_after) {
        Some(delay) => text::joined("; retry after ", delay.as_str()),
        None => match safe_part(refusal.rate_reset) {
            Some(time) => text::joined("; reset at Unix time ", time.as_str()),
            None => String::new(),
        },
    };
    text::joined3(
        "GitHub API rate limit exhausted",
        middle.as_str(),
        "; set GITHUB_TOKEN to use an authenticated API limit",
    )
}

/// All there is to say of a refusal: what GitHub said, as far as it may be
/// shown, and what to do where a limit is used up.
pub fn github_error_details(refusal: &Refusal) -> (text: String)
    ensures
        text@ == details(*refusal),
{
    let message = if refusal.body_length <= MAX_ERROR_BODY_BYTES {
        safe_part(refusal.message)
    } else {
        None
    };
    let request = match safe_part(refusal.request_id) {
        Some(id) => Some(text::joined("request ", id.as_str())),
        None => None,
    };
    let rate = if is_exhausted(refusal) {
        Some(advise(refusal))
    } else {
        None
    };
    let first = add_remark(String::new(), message);
    let second = add_remark(first, request);
    add_remark(second, rate)
}

/// The message about a request that failed.
pub fn refused(what: &str, status: &str, refusal: &Refusal) -> (text: String)
    ensures
        text@ == what@ + " request failed with HTTP "@ + status@ + details(*refusal),
{
    let details = github_error_details(refusal);
    text::joined4(what, " request failed with HTTP ", status, details.as_str())
}

/// What is shown of a remark is short, and no control character stands in it.
pub proof fn remarks_are_harmless(value: Seq<char>)
    ensures
        shown(value) is Some ==> {
            let remark = shown(value)->0;
            &&& 0 < remark.len() <= MAX_ERROR_MESSAGE_CHARS
            &&& !text::has_control(remark)
        },
{
    if shown(value) is Some {
        let remark = shown(value)->0;
        let short = text::trimmed(value);
        if text::has_control(remark) {
            let i = choose|i: int| 0 <= i < remark.len() && #[trigger] text::is_control(remark[i]);
            assert(short[i] == remark[i]);
        }
    }
}

/// A remark is shown without the white space around it, and no more than 256
/// characters of it. One that is blank or holds a control character is not
/// shown.
pub proof fn remarks_are_shown_in_short(value: Seq<char>)
    ensures
        shown(value) is None <==> text::trimmed(value).len() == 0 || exists|i: int|
            0 <= i < text::trimmed(value).len() && text::is_control(
                #[trigger] text::trimmed(value)[i],
            ),
        shown(value) matches Some(remark) ==> {
            &&& remark.len() == (if text::trimmed(value).len() < 256 {
                text::trimmed(value).len()
            } else {
                256
            })
            &&& forall|i: int|
                0 <= i < remark.len() ==> #[trigger] remark[i] == text::trimmed(value)[i]
        },
{
}

/// The limit is used up where the status says so, or where access is denied
/// and no requests are left.
pub proof fn limits_are_used_up_in_two_ways(refusal: Refusal)
    ensures
        refusal.status == 429 ==> exhausted(refusal),
        refusal.status == 403 ==> exhausted(refusal) == (shown_part(
            str_view(refusal.rate_remaining),
        ) == Some("0"@)),
        refusal.status != 429 && refusal.status != 403 ==> !exhausted(refusal),
{
}

} // verus!
