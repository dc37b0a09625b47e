//! Presentations that a plugin begins and ends.
use vstd::prelude::*;

use super::ContactOrigin;
use crate::text;

verus! {

/// Where a presentation stands.
#[derive(Clone, Debug, PartialEq, Eq)]
pub enum SessionPresentationPolicy {
    Anchored,
    InPlace,
    Slot(String),
    Region(String),
    FullBar,
}

/// [`SessionPresentationPolicy`], by the views of what it holds.
pub enum PolicyView {
    Anchored,
    InPlace,
    Slot(Seq<char>),
    Region(Seq<char>),
    FullBar,
}

impl View for SessionPresentationPolicy {
    type V = PolicyView;

    open spec fn view(&self) -> PolicyView {
        match self {
            SessionPresentationPolicy::Anchored => PolicyView::Anchored,
            SessionPresentationPolicy::InPlace => PolicyView::InPlace,
            SessionPresentationPolicy::Slot(target) => PolicyView::Slot(target@),
            SessionPresentationPolicy::Region(target) => PolicyView::Region(target@),
            SessionPresentationPolicy::FullBar => PolicyView::FullBar,
        }
    }
}

/// How long a presentation stays.
#[derive(Clone, Copy, Debug, PartialEq, Eq, Structural)]
pub enum SessionPresentationLifecycle {
    Transient { contact_id: u32 },
    Persistent,
}

/// Why a presentation ends.
#[derive(Clone, Copy, Debug, PartialEq, Eq, Structural)]
pub enum PresentationDismissReason {
    Requested,
    Selection,
    OutsidePress,
    Timeout,
    SourceHidden,
    Replaced,
    Rejected,
}

/// What a plugin asks of the compositor.
#[derive(Clone, Debug, PartialEq, Eq)]
pub enum PresentationSessionRequest {
    Begin {
        session_id: u32,
        policy: SessionPresentationPolicy,
        lifecycle: SessionPresentationLifecycle,
    },
    End { session_id: u32, reason: PresentationDismissReason },
}

/// How many requests are sent after each callback.
pub const PRESENTATION_BATCH: usize = 32;

/// Which place a message between the two processes means.
#[derive(Clone, Copy, Debug, PartialEq, Eq, Structural)]
pub enum PolicyCode {
    Anchored,
    InPlace,
    Slot,
    Region,
    FullBar,
}

/// Which stay a message between the two processes means.
#[derive(Clone, Copy, Debug, PartialEq, Eq, Structural)]
pub enum LifecycleCode {
    Transient,
    Persistent,
}

/// What a message about a place says.
pub open spec fn policy_sent(policy: PolicyView) -> (PolicyCode, Seq<char>) {
    match policy {
        PolicyView::Anchored => (PolicyCode::Anchored, Seq::empty()),
        PolicyView::InPlace => (PolicyCode::InPlace, Seq::empty()),
        PolicyView::Slot(target) => (PolicyCode::Slot, target),
        PolicyView::Region(target) => (PolicyCode::Region, target),
        PolicyView::FullBar => (PolicyCode::FullBar, Seq::empty()),
    }
}

pub fn encode_session_policy(policy: &SessionPresentationPolicy) -> (sent: (PolicyCode, String))
    ensures
        (sent.0, sent.1@) == policy_sent(policy@),
{
    match policy {
        SessionPresentationPolicy::Anchored => (PolicyCode::Anchored, String::new()),
        SessionPresentationPolicy::InPlace => (PolicyCode::InPlace, String::new()),
        SessionPresentationPolicy::Slot(target) => (PolicyCode::Slot, target.clone()),
        SessionPresentationPolicy::Region(target) => (PolicyCode::Region, target.clone()),
        SessionPresentationPolicy::FullBar => (PolicyCode::FullBar, String::new()),
    }
}

/// What a message about a place means.
pub open spec fn policy_read(code: PolicyCode, target: Seq<char>) -> PolicyView {
    match code {
        PolicyCode::Anchored => PolicyView::Anchored,
        PolicyCode::InPlace => PolicyView::InPlace,
        PolicyCode::Slot => PolicyView::Slot(target),
        PolicyCode::Region => PolicyView::Region(target),
        PolicyCode::FullBar => PolicyView::FullBar,
    }
}

/// What a message means by a number: what is named, nothing where the number is
/// known and not supported, or what is wrong with the number.
pub open spec fn code_read<T>(
    code: Result<Option<T>, String>,
    unknown: Seq<char>,
    unsupported: Seq<char>,
) -> Result<T, Seq<char>> {
    match code {
        Ok(Some(named)) => Ok(named),
        Ok(None) => Err(unsupported),
        Err(cause) => Err(unknown + cause@),
    }
}

/// What a number named, by its view.
pub open spec fn code_outcome<T>(result: Result<T, String>) -> Result<T, Seq<char>> {
    match result {
        Ok(named) => Ok(named),
        Err(message) => Err(message@),
    }
}

fn read_code<T>(code: Result<Option<T>, String>, unknown: &str, unsupported: &str) -> (result:
    Result<T, String>)
    ensures
        code_outcome(result) == code_read(code, unknown@, unsupported@),
{
    match code {
        Ok(Some(named)) => Ok(named),
        Ok(None) => Err(unsupported.to_owned()),
        Err(cause) => Err(text::joined(unknown, cause.as_str())),
    }
}

/// What the number of a place means.
pub open spec fn policy_code(code: Result<Option<PolicyCode>, String>) -> Result<
    PolicyCode,
    Seq<char>,
> {
    code_read(code, "unknown presentation policy "@, "unsupported presentation policy"@)
}

/// Reads a message about a place, unless it is of an unknown kind.
pub fn decode_session_policy(code: Result<Option<PolicyCode>, String>, target: String) -> (result:
    Result<SessionPresentationPolicy, String>)
    ensures
        match (result, policy_code(code)) {
            (Ok(policy), Ok(code)) => policy@ == policy_read(code, target@),
            (Err(message), Err(why)) => message@ == why,
            _ => false,
        },
{
    match read_code(code, "unknown presentation policy ", "unsupported presentation policy") {
        Ok(PolicyCode::Anchored) => Ok(SessionPresentationPolicy::Anchored),
        Ok(PolicyCode::InPlace) => Ok(SessionPresentationPolicy::InPlace),
        Ok(PolicyCode::Slot) => Ok(SessionPresentationPolicy::Slot(target)),
        Ok(PolicyCode::Region) => Ok(SessionPresentationPolicy::Region(target)),
        Ok(PolicyCode::FullBar) => Ok(SessionPresentationPolicy::FullBar),
        Err(message) => Err(message),
    }
}

/// What a message about a stay says.
pub open spec fn lifecycle_sent(lifecycle: SessionPresentationLifecycle) -> (LifecycleCode, u32) {
    match lifecycle {
        SessionPresentationLifecycle::Transient { contact_id } => (
            LifecycleCode::Transient,
            contact_id,
        ),
        SessionPresentationLifecycle::Persistent => (LifecycleCode::Persistent, 0),
    }
}

pub fn encode_session_lifecycle(lifecycle: SessionPresentationLifecycle) -> (sent: (
    LifecycleCode,
    u32,
))
    ensures
        sent == lifecycle_sent(lifecycle),
{
    match lifecycle {
        SessionPresentationLifecycle::Transient { contact_id } => {
            (LifecycleCode::Transient, contact_id)
        },
        SessionPresentationLifecycle::Persistent => (LifecycleCode::Persistent, 0),
    }
}

/// What a message about a stay means.
pub open spec fn lifecycle_read(
    code: LifecycleCode,
    contact_id: u32,
) -> SessionPresentationLifecycle {
    match code {
        LifecycleCode::Transient => SessionPresentationLifecycle::Transient { contact_id },
        LifecycleCode::Persistent => SessionPresentationLifecycle::Persistent,
    }
}

/// What the number of a stay means.
pub open spec fn lifecycle_code(code: Result<Option<LifecycleCode>, String>) -> Result<
    LifecycleCode,
    Seq<char>,
> {
    code_read(code, "unknown presentation lifecycle "@, "unsupported presentation lifecycle"@)
}

/// Reads a message about a stay, unless it is of an unknown kind.
pub fn decode_session_lifecycle(
    code: Result<Option<LifecycleCode>, String>,
    contact_id: u32,
) -> (result: Result<SessionPresentationLifecycle, String>)
    ensures
        match (result, lifecycle_code(code)) {
            (Ok(lifecycle), Ok(code)) => lifecycle == lifecycle_read(code, contact_id),
            (Err(message), Err(why)) => message@ == why,
            _ => false,
        },
{
    match read_code(
        code,
        "unknown presentation lifecycle ",
        "unsupported presentation lifecycle",
    ) {
        Ok(LifecycleCode::Transient) => Ok(SessionPresentationLifecycle::Transient { contact_id }),
        Ok(LifecycleCode::Persistent) => Ok(SessionPresentationLifecycle::Persistent),
        Err(message) => Err(message),
    }
}

/// What the number of a reason means.
pub open spec fn reason_code(reason: Result<Option<PresentationDismissReason>, String>) -> Result<
    PresentationDismissReason,
    Seq<char>,
> {
    code_read(reason, "unknown dismiss reason "@, "unsupported presentation dismiss reason"@)
}

/// Reads why a presentation ended, unless it is for an unknown reason.
pub fn decode_dismiss_reason(reason: Result<Option<PresentationDismissReason>, String>) -> (result:
    Result<PresentationDismissReason, String>)
    ensures
        code_outcome(result) == reason_code(reason),
{
    read_code(reason, "unknown dismiss reason ", "unsupported presentation dismiss reason")
}

/// What the number of an origin means.
pub open spec fn origin_code(origin: Result<Option<ContactOrigin>, String>) -> Result<
    ContactOrigin,
    Seq<char>,
> {
    code_read(origin, "unknown Touch Bar input origin "@, "unsupported Touch Bar input origin"@)
}

/// Reads who touches, unless it is someone unknown.
pub fn decode_contact_origin(origin: Result<Option<ContactOrigin>, String>) -> (result: Result<
    ContactOrigin,
    String,
>)
    ensures
        code_outcome(result) == origin_code(origin),
{
    read_code(origin, "unknown Touch Bar input origin ", "unsupported Touch Bar input origin")
}

/// What is sent about a place and a stay is what is read.
pub proof fn presentations_read_back(policy: PolicyView, lifecycle: SessionPresentationLifecycle)
    ensures
        policy_read(policy_sent(policy).0, policy_sent(policy).1) == policy,
        lifecycle_read(lifecycle_sent(lifecycle).0, lifecycle_sent(lifecycle).1) == lifecycle,
{
}

/// A place is named in a message by what it is, and the target of one that has
/// a target goes with it. So does the contact of a stay that has one.
pub proof fn presentations_are_named_as_they_are(target: Seq<char>, contact_id: u32)
    ensures
        policy_sent(PolicyView::Slot(target)) == (PolicyCode::Slot, target),
        policy_sent(PolicyView::Region(target)) == (PolicyCode::Region, target),
        policy_sent(PolicyView::Anchored).0 is Anchored,
        policy_sent(PolicyView::InPlace).0 is InPlace,
        policy_sent(PolicyView::FullBar).0 is FullBar,
        policy_read(PolicyCode::Slot, target) == PolicyView::Slot(target),
        policy_read(PolicyCode::Region, target) == PolicyView::Region(target),
        policy_read(PolicyCode::Anchored, target) is Anchored,
        policy_read(PolicyCode::InPlace, target) is InPlace,
        policy_read(PolicyCode::FullBar, target) is FullBar,
        lifecycle_sent(SessionPresentationLifecycle::Transient { contact_id }) == (
            LifecycleCode::Transient,
            contact_id,
        ),
        lifecycle_read(LifecycleCode::Transient, contact_id) == (
        SessionPresentationLifecycle::Transient { contact_id }),
        lifecycle_read(LifecycleCode::Persistent, contact_id) is Persistent,
{
}

} // verus!
