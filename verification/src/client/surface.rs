//! What is done about each message of the compositor on a surface.
use vstd::prelude::*;

use super::pace::{Pace, PaceView};
use super::presentation;
use super::presentation::{
    LifecycleCode, PolicyCode, PolicyView, PresentationDismissReason, SessionPresentationLifecycle,
    SessionPresentationPolicy,
};
use super::{pace, ContactOrigin, ContactPhase, SurfaceConfig};
use crate::kit::{Scalar, ZERO_BITS};

verus! {

/// A message about a surface. Where a message names something by a number, there
/// is what the number names, nothing where that is not supported, or what is
/// wrong with the number.
#[derive(Debug)]
pub enum SurfaceEvent {
    Configure { serial: u32, width: u32, height: u32, refresh_millihz: u32 },
    Visibility { visible: u32 },
    TouchDown { place: (Scalar, Scalar), touch: Touch },
    TouchMotion { place: (Scalar, Scalar), touch: Touch },
    TouchUp { place: (Scalar, Scalar), touch: Touch },
    TouchCancel { touch: Touch },
    PresentationAnchor { session_id: u32, anchor: PopoverAnchor },
    PresentationStarted {
        session_id: u32,
        policy: Result<Option<PolicyCode>, String>,
        lifecycle: Result<Option<LifecycleCode>, String>,
        contact_id: u32,
        target: String,
    },
    PresentationEnded {
        session_id: u32,
        reason: Result<Option<PresentationDismissReason>, String>,
    },
    Other,
}

/// What every message about a touch says.
#[derive(Debug)]
pub struct Touch {
    pub time: u32,
    pub contact_id: u32,
    pub sequence_hi: u32,
    pub sequence_lo: u32,
    pub origin: Result<Option<ContactOrigin>, String>,
}

/// A touch, as a plugin is told of it.
#[derive(Clone, Copy, Debug, PartialEq, Eq, Structural)]
pub struct TouchContact {
    pub id: u32,
    pub phase: ContactPhase,
    pub x: Scalar,
    pub y: Scalar,
    /// When it was, in milliseconds by the clock of the compositor.
    pub compositor_time: u32,
    pub sequence_hi: u32,
    pub sequence_lo: u32,
    pub origin: ContactOrigin,
}

/// Where a presentation belongs to.
#[derive(Clone, Copy, Debug, PartialEq, Eq, Structural)]
pub struct PopoverAnchor {
    pub x: Scalar,
    pub width: Scalar,
}

/// What a plugin is told of its presentations.
#[derive(Clone, Debug, PartialEq, Eq)]
pub enum PresentationSessionEvent {
    Anchor { session_id: u32, anchor: PopoverAnchor },
    Started {
        session_id: u32,
        policy: SessionPresentationPolicy,
        lifecycle: SessionPresentationLifecycle,
    },
    Ended { session_id: u32, reason: PresentationDismissReason },
}

/// What is done about a message.
#[derive(Debug, PartialEq, Eq)]
pub enum Step {
    /// Acknowledges the place, prepares to draw on it, and tells the plugin.
    Configure { serial: u32, config: SurfaceConfig },
    /// Tells the plugin whether it can be seen.
    Visibility(bool),
    Touch(TouchContact),
    Presentation(PresentationSessionEvent),
    Ignore,
    /// Ends the run.
    Fail(String),
}

/// [`Step`], by the views of what it holds.
pub enum StepView {
    Configure(u32, SurfaceConfig),
    Visibility(bool),
    Touch(TouchContact),
    Anchor(u32, PopoverAnchor),
    Started(u32, PolicyView, SessionPresentationLifecycle),
    Ended(u32, PresentationDismissReason),
    Ignore,
    Fail(Seq<char>),
}

impl View for Step {
    type V = StepView;

    open spec fn view(&self) -> StepView {
        match self {
            Step::Configure { serial, config } => StepView::Configure(*serial, *config),
            Step::Visibility(visible) => StepView::Visibility(*visible),
            Step::Touch(contact) => StepView::Touch(*contact),
            Step::Presentation(PresentationSessionEvent::Anchor { session_id, anchor }) => {
                StepView::Anchor(*session_id, *anchor)
            },
            Step::Presentation(
                PresentationSessionEvent::Started { session_id, policy, lifecycle },
            ) => StepView::Started(*session_id, policy@, *lifecycle),
            Step::Presentation(PresentationSessionEvent::Ended { session_id, reason }) => {
                StepView::Ended(*session_id, *reason)
            },
            Step::Ignore => StepView::Ignore,
            Step::Fail(message) => StepView::Fail(message@),
        }
    }
}

/// Where a touch is; one that is called off is nowhere in particular.
pub open spec fn spot(place: Option<(Scalar, Scalar)>) -> (Scalar, Scalar) {
    match place {
        Some(place) => place,
        None => (Scalar { bits: ZERO_BITS }, Scalar { bits: ZERO_BITS }),
    }
}

/// What is done about a touch.
pub open spec fn touch_step(
    phase: ContactPhase,
    place: Option<(Scalar, Scalar)>,
    touch: Touch,
) -> StepView {
    match presentation::origin_code(touch.origin) {
        Ok(origin) => StepView::Touch(
            TouchContact {
                id: touch.contact_id,
                phase,
                x: spot(place).0,
                y: spot(place).1,
                compositor_time: touch.time,
                sequence_hi: touch.sequence_hi,
                sequence_lo: touch.sequence_lo,
                origin,
            },
        ),
        Err(message) => StepView::Fail(message),
    }
}

/// What is done about a message.
pub open spec fn step_for(event: SurfaceEvent) -> StepView {
    match event {
        SurfaceEvent::Configure { serial, width, height, refresh_millihz } => if width == 0
            || height == 0 {
            StepView::Fail("compositor configured an empty region"@)
        } else {
            StepView::Configure(serial, SurfaceConfig { width, height, refresh_millihz })
        },
        SurfaceEvent::Visibility { visible } => StepView::Visibility(visible != 0),
        SurfaceEvent::TouchDown { place, touch } => touch_step(
            ContactPhase::Down,
            Some(place),
            touch,
        ),
        SurfaceEvent::TouchMotion { place, touch } => touch_step(
            ContactPhase::Motion,
            Some(place),
            touch,
        ),
        SurfaceEvent::TouchUp { place, touch } => touch_step(ContactPhase::Up, Some(place), touch),
        SurfaceEvent::TouchCancel { touch } => touch_step(ContactPhase::Cancel, None, touch),
        SurfaceEvent::PresentationAnchor { session_id, anchor } => StepView::Anchor(
            session_id,
            anchor,
        ),
        SurfaceEvent::PresentationStarted { session_id, policy, lifecycle, contact_id, target } => {
            match (presentation::policy_code(policy), presentation::lifecycle_code(lifecycle)) {
                (Err(message), _) => StepView::Fail(message),
                (_, Err(message)) => StepView::Fail(message),
                (Ok(policy), Ok(lifecycle)) => StepView::Started(
                    session_id,
                    presentation::policy_read(policy, target@),
                    presentation::lifecycle_read(lifecycle, contact_id),
                ),
            }
        },
        SurfaceEvent::PresentationEnded { session_id, reason } => {
            match presentation::reason_code(reason) {
                Ok(reason) => StepView::Ended(session_id, reason),
                Err(message) => StepView::Fail(message),
            }
        },
        SurfaceEvent::Other => StepView::Ignore,
    }
}

fn touched(phase: ContactPhase, place: Option<(Scalar, Scalar)>, touch: Touch) -> (step: Step)
    ensures
        step@ == touch_step(phase, place, touch),
{
    let (x, y): (Scalar, Scalar) = match place {
        Some(place) => place,
        None => (Scalar { bits: ZERO_BITS }, Scalar { bits: ZERO_BITS }),
    };
    match presentation::decode_contact_origin(touch.origin) {
        Ok(origin) => Step::Touch(
            TouchContact {
                id: touch.contact_id,
                phase,
                x,
                y,
                compositor_time: touch.time,
                sequence_hi: touch.sequence_hi,
                sequence_lo: touch.sequence_lo,
                origin,
            },
        ),
        Err(message) => Step::Fail(message),
    }
}

/// Says what is done about a message.
pub fn event(received: SurfaceEvent) -> (step: Step)
    ensures
        step@ == step_for(received),
{
    match received {
        SurfaceEvent::Configure { serial, width, height, refresh_millihz } => {
            let config = SurfaceConfig { width, height, refresh_millihz };
            match config.check() {
                Ok(_) => Step::Configure { serial, config },
                Err(message) => Step::Fail(message.to_owned()),
            }
        },
        SurfaceEvent::Visibility { visible } => Step::Visibility(visible != 0),
        SurfaceEvent::TouchDown { place, touch } => touched(ContactPhase::Down, Some(place), touch),
        SurfaceEvent::TouchMotion { place, touch } => touched(
            ContactPhase::Motion,
            Some(place),
            touch,
        ),
        SurfaceEvent::TouchUp { place, touch } => touched(ContactPhase::Up, Some(place), touch),
        SurfaceEvent::TouchCancel { touch } => touched(ContactPhase::Cancel, None, touch),
        SurfaceEvent::PresentationAnchor { session_id, anchor } => {
            Step::Presentation(PresentationSessionEvent::Anchor { session_id, anchor })
        },
        SurfaceEvent::PresentationStarted { session_id, policy, lifecycle, contact_id, target } => {
            match presentation::decode_session_policy(policy, target) {
                Err(message) => Step::Fail(message),
                Ok(policy) => match presentation::decode_session_lifecycle(lifecycle, contact_id) {
                    Err(message) => Step::Fail(message),
                    Ok(lifecycle) => Step::Presentation(
                        PresentationSessionEvent::Started { session_id, policy, lifecycle },
                    ),
                },
            }
        },
        SurfaceEvent::PresentationEnded { session_id, reason } => {
            match presentation::decode_dismiss_reason(reason) {
                Ok(reason) => Step::Presentation(
                    PresentationSessionEvent::Ended { session_id, reason },
                ),
                Err(message) => Step::Fail(message),
            }
        },
        SurfaceEvent::Other => Step::Ignore,
    }
}

/// What came of a step.
#[derive(Clone, Copy, Debug, PartialEq, Eq, Structural)]
pub enum Outcome {
    /// It was taken; says whether the plugin wants to be drawn anew.
    Taken { redraw: bool },
    /// It failed; says whether there is something to draw on.
    Failed { ready: bool },
}

/// The pace once a step was taken, or failed.
pub open spec fn paced(before: PaceView, step: StepView, outcome: Outcome) -> PaceView {
    match (step, outcome) {
        (StepView::Ignore, _) => before,
        (StepView::Configure(..), Outcome::Taken { .. }) => pace::placed(before),
        (StepView::Configure(..), Outcome::Failed { ready }) => PaceView {
            ready,
            running: false,
            ..before
        },
        (StepView::Visibility(visible), Outcome::Taken { redraw }) => pace::revealed(
            before,
            visible,
            redraw,
        ),
        (StepView::Visibility(visible), Outcome::Failed { .. }) => PaceView {
            visible,
            running: false,
            ..before
        },
        (StepView::Touch(_), Outcome::Taken { redraw }) => pace::stirred(before, redraw),
        (StepView::Anchor(..), Outcome::Taken { .. }) => before,
        (StepView::Started(..), Outcome::Taken { .. }) => before,
        (StepView::Ended(..), Outcome::Taken { .. }) => before,
        _ => PaceView { running: false, ..before },
    }
}

/// Whether a frame is drawn at once after a step.
pub open spec fn draws(after: PaceView, step: StepView, outcome: Outcome) -> bool {
    outcome is Taken && match step {
        StepView::Configure(..) => after.visible,
        StepView::Visibility(_) | StepView::Touch(_) => pace::due(after),
        _ => false,
    }
}

/// Notes what came of a step; says whether a frame is drawn now.
pub fn settle(pace: &mut Pace, step: &Step, outcome: Outcome) -> (draw: bool)
    ensures
        final(pace)@ == paced(old(pace)@, step@, outcome),
        draw == draws(final(pace)@, step@, outcome),
{
    match (step, outcome) {
        (Step::Ignore, _) => false,
        (Step::Configure { serial: _, config: _ }, Outcome::Taken { redraw: _ }) => {
            pace.configured()
        },
        (Step::Configure { serial: _, config: _ }, Outcome::Failed { ready }) => {
            pace.unplaced(ready);
            false
        },
        (Step::Visibility(visible), Outcome::Taken { redraw }) => {
            pace.visibility(*visible, redraw)
        },
        (Step::Visibility(visible), Outcome::Failed { ready: _ }) => {
            pace.lost(*visible);
            false
        },
        (Step::Touch(_), Outcome::Taken { redraw }) => pace.stir(redraw),
        (Step::Presentation(_), Outcome::Taken { redraw: _ }) => false,
        _ => {
            pace.fail();
            false
        },
    }
}

/// A message that cannot be understood ends the run, whatever else happened.
pub proof fn misunderstandings_end_the_run(
    before: PaceView,
    event: SurfaceEvent,
    outcome: Outcome,
)
    requires
        step_for(event) is Fail,
    ensures
        !paced(before, step_for(event), outcome).running,
        !draws(paced(before, step_for(event), outcome), step_for(event), outcome),
{
}

/// A step that fails ends the run, and nothing is drawn after it.
pub proof fn failures_end_the_run(before: PaceView, step: StepView, ready: bool)
    requires
        step !is Ignore,
    ensures
        !paced(before, step, Outcome::Failed { ready }).running,
        !draws(paced(before, step, Outcome::Failed { ready }), step, Outcome::Failed { ready }),
{
}

/// A touch of unknown origin never reaches the plugin.
pub proof fn touches_have_an_origin(
    phase: ContactPhase,
    place: Option<(Scalar, Scalar)>,
    touch: Touch,
)
    ensures
        touch_step(phase, place, touch) matches StepView::Touch(contact) ==> touch.origin
            == Ok::<Option<ContactOrigin>, String>(Some(contact.origin)),
        !(touch.origin matches Ok(Some(_))) ==> touch_step(phase, place, touch) is Fail,
{
}

/// A touch reaches the plugin with what the compositor says of it: its phase, its place, its
/// number and its time. One that is called off has no place.
pub proof fn touches_arrive_as_they_are(place: (Scalar, Scalar), touch: Touch)
    requires
        touch.origin matches Ok(Some(_)),
    ensures
        step_for(SurfaceEvent::TouchDown { place, touch }) matches StepView::Touch(contact) && {
            &&& contact.phase is Down
            &&& contact.id == touch.contact_id
            &&& contact.x == place.0 && contact.y == place.1
            &&& contact.compositor_time == touch.time
            &&& contact.sequence_hi == touch.sequence_hi
            &&& contact.sequence_lo == touch.sequence_lo
        },
        step_for(SurfaceEvent::TouchMotion { place, touch }) matches StepView::Touch(contact) && {
            &&& contact.phase is Motion
            &&& contact.id == touch.contact_id
            &&& contact.x == place.0 && contact.y == place.1
            &&& contact.compositor_time == touch.time
        },
        step_for(SurfaceEvent::TouchUp { place, touch }) matches StepView::Touch(contact) && {
            &&& contact.phase is Up
            &&& contact.id == touch.contact_id
            &&& contact.x == place.0 && contact.y == place.1
            &&& contact.compositor_time == touch.time
        },
        step_for(SurfaceEvent::TouchCancel { touch }) matches StepView::Touch(contact) && {
            &&& contact.phase is Cancel
            &&& contact.id == touch.contact_id
            &&& contact.x.bits == ZERO_BITS && contact.y.bits == ZERO_BITS
            &&& contact.compositor_time == touch.time
        },
{
}

/// A presentation that is sent is started as it was meant, and a place that is not empty is
/// taken as it is.
pub proof fn presentations_start_as_they_were_sent(
    session_id: u32,
    policy: PolicyView,
    lifecycle: SessionPresentationLifecycle,
    target: String,
    serial: u32,
    width: u32,
    height: u32,
    refresh_millihz: u32,
)
    requires
        presentation::policy_sent(policy).1 == target@,
    ensures
        step_for(
            SurfaceEvent::PresentationStarted {
                session_id,
                policy: Ok(Some(presentation::policy_sent(policy).0)),
                lifecycle: Ok(Some(presentation::lifecycle_sent(lifecycle).0)),
                contact_id: presentation::lifecycle_sent(lifecycle).1,
                target,
            },
        ) == StepView::Started(session_id, policy, lifecycle),
        step_for(SurfaceEvent::Configure { serial, width, height, refresh_millihz }) is Fail
            <==> width == 0 || height == 0,
        width > 0 && height > 0 ==> step_for(
            SurfaceEvent::Configure { serial, width, height, refresh_millihz },
        ) == StepView::Configure(serial, SurfaceConfig { width, height, refresh_millihz }),
{
    presentation::presentations_read_back(policy, lifecycle);
}

} // verus!
