//! When a frame is drawn.
use vstd::prelude::*;

use super::FrameFlow;

verus! {

/// What is known of the frames of a surface.
#[derive(Debug)]
pub struct Pace {
    frames: u64,
    /// The compositor was asked for a frame, and has not answered yet.
    frame_pending: bool,
    visible: bool,
    /// What is shown is out of date.
    redraw_pending: bool,
    last_flow: FrameFlow,
    /// There is something to draw on.
    ready: bool,
    running: bool,
}

/// [`Pace`], field by field.
#[verifier::ext_equal]
pub struct PaceView {
    pub frames: u64,
    pub frame_pending: bool,
    pub visible: bool,
    pub redraw_pending: bool,
    pub last_flow: FrameFlow,
    pub ready: bool,
    pub running: bool,
}

impl View for Pace {
    type V = PaceView;

    closed spec fn view(&self) -> PaceView {
        PaceView {
            frames: self.frames,
            frame_pending: self.frame_pending,
            visible: self.visible,
            redraw_pending: self.redraw_pending,
            last_flow: self.last_flow,
            ready: self.ready,
            running: self.running,
        }
    }
}

/// A frame is due: what is shown is out of date, there is something to draw
/// on that can be seen, and no answer of the compositor is awaited.
pub open spec fn due(pace: PaceView) -> bool {
    pace.redraw_pending && pace.visible && !pace.frame_pending && pace.ready
}

/// The pace once the surface has its place.
pub open spec fn placed(pace: PaceView) -> PaceView {
    PaceView { ready: true, redraw_pending: true, ..pace }
}

/// The pace once something happened that may have changed what is to be seen.
pub open spec fn stirred(pace: PaceView, redraw: bool) -> PaceView {
    PaceView { redraw_pending: pace.redraw_pending || redraw, ..pace }
}

/// The pace once the surface appeared or disappeared. An animation goes on when
/// it appears.
pub open spec fn revealed(pace: PaceView, visible: bool, redraw: bool) -> PaceView {
    PaceView {
        visible,
        redraw_pending: pace.redraw_pending || redraw || (visible && pace.last_flow
            == FrameFlow::Animate),
        ..pace
    }
}

/// The pace once the compositor wants a frame.
pub open spec fn called(pace: PaceView) -> PaceView {
    PaceView { frame_pending: false, ..pace }
}

/// The pace once a frame was drawn.
pub open spec fn drawn(pace: PaceView, flow: FrameFlow) -> PaceView {
    PaceView {
        frame_pending: pace.frame_pending || flow == FrameFlow::Animate,
        redraw_pending: false,
        last_flow: flow,
        ..pace
    }
}

/// The pace once a frame that was drawn is shown.
pub open spec fn shown(pace: PaceView) -> PaceView {
    PaceView {
        frames: (pace.frames + 1) as u64,
        running: pace.running && pace.last_flow != FrameFlow::Exit,
        ..pace
    }
}

impl Pace {
    pub fn new() -> (pace: Self)
        ensures
            pace@ == (PaceView {
                frames: 0,
                frame_pending: false,
                visible: true,
                redraw_pending: false,
                last_flow: FrameFlow::Wait,
                ready: false,
                running: true,
            }),
    {
        Pace {
            frames: 0,
            frame_pending: false,
            visible: true,
            redraw_pending: false,
            last_flow: FrameFlow::Wait,
            ready: false,
            running: true,
        }
    }

    /// The surface has its place; says whether a frame is drawn now.
    pub fn configured(&mut self) -> (draw: bool)
        ensures
            final(self)@ == placed(old(self)@),
            draw == old(self)@.visible,
    {
        self.ready = true;
        self.redraw_pending = true;
        self.visible
    }

    /// Something happened; says whether a frame is drawn now.
    pub fn stir(&mut self, redraw: bool) -> (draw: bool)
        ensures
            final(self)@ == stirred(old(self)@, redraw),
            draw == due(final(self)@),
    {
        if redraw {
            self.redraw_pending = true;
        }
        self.redraw_pending && self.visible && !self.frame_pending && self.ready
    }

    /// The surface appeared or disappeared; says whether a frame is drawn now.
    /// What is asked for while nothing can be seen is drawn once it can.
    pub fn visibility(&mut self, visible: bool, redraw: bool) -> (draw: bool)
        ensures
            final(self)@ == revealed(old(self)@, visible, redraw),
            draw == due(final(self)@),
    {
        self.visible = visible;
        if redraw || (visible && self.last_flow == FrameFlow::Animate) {
            self.redraw_pending = true;
        }
        self.redraw_pending && self.visible && !self.frame_pending && self.ready
    }

    /// The compositor wants a frame; says whether one is drawn now.
    pub fn frame_done(&mut self) -> (draw: bool)
        ensures
            final(self)@ == called(old(self)@),
            draw == (old(self)@.visible && (old(self)@.last_flow == FrameFlow::Animate
                || old(self)@.redraw_pending)),
    {
        self.frame_pending = false;
        self.visible && (self.last_flow == FrameFlow::Animate || self.redraw_pending)
    }

    /// A frame was drawn; says whether the compositor is asked for the next.
    pub fn rendered(&mut self, flow: FrameFlow) -> (ask: bool)
        ensures
            final(self)@ == drawn(old(self)@, flow),
            ask == (flow == FrameFlow::Animate && !old(self)@.frame_pending),
    {
        self.redraw_pending = false;
        self.last_flow = flow;
        let ask: bool = flow == FrameFlow::Animate && !self.frame_pending;
        if ask {
            self.frame_pending = true;
        }
        ask
    }

    /// The frame that was drawn is shown.
    pub fn presented(&mut self)
        requires
            old(self)@.frames < u64::MAX,
        ensures
            final(self)@ == shown(old(self)@),
    {
        self.frames = self.frames + 1;
        if self.last_flow == FrameFlow::Exit {
            self.running = false;
        }
    }

    /// The surface has its place, and the plugin could not be told of it or there
    /// is nothing to draw on.
    pub fn unplaced(&mut self, ready: bool)
        ensures
            final(self)@ == (PaceView { ready, running: false, ..old(self)@ }),
    {
        self.ready = ready;
        self.running = false;
    }

    /// The surface appeared or disappeared, and the plugin could not be told.
    pub fn lost(&mut self, visible: bool)
        ensures
            final(self)@ == (PaceView { visible, running: false, ..old(self)@ }),
    {
        self.visible = visible;
        self.running = false;
    }

    /// Something went wrong.
    pub fn fail(&mut self)
        ensures
            final(self)@ == (PaceView { running: false, ..old(self)@ }),
    {
        self.running = false;
    }

    pub fn running(&self) -> (running: bool)
        ensures
            running == self@.running,
    {
        self.running
    }

    /// How many frames were shown.
    pub fn frames(&self) -> (frames: u64)
        ensures
            frames == self@.frames,
    {
        self.frames
    }
}

/// The compositor is asked for one frame at a time: after it was asked, it is
/// not asked again before it answered.
pub proof fn one_frame_is_asked_for(pace: PaceView, first: FrameFlow, second: FrameFlow)
    requires
        first == FrameFlow::Animate,
    ensures
        drawn(pace, first).frame_pending,
        !(second == FrameFlow::Animate && !drawn(pace, first).frame_pending),
        drawn(drawn(pace, first), second).frame_pending,
        !called(drawn(drawn(pace, first), second)).frame_pending,
{
}

/// Nothing is drawn that cannot be seen, and what became out of date meanwhile
/// is drawn as soon as it can be seen.
pub proof fn hidden_changes_are_drawn_later(pace: PaceView, redraw: bool)
    requires
        pace.ready,
        !pace.frame_pending,
    ensures
        !due(revealed(pace, false, redraw)),
        !due(stirred(revealed(pace, false, redraw), true)),
        due(revealed(stirred(revealed(pace, false, redraw), true), true, false)),
{
}

/// Where nothing changes, nothing is drawn.
pub proof fn still_pictures_are_not_drawn(pace: PaceView)
    ensures
        !due(stirred(drawn(pace, FrameFlow::Wait), false)),
        !due(stirred(shown(drawn(pace, FrameFlow::Wait)), false)),
{
}

/// A frame counts once it is shown, and the last one ends the run then.
pub proof fn frames_count_when_shown(pace: PaceView, flow: FrameFlow)
    requires
        pace.frames < u64::MAX,
    ensures
        drawn(pace, flow).frames == pace.frames,
        drawn(pace, flow).running == pace.running,
        shown(drawn(pace, flow)).frames == pace.frames + 1,
        shown(drawn(pace, flow)).running == (pace.running && flow != FrameFlow::Exit),
{
}

/// What is out of date stays so until it is drawn, whatever else happens; and once it is
/// drawn, nothing is out of date.
pub proof fn changes_are_remembered_until_drawn(
    pace: PaceView,
    redraw: bool,
    visible: bool,
    flow: FrameFlow,
)
    ensures
        stirred(pace, true).redraw_pending,
        placed(pace).redraw_pending,
        pace.redraw_pending ==> stirred(pace, redraw).redraw_pending && revealed(
            pace,
            visible,
            redraw,
        ).redraw_pending && called(pace).redraw_pending && shown(pace).redraw_pending,
        !drawn(pace, flow).redraw_pending,
        !pace.redraw_pending ==> stirred(pace, redraw).redraw_pending == redraw,
        !pace.redraw_pending && pace.last_flow !is Animate ==> revealed(
            pace,
            visible,
            redraw,
        ).redraw_pending == redraw,
        !pace.redraw_pending && pace.last_flow is Animate ==> revealed(
            pace,
            visible,
            redraw,
        ).redraw_pending == (visible || redraw),
{
}

/// A run that is over stays over. Whether the surface can be seen, whether there is something
/// to draw on, and whether an answer of the compositor is awaited change only where that is
/// what happens.
pub proof fn everything_else_stays(pace: PaceView, redraw: bool, visible: bool, flow: FrameFlow)
    ensures
        !pace.running ==> !placed(pace).running && !stirred(pace, redraw).running && !revealed(
            pace,
            visible,
            redraw,
        ).running && !called(pace).running && !drawn(pace, flow).running && !shown(pace).running,
        placed(pace).visible == pace.visible,
        stirred(pace, redraw).visible == pace.visible,
        revealed(pace, visible, redraw).visible == visible,
        called(pace).visible == pace.visible,
        drawn(pace, flow).visible == pace.visible,
        shown(pace).visible == pace.visible,
        placed(pace).ready,
        stirred(pace, redraw).ready == pace.ready,
        revealed(pace, visible, redraw).ready == pace.ready,
        called(pace).ready == pace.ready,
        drawn(pace, flow).ready == pace.ready,
        placed(pace).frame_pending == pace.frame_pending,
        stirred(pace, redraw).frame_pending == pace.frame_pending,
        revealed(pace, visible, redraw).frame_pending == pace.frame_pending,
        !called(pace).frame_pending,
        drawn(pace, flow).frame_pending == (pace.frame_pending || flow is Animate),
        drawn(pace, flow).last_flow == flow,
        placed(pace).last_flow == pace.last_flow,
        revealed(pace, visible, redraw).last_flow == pace.last_flow,
        placed(pace).frames == pace.frames,
        stirred(pace, redraw).frames == pace.frames,
        revealed(pace, visible, redraw).frames == pace.frames,
        called(pace).frames == pace.frames,
{
}

/// A change is drawn at once exactly where there is something to draw on, it can be seen, and
/// no answer of the compositor is awaited.
pub proof fn changes_are_drawn_where_they_can_be(pace: PaceView)
    ensures
        due(stirred(pace, true)) <==> pace.ready && pace.visible && !pace.frame_pending,
        !pace.redraw_pending ==> !due(stirred(pace, false)),
        due(revealed(pace, true, true)) <==> pace.ready && !pace.frame_pending,
{
}

} // verus!
