//! What the two showcases decide: a shader that is drawn frame by frame, and
//! a media player that is controlled by touch.
use vstd::prelude::*;

use crate::client::presentation::SessionPresentationLifecycle;
use crate::client::FrameFlow;
use crate::kit::{Scalar, ZERO_BITS};
use crate::scan;
use crate::text;

verus! {

// ---------------------------------------------------------------------------
// Frames

/// What follows a frame: nothing where the scene stands still, the end behind
/// the last frame, and another frame otherwise.
pub open spec fn following_flow(animate: bool, frame_number: int, max_frames: int) -> FrameFlow {
    if !animate {
        FrameFlow::Wait
    } else if frame_number + 1 >= max_frames {
        FrameFlow::Exit
    } else {
        FrameFlow::Animate
    }
}

pub fn next_frame_flow(animate: bool, frame_number: u64, max_frames: u64) -> (flow: FrameFlow)
    requires
        animate ==> frame_number < u64::MAX,
    ensures
        flow == following_flow(animate, frame_number as int, max_frames as int),
{
    if !animate {
        FrameFlow::Wait
    } else if frame_number + 1 >= max_frames {
        FrameFlow::Exit
    } else {
        FrameFlow::Animate
    }
}

/// Of the frames of an animated scene, numbered from 0, exactly the last one
/// that is wanted ends it.
pub proof fn animations_end_on_time(frame_number: int, max_frames: int)
    requires
        0 <= frame_number < max_frames,
    ensures
        following_flow(true, frame_number, max_frames) == FrameFlow::Exit <==> frame_number
            == max_frames - 1,
{
}

// ---------------------------------------------------------------------------
// Arguments

/// Why a showcase does not start.
#[derive(Debug, PartialEq, Eq)]
pub enum Stop {
    /// Only the usage was asked for.
    Help,
    /// Something is wrong with the arguments.
    Problem(String),
}

pub enum StopView {
    Help,
    Problem(Seq<char>),
}

impl Stop {
    pub open spec fn view(self) -> StopView {
        match self {
            Stop::Help => StopView::Help,
            Stop::Problem(text) => StopView::Problem(text@),
        }
    }
}

/// What becomes of one argument.
pub enum Taken<T> {
    /// It was enough by itself.
    Alone(T),
    /// It took the next argument with it.
    Paired(T),
    Stopped(StopView),
}

/// The word at a place, where there is one.
pub open spec fn word(words: Seq<Seq<char>>, at: int) -> Option<Seq<char>> {
    if 0 <= at < words.len() {
        Some(words[at])
    } else {
        None
    }
}

/// A number behind an option.
pub open spec fn count(
    name: Seq<char>,
    value: Option<Seq<char>>,
    most: nat,
) -> Result<nat, StopView> {
    match value {
        None => Err(StopView::Problem(name + " requires a value"@)),
        Some(text) => match scan::number_in(text, most) {
            Some(number) => Ok(number),
            None => Err(StopView::Problem(name + " must be an integer"@)),
        },
    }
}

fn read_count(name: &str, args: &Vec<String>, at: usize, most: u64) -> (number: Result<u64, Stop>)
    ensures
        match number {
            Ok(number) => count(name@, word(text::texts(args@), at as int), most as nat) == Ok::<
                nat,
                StopView,
            >(number as nat),
            Err(stop) => count(name@, word(text::texts(args@), at as int), most as nat) == Err::<
                nat,
                StopView,
            >(stop.view()),
        },
{
    if at >= args.len() {
        return Err(Stop::Problem(text::joined(name, " requires a value")));
    }
    match scan::parse_wide(args[at].as_str(), most) {
        Some(number) => Ok(number),
        None => Err(Stop::Problem(text::joined(name, " must be an integer"))),
    }
}

/// The text behind an option.
pub open spec fn given(name: Seq<char>, value: Option<Seq<char>>) -> Result<Seq<char>, StopView> {
    match value {
        None => Err(StopView::Problem(name + " requires a value"@)),
        Some(text) => Ok(text),
    }
}

fn read_text(name: &str, args: &Vec<String>, at: usize) -> (value: Result<String, Stop>)
    ensures
        match value {
            Ok(value) => given(name@, word(text::texts(args@), at as int)) == Ok::<
                Seq<char>,
                StopView,
            >(value@),
            Err(stop) => given(name@, word(text::texts(args@), at as int)) == Err::<
                Seq<char>,
                StopView,
            >(stop.view()),
        },
{
    if at >= args.len() {
        return Err(Stop::Problem(text::joined(name, " requires a value")));
    }
    Ok(text::copied(args[at].as_str()))
}

/// What the shader showcase was asked for. The variant is still a text.
#[derive(Debug, PartialEq, Eq)]
pub struct ShaderArguments {
    pub frames: u64,
    pub require_hardware: bool,
    pub plugin_id: String,
    pub item_id: Option<String>,
    pub variant: Option<String>,
    pub delay_ms: u64,
    pub fixed_width: Option<u32>,
    pub backdrop: bool,
    pub animate: bool,
}

pub struct ShaderArgumentsView {
    pub frames: nat,
    pub require_hardware: bool,
    pub plugin_id: Seq<char>,
    pub item_id: Option<Seq<char>>,
    pub variant: Option<Seq<char>>,
    pub delay_ms: nat,
    pub fixed_width: Option<u32>,
    pub backdrop: bool,
    pub animate: bool,
}

impl ShaderArguments {
    pub open spec fn view(self) -> ShaderArgumentsView {
        ShaderArgumentsView {
            frames: self.frames as nat,
            require_hardware: self.require_hardware,
            plugin_id: self.plugin_id@,
            item_id: match self.item_id {
                Some(text) => Some(text@),
                None => None,
            },
            variant: match self.variant {
                Some(text) => Some(text@),
                None => None,
            },
            delay_ms: self.delay_ms as nat,
            fixed_width: self.fixed_width,
            backdrop: self.backdrop,
            animate: self.animate,
        }
    }
}

/// What the arguments say before any is read.
pub open spec fn shader_defaults() -> ShaderArgumentsView {
    ShaderArgumentsView {
        frames: 600,
        require_hardware: false,
        plugin_id: "touchbar.gles-demo"@,
        item_id: None,
        variant: None,
        delay_ms: 0,
        fixed_width: None,
        backdrop: false,
        animate: true,
    }
}

/// One argument, and perhaps the one behind it.
pub open spec fn shader_argument(
    so_far: ShaderArgumentsView,
    name: Seq<char>,
    value: Option<Seq<char>>,
) -> Taken<ShaderArgumentsView> {
    if name == "--frames"@ {
        match count(name, value, u64::MAX as nat) {
            Ok(value) => Taken::Paired(ShaderArgumentsView { frames: value, ..so_far }),
            Err(stop) => Taken::Stopped(stop),
        }
    } else if name == "--plugin-id"@ {
        match given(name, value) {
            Ok(value) => Taken::Paired(ShaderArgumentsView { plugin_id: value, ..so_far }),
            Err(stop) => Taken::Stopped(stop),
        }
    } else if name == "--item-id"@ {
        match given(name, value) {
            Ok(value) => Taken::Paired(ShaderArgumentsView { item_id: Some(value), ..so_far }),
            Err(stop) => Taken::Stopped(stop),
        }
    } else if name == "--variant"@ {
        match given(name, value) {
            Ok(value) => Taken::Paired(ShaderArgumentsView { variant: Some(value), ..so_far }),
            Err(stop) => Taken::Stopped(stop),
        }
    } else if name == "--delay-ms"@ {
        match count(name, value, u64::MAX as nat) {
            Ok(value) => Taken::Paired(ShaderArgumentsView { delay_ms: value, ..so_far }),
            Err(stop) => Taken::Stopped(stop),
        }
    } else if name == "--fixed-width"@ {
        match count(name, value, u32::MAX as nat) {
            Ok(value) => Taken::Paired(
                ShaderArgumentsView { fixed_width: Some(value as u32), ..so_far },
            ),
            Err(stop) => Taken::Stopped(stop),
        }
    } else if name == "--require-hardware"@ {
        Taken::Alone(ShaderArgumentsView { require_hardware: true, ..so_far })
    } else if name == "--backdrop"@ {
        Taken::Alone(ShaderArgumentsView { backdrop: true, ..so_far })
    } else if name == "--static"@ {
        Taken::Alone(ShaderArgumentsView { animate: false, ..so_far })
    } else if name == "--help"@ || name == "-h"@ {
        Taken::Stopped(StopView::Help)
    } else {
        Taken::Stopped(StopView::Problem("unknown argument: "@ + name))
    }
}

/// The arguments from a place on.
pub open spec fn shader_reading(
    words: Seq<Seq<char>>,
    from: int,
    so_far: ShaderArgumentsView,
) -> Result<
    ShaderArgumentsView,
    StopView,
>
    decreases words.len() - from,
{
    if from < 0 || from >= words.len() {
        if so_far.frames == 0 {
            Err(StopView::Problem("--frames must be greater than zero"@))
        } else {
            Ok(so_far)
        }
    } else {
        match shader_argument(so_far, words[from], word(words, from + 1)) {
            Taken::Alone(next) => shader_reading(words, from + 1, next),
            Taken::Paired(next) => shader_reading(words, from + 2, next),
            Taken::Stopped(stop) => Err(stop),
        }
    }
}

/// Reads the arguments.
pub fn shader_arguments(args: &Vec<String>) -> (result: Result<ShaderArguments, Stop>)
    requires
        args@.len() < usize::MAX,
    ensures
        match result {
            Ok(arguments) => shader_reading(text::texts(args@), 0, shader_defaults()) == Ok::<
                ShaderArgumentsView,
                StopView,
            >(arguments.view()),
            Err(stop) => shader_reading(text::texts(args@), 0, shader_defaults()) == Err::<
                ShaderArgumentsView,
                StopView,
            >(stop.view()),
        },
{
    let ghost words = text::texts(args@);
    let mut read = ShaderArguments {
        frames: 600,
        require_hardware: false,
        plugin_id: text::copied("touchbar.gles-demo"),
        item_id: None,
        variant: None,
        delay_ms: 0,
        fixed_width: None,
        backdrop: false,
        animate: true,
    };
    let mut i: usize = 0;
    while i < args.len()
        invariant
            args@.len() < usize::MAX,
            words == text::texts(args@),
            i <= args@.len(),
            shader_reading(words, 0, shader_defaults()) == shader_reading(
                words,
                i as int,
                read.view(),
            ),
        decreases args@.len() - i,
    {
        let name: &str = args[i].as_str();
        proof {
            assert(words[i as int] == name@);
        }
        if text::same(name, "--frames") {
            let number: u64 = read_count(name, args, i + 1, u64::MAX)?;
            read.frames = number;
            i = i + 2;
        } else if text::same(name, "--plugin-id") {
            read.plugin_id = read_text(name, args, i + 1)?;
            i = i + 2;
        } else if text::same(name, "--item-id") {
            read.item_id = Some(read_text(name, args, i + 1)?);
            i = i + 2;
        } else if text::same(name, "--variant") {
            read.variant = Some(read_text(name, args, i + 1)?);
            i = i + 2;
        } else if text::same(name, "--delay-ms") {
            let number: u64 = read_count(name, args, i + 1, u64::MAX)?;
            read.delay_ms = number;
            i = i + 2;
        } else if text::same(name, "--fixed-width") {
            let number: u64 = read_count(name, args, i + 1, u32::MAX as u64)?;
            read.fixed_width = Some(number as u32);
            i = i + 2;
        } else if text::same(name, "--require-hardware") {
            read.require_hardware = true;
            i = i + 1;
        } else if text::same(name, "--backdrop") {
            read.backdrop = true;
            i = i + 1;
        } else if text::same(name, "--static") {
            read.animate = false;
            i = i + 1;
        } else if text::same(name, "--help") || text::same(name, "-h") {
            return Err(Stop::Help);
        } else {
            return Err(Stop::Problem(text::joined("unknown argument: ", name)));
        }
    }
    if read.frames == 0 {
        return Err(Stop::Problem(text::copied("--frames must be greater than zero")));
    }
    Ok(read)
}

/// What the media showcase was asked for.
#[derive(Debug, PartialEq, Eq)]
pub struct MediaArguments {
    pub frames: u64,
    pub width: Option<u32>,
    pub require_hardware: bool,
}

pub struct MediaArgumentsView {
    pub frames: nat,
    pub width: Option<u32>,
    pub require_hardware: bool,
}

impl MediaArguments {
    pub open spec fn view(self) -> MediaArgumentsView {
        MediaArgumentsView {
            frames: self.frames as nat,
            width: self.width,
            require_hardware: self.require_hardware,
        }
    }
}

/// What the arguments say before any is read.
pub open spec fn media_defaults() -> MediaArgumentsView {
    MediaArgumentsView { frames: 600, width: None, require_hardware: false }
}

/// One argument, and perhaps the one behind it.
pub open spec fn media_argument(
    so_far: MediaArgumentsView,
    name: Seq<char>,
    value: Option<Seq<char>>,
) -> Taken<MediaArgumentsView> {
    if name == "--frames"@ {
        match count(name, value, u64::MAX as nat) {
            Ok(value) => Taken::Paired(MediaArgumentsView { frames: value, ..so_far }),
            Err(stop) => Taken::Stopped(stop),
        }
    } else if name == "--width"@ {
        match count(name, value, u32::MAX as nat) {
            Ok(value) => Taken::Paired(MediaArgumentsView { width: Some(value as u32), ..so_far }),
            Err(stop) => Taken::Stopped(stop),
        }
    } else if name == "--require-hardware"@ {
        Taken::Alone(MediaArgumentsView { require_hardware: true, ..so_far })
    } else if name == "--help"@ || name == "-h"@ {
        Taken::Stopped(StopView::Help)
    } else {
        Taken::Stopped(StopView::Problem("unknown argument: "@ + name))
    }
}

/// The arguments from a place on.
pub open spec fn media_reading(
    words: Seq<Seq<char>>,
    from: int,
    so_far: MediaArgumentsView,
) -> Result<
    MediaArgumentsView,
    StopView,
>
    decreases words.len() - from,
{
    if from < 0 || from >= words.len() {
        if so_far.frames == 0 {
            Err(StopView::Problem("--frames must be greater than zero"@))
        } else if so_far.width matches Some(width) && !(1 <= width <= 2008) {
            Err(StopView::Problem("--width must be between 1 and 2008"@))
        } else {
            Ok(so_far)
        }
    } else {
        match media_argument(so_far, words[from], word(words, from + 1)) {
            Taken::Alone(next) => media_reading(words, from + 1, next),
            Taken::Paired(next) => media_reading(words, from + 2, next),
            Taken::Stopped(stop) => Err(stop),
        }
    }
}

/// Reads the arguments.
pub fn media_arguments(args: &Vec<String>) -> (result: Result<MediaArguments, Stop>)
    requires
        args@.len() < usize::MAX,
    ensures
        match result {
            Ok(arguments) => media_reading(text::texts(args@), 0, media_defaults()) == Ok::<
                MediaArgumentsView,
                StopView,
            >(arguments.view()),
            Err(stop) => media_reading(text::texts(args@), 0, media_defaults()) == Err::<
                MediaArgumentsView,
                StopView,
            >(stop.view()),
        },
{
    let ghost words = text::texts(args@);
    let mut read = MediaArguments { frames: 600, width: None, require_hardware: false };
    let mut i: usize = 0;
    while i < args.len()
        invariant
            args@.len() < usize::MAX,
            words == text::texts(args@),
            i <= args@.len(),
            media_reading(words, 0, media_defaults()) == media_reading(
                words,
                i as int,
                read.view(),
            ),
        decreases args@.len() - i,
    {
        let name: &str = args[i].as_str();
        proof {
            assert(words[i as int] == name@);
        }
        if text::same(name, "--frames") {
            let number: u64 = read_count(name, args, i + 1, u64::MAX)?;
            read.frames = number;
            i = i + 2;
        } else if text::same(name, "--width") {
            let number: u64 = read_count(name, args, i + 1, u32::MAX as u64)?;
            read.width = Some(number as u32);
            i = i + 2;
        } else if text::same(name, "--require-hardware") {
            read.require_hardware = true;
            i = i + 1;
        } else if text::same(name, "--help") || text::same(name, "-h") {
            return Err(Stop::Help);
        } else {
            return Err(Stop::Problem(text::joined("unknown argument: ", name)));
        }
    }
    if read.frames == 0 {
        return Err(Stop::Problem(text::copied("--frames must be greater than zero")));
    }
    if let Some(width) = read.width {
        if width == 0 || width > 2008 {
            return Err(Stop::Problem(text::copied("--width must be between 1 and 2008")));
        }
    }
    Ok(read)
}

// ---------------------------------------------------------------------------
// Media

/// How many tracks there are.
pub const TRACKS: usize = 3;

pub const ROOT: u64 = 100;

pub const PREVIOUS: u64 = 101;

pub const PLAY_PAUSE: u64 = 102;

pub const NEXT: u64 = 103;

pub const TIMELINE: u64 = 104;

/// The bits of 64.
pub const OPENING_BITS: u32 = 0x4280_0000;

/// What is played. The position is a number of seconds.
#[derive(Clone, Copy, Debug, PartialEq, Eq, Structural)]
pub struct Playback {
    pub track: usize,
    pub playing: bool,
    pub position: Scalar,
}

impl Default for Playback {
    fn default() -> (playback: Self)
        ensures
            playback == (Playback {
                track: 0,
                playing: true,
                position: Scalar { bits: OPENING_BITS },
            }),
    {
        Playback { track: 0, playing: true, position: Scalar { bits: OPENING_BITS } }
    }
}

/// The beginning of the track behind this one; the first follows the last.
pub open spec fn forward(playback: Playback) -> Playback {
    Playback {
        track: ((playback.track + 1) % (TRACKS as int)) as usize,
        position: Scalar { bits: ZERO_BITS },
        ..playback
    }
}

/// The beginning of the track before this one; the last precedes the first.
pub open spec fn backward(playback: Playback) -> Playback {
    Playback {
        track: if playback.track == 0 {
            (TRACKS - 1) as usize
        } else {
            (playback.track - 1) as usize
        },
        position: Scalar { bits: ZERO_BITS },
        ..playback
    }
}

impl Playback {
    /// The track is one of those there are.
    pub open spec fn wf(self) -> bool {
        self.track < TRACKS
    }

    pub fn next(&mut self)
        requires
            old(self).wf(),
        ensures
            final(self).wf(),
            *final(self) == forward(*old(self)),
    {
        self.track = (self.track + 1) % TRACKS;
        self.position = Scalar { bits: ZERO_BITS };
    }

    pub fn previous(&mut self)
        requires
            old(self).wf(),
        ensures
            final(self).wf(),
            *final(self) == backward(*old(self)),
    {
        self.track = if self.track == 0 {
            TRACKS - 1
        } else {
            self.track - 1
        };
        self.position = Scalar { bits: ZERO_BITS };
    }
}

/// Going forward and back, or back and forward, leads to the same track.
pub proof fn tracks_are_a_circle(playback: Playback)
    requires
        playback.wf(),
    ensures
        backward(forward(playback)).track == playback.track,
        forward(backward(playback)).track == playback.track,
{
}

/// Minutes and seconds, the seconds always with two digits.
pub open spec fn clock(seconds: int) -> Seq<char> {
    text::decimal(seconds / 60) + ":"@ + if seconds % 60 < 10 {
        "0"@ + text::decimal(seconds % 60)
    } else {
        text::decimal(seconds % 60)
    }
}

pub fn format_time(seconds: u32) -> (time: String)
    ensures
        time@ == clock(seconds as int),
{
    let minutes: String = text::decimal_text((seconds / 60) as u64);
    let rest: String = text::decimal_text((seconds % 60) as u64);
    if seconds % 60 < 10 {
        let padded: String = text::joined("0", rest.as_str());
        text::joined3(minutes.as_str(), ":", padded.as_str())
    } else {
        text::joined3(minutes.as_str(), ":", rest.as_str())
    }
}

/// What the button in the middle does.
#[derive(Clone, Copy, Debug, PartialEq, Eq, Structural)]
pub enum Transport {
    Play,
    Pause,
}

/// What the button in the middle does.
pub fn transport(playing: bool) -> (transport: Transport)
    ensures
        transport == if playing {
            Transport::Pause
        } else {
            Transport::Play
        },
{
    if playing {
        Transport::Pause
    } else {
        Transport::Play
    }
}

impl Transport {
    /// What the button is called.
    pub open spec fn named(self) -> Seq<char> {
        match self {
            Transport::Play => "Play"@,
            Transport::Pause => "Pause"@,
        }
    }

    pub fn label(self) -> (label: &'static str)
        ensures
            label@ == self.named(),
    {
        match self {
            Transport::Play => "Play",
            Transport::Pause => "Pause",
        }
    }
}

/// What the compact view is called.
pub fn now_playing(title: &str, artist: &str) -> (label: String)
    ensures
        label@ == "Now playing: "@ + title@ + " by "@ + artist@,
{
    text::joined4("Now playing: ", title, " by ", artist)
}

/// What the picture of a track is called.
pub fn artwork_label(title: &str) -> (label: String)
    ensures
        label@ == "Artwork for "@ + title@,
{
    text::joined("Artwork for ", title)
}

/// The headline of the expanded view.
pub fn headline(title: &str, artist: &str) -> (line: String)
    ensures
        line@ == title@ + " — "@ + artist@,
{
    text::joined3(title, " — ", artist)
}

/// What a touch led to.
#[derive(Clone, Copy, Debug, PartialEq, Eq, Structural)]
pub enum MediaEvent {
    Activated { id: u64 },
    LongPressed { id: u64, contact: u32 },
    ValueChanged { id: u64, value: Scalar },
    Other,
}

/// What the showcase does about it.
#[derive(Clone, Copy, Debug, PartialEq, Eq, Structural)]
pub enum MediaAction {
    Ignore,
    /// Asks for the expanded presentation.
    Present(SessionPresentationLifecycle),
    PlayPause,
    /// Another track begins, which is shown by a transition.
    Previous,
    Next,
    /// Goes to a share of the track.
    Seek(Scalar),
}

/// The state of the media showcase that touch and presentations change.
#[derive(Clone, Copy, Debug, PartialEq, Eq, Structural)]
pub struct MediaStage {
    pub playback: Playback,
    pub expanded: bool,
    pub pending_timeline_capture: Option<u32>,
    pub demo_cycle: u32,
}

/// What an event asks for.
pub open spec fn media_action(event: MediaEvent) -> MediaAction {
    match event {
        MediaEvent::Activated { id } => if id == ROOT {
            MediaAction::Present(SessionPresentationLifecycle::Persistent)
        } else if id == PLAY_PAUSE {
            MediaAction::PlayPause
        } else if id == PREVIOUS {
            MediaAction::Previous
        } else if id == NEXT {
            MediaAction::Next
        } else {
            MediaAction::Ignore
        },
        MediaEvent::LongPressed { id, contact } => if id == ROOT {
            MediaAction::Present(SessionPresentationLifecycle::Transient { contact_id: contact })
        } else {
            MediaAction::Ignore
        },
        MediaEvent::ValueChanged { id, value } => if id == TIMELINE {
            MediaAction::Seek(value)
        } else {
            MediaAction::Ignore
        },
        MediaEvent::Other => MediaAction::Ignore,
    }
}

/// What an action changes at once.
pub open spec fn after_action(stage: MediaStage, action: MediaAction) -> MediaStage {
    match action {
        MediaAction::Present(SessionPresentationLifecycle::Transient { contact_id }) => MediaStage {
            pending_timeline_capture: Some(contact_id),
            ..stage
        },
        MediaAction::PlayPause => MediaStage {
            playback: Playback { playing: !stage.playback.playing, ..stage.playback },
            ..stage
        },
        MediaAction::Previous => MediaStage { playback: backward(stage.playback), ..stage },
        MediaAction::Next => MediaStage { playback: forward(stage.playback), ..stage },
        MediaAction::Ignore | MediaAction::Seek(_) | MediaAction::Present(
            SessionPresentationLifecycle::Persistent,
        ) => stage,
    }
}

impl MediaStage {
    pub open spec fn wf(self) -> bool {
        self.playback.wf()
    }

    pub fn new() -> (stage: Self)
        ensures
            stage.wf(),
            stage.playback == (Playback {
                track: 0,
                playing: true,
                position: Scalar { bits: OPENING_BITS },
            }),
            !stage.expanded,
            stage.pending_timeline_capture is None,
            stage.demo_cycle == 0,
    {
        MediaStage {
            playback: Playback {
                track: 0,
                playing: true,
                position: Scalar { bits: OPENING_BITS },
            },
            expanded: false,
            pending_timeline_capture: None,
            demo_cycle: 0,
        }
    }

    /// Takes an event in. Where it goes to a share of the track, or asks for a
    /// presentation, that is left to the caller.
    pub fn consume(&mut self, event: MediaEvent) -> (action: MediaAction)
        requires
            old(self).wf(),
        ensures
            action == media_action(event),
            *final(self) == after_action(*old(self), action),
            final(self).wf(),
    {
        match event {
            MediaEvent::Activated { id } => if id == ROOT {
                MediaAction::Present(SessionPresentationLifecycle::Persistent)
            } else if id == PLAY_PAUSE {
                self.playback.playing = !self.playback.playing;
                MediaAction::PlayPause
            } else if id == PREVIOUS {
                self.playback.previous();
                MediaAction::Previous
            } else if id == NEXT {
                self.playback.next();
                MediaAction::Next
            } else {
                MediaAction::Ignore
            },
            MediaEvent::LongPressed { id, contact } => if id == ROOT {
                self.pending_timeline_capture = Some(contact);
                MediaAction::Present(
                    SessionPresentationLifecycle::Transient { contact_id: contact },
                )
            } else {
                MediaAction::Ignore
            },
            MediaEvent::ValueChanged { id, value } => if id == TIMELINE {
                MediaAction::Seek(value)
            } else {
                MediaAction::Ignore
            },
            MediaEvent::Other => MediaAction::Ignore,
        }
    }

    /// A presentation started; it counts where it is the one that was asked for.
    pub fn started(&mut self, current: bool)
        ensures
            *final(self) == (MediaStage { expanded: old(self).expanded || current, ..*old(self) }),
    {
        if current {
            self.expanded = true;
        }
    }

    /// A presentation ended; it counts where it was the one that was shown.
    pub fn ended(&mut self, dismissed: bool)
        ensures
            *final(self) == if dismissed {
                MediaStage { expanded: false, pending_timeline_capture: None, ..*old(self) }
            } else {
                *old(self)
            },
    {
        if dismissed {
            self.expanded = false;
            self.pending_timeline_capture = None;
        }
    }

    /// The simulation goes on to the next track in every new cycle.
    pub fn cycle(&mut self, demo_cycle: u32) -> (changed: bool)
        requires
            old(self).wf(),
        ensures
            final(self).wf(),
            changed == (demo_cycle > old(self).demo_cycle),
            *final(self) == if changed {
                MediaStage { demo_cycle, playback: forward(old(self).playback), ..*old(self) }
            } else {
                *old(self)
            },
    {
        if demo_cycle > self.demo_cycle {
            self.demo_cycle = demo_cycle;
            self.playback.next();
            true
        } else {
            false
        }
    }
}

/// A time is written as its minutes, a colon, and its seconds with two digits.
pub proof fn times_have_two_digits_for_seconds(minutes: int, tens: int, ones: int)
    requires
        minutes >= 0,
        0 <= tens < 6,
        0 <= ones < 10,
    ensures
        clock(60 * minutes + 10 * tens + ones) == text::decimal(minutes).push(':').push(
            text::digit(tens),
        ).push(text::digit(ones)),
{
    reveal_strlit(":");
    reveal_strlit("0");
    let seconds = 60 * minutes + 10 * tens + ones;
    let rest = 10 * tens + ones;
    assert(seconds / 60 == minutes && seconds % 60 == rest);
    assert(text::digit(0) == '0');
    if rest < 10 {
        assert(text::decimal(rest) =~= seq![text::digit(ones)]);
    } else {
        assert(rest / 10 == tens && rest % 10 == ones);
        assert(text::decimal(tens) =~= seq![text::digit(tens)]);
        assert(text::decimal(rest) =~= seq![text::digit(tens), text::digit(ones)]);
    }
    assert(clock(seconds) =~= text::decimal(minutes).push(':').push(text::digit(tens)).push(
        text::digit(ones),
    ));
}

/// Going forward as often as there are tracks leads back to the same one, each step starts
/// the track anew, and neither direction starts or stops the playing.
pub proof fn every_track_starts_anew(playback: Playback)
    requires
        playback.wf(),
    ensures
        forward(playback).position.bits == ZERO_BITS,
        backward(playback).position.bits == ZERO_BITS,
        forward(playback).playing == playback.playing,
        backward(playback).playing == playback.playing,
        playback.track + 1 < TRACKS ==> forward(playback).track == playback.track + 1,
        playback.track + 1 == TRACKS ==> forward(playback).track == 0,
        playback.track > 0 ==> backward(playback).track == playback.track - 1,
        playback.track == 0 ==> backward(playback).track == TRACKS - 1,
{
}

proof fn lemma_shader_behind(
    first: Seq<char>,
    rest: Seq<Seq<char>>,
    from: int,
    so_far: ShaderArgumentsView,
)
    requires
        0 <= from,
    ensures
        shader_reading(seq![first] + rest, from + 1, so_far) == shader_reading(rest, from, so_far),
    decreases rest.len() + 1 - from,
{
    let words = seq![first] + rest;
    if from < rest.len() {
        assert(words[from + 1] == rest[from]);
        assert(word(words, from + 2) == word(rest, from + 1));
        match shader_argument(so_far, rest[from], word(rest, from + 1)) {
            Taken::Alone(next) => lemma_shader_behind(first, rest, from + 1, next),
            Taken::Paired(next) => lemma_shader_behind(first, rest, from + 2, next),
            Taken::Stopped(_) => {},
        }
    }
}

proof fn lemma_media_behind(
    first: Seq<char>,
    rest: Seq<Seq<char>>,
    from: int,
    so_far: MediaArgumentsView,
)
    requires
        0 <= from,
    ensures
        media_reading(seq![first] + rest, from + 1, so_far) == media_reading(rest, from, so_far),
    decreases rest.len() + 1 - from,
{
    let words = seq![first] + rest;
    if from < rest.len() {
        assert(words[from + 1] == rest[from]);
        assert(word(words, from + 2) == word(rest, from + 1));
        match media_argument(so_far, rest[from], word(rest, from + 1)) {
            Taken::Alone(next) => lemma_media_behind(first, rest, from + 1, next),
            Taken::Paired(next) => lemma_media_behind(first, rest, from + 2, next),
            Taken::Stopped(_) => {},
        }
    }
}

/// An option with its value in front of other arguments changes what they are added to, and
/// nothing else: the number of frames, or the width.
pub proof fn options_set_one_thing_each(
    value: Seq<char>,
    rest: Seq<Seq<char>>,
    shader: ShaderArgumentsView,
    media: MediaArgumentsView,
)
    ensures
        scan::number_in(value, u64::MAX as nat) matches Some(frames) ==> {
            &&& shader_reading(seq!["--frames"@, value] + rest, 0, shader) == shader_reading(
                rest,
                0,
                ShaderArgumentsView { frames, ..shader },
            )
            &&& media_reading(seq!["--frames"@, value] + rest, 0, media) == media_reading(
                rest,
                0,
                MediaArgumentsView { frames, ..media },
            )
        },
        scan::number_in(value, u32::MAX as nat) matches Some(width) ==> media_reading(
            seq!["--width"@, value] + rest,
            0,
            media,
        ) == media_reading(rest, 0, MediaArgumentsView { width: Some(width as u32), ..media }),
        media_reading(seq!["--require-hardware"@] + rest, 0, media) == media_reading(
            rest,
            0,
            MediaArgumentsView { require_hardware: true, ..media },
        ),
        shader_reading(seq!["--require-hardware"@] + rest, 0, shader) == shader_reading(
            rest,
            0,
            ShaderArgumentsView { require_hardware: true, ..shader },
        ),
{
    reveal_strlit("--frames");
    reveal_strlit("--plugin-id");
    reveal_strlit("--item-id");
    reveal_strlit("--variant");
    reveal_strlit("--delay-ms");
    reveal_strlit("--fixed-width");
    reveal_strlit("--require-hardware");
    reveal_strlit("--width");
    assert("--width"@.len() != "--frames"@.len());
    assert("--require-hardware"@.len() == 18);
    let frames_words = seq!["--frames"@, value] + rest;
    assert(frames_words[0] == "--frames"@ && frames_words[1] == value);
    assert(frames_words =~= seq!["--frames"@] + (seq![value] + rest));
    let width_words = seq!["--width"@, value] + rest;
    assert(width_words[0] == "--width"@ && width_words[1] == value);
    assert(width_words =~= seq!["--width"@] + (seq![value] + rest));
    let hard_words = seq!["--require-hardware"@] + rest;
    assert(hard_words[0] == "--require-hardware"@);
    if let Some(frames) = scan::number_in(value, u64::MAX as nat) {
        let s = ShaderArgumentsView { frames, ..shader };
        let m = MediaArgumentsView { frames, ..media };
        lemma_shader_behind("--frames"@, seq![value] + rest, 1, s);
        lemma_shader_behind(value, rest, 0, s);
        lemma_media_behind("--frames"@, seq![value] + rest, 1, m);
        lemma_media_behind(value, rest, 0, m);
    }
    if let Some(width) = scan::number_in(value, u32::MAX as nat) {
        let m = MediaArgumentsView { width: Some(width as u32), ..media };
        lemma_media_behind("--width"@, seq![value] + rest, 1, m);
        lemma_media_behind(value, rest, 0, m);
    }
    lemma_shader_behind(
        "--require-hardware"@,
        rest,
        0,
        ShaderArgumentsView { require_hardware: true, ..shader },
    );
    lemma_media_behind(
        "--require-hardware"@,
        rest,
        0,
        MediaArgumentsView { require_hardware: true, ..media },
    );
}

} // verus!
