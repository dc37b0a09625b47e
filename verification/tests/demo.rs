use touchbar::client::presentation::SessionPresentationLifecycle;
use touchbar::client::FrameFlow;
use touchbar::demo::{
    artwork_label, format_time, headline, media_arguments, next_frame_flow, now_playing,
    shader_arguments, transport, MediaAction, MediaArguments, MediaEvent, MediaStage, Playback,
    ShaderArguments, Stop, Transport, NEXT, OPENING_BITS, PLAY_PAUSE, PREVIOUS, ROOT, TIMELINE,
    TRACKS,
};
use touchbar::kit::{Scalar, ZERO_BITS};

fn words(list: &[&str]) -> Vec<String> {
    list.iter().map(|word| word.to_string()).collect()
}

#[test]
fn static_scene_renders_once_and_then_idles() {
    assert!(matches!(next_frame_flow(false, 0, 1), FrameFlow::Wait));
    assert!(matches!(next_frame_flow(false, 999, 1_000), FrameFlow::Wait));
}

#[test]
fn animated_scene_stops_at_its_frame_limit() {
    assert!(matches!(next_frame_flow(true, 0, 2), FrameFlow::Animate));
    assert!(matches!(next_frame_flow(true, 1, 2), FrameFlow::Exit));
}

#[test]
fn tracks_follow_each_other_in_a_circle() {
    let mut playback = Playback { track: TRACKS - 1, ..Playback::default() };
    assert_eq!(f32::from_bits(OPENING_BITS), 64.0);
    playback.next();
    assert_eq!(playback.track, 0);
    assert_eq!(playback.position, Scalar { bits: ZERO_BITS });
    playback.previous();
    assert_eq!(playback.track, TRACKS - 1);
    playback.previous();
    assert_eq!(playback.track, TRACKS - 2);
}

#[test]
fn times_are_written_as_on_a_clock() {
    assert_eq!(format_time(0), "0:00");
    assert_eq!(format_time(64), "1:04");
    assert_eq!(format_time(214), "3:34");
    assert_eq!(format_time(6000), "100:00");
}

#[test]
fn touch_controls_the_media() {
    let mut stage = MediaStage::new();
    assert_eq!(
        stage.consume(MediaEvent::Activated { id: ROOT }),
        MediaAction::Present(SessionPresentationLifecycle::Persistent)
    );
    assert_eq!(
        stage.consume(MediaEvent::LongPressed { id: ROOT, contact: 4 }),
        MediaAction::Present(SessionPresentationLifecycle::Transient { contact_id: 4 })
    );
    assert_eq!(stage.pending_timeline_capture, Some(4));
    assert_eq!(stage.consume(MediaEvent::Activated { id: PLAY_PAUSE }), MediaAction::PlayPause);
    assert!(!stage.playback.playing);
    assert_eq!(stage.consume(MediaEvent::Activated { id: NEXT }), MediaAction::Next);
    assert_eq!(stage.playback.track, 1);
    assert_eq!(stage.consume(MediaEvent::Activated { id: PREVIOUS }), MediaAction::Previous);
    assert_eq!(stage.playback.track, 0);
    let value = Scalar { bits: 0.5f32.to_bits() };
    assert_eq!(
        stage.consume(MediaEvent::ValueChanged { id: TIMELINE, value }),
        MediaAction::Seek(value)
    );
    assert_eq!(stage.consume(MediaEvent::ValueChanged { id: ROOT, value }), MediaAction::Ignore);
    assert_eq!(stage.consume(MediaEvent::Other), MediaAction::Ignore);
    stage.started(false);
    assert!(!stage.expanded);
    stage.started(true);
    assert!(stage.expanded);
    stage.ended(false);
    assert!(stage.expanded);
    stage.ended(true);
    assert!(!stage.expanded);
    assert_eq!(stage.pending_timeline_capture, None);
    assert!(!stage.cycle(0));
    assert!(stage.cycle(1));
    assert_eq!((stage.demo_cycle, stage.playback.track), (1, 1));
}

fn problem(text: &str) -> Stop {
    Stop::Problem(text.into())
}

#[test]
fn shader_arguments_are_read_in_order() {
    assert_eq!(
        shader_arguments(&words(&[])).unwrap(),
        ShaderArguments {
            frames: 600,
            require_hardware: false,
            plugin_id: "touchbar.gles-demo".into(),
            item_id: None,
            variant: None,
            delay_ms: 0,
            fixed_width: None,
            backdrop: false,
            animate: true,
        }
    );
    let read = shader_arguments(&words(&[
        "--frames",
        "18446744073709551615",
        "--static",
        "--item-id",
        "x",
        "--fixed-width",
        "80",
        "--frames",
        "+2",
        "--variant",
        "0.5",
    ]))
    .unwrap();
    assert_eq!((read.frames, read.animate, read.fixed_width), (2, false, Some(80)));
    assert_eq!(read.item_id.as_deref(), Some("x"));
    assert_eq!(read.variant.as_deref(), Some("0.5"));
    let wrong = |list: &[&str]| shader_arguments(&words(list)).unwrap_err();
    assert_eq!(wrong(&["-h"]), Stop::Help);
    assert_eq!(wrong(&["--frames"]), problem("--frames requires a value"));
    assert_eq!(wrong(&["--frames", "x"]), problem("--frames must be an integer"));
    assert_eq!(
        wrong(&["--frames", "18446744073709551616"]),
        problem("--frames must be an integer")
    );
    assert_eq!(wrong(&["--frames", "0"]), problem("--frames must be greater than zero"));
    assert_eq!(wrong(&["--other"]), problem("unknown argument: --other"));
}

#[test]
fn media_arguments_bound_the_width() {
    assert_eq!(
        media_arguments(&words(&["--width", "2008", "--require-hardware"])).unwrap(),
        MediaArguments { frames: 600, width: Some(2008), require_hardware: true }
    );
    for width in ["0", "2009"] {
        assert_eq!(
            media_arguments(&words(&["--width", width])).unwrap_err(),
            problem("--width must be between 1 and 2008")
        );
    }
    assert_eq!(media_arguments(&words(&["--help"])).unwrap_err(), Stop::Help);
}

#[test]
fn media_is_labelled() {
    assert_eq!((transport(true), transport(false)), (Transport::Pause, Transport::Play));
    assert_eq!((Transport::Pause.label(), Transport::Play.label()), ("Pause", "Play"));
    assert_eq!(now_playing("Song", "Band"), "Now playing: Song by Band");
    assert_eq!(artwork_label("Song"), "Artwork for Song");
    assert_eq!(headline("Song", "Band"), "Song — Band");
}
