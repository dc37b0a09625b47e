use touchbar::client::appearance::{AppearanceAssembly, ColorRole, ColorScheme, MotionPolicy};
use touchbar::client::pace::Pace;
use touchbar::client::presentation::{
    decode_contact_origin, decode_dismiss_reason, decode_session_lifecycle, decode_session_policy,
    encode_session_lifecycle, encode_session_policy, LifecycleCode, PolicyCode,
    PresentationDismissReason, SessionPresentationLifecycle, SessionPresentationPolicy,
};
use touchbar::client::surface::{
    event, settle, Outcome, PopoverAnchor, PresentationSessionEvent, Step, SurfaceEvent, Touch,
    TouchContact,
};
use touchbar::client::{
    check_renderer, has_extension, ClientOptions, ContactOrigin, ContactPhase, FrameFlow, Sizing,
    SurfaceConfig, SurfaceRole,
};
use touchbar::kit::Scalar;

#[test]
fn options_are_checked_before_anything_runs() {
    let options = ClientOptions::new("demo", "touchbar-0");
    assert_eq!(options.item_id, "demo");
    assert_eq!(options.compact_sizing, Sizing::new(80, 1004, 2008));
    assert!(options.check().is_ok());
    assert_eq!(options.requested_expansion(), Sizing::new(0, 0, 0));
    let narrow = options.clone().compact_sizing(Sizing::new(0, 1, 1));
    assert_eq!(
        narrow.check(),
        Err("compact sizing must satisfy 0 < minimum <= preferred <= maximum")
    );
    assert!(narrow.backdrop().check().is_ok());
    let wide = options.clone().expanded_sizing(Sizing::new(3, 2, 4));
    assert_eq!(
        wide.check(),
        Err("expanded sizing must satisfy 0 < minimum <= preferred <= maximum")
    );
    let named = options.item_id("media").require_hardware(true);
    assert_eq!((named.item_id.as_str(), named.require_hardware), ("media", true));
    assert_eq!(named.surface_role, SurfaceRole::Item);
}

#[test]
fn renderers_and_extensions_are_recognised() {
    assert!(check_renderer("Apple M1", true).is_ok());
    assert!(check_renderer("LLVMpipe (LLVM 17)", false).is_ok());
    assert_eq!(
        check_renderer("LLVMpipe (LLVM 17)", true).unwrap_err(),
        "software renderer selected: LLVMpipe (LLVM 17)"
    );
    assert!(check_renderer("softpipe", true).is_err());
    assert!(
        has_extension(
            "EGL_A EGL_ANDROID_native_fence_sync  EGL_B",
            "EGL_ANDROID_native_fence_sync",
        ),
    );
    assert!(!has_extension("EGL_ANDROID_native_fence_sync2", "EGL_ANDROID_native_fence_sync"));
    assert!(!has_extension("", "EGL_A"));
}

#[test]
fn frames_are_drawn_when_they_are_due() {
    let mut pace = Pace::new();
    assert!(pace.running());
    // nothing to draw on yet
    assert!(!pace.stir(true));
    assert!(pace.configured());
    assert!(pace.rendered(FrameFlow::Animate));
    // a frame counts once it is shown
    assert_eq!(pace.frames(), 0);
    pace.presented();
    assert_eq!(pace.frames(), 1);
    // the compositor was asked already
    assert!(!pace.stir(true));
    assert!(pace.frame_done());
    assert!(pace.rendered(FrameFlow::Animate));
    assert!(!pace.visibility(false, false));
    assert!(!pace.frame_done());
    // hidden changes wait
    assert!(!pace.stir(true));
    assert!(pace.visibility(true, false));
    assert!(!pace.rendered(FrameFlow::Wait));
    assert!(!pace.stir(false));
    assert!(pace.stir(true));
    assert!(!pace.rendered(FrameFlow::Exit));
    assert!(pace.running());
    pace.presented();
    assert!(!pace.running());
    assert_eq!(pace.frames(), 2);
}

#[test]
fn presentations_are_sent_as_they_are_read() {
    for policy in [
        SessionPresentationPolicy::Anchored,
        SessionPresentationPolicy::InPlace,
        SessionPresentationPolicy::Slot("s".into()),
        SessionPresentationPolicy::Region("r".into()),
        SessionPresentationPolicy::FullBar,
    ] {
        let (code, target) = encode_session_policy(&policy);
        assert_eq!(decode_session_policy(Ok(Some(code)), target).unwrap(), policy);
    }
    assert_eq!(
        encode_session_policy(&SessionPresentationPolicy::Slot("s".into())),
        (PolicyCode::Slot, "s".to_string())
    );
    for lifecycle in [
        SessionPresentationLifecycle::Transient { contact_id: 4 },
        SessionPresentationLifecycle::Persistent,
    ] {
        let (code, contact) = encode_session_lifecycle(lifecycle);
        assert_eq!(decode_session_lifecycle(Ok(Some(code)), contact), Ok(lifecycle));
    }
    let policy = |code| decode_session_policy(code, String::new()).unwrap_err();
    assert_eq!(policy(Ok(None)), "unsupported presentation policy");
    assert_eq!(policy(Err("9".into())), "unknown presentation policy 9");
    let lifecycle = |code| decode_session_lifecycle(code, 0).unwrap_err();
    assert_eq!(lifecycle(Ok(None)), "unsupported presentation lifecycle");
    assert_eq!(lifecycle(Err("9".into())), "unknown presentation lifecycle 9");
    let reason = |code| decode_dismiss_reason(code).unwrap_err();
    assert_eq!(reason(Ok(None)), "unsupported presentation dismiss reason");
    assert_eq!(reason(Err("9".into())), "unknown dismiss reason 9");
    let origin = |code| decode_contact_origin(code).unwrap_err();
    assert_eq!(origin(Ok(None)), "unsupported Touch Bar input origin");
    assert_eq!(origin(Err("9".into())), "unknown Touch Bar input origin 9");
}

fn touch(origin: Option<ContactOrigin>) -> Touch {
    let origin = Ok(origin);
    Touch { time: 5, contact_id: 2, sequence_hi: 0, sequence_lo: 9, origin }
}

fn n(value: f32) -> Scalar {
    Scalar { bits: value.to_bits() }
}

#[test]
fn messages_lead_to_steps() {
    assert_eq!(
        event(SurfaceEvent::Configure { serial: 1, width: 10, height: 60, refresh_millihz: 60000 }),
        Step::Configure {
            serial: 1,
            config: SurfaceConfig { width: 10, height: 60, refresh_millihz: 60000 },
        }
    );
    assert_eq!(
        event(SurfaceEvent::Configure { serial: 1, width: 0, height: 60, refresh_millihz: 0 }),
        Step::Fail("compositor configured an empty region".into())
    );
    assert_eq!(event(SurfaceEvent::Visibility { visible: 2 }), Step::Visibility(true));
    let down = SurfaceEvent::TouchDown {
        place: (n(1.0), n(2.0)),
        touch: touch(Some(ContactOrigin::Physical)),
    };
    assert_eq!(
        event(down),
        Step::Touch(TouchContact {
            id: 2,
            phase: ContactPhase::Down,
            x: n(1.0),
            y: n(2.0),
            compositor_time: 5,
            sequence_hi: 0,
            sequence_lo: 9,
            origin: ContactOrigin::Physical,
        })
    );
    let cancel = SurfaceEvent::TouchCancel { touch: touch(Some(ContactOrigin::Synthetic)) };
    match event(cancel) {
        Step::Touch(contact) => {
            assert_eq!((contact.phase, contact.x), (ContactPhase::Cancel, n(0.0)))
        }
        other => panic!("{other:?}"),
    }
    let unknown = SurfaceEvent::TouchUp { place: (n(0.0), n(0.0)), touch: touch(None) };
    assert_eq!(event(unknown), Step::Fail("unsupported Touch Bar input origin".into()));
    let anchor = PopoverAnchor { x: n(3.0), width: n(4.0) };
    assert_eq!(
        event(SurfaceEvent::PresentationAnchor { session_id: 6, anchor }),
        Step::Presentation(PresentationSessionEvent::Anchor { session_id: 6, anchor })
    );
    assert_eq!(
        event(SurfaceEvent::PresentationStarted {
            session_id: 6,
            policy: Ok(Some(PolicyCode::Slot)),
            lifecycle: Ok(Some(LifecycleCode::Transient)),
            contact_id: 2,
            target: "t".into(),
        }),
        Step::Presentation(PresentationSessionEvent::Started {
            session_id: 6,
            policy: SessionPresentationPolicy::Slot("t".into()),
            lifecycle: SessionPresentationLifecycle::Transient { contact_id: 2 },
        })
    );
    let reason = Ok(Some(PresentationDismissReason::Timeout));
    assert!(matches!(
        event(SurfaceEvent::PresentationEnded { session_id: 6, reason }),
        Step::Presentation(PresentationSessionEvent::Ended { session_id: 6, .. })
    ));
    assert_eq!(
        event(SurfaceEvent::PresentationStarted {
            session_id: 6,
            policy: Ok(None),
            lifecycle: Err("7".into()),
            contact_id: 2,
            target: "t".into(),
        }),
        Step::Fail("unsupported presentation policy".into())
    );
    assert_eq!(
        event(SurfaceEvent::PresentationEnded { session_id: 6, reason: Err("7".into()) }),
        Step::Fail("unknown dismiss reason 7".into())
    );
    assert_eq!(event(SurfaceEvent::Other), Step::Ignore);
}

#[test]
fn steps_set_the_pace() {
    let taken = |redraw| Outcome::Taken { redraw };
    let mut pace = Pace::new();
    let configured = Step::Configure {
        serial: 1,
        config: SurfaceConfig { width: 10, height: 60, refresh_millihz: 60000 },
    };
    assert!(settle(&mut pace, &configured, taken(false)));
    pace.rendered(FrameFlow::Wait);
    let motion = event(SurfaceEvent::TouchMotion {
        place: (n(0.0), n(0.0)),
        touch: touch(Some(ContactOrigin::Physical)),
    });
    assert!(!settle(&mut pace, &motion, taken(false)));
    assert!(settle(&mut pace, &motion, taken(true)));
    pace.rendered(FrameFlow::Wait);
    assert!(!settle(&mut pace, &Step::Visibility(false), taken(true)));
    assert!(settle(&mut pace, &Step::Visibility(true), taken(false)));
    assert!(!settle(&mut pace, &Step::Ignore, Outcome::Failed { ready: true }));
    assert!(pace.running());
    assert!(!settle(&mut pace, &Step::Fail("x".into()), Outcome::Failed { ready: true }));
    assert!(!pace.running());
}

#[test]
fn a_place_may_come_to_nothing() {
    let configured = Step::Configure {
        serial: 1,
        config: SurfaceConfig { width: 10, height: 60, refresh_millihz: 60000 },
    };
    for ready in [false, true] {
        let mut pace = Pace::new();
        assert!(!settle(&mut pace, &configured, Outcome::Failed { ready }));
        assert!(!pace.running());
        // only what there is to draw on is drawn on
        assert_eq!(pace.stir(true), ready);
    }
}

const ROLES: [ColorRole; 8] = [
    ColorRole::Background,
    ColorRole::Surface,
    ColorRole::SurfaceHover,
    ColorRole::SurfacePressed,
    ColorRole::Foreground,
    ColorRole::Muted,
    ColorRole::Accent,
    ColorRole::Destructive,
];

#[test]
fn appearances_are_complete() {
    let mut assembly = AppearanceAssembly::new();
    assert!(assembly.color(1, Ok(Some(ColorRole::Accent)), 0).is_err());
    assert_eq!(assembly.done(1).unwrap_err(), "appearance done arrived before begin");
    assert!(assembly.begin(1, None, Some(MotionPolicy::Full), 0).is_err());
    assert!(assembly.begin(1, Some(ColorScheme::Dark), None, 0).is_err());
    let begin = |assembly: &mut AppearanceAssembly| {
        assembly.begin(1, Some(ColorScheme::Dark), Some(MotionPolicy::Reduced), 4000).unwrap()
    };
    begin(&mut assembly);
    assert!(assembly.color(2, Ok(Some(ColorRole::Accent)), 0).is_err());
    assert_eq!(assembly.color(1, Ok(None), 0).unwrap_err(), "unknown appearance color role");
    assert_eq!(
        assembly.color(1, Err("no role".into()), 0).unwrap_err(),
        "appearance contains an unknown color role: no role"
    );
    for (number, role) in ROLES.into_iter().enumerate() {
        assembly.color(1, Ok(Some(role)), number as u32).unwrap();
    }
    let snapshot = assembly.done(1).unwrap();
    assert_eq!(snapshot.colors, [0, 1, 2, 3, 4, 5, 6, 7]);
    assert_eq!(snapshot.motion, MotionPolicy::Reduced);
    begin(&mut assembly);
    for role in &ROLES[1..] {
        assembly.color(1, Ok(Some(*role)), 0).unwrap();
    }
    assert_eq!(assembly.done(1).unwrap_err(), "appearance snapshot is incomplete");
}
