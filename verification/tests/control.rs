use touchbar::control::{
    accept_request, admit_client, check_private_directory, check_server, clear_socket, frame,
    is_restored, message_length, refusal, shows_plugin, validate_control_socket_path, ControlError,
    Occupant, PowerSourceStatus, ProcessStatus, ProfileRuntimeStatus, Request, Response,
    SessionRuntimeStatus, MAX_MESSAGE_BYTES, VERSION,
};

fn response() -> Response {
    Response {
        version: VERSION,
        ok: true,
        message: "running".into(),
        runtime: SessionRuntimeStatus {
            hardware_connected: true,
            hardware_yielded: false,
            user_content_visible: true,
            fn_pressed: false,
            system_scene_visible: true,
            profile: ProfileRuntimeStatus::default(),
            plugin_placeholder: None,
            power_source: PowerSourceStatus::External,
            animation_frame_rate_hz: 60,
        },
        processes: vec![ProcessStatus {
            source: "s".into(),
            item: "i".into(),
            state: "running".into(),
            pid: Some(1),
            restarts: 0,
            detail: None,
        }],
    }
}

#[test]
fn oversized_socket_path_has_an_actionable_error_before_bind() {
    let path = format!("/tmp/{}/control.sock", "deep".repeat(30));
    let error = match validate_control_socket_path(path.as_bytes(), &path) {
        Ok(_) => panic!("oversized socket path unexpectedly bound"),
        Err(error) => error.message(),
    };
    assert!(error.contains("107 bytes"));
    assert!(error.contains("shorter TOUCHBAR_HOME"));
}

#[test]
fn socket_paths_are_short_and_hold_no_zero() {
    assert!(validate_control_socket_path(b"/run/control.sock", "/run/control.sock").is_ok());
    assert!(validate_control_socket_path(&[b'a'; 107], "a").is_ok());
    assert!(validate_control_socket_path(&[b'a'; 108], "a").is_err());
    assert!(validate_control_socket_path(b"/run/\0", "/run/").is_err());
}

#[test]
fn frames_announce_their_length() {
    let framed = frame(b"{}").unwrap();
    assert_eq!(framed, [2, 0, 0, 0, b'{', b'}']);
    assert_eq!(message_length([2, 0, 0, 0]).unwrap(), 2);
    assert_eq!(message_length([0, 0, 0, 0]).unwrap_err(), ControlError::InvalidLength);
    assert!(message_length([255, 255, 255, 255]).is_err());
    let long = vec![b'x'; MAX_MESSAGE_BYTES];
    let framed = frame(&long).unwrap();
    assert_eq!(
        message_length([framed[0], framed[1], framed[2], framed[3]]).unwrap(),
        MAX_MESSAGE_BYTES
    );
    assert_eq!(frame(&vec![b'x'; MAX_MESSAGE_BYTES + 1]).unwrap_err(), ControlError::TooLarge);
}

#[test]
fn only_the_same_user_and_version_are_served() {
    let ping = Request::Ping { version: VERSION };
    assert_eq!(admit_client(7, 7, Ok(ping.clone())).unwrap(), ping);
    let other = admit_client(8, 7, Ok(ping)).unwrap_err();
    assert!(!other.ok);
    assert_eq!(other.message, "peer uid is not authorized");
    let old = Request::Status { version: VERSION + 1 };
    assert_eq!(
        accept_request(old.clone()).unwrap_err(),
        ControlError::UnsupportedVersion(VERSION + 1)
    );
    let refused = admit_client(7, 7, Ok(old)).unwrap_err();
    assert_eq!(
        refused.message,
        format!("unsupported control protocol version {}", VERSION + 1)
    );
    assert_eq!(admit_client(7, 7, Err("unread".into())).unwrap_err().message, "unread");
    assert!(check_server(7, 7).is_ok());
    assert_eq!(
        check_server(8, 7).unwrap_err().message(),
        "control server uid is not authorized"
    );
    let answer = refusal("no".into());
    assert!(!answer.ok && !answer.runtime.hardware_connected && answer.processes.is_empty());
}

#[test]
fn control_directories_are_private() {
    assert!(check_private_directory(true, 7, 7, 0o700, "/d").is_ok());
    let public = check_private_directory(true, 7, 7, 0o755, "/d").unwrap_err();
    assert_eq!(public.message(), "/d must be a private user-owned directory");
    assert!(check_private_directory(false, 7, 7, 0o700, "/d").is_err());
    assert!(check_private_directory(true, 8, 7, 0o700, "/d").is_err());
}

#[test]
fn only_stale_sockets_are_cleared() {
    assert_eq!(clear_socket(Occupant::Nothing, "/s").unwrap(), false);
    assert_eq!(clear_socket(Occupant::Stale, "/s").unwrap(), true);
    assert!(matches!(clear_socket(Occupant::Other, "/s"), Err(ControlError::NotASocket(_))));
    assert!(matches!(clear_socket(Occupant::Active, "/s"), Err(ControlError::AlreadyActive(_))));
}

#[test]
fn responses_tell_what_is_shown() {
    let mut answer = response();
    assert!(shows_plugin(&answer));
    assert!(is_restored(&answer));
    answer.runtime.hardware_yielded = true;
    assert!(!is_restored(&answer));
    answer.processes[0].state = "starting".into();
    assert!(!shows_plugin(&answer));
    answer.processes.clear();
    assert!(!shows_plugin(&answer));
}
