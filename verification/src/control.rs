//! The bounded, versioned control protocol between a user's own programs and
//! the session daemon.
use vstd::prelude::*;

use crate::text;
use crate::wire;

verus! {

pub const VERSION: u32 = 1;

pub const MAX_MESSAGE_BYTES: usize = 65536;

/// How long the path of a socket may be on Linux.
pub const UNIX_SOCKET_PATH_MAX_BYTES: usize = 107;

/// What a client asks for.
#[derive(Clone, Debug, PartialEq, Eq)]
pub enum Request {
    Ping { version: u32 },
    Reload { version: u32 },
    Status { version: u32 },
    ProfileSelect { version: u32, profile: String },
    ProfileAutomatic { version: u32 },
    HardwareYield { version: u32 },
}

/// Which version of the protocol a request is written in.
pub open spec fn spoken(request: Request) -> u32 {
    match request {
        Request::Ping { version } => version,
        Request::Reload { version } => version,
        Request::Status { version } => version,
        Request::ProfileSelect { version, .. } => version,
        Request::ProfileAutomatic { version } => version,
        Request::HardwareYield { version } => version,
    }
}

impl Request {
    pub fn version(&self) -> (version: u32)
        ensures
            version == spoken(*self),
    {
        match self {
            Request::Ping { version } => *version,
            Request::Reload { version } => *version,
            Request::Status { version } => *version,
            Request::ProfileSelect { version, .. } => *version,
            Request::ProfileAutomatic { version } => *version,
            Request::HardwareYield { version } => *version,
        }
    }
}

/// How one process of a plugin is doing.
#[derive(Clone, Debug, PartialEq, Eq)]
pub struct ProcessStatus {
    pub source: String,
    pub item: String,
    pub state: String,
    pub pid: Option<u32>,
    pub restarts: u32,
    pub detail: Option<String>,
}

#[derive(Clone, Copy, Debug, PartialEq, Eq, Structural)]
pub enum PowerSourceStatus {
    External,
    Battery,
    Unknown,
}

impl Default for PowerSourceStatus {
    fn default() -> (power: Self)
        ensures
            power == PowerSourceStatus::Unknown,
    {
        PowerSourceStatus::Unknown
    }
}

/// What is shown in place of a plugin.
#[derive(Clone, Debug, PartialEq, Eq)]
pub struct PluginPlaceholderStatus {
    pub item: String,
    pub message: String,
}

/// Which profile is composed, and why.
#[derive(Clone, Debug, PartialEq, Eq)]
pub struct ProfileRuntimeStatus {
    pub configured: bool,
    pub ready: bool,
    pub automatic: bool,
    pub active: Option<String>,
    pub available: Vec<String>,
    pub missing_required_items: Vec<String>,
}

/// Nothing is configured, and nothing is there.
pub open spec fn no_profile(profile: ProfileRuntimeStatus) -> bool {
    &&& !profile.configured
    &&& !profile.ready
    &&& !profile.automatic
    &&& profile.active is None
    &&& profile.available@.len() == 0
    &&& profile.missing_required_items@.len() == 0
}

impl Default for ProfileRuntimeStatus {
    fn default() -> (profile: Self)
        ensures
            no_profile(profile),
    {
        ProfileRuntimeStatus {
            configured: false,
            ready: false,
            automatic: false,
            active: None,
            available: Vec::new(),
            missing_required_items: Vec::new(),
        }
    }
}

/// How the session is doing.
#[derive(Clone, Debug, PartialEq, Eq)]
pub struct SessionRuntimeStatus {
    pub hardware_connected: bool,
    pub hardware_yielded: bool,
    pub user_content_visible: bool,
    pub fn_pressed: bool,
    pub system_scene_visible: bool,
    pub profile: ProfileRuntimeStatus,
    pub plugin_placeholder: Option<PluginPlaceholderStatus>,
    pub power_source: PowerSourceStatus,
    pub animation_frame_rate_hz: u32,
}

/// What the daemon answers.
#[derive(Clone, Debug, PartialEq, Eq)]
pub struct Response {
    pub version: u32,
    pub ok: bool,
    pub message: String,
    pub runtime: SessionRuntimeStatus,
    pub processes: Vec<ProcessStatus>,
}

// ---------------------------------------------------------------------------
// Errors

/// Why a message could not be sent or understood, or a socket not be opened.
#[derive(Debug, PartialEq, Eq)]
pub enum ControlError {
    TooLarge,
    InvalidLength,
    UnsupportedVersion(u32),
    PeerNotAuthorized,
    ServerNotAuthorized,
    PathTooLong { length: usize, path: String },
    PathHasNull,
    NoParent,
    NotPrivate(String),
    NotASocket(String),
    AlreadyActive(String),
}

/// [`ControlError`], by the views of what it holds.
pub enum ControlErrorView {
    TooLarge,
    InvalidLength,
    UnsupportedVersion(u32),
    PeerNotAuthorized,
    ServerNotAuthorized,
    PathTooLong { length: usize, path: Seq<char> },
    PathHasNull,
    NoParent,
    NotPrivate(Seq<char>),
    NotASocket(Seq<char>),
    AlreadyActive(Seq<char>),
}

impl View for ControlError {
    type V = ControlErrorView;

    open spec fn view(&self) -> ControlErrorView {
        match self {
            ControlError::TooLarge => ControlErrorView::TooLarge,
            ControlError::InvalidLength => ControlErrorView::InvalidLength,
            ControlError::UnsupportedVersion(v) => ControlErrorView::UnsupportedVersion(*v),
            ControlError::PeerNotAuthorized => ControlErrorView::PeerNotAuthorized,
            ControlError::ServerNotAuthorized => ControlErrorView::ServerNotAuthorized,
            ControlError::PathTooLong { length, path } => ControlErrorView::PathTooLong {
                length: *length,
                path: path@,
            },
            ControlError::PathHasNull => ControlErrorView::PathHasNull,
            ControlError::NoParent => ControlErrorView::NoParent,
            ControlError::NotPrivate(path) => ControlErrorView::NotPrivate(path@),
            ControlError::NotASocket(path) => ControlErrorView::NotASocket(path@),
            ControlError::AlreadyActive(path) => ControlErrorView::AlreadyActive(path@),
        }
    }
}

/// What the message of an error says.
pub open spec fn wording(error: ControlErrorView) -> Seq<char> {
    match error {
        ControlErrorView::TooLarge => "control message exceeds size limit"@,
        ControlErrorView::InvalidLength => "invalid control message length"@,
        ControlErrorView::UnsupportedVersion(v) => "unsupported control protocol version "@
            + text::decimal(v as int),
        ControlErrorView::PeerNotAuthorized => "peer uid is not authorized"@,
        ControlErrorView::ServerNotAuthorized => "control server uid is not authorized"@,
        ControlErrorView::PathTooLong { length, path } => "control socket path is "@
            + text::decimal(length as int)
            + " bytes, but Linux Unix socket paths may be at most 107 bytes: "@ + path
            + "; choose a shorter TOUCHBAR_HOME or --control-socket path"@,
        ControlErrorView::PathHasNull => "control socket path contains a null byte"@,
        ControlErrorView::NoParent => "control socket needs a parent"@,
        ControlErrorView::NotPrivate(path) => path + " must be a private user-owned directory"@,
        ControlErrorView::NotASocket(path) => path + " exists and is not a socket"@,
        ControlErrorView::AlreadyActive(path) => "touchbar-sessiond control socket "@ + path
            + " is already active"@,
    }
}

impl ControlError {
    pub fn message(&self) -> (text: String)
        ensures
            text@ == wording(self@),
    {
        match self {
            ControlError::TooLarge => text::copied("control message exceeds size limit"),
            ControlError::InvalidLength => text::copied("invalid control message length"),
            ControlError::UnsupportedVersion(v) => {
                let number = text::decimal_text(*v as u64);
                text::joined("unsupported control protocol version ", number.as_str())
            },
            ControlError::PeerNotAuthorized => text::copied("peer uid is not authorized"),
            ControlError::ServerNotAuthorized => {
                text::copied("control server uid is not authorized")
            },
            ControlError::PathTooLong { length, path } => {
                let number = text::decimal_text(*length as u64);
                let head = text::joined3(
                    "control socket path is ",
                    number.as_str(),
                    " bytes, but Linux Unix socket paths may be at most 107 bytes: ",
                );
                text::joined3(
                    head.as_str(),
                    path.as_str(),
                    "; choose a shorter TOUCHBAR_HOME or --control-socket path",
                )
            },
            ControlError::PathHasNull => text::copied("control socket path contains a null byte"),
            ControlError::NoParent => text::copied("control socket needs a parent"),
            ControlError::NotPrivate(path) => {
                text::joined(path.as_str(), " must be a private user-owned directory")
            },
            ControlError::NotASocket(path) => {
                text::joined(path.as_str(), " exists and is not a socket")
            },
            ControlError::AlreadyActive(path) => {
                text::joined3(
                    "touchbar-sessiond control socket ",
                    path.as_str(),
                    " is already active",
                )
            },
        }
    }
}

/// A result, by the views of what it holds.
pub open spec fn outcome<T: View>(
    result: Result<T, ControlError>,
) -> Result<T::V, ControlErrorView> {
    match result {
        Ok(value) => Ok(value@),
        Err(error) => Err(error@),
    }
}

// ---------------------------------------------------------------------------
// Messages

/// A message behind its length.
pub open spec fn framed(message: Seq<u8>) -> Result<Seq<u8>, ControlErrorView> {
    if message.len() > MAX_MESSAGE_BYTES {
        Err(ControlErrorView::TooLarge)
    } else {
        Ok(wire::le_bytes(message.len(), 4) + message)
    }
}

/// Puts a message behind its length.
pub fn frame(message: &[u8]) -> (result: Result<Vec<u8>, ControlError>)
    ensures
        outcome(result) == framed(message@),
{
    let length: usize = message.len();
    if length > MAX_MESSAGE_BYTES {
        return Err(ControlError::TooLarge);
    }
    let mut bytes: Vec<u8> = Vec::new();
    bytes.push((length % 256) as u8);
    bytes.push((length / 256 % 256) as u8);
    bytes.push((length / 256 / 256 % 256) as u8);
    bytes.push((length / 256 / 256 / 256 % 256) as u8);
    proof {
        reveal_with_fuel(wire::le_bytes, 5);
        assert(bytes@ =~= wire::le_bytes(message@.len(), 4));
        assert(message@.subrange(0, 0) =~= Seq::empty());
    }
    let ghost head = bytes@;
    let mut i: usize = 0;
    while i < message.len()
        invariant
            i <= message@.len(),
            bytes@ == head + message@.subrange(0, i as int),
        decreases message@.len() - i,
    {
        bytes.push(message[i]);
        proof {
            assert(bytes@ =~= head + message@.subrange(0, i + 1));
        }
        i = i + 1;
    }
    proof {
        assert(message@.subrange(0, i as int) =~= message@);
    }
    Ok(bytes)
}

/// How long a message with the given length in front of it may be.
pub open spec fn announced(prefix: Seq<u8>) -> Result<nat, ControlErrorView> {
    let length = wire::le_value(prefix);
    if length == 0 || length > MAX_MESSAGE_BYTES {
        Err(ControlErrorView::InvalidLength)
    } else {
        Ok(length)
    }
}

/// Reads the length in front of a message.
pub fn message_length(prefix: [u8; 4]) -> (result: Result<usize, ControlError>)
    ensures
        match result {
            Ok(length) => announced(prefix@) == Ok::<nat, ControlErrorView>(length as nat),
            Err(error) => announced(prefix@) == Err::<nat, ControlErrorView>(error@),
        },
{
    let length: u64 = prefix[0] as u64 + 256 * (prefix[1] as u64) + 65536 * (prefix[2] as u64)
        + 16777216 * (prefix[3] as u64);
    proof {
        reveal_with_fuel(wire::le_value, 5);
        let s = prefix@;
        assert(s.subrange(1, 4).subrange(1, 3) =~= s.subrange(2, 4));
        assert(s.subrange(2, 4).subrange(1, 2) =~= s.subrange(3, 4));
        assert(s.subrange(3, 4).subrange(1, 1) =~= Seq::empty());
        assert(wire::le_value(s) == length);
    }
    if length == 0 || length > MAX_MESSAGE_BYTES as u64 {
        return Err(ControlError::InvalidLength);
    }
    Ok(length as usize)
}

/// What is sent can be read: the length in front of a message that is not
/// empty is the length of that message.
pub proof fn frames_read_back(message: Seq<u8>)
    requires
        0 < message.len() <= MAX_MESSAGE_BYTES,
    ensures
        framed(message) is Ok,
        framed(message)->Ok_0.len() == 4 + message.len(),
        announced(framed(message)->Ok_0.subrange(0, 4)) == Ok::<nat, ControlErrorView>(
            message.len(),
        ),
        framed(message)->Ok_0.subrange(4, 4 + message.len() as int) == message,
{
    wire::lemma_pow256();
    wire::lemma_le_bytes_value(message.len(), 4);
    let head = wire::le_bytes(message.len(), 4);
    let frame = head + message;
    assert(frame.subrange(0, 4) =~= head);
    assert(frame.subrange(4, 4 + message.len() as int) =~= message);
}

/// Accepts a request of this version of the protocol.
pub fn accept_request(request: Request) -> (result: Result<Request, ControlError>)
    ensures
        match result {
            Ok(accepted) => accepted == request && spoken(request) == VERSION,
            Err(error) => spoken(request) != VERSION && error@
                == ControlErrorView::UnsupportedVersion(spoken(request)),
        },
{
    let version: u32 = request.version();
    if version != VERSION {
        return Err(ControlError::UnsupportedVersion(version));
    }
    Ok(request)
}

/// The answer to a request that is refused: nothing is said of the session.
pub open spec fn is_refusal(response: Response, message: Seq<char>) -> bool {
    &&& response.version == VERSION
    &&& !response.ok
    &&& response.message@ == message
    &&& response.processes@.len() == 0
    &&& !response.runtime.hardware_connected
    &&& !response.runtime.hardware_yielded
    &&& !response.runtime.user_content_visible
    &&& !response.runtime.fn_pressed
    &&& !response.runtime.system_scene_visible
    &&& no_profile(response.runtime.profile)
    &&& response.runtime.plugin_placeholder is None
    &&& response.runtime.power_source == PowerSourceStatus::Unknown
    &&& response.runtime.animation_frame_rate_hz == 60
}

pub fn refusal(message: String) -> (response: Response)
    ensures
        is_refusal(response, message@),
{
    Response {
        version: VERSION,
        ok: false,
        message,
        runtime: SessionRuntimeStatus {
            hardware_connected: false,
            hardware_yielded: false,
            user_content_visible: false,
            fn_pressed: false,
            system_scene_visible: false,
            profile: ProfileRuntimeStatus::default(),
            plugin_placeholder: None,
            power_source: PowerSourceStatus::Unknown,
            animation_frame_rate_hz: 60,
        },
        processes: Vec::new(),
    }
}

/// What becomes of a client: its request is handed on, or it is answered.
pub fn admit_client(peer: u32, own: u32, request: Result<Request, String>) -> (result: Result<
    Request,
    Response,
>)
    ensures
        match result {
            Ok(accepted) => peer == own && request == Ok::<Request, String>(accepted) && spoken(
                accepted,
            ) == VERSION,
            Err(response) => is_refusal(
                response,
                if peer != own {
                    wording(ControlErrorView::PeerNotAuthorized)
                } else {
                    match request {
                        Err(message) => message@,
                        Ok(request) => wording(
                            ControlErrorView::UnsupportedVersion(spoken(request)),
                        ),
                    }
                },
            ) && (peer != own || request is Err || spoken(request->Ok_0) != VERSION),
        },
{
    if peer != own {
        return Err(refusal(ControlError::PeerNotAuthorized.message()));
    }
    match request {
        Err(message) => Err(refusal(message)),
        Ok(request) => match accept_request(request) {
            Ok(request) => Ok(request),
            Err(error) => Err(refusal(error.message())),
        },
    }
}

/// Whether the other side of a connection is the same user's server.
pub fn check_server(peer: u32, own: u32) -> (result: Result<(), ControlError>)
    ensures
        outcome(result) == (if peer == own {
            Ok(())
        } else {
            Err(ControlErrorView::ServerNotAuthorized)
        }),
{
    if peer != own {
        Err(ControlError::ServerNotAuthorized)
    } else {
        Ok(())
    }
}

// ---------------------------------------------------------------------------
// Sockets

/// What is wrong with the path of a socket, if anything is.
pub open spec fn path_checked(path: Seq<u8>, shown: Seq<char>) -> Result<(), ControlErrorView> {
    if path.len() > UNIX_SOCKET_PATH_MAX_BYTES {
        Err(ControlErrorView::PathTooLong { length: path.len() as usize, path: shown })
    } else if path.contains(0) {
        Err(ControlErrorView::PathHasNull)
    } else {
        Ok(())
    }
}

/// Checks the path of a socket, which a user sees as `shown`.
pub fn validate_control_socket_path(path: &[u8], shown: &str) -> (result: Result<(), ControlError>)
    ensures
        outcome(result) == path_checked(path@, shown@),
{
    let length: usize = path.len();
    if length > UNIX_SOCKET_PATH_MAX_BYTES {
        return Err(ControlError::PathTooLong { length, path: text::copied(shown) });
    }
    let mut i: usize = 0;
    while i < length
        invariant
            i <= length,
            length == path@.len(),
            length <= UNIX_SOCKET_PATH_MAX_BYTES,
            forall|k: int| 0 <= k < i ==> path@[k] != 0,
        decreases length - i,
    {
        if path[i] == 0 {
            proof {
                assert(path@.contains(path@[i as int]));
            }
            return Err(ControlError::PathHasNull);
        }
        i = i + 1;
    }
    Ok(())
}

/// No one but the owner can use what has these permissions.
pub open spec fn private_mode(mode: u32) -> bool {
    mode & 0o077 == 0
}

/// Whether a directory is the user's own, and private.
pub fn check_private_directory(
    directory: bool,
    owner: u32,
    own: u32,
    mode: u32,
    shown: &str,
) -> (result:
    Result<(), ControlError>)
    ensures
        outcome(result) == (if directory && owner == own && private_mode(mode) {
            Ok(())
        } else {
            Err(ControlErrorView::NotPrivate(shown@))
        }),
{
    if !directory || owner != own || mode & 0o077 != 0 {
        return Err(ControlError::NotPrivate(text::copied(shown)));
    }
    Ok(())
}

/// What stands where a socket is to be opened.
#[derive(Clone, Copy, Debug, PartialEq, Eq, Structural)]
pub enum Occupant {
    Nothing,
    /// Not a socket.
    Other,
    /// A socket that someone answers.
    Active,
    /// A socket that no one answers.
    Stale,
}

/// Whether what stands there has to be removed before the socket is opened.
pub fn clear_socket(occupant: Occupant, shown: &str) -> (result: Result<bool, ControlError>)
    ensures
        outcome(result) == (match occupant {
            Occupant::Nothing => Ok(false),
            Occupant::Stale => Ok(true),
            Occupant::Other => Err(ControlErrorView::NotASocket(shown@)),
            Occupant::Active => Err(ControlErrorView::AlreadyActive(shown@)),
        }),
{
    match occupant {
        Occupant::Nothing => Ok(false),
        Occupant::Stale => Ok(true),
        Occupant::Other => Err(ControlError::NotASocket(text::copied(shown))),
        Occupant::Active => Err(ControlError::AlreadyActive(text::copied(shown))),
    }
}

// ---------------------------------------------------------------------------
// What a client waits for

/// A plugin is running.
pub open spec fn any_running(processes: Seq<ProcessStatus>) -> bool {
    exists|i: int| 0 <= i < processes.len() && #[trigger] processes[i].state@ == "running"@
}

fn has_running(processes: &Vec<ProcessStatus>) -> (r: bool)
    ensures
        r == any_running(processes@),
{
    let mut i: usize = 0;
    while i < processes.len()
        invariant
            i <= processes@.len(),
            forall|k: int| 0 <= k < i ==> #[trigger] processes@[k].state@ != "running"@,
        decreases processes@.len() - i,
    {
        if text::same(processes[i].state.as_str(), "running") {
            return true;
        }
        i = i + 1;
    }
    false
}

/// The session shows a running plugin on the hardware.
pub open spec fn plugin_shown(response: Response) -> bool {
    &&& response.ok
    &&& response.runtime.hardware_connected
    &&& response.runtime.user_content_visible
    &&& any_running(response.processes@)
}

pub fn shows_plugin(response: &Response) -> (r: bool)
    ensures
        r == plugin_shown(*response),
{
    response.ok && response.runtime.hardware_connected && response.runtime.user_content_visible
        && has_running(&response.processes)
}

/// The session has its hardware back.
pub open spec fn restored(response: Response) -> bool {
    &&& response.ok
    &&& response.runtime.hardware_connected
    &&& !response.runtime.hardware_yielded
}

pub fn is_restored(response: &Response) -> (r: bool)
    ensures
        r == restored(*response),
{
    response.ok && response.runtime.hardware_connected && !response.runtime.hardware_yielded
}

/// A directory is private where neither the group nor anyone else may do anything with it:
/// the last six bits of its permissions are zero.
pub proof fn private_directories_are_for_their_owner(mode: u32)
    ensures
        private_mode(mode) <==> mode % 64 == 0,
{
    assert(mode & 0o077 == mode % 64) by (bit_vector);
}

/// The length in front of a message is written with the lowest byte first, and only lengths
/// from one up to the limit are accepted.
pub proof fn lengths_stand_in_front_of_messages(prefix: Seq<u8>)
    requires
        prefix.len() == 4,
    ensures
        ({
            let length = prefix[0] + 256 * prefix[1] + 65536 * prefix[2] + 16777216 * prefix[3];
            announced(prefix) == if 1 <= length <= MAX_MESSAGE_BYTES {
                Ok::<nat, ControlErrorView>(length as nat)
            } else {
                Err::<nat, ControlErrorView>(ControlErrorView::InvalidLength)
            }
        }),
{
    let a = prefix.subrange(1, 4);
    let b = a.subrange(1, 3);
    let c = b.subrange(1, 2);
    let d = c.subrange(1, 1);
    assert(a[0] == prefix[1] && b[0] == prefix[2] && c[0] == prefix[3]);
    assert(wire::le_value(d) == 0);
    assert(wire::le_value(c) == c[0]);
    assert(wire::le_value(b) == b[0] + 256 * c[0]);
    assert(wire::le_value(a) == a[0] + 256 * (b[0] + 256 * c[0]));
}

} // verus!
