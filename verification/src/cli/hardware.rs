//! The command about the hardware, and what it prints.
use vstd::prelude::*;
use vstd::slice::slice_subrange;

use super::args;
use super::args::Format;
use super::session;
use crate::scan;
use crate::text;

verus! {

/// Where the hardware answers, unless the user says otherwise.
pub const DEFAULT_HARDWARE_SOCKET: &'static str = "/run/touchbar/hardware.sock";

/// What says that the hardware fell back to its own keys.
pub const HARDWARE_RECOVERY_MARKER: &'static str = "/run/touchbar/recovery-fallback";

/// What is asked of the hardware.
pub open spec fn hardware_asked(words: Seq<Seq<char>>) -> Result<Format, Seq<char>> {
    if words.len() == 0 {
        Err("hardware requires status"@)
    } else if words[0] != "status"@ {
        Err("unknown hardware command `"@ + words[0] + "`"@)
    } else {
        match session::plainly(session::Asked::Status, session::behind(words, 1)) {
            Ok((_, format)) => Ok(format),
            Err(message) => Err(message),
        }
    }
}

pub fn hardware_request(args: &[String]) -> (result: Result<Format, String>)
    ensures
        args::format_outcome(result) == hardware_asked(text::texts(args@)),
{
    if args.len() == 0 {
        return Err(text::copied("hardware requires status"));
    }
    let command = args[0].as_str();
    proof {
        assert(text::texts(args@)[0] == command@);
    }
    if !text::same(command, "status") {
        return Err(text::joined3("unknown hardware command `", command, "`"));
    }
    let rest = slice_subrange(args, 1, args.len());
    let known: [&str; 1] = ["--format"];
    proof {
        assert(args::names(known@) =~= seq!["--format"@]);
        assert(text::texts(rest@) =~= session::behind(text::texts(args@), 1));
    }
    args::reject(rest, known.as_slice(), 0)?;
    args::output_format(rest)
}

/// What a list of properties says of one of them.
pub open spec fn property_of(properties: Seq<char>, name: Seq<char>) -> Seq<char> {
    match scan::line_with(properties, name + "="@, 0) {
        Some(value) => value,
        None => "unknown"@,
    }
}

fn property(properties: &str, name: &str) -> (value: String)
    ensures
        value@ == property_of(properties@, name@),
{
    let prefix = text::joined(name, "=");
    match scan::find_line(properties, prefix.as_str()) {
        Some(value) => value,
        None => text::copied("unknown"),
    }
}

/// What stands where the marker of a fallback would be.
#[derive(Clone, Copy, Debug, PartialEq, Eq, Structural)]
pub enum Marker {
    Missing,
    Unreadable,
    Found { regular: bool, owner: u32, mode: u32 },
}

/// No one but the owner can write what has these permissions.
pub open spec fn guarded(mode: u32) -> bool {
    mode & 0o022 == 0
}

/// What the marker says of the hardware.
pub fn recovery_marker_status(marker: Marker, expected_owner: u32) -> (status: &'static str)
    ensures
        status@ == (match marker {
            Marker::Missing => "normal"@,
            Marker::Unreadable => "unknown"@,
            Marker::Found { regular, owner, mode } => if regular && owner == expected_owner
                && guarded(mode) {
                "fallback-locked"@
            } else {
                "invalid-marker"@
            },
        }),
{
    match marker {
        Marker::Missing => "normal",
        Marker::Unreadable => "unknown",
        Marker::Found { regular, owner, mode } => {
            if regular && owner == expected_owner && mode & 0o022 == 0 {
                "fallback-locked"
            } else {
                "invalid-marker"
            }
        },
    }
}

/// How the hardware service is doing.
#[derive(Debug, PartialEq, Eq)]
pub struct HardwareStatus {
    pub load: String,
    pub active: String,
    pub sub: String,
    pub pid: String,
    pub main_pid: u32,
    pub socket: bool,
    pub recovery: &'static str,
}

/// What the properties of the service say.
pub open spec fn describes(
    status: HardwareStatus,
    properties: Seq<char>,
    socket: bool,
    recovery: Seq<char>,
) -> bool {
    &&& status.load@ == property_of(properties, "LoadState"@)
    &&& status.active@ == property_of(properties, "ActiveState"@)
    &&& status.sub@ == property_of(properties, "SubState"@)
    &&& status.pid@ == property_of(properties, "MainPID"@)
    &&& status.main_pid == (match scan::number_in(status.pid@, u32::MAX as nat) {
        Some(pid) => pid,
        None => 0,
    })
    &&& status.socket == socket
    &&& status.recovery@ == recovery
}

impl HardwareStatus {
    /// Reads the properties of the service.
    pub fn read(properties: &str, socket: bool, recovery: &'static str) -> (status: Self)
        ensures
            describes(status, properties@, socket, recovery@),
    {
        let load = property(properties, "LoadState");
        let active = property(properties, "ActiveState");
        let sub = property(properties, "SubState");
        let pid = property(properties, "MainPID");
        let main_pid: u32 = match scan::parse_number(pid.as_str(), u32::MAX) {
            Some(pid) => pid,
            None => 0,
        };
        HardwareStatus { load, active, sub, pid, main_pid, socket, recovery }
    }

    /// The status in one line.
    pub fn line(&self) -> (line: String)
        ensures
            line@ == "touchbar.service load="@ + self.load@ + " active="@ + self.active@ + " sub="@
                + self.sub@ + " pid="@ + self.pid@ + " socket="@ + session::either(
                self.socket,
                "ready"@,
                "absent"@,
            ) + " recovery="@ + self.recovery@,
    {
        let head = text::joined4(
            "touchbar.service load=",
            self.load.as_str(),
            " active=",
            self.active.as_str(),
        );
        let middle = text::joined4(" sub=", self.sub.as_str(), " pid=", self.pid.as_str());
        let socket = if self.socket {
            "ready"
        } else {
            "absent"
        };
        let end = text::joined4(" socket=", socket, " recovery=", self.recovery);
        let line = text::joined3(head.as_str(), middle.as_str(), end.as_str());
        proof {
            assert(line@ =~= "touchbar.service load="@ + self.load@ + " active="@ + self.active@
                + " sub="@ + self.sub@ + " pid="@ + self.pid@ + " socket="@ + socket@
                + " recovery="@ + self.recovery@);
        }
        line
    }

    /// Whether the hardware can be used.
    pub fn verdict(&self) -> (result: Result<(), String>)
        ensures
            args::outcome(result) == (if self.active@ == "active"@ && self.socket {
                Ok(())
            } else {
                Err("hardware service is not ready"@)
            }),
    {
        if !text::same(self.active.as_str(), "active") || !self.socket {
            return Err(text::copied("hardware service is not ready"));
        }
        Ok(())
    }
}

/// A marker is guarded where neither the group nor anyone else may write it: of the last bits
/// of its permissions the second and the fifth are zero.
pub proof fn markers_are_guarded_from_others(mode: u32)
    ensures
        guarded(mode) <==> (mode / 2) % 2 == 0 && (mode / 16) % 2 == 0,
{
    assert((mode & 0o022 == 0) == ((mode / 2) % 2 == 0 && (mode / 16) % 2 == 0)) by (bit_vector);
}

} // verus!
