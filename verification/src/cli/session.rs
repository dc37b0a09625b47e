//! The commands about the session, and what they print.
use vstd::prelude::*;
use vstd::slice::slice_subrange;

use super::args;
use super::args::Format;
use crate::control::{ProcessStatus, ProfileRuntimeStatus, Request, Response, VERSION};
use crate::text;

verus! {

/// What is asked of the session.
pub enum Asked {
    Status,
    /// The status, for the list of profiles.
    List,
    Reload,
    Select(Seq<char>),
    Automatic,
}

/// The words from `from` on.
pub open spec fn behind(words: Seq<Seq<char>>, from: int) -> Seq<Seq<char>> {
    words.subrange(from, words.len() as int)
}

/// What is asked, if the words behind it are as they should be.
pub open spec fn plainly(
    asked: Asked,
    words: Seq<Seq<char>>,
) -> Result<(Asked, Format), Seq<char>> {
    match args::well_used(words, seq!["--format"@], Seq::empty(), 0) {
        Err(message) => Err(message),
        Ok(_) => match args::wanted_format(words) {
            Err(message) => Err(message),
            Ok(format) => Ok((asked, format)),
        },
    }
}

/// What is asked about profiles.
pub open spec fn profile_asked(words: Seq<Seq<char>>) -> Result<(Asked, Format), Seq<char>> {
    if words.len() == 0 {
        Err("session profile requires list, select NAME, or automatic"@)
    } else if words[0] == "list"@ {
        plainly(Asked::List, behind(words, 1))
    } else if words[0] == "select"@ {
        let values = behind(words, 1);
        match args::well_used(values, seq!["--format"@], Seq::empty(), 1) {
            Err(message) => Err(message),
            Ok(_) => match args::positioned(values, Seq::empty(), 0) {
                None => Err("session profile select requires NAME"@),
                Some(profile) => match args::wanted_format(values) {
                    Err(message) => Err(message),
                    Ok(format) => Ok((Asked::Select(profile), format)),
                },
            },
        }
    } else if words[0] == "automatic"@ {
        plainly(Asked::Automatic, behind(words, 1))
    } else {
        Err("unknown session profile command `"@ + words[0] + "`"@)
    }
}

/// What is asked of the session.
pub open spec fn session_asked(words: Seq<Seq<char>>) -> Result<(Asked, Format), Seq<char>> {
    if words.len() == 0 {
        Err("session requires status, reload, or profile"@)
    } else if words[0] == "status"@ {
        plainly(Asked::Status, behind(words, 1))
    } else if words[0] == "reload"@ {
        plainly(Asked::Reload, behind(words, 1))
    } else if words[0] == "profile"@ {
        profile_asked(behind(words, 1))
    } else {
        Err("unknown session command `"@ + words[0] + "`"@)
    }
}

/// The request for what is asked, and whether it is the list of profiles.
pub open spec fn requests(request: Request, list: bool, asked: Asked) -> bool {
    match asked {
        Asked::Status => request == (Request::Status { version: VERSION }) && !list,
        Asked::List => request == (Request::Status { version: VERSION }) && list,
        Asked::Reload => request == (Request::Reload { version: VERSION }) && !list,
        Asked::Select(profile) => !list && (request matches Request::ProfileSelect {
            version,
            profile: wanted,
        } && version == VERSION && wanted@ == profile),
        Asked::Automatic => request == (Request::ProfileAutomatic { version: VERSION }) && !list,
    }
}

/// The result of reading what is asked.
pub open spec fn answers(result: Result<(Request, Format, bool), String>, asked: Result<
    (Asked, Format),
    Seq<char>,
>) -> bool {
    match (result, asked) {
        (Ok((request, format, list)), Ok((what, wanted))) => requests(request, list, what) && format
            == wanted,
        (Err(message), Err(why)) => message@ == why,
        _ => false,
    }
}

fn tail(args: &[String], from: usize) -> (rest: &[String])
    requires
        from <= args@.len(),
    ensures
        text::texts(rest@) == behind(text::texts(args@), from as int),
{
    let rest = slice_subrange(args, from, args.len());
    proof {
        assert(text::texts(rest@) =~= behind(text::texts(args@), from as int));
    }
    rest
}

fn plain_format(values: &[String]) -> (result: Result<Format, String>)
    ensures
        args::format_outcome(result) == (match plainly(Asked::Status, text::texts(values@)) {
            Ok((_, format)) => Ok(format),
            Err(message) => Err(message),
        }),
{
    let known: [&str; 1] = ["--format"];
    proof {
        assert(args::names(known@) =~= seq!["--format"@]);
    }
    args::reject(values, known.as_slice(), 0)?;
    args::output_format(values)
}

fn profile_request(values: &[String]) -> (result: Result<(Request, Format, bool), String>)
    ensures
        answers(result, profile_asked(text::texts(values@))),
{
    if values.len() == 0 {
        return Err(text::copied("session profile requires list, select NAME, or automatic"));
    }
    let operation = values[0].as_str();
    proof {
        assert(text::texts(values@)[0] == operation@);
    }
    let rest = tail(values, 1);
    if text::same(operation, "list") {
        let format = plain_format(rest)?;
        return Ok((Request::Status { version: VERSION }, format, true));
    }
    if text::same(operation, "select") {
        let known: [&str; 1] = ["--format"];
        proof {
            assert(args::names(known@) =~= seq!["--format"@]);
        }
        args::reject(rest, known.as_slice(), 1)?;
        match args::positional(rest, 0) {
            None => {
                return Err(text::copied("session profile select requires NAME"));
            },
            Some(profile) => {
                let profile = text::copied(profile);
                let format = args::output_format(rest)?;
                return Ok((Request::ProfileSelect { version: VERSION, profile }, format, false));
            },
        }
    }
    if text::same(operation, "automatic") {
        let format = plain_format(rest)?;
        return Ok((Request::ProfileAutomatic { version: VERSION }, format, false));
    }
    Err(text::joined3("unknown session profile command `", operation, "`"))
}

/// What is asked of the session: the request, how its answer is printed, and
/// whether only the profiles are.
pub fn session_request(args: &[String]) -> (result: Result<(Request, Format, bool), String>)
    ensures
        answers(result, session_asked(text::texts(args@))),
{
    if args.len() == 0 {
        return Err(text::copied("session requires status, reload, or profile"));
    }
    let command = args[0].as_str();
    proof {
        assert(text::texts(args@)[0] == command@);
    }
    let rest = tail(args, 1);
    if text::same(command, "status") {
        let format = plain_format(rest)?;
        return Ok((Request::Status { version: VERSION }, format, false));
    }
    if text::same(command, "reload") {
        let format = plain_format(rest)?;
        return Ok((Request::Reload { version: VERSION }, format, false));
    }
    if text::same(command, "profile") {
        return profile_request(rest);
    }
    Err(text::joined3("unknown session command `", command, "`"))
}

// ---------------------------------------------------------------------------
// What is printed

/// One of two words.
pub open spec fn either(condition: bool, yes: Seq<char>, no: Seq<char>) -> Seq<char> {
    if condition {
        yes
    } else {
        no
    }
}

fn choice(condition: bool, yes: &'static str, no: &'static str) -> (word: &'static str)
    ensures
        word@ == either(condition, yes@, no@),
{
    if condition {
        yes
    } else {
        no
    }
}

/// How the session is doing, in one line.
pub open spec fn summary_line(response: Response) -> Seq<char> {
    let runtime = response.runtime;
    response.message@ + " hardware="@ + (if runtime.hardware_yielded {
        "yielded"@
    } else {
        either(runtime.hardware_connected, "connected"@, "disconnected"@)
    }) + " fn="@ + either(runtime.fn_pressed, "pressed"@, "released"@) + " system_scene="@ + either(
        runtime.system_scene_visible,
        "visible"@,
        "hidden"@,
    )
}

pub fn summary(response: &Response) -> (line: String)
    ensures
        line@ == summary_line(*response),
{
    let runtime = &response.runtime;
    let hardware = if runtime.hardware_yielded {
        "yielded"
    } else {
        choice(runtime.hardware_connected, "connected", "disconnected")
    };
    let head = text::joined4(response.message.as_str(), " hardware=", hardware, " fn=");
    let keys = choice(runtime.fn_pressed, "pressed", "released");
    let scene = choice(runtime.system_scene_visible, "visible", "hidden");
    text::joined4(head.as_str(), keys, " system_scene=", scene)
}

/// Which profile is composed, in one line.
pub open spec fn profile_line(profile: ProfileRuntimeStatus) -> Seq<char> {
    if !profile.configured {
        "profile=all-items configured=false"@
    } else {
        "profile="@ + either(profile.ready, "ready"@, "waiting"@) + " mode="@ + either(
            profile.automatic,
            "automatic"@,
            "manual"@,
        ) + " active="@ + (match profile.active {
            Some(active) => active@,
            None => "-"@,
        }) + " available="@ + text::listed(text::texts(profile.available@), ","@) + (
        if profile.missing_required_items@.len() == 0 {
            Seq::empty()
        } else {
            " missing="@ + text::listed(text::texts(profile.missing_required_items@), ","@)
        })
    }
}

pub fn profile_status(profile: &ProfileRuntimeStatus) -> (line: String)
    ensures
        line@ == profile_line(*profile),
{
    if !profile.configured {
        return text::copied("profile=all-items configured=false");
    }
    let head = text::joined4(
        "profile=",
        choice(profile.ready, "ready", "waiting"),
        " mode=",
        choice(profile.automatic, "automatic", "manual"),
    );
    let active = match &profile.active {
        Some(active) => active.as_str(),
        None => "-",
    };
    let available = text::list(&profile.available, ",");
    let middle = text::joined4(" active=", active, " available=", available.as_str());
    let missing = if profile.missing_required_items.len() == 0 {
        String::new()
    } else {
        let items = text::list(&profile.missing_required_items, ",");
        text::joined(" missing=", items.as_str())
    };
    let line = text::joined3(head.as_str(), middle.as_str(), missing.as_str());
    proof {
        assert(line@ =~= profile_line(*profile));
    }
    line
}

/// How one process is doing, in one line.
pub open spec fn process_line(process: ProcessStatus) -> Seq<char> {
    process.state@ + "  "@ + process.source@ + ":"@ + process.item@ + "  pid="@ + (
    match process.pid {
        Some(pid) => text::decimal(pid as int),
        None => "-"@,
    }) + " restarts="@ + text::decimal(process.restarts as int) + (match process.detail {
        Some(detail) => "  "@ + detail@,
        None => Seq::empty(),
    })
}

pub fn process_status(process: &ProcessStatus) -> (line: String)
    ensures
        line@ == process_line(*process),
{
    let head = text::joined4(process.state.as_str(), "  ", process.source.as_str(), ":");
    let pid = match process.pid {
        Some(pid) => text::decimal_text(pid as u64),
        None => text::copied("-"),
    };
    let middle = text::joined4(process.item.as_str(), "  pid=", pid.as_str(), " restarts=");
    let restarts = text::decimal_text(process.restarts as u64);
    let detail = match &process.detail {
        Some(detail) => text::joined("  ", detail.as_str()),
        None => String::new(),
    };
    let line = text::joined4(head.as_str(), middle.as_str(), restarts.as_str(), detail.as_str());
    proof {
        assert(line@ =~= process_line(*process));
    }
    line
}

/// The status of the session, line by line.
pub open spec fn status_text(response: Response) -> Seq<Seq<char>> {
    seq![summary_line(response), profile_line(response.runtime.profile)] + Seq::new(
        response.processes@.len(),
        |i: int| process_line(response.processes@[i]),
    )
}

pub fn status_lines(response: &Response) -> (lines: Vec<String>)
    ensures
        text::texts(lines@) == status_text(*response),
{
    let mut lines: Vec<String> = Vec::new();
    lines.push(summary(response));
    lines.push(profile_status(&response.runtime.profile));
    let mut i: usize = 0;
    while i < response.processes.len()
        invariant
            i <= response.processes@.len(),
            lines@.len() == 2 + i,
            forall|k: int| 0 <= k < 2 + i ==> #[trigger] lines@[k]@ == status_text(*response)[k],
        decreases response.processes@.len() - i,
    {
        lines.push(process_status(&response.processes[i]));
        i = i + 1;
    }
    proof {
        assert(text::texts(lines@) =~= status_text(*response));
    }
    lines
}

/// One profile of a list.
pub open spec fn available_line(profile: ProfileRuntimeStatus, i: int) -> Seq<char> {
    either(
        profile.active is Some && profile.active->0@ == profile.available@[i]@,
        "*"@,
        " "@,
    ) + " "@ + profile.available@[i]@
}

/// The profiles there are, line by line.
pub open spec fn list_text(profile: ProfileRuntimeStatus) -> Seq<Seq<char>> {
    if !profile.configured {
        seq!["No profile configuration is loaded; all connected items are composed."@]
    } else {
        seq![
            "mode="@ + either(profile.automatic, "automatic"@, "manual"@) + " state="@ + either(
                profile.ready,
                "ready"@,
                "waiting"@,
            ),
        ] + Seq::new(profile.available@.len(), |i: int| available_line(profile, i)) + (
        if profile.missing_required_items@.len() == 0 {
            Seq::empty()
        } else {
            seq![
                "missing required items: "@ + text::listed(
                    text::texts(profile.missing_required_items@),
                    ", "@,
                ),
            ]
        })
    }
}

fn available_profile(profile: &ProfileRuntimeStatus, i: usize) -> (line: String)
    requires
        i < profile.available@.len(),
    ensures
        line@ == available_line(*profile, i as int),
{
    let id = profile.available[i].as_str();
    let active: bool = match &profile.active {
        Some(active) => text::same(active.as_str(), id),
        None => false,
    };
    text::joined3(choice(active, "*", " "), " ", id)
}

pub fn profile_list_lines(profile: &ProfileRuntimeStatus) -> (lines: Vec<String>)
    ensures
        text::texts(lines@) == list_text(*profile),
{
    let mut lines: Vec<String> = Vec::new();
    if !profile.configured {
        lines.push(
            text::copied("No profile configuration is loaded; all connected items are composed."),
        );
        proof {
            assert(text::texts(lines@) =~= list_text(*profile));
        }
        return lines;
    }
    lines.push(
        text::joined4(
            "mode=",
            choice(profile.automatic, "automatic", "manual"),
            " state=",
            choice(profile.ready, "ready", "waiting"),
        ),
    );
    let n: usize = profile.available.len();
    let mut i: usize = 0;
    while i < n
        invariant
            i <= n == profile.available@.len(),
            profile.configured,
            lines@.len() == 1 + i,
            lines@[0]@ == list_text(*profile)[0],
            forall|k: int| 0 <= k < i ==> #[trigger] lines@[1 + k]@ == available_line(*profile, k),
        decreases n - i,
    {
        let line = available_profile(profile, i);
        let ghost before = lines@;
        lines.push(line);
        proof {
            assert(lines@[0] == before[0]);
            assert forall|k: int| 0 <= k < i + 1 implies #[trigger] lines@[1 + k]@
                == available_line(*profile, k) by {
                if k < i {
                    assert(lines@[1 + k] == before[1 + k]);
                }
            }
        }
        i = i + 1;
    }
    let ghost listed = lines@;
    if profile.missing_required_items.len() != 0 {
        let items = text::list(&profile.missing_required_items, ", ");
        lines.push(text::joined("missing required items: ", items.as_str()));
    }
    proof {
        let wanted = list_text(*profile);
        let got = text::texts(lines@);
        assert(got.len() == wanted.len());
        assert forall|k: int| 0 <= k < got.len() implies got[k] == wanted[k] by {
            if 1 <= k <= n {
                assert(lines@[1 + (k - 1)]@ == available_line(*profile, k - 1));
            }
        }
        assert(got =~= wanted);
    }
    lines
}

/// What the command says at the end, where the session refused the request.
pub fn session_verdict(response: &Response) -> (result: Result<(), String>)
    ensures
        args::outcome(result) == (if response.ok {
            Ok(())
        } else {
            Err("session daemon rejected request: "@ + response.message@)
        }),
{
    if response.ok {
        Ok(())
    } else {
        Err(text::joined("session daemon rejected request: ", response.message.as_str()))
    }
}

/// The session is asked for its status, to reload, for its profiles, to show a
/// profile, or to choose one itself, as the first words say.
pub proof fn the_first_words_say_what_is_asked(words: Seq<Seq<char>>)
    ensures
        session_asked(words) matches Ok((asked, _)) ==> {
            &&& words.len() > 0
            &&& asked is Status <==> words[0] == "status"@
            &&& asked is Reload <==> words[0] == "reload"@
            &&& words[0] == "status"@ || words[0] == "reload"@ || (words[0] == "profile"@
                && words.len() > 1)
            &&& asked is List <==> words[0] == "profile"@ && words[1] == "list"@
            &&& asked is Automatic <==> words[0] == "profile"@ && words[1] == "automatic"@
            &&& asked is Select <==> words[0] == "profile"@ && words[1] == "select"@
            &&& asked matches Asked::Select(profile) ==> args::positioned(
                words.subrange(2, words.len() as int),
                Seq::empty(),
                0,
            ) == Some(profile)
        },
{
    reveal_strlit("status");
    reveal_strlit("reload");
    reveal_strlit("profile");
    reveal_strlit("list");
    reveal_strlit("select");
    reveal_strlit("automatic");
    assert("status"@[0] != "reload"@[0]);
    assert("status"@[0] != "profile"@[0]);
    assert("reload"@[0] != "profile"@[0]);
    assert("list"@[0] != "select"@[0]);
    assert("list"@[0] != "automatic"@[0]);
    assert("select"@[0] != "automatic"@[0]);
    if words.len() > 1 {
        assert(behind(behind(words, 1), 1) =~= words.subrange(2, words.len() as int));
    }
}

/// Behind two lines, every process has one, in order.
pub proof fn every_process_has_a_line(response: Response, i: int)
    requires
        0 <= i < response.processes@.len(),
    ensures
        status_text(response).len() == response.processes@.len() + 2,
        status_text(response)[i + 2] == process_line(response.processes@[i]),
{
}

/// Behind one line, every profile has one, in order, and the active one alone
/// is marked.
pub proof fn the_active_profile_is_marked(profile: ProfileRuntimeStatus, i: int)
    requires
        profile.configured,
        0 <= i < profile.available@.len(),
    ensures
        list_text(profile).len() >= profile.available@.len() + 1,
        list_text(profile)[i + 1] == (if profile.active is Some && profile.active->0@
            == profile.available@[i]@ {
            seq!['*', ' ']
        } else {
            seq![' ', ' ']
        }) + profile.available@[i]@,
{
    reveal_strlit("*");
    reveal_strlit(" ");
    assert("*"@ + " "@ =~= seq!['*', ' ']);
    assert(" "@ + " "@ =~= seq![' ', ' ']);
}

} // verus!
