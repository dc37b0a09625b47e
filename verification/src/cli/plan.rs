//! Showing a plugin in a preview or on the hardware: what the arguments ask
//! for, and how the process that shows it is started and watched.
use vstd::prelude::*;

use super::args;
use super::hardware::DEFAULT_HARDWARE_SOCKET;
use crate::layout::MAX_CANVAS_WIDTH;
use crate::scan;
use crate::text;

verus! {

/// Which items are shown, and how wide.
#[derive(Debug, PartialEq, Eq)]
pub struct Selection {
    pub item: Option<String>,
    pub width: Option<u32>,
}

/// [`Selection`], field by field.
#[verifier::ext_equal]
pub struct SelectionView {
    pub item: Option<Seq<char>>,
    pub width: Option<u32>,
}

impl View for Selection {
    type V = SelectionView;

    open spec fn view(&self) -> SelectionView {
        SelectionView {
            item: match self.item {
                Some(item) => Some(item@),
                None => None,
            },
            width: self.width,
        }
    }
}

/// The width that is asked for.
pub open spec fn width_asked(words: Seq<Seq<char>>) -> Result<Option<u32>, Seq<char>> {
    match args::option_value(words, "--width"@) {
        None => Ok(None),
        Some(value) => match scan::number_in(value, u32::MAX as nat) {
            None => Err("--width must be an integer: "@ + scan::number_fault(value)),
            Some(width) => if 1 <= width <= MAX_CANVAS_WIDTH {
                Ok(Some(width as u32))
            } else {
                Err("--width must be between 1 and "@ + text::decimal(MAX_CANVAS_WIDTH as int))
            },
        },
    }
}

/// The items and the width that are asked for, of those there are.
pub open spec fn selected(words: Seq<Seq<char>>, items: Seq<Seq<char>>) -> Result<
    SelectionView,
    Seq<char>,
> {
    let item = args::option_value(words, "--item"@);
    if items.len() == 0 {
        Err("plugin has no items"@)
    } else if item is Some && !items.contains(item->0) {
        Err("plugin has no item `"@ + item->0 + "`"@)
    } else {
        match width_asked(words) {
            Err(message) => Err(message),
            Ok(width) => Ok(SelectionView { item, width }),
        }
    }
}

fn wanted_width(args: &[String]) -> (result: Result<Option<u32>, String>)
    ensures
        width_asked(text::texts(args@)) == (match result {
            Ok(width) => Ok::<Option<u32>, Seq<char>>(width),
            Err(message) => Err(message@),
        }),
{
    match args::opt(args, "--width") {
        None => Ok(None),
        Some(value) => match scan::parse_u32(value) {
            Err(cause) => Err(text::joined("--width must be an integer: ", cause.as_str())),
            Ok(width) => {
                if 1 <= width && width <= MAX_CANVAS_WIDTH {
                    Ok(Some(width))
                } else {
                    let most = text::decimal_text(MAX_CANVAS_WIDTH as u64);
                    Err(text::joined("--width must be between 1 and ", most.as_str()))
                }
            },
        },
    }
}

/// Which items are shown, and how wide.
pub fn select(args: &[String], items: &[String]) -> (result: Result<Selection, String>)
    ensures
        args::outcome(result) == selected(text::texts(args@), text::texts(items@)),
{
    if items.len() == 0 {
        return Err(text::copied("plugin has no items"));
    }
    let item = match args::opt(args, "--item") {
        None => None,
        Some(item) => {
            if !args::has_flag(items, item) {
                return Err(text::joined3("plugin has no item `", item, "`"));
            }
            Some(text::copied(item))
        },
    };
    let width = wanted_width(args)?;
    Ok(Selection { item, width })
}

/// What is done with one item before it is shown.
#[derive(Clone, Copy, Debug, PartialEq, Eq, Structural)]
pub struct ItemChange {
    /// Whether it is shown, where that is said.
    pub enabled: Option<bool>,
    /// How wide it is, where that is said.
    pub width: Option<u32>,
}

/// What is done with an item: only the one that is asked for is shown, and only
/// what is shown gets the width that is asked for.
pub open spec fn changed(selection: SelectionView, id: Seq<char>) -> ItemChange {
    match selection.item {
        None => ItemChange { enabled: None, width: selection.width },
        Some(item) => ItemChange {
            enabled: Some(item == id),
            width: if item == id {
                selection.width
            } else {
                None
            },
        },
    }
}

impl Selection {
    pub fn change(&self, id: &str) -> (change: ItemChange)
        ensures
            change == changed(self@, id@),
    {
        match &self.item {
            None => ItemChange { enabled: None, width: self.width },
            Some(item) => {
                let chosen: bool = text::same(item.as_str(), id);
                ItemChange {
                    enabled: Some(chosen),
                    width: if chosen {
                        self.width
                    } else {
                        None
                    },
                }
            },
        }
    }
}

/// Exactly the item that is asked for is shown.
pub proof fn one_item_is_shown(selection: SelectionView, id: Seq<char>)
    requires
        selection.item is Some,
    ensures
        changed(selection, id).enabled == Some(selection.item->0 == id),
        changed(selection, id).width is Some ==> id == selection.item->0,
{
}

// ---------------------------------------------------------------------------
// The preview

/// How much larger than life a preview is.
pub open spec fn scale_asked(words: Seq<Seq<char>>) -> Result<u32, Seq<char>> {
    let value = match args::option_value(words, "--scale"@) {
        Some(value) => value,
        None => "2"@,
    };
    match scan::number_in(value, u32::MAX as nat) {
        Some(scale) => if scale == 1 || scale == 2 || scale == 4 {
            Ok(scale as u32)
        } else {
            Err("--scale must be 1, 2, or 4"@)
        },
        None => Err("--scale must be 1, 2, or 4: "@ + scan::number_fault(value)),
    }
}

pub fn preview_scale(args: &[String]) -> (result: Result<u32, String>)
    ensures
        scale_asked(text::texts(args@)) == (match result {
            Ok(scale) => Ok::<u32, Seq<char>>(scale),
            Err(message) => Err(message@),
        }),
{
    let value = match args::opt(args, "--scale") {
        Some(value) => value,
        None => "2",
    };
    match scan::parse_u32(value) {
        Ok(scale) => {
            if scale == 1 || scale == 2 || scale == 4 {
                Ok(scale)
            } else {
                Err(text::copied("--scale must be 1, 2, or 4"))
            }
        },
        Err(cause) => Err(text::joined("--scale must be 1, 2, or 4: ", cause.as_str())),
    }
}

/// What a width is called where it is not said.
pub open spec fn width_word(width: Option<u32>) -> Seq<char> {
    match width {
        Some(width) => text::decimal(width as int),
        None => "manifest"@,
    }
}

/// What an item is called where it is not said.
pub open spec fn item_word(item: Option<Seq<char>>) -> Seq<char> {
    match item {
        Some(item) => item,
        None => "all"@,
    }
}

/// What is shown, in the words of a status line.
pub open spec fn shown(package: Seq<char>, items: nat, selection: SelectionView) -> Seq<char> {
    " package="@ + package + " items="@ + text::decimal(items as int) + " selected="@ + item_word(
        selection.item,
    ) + " width="@ + width_word(selection.width)
}

fn show(package: &str, items: usize, selection: &Selection) -> (words: String)
    ensures
        words@ == shown(package@, items as nat, selection@),
{
    let count = text::decimal_text(items as u64);
    let head = text::joined4(" package=", package, " items=", count.as_str());
    let item = match &selection.item {
        Some(item) => item.as_str(),
        None => "all",
    };
    let width = match selection.width {
        Some(width) => text::decimal_text(width as u64),
        None => text::copied("manifest"),
    };
    let end = text::joined4(" selected=", item, " width=", width.as_str());
    let words = text::joined(head.as_str(), end.as_str());
    proof {
        assert(words@ =~= shown(package@, items as nat, selection@));
    }
    words
}

/// What is printed once a preview is there.
pub fn preview_ready(package: &str, items: usize, selection: &Selection, scale: u32) -> (line:
    String)
    ensures
        line@ == "plugin-preview=ready"@ + shown(package@, items as nat, selection@) + " scale="@
            + text::decimal(scale as int) + " input=synthetic close=escape"@,
{
    let words = show(package, items, selection);
    let factor = text::decimal_text(scale as u64);
    let head = text::joined("plugin-preview=ready", words.as_str());
    text::joined4(head.as_str(), " scale=", factor.as_str(), " input=synthetic close=escape")
}

/// The arguments of the process that shows a preview.
pub fn preview_arguments(socket: &str, scale: u32, host: &str, supervisor: &str) -> (arguments: Vec<
    String,
>)
    ensures
        text::texts(arguments@) == seq![
            "--socket"@,
            socket@,
            "--preview-scale"@,
            text::decimal(scale as int),
            "--plugin-host"@,
            host@,
            "--plugin-supervisor"@,
            supervisor@,
        ],
{
    let mut arguments: Vec<String> = Vec::new();
    arguments.push(text::copied("--socket"));
    arguments.push(text::copied(socket));
    arguments.push(text::copied("--preview-scale"));
    arguments.push(text::decimal_text(scale as u64));
    arguments.push(text::copied("--plugin-host"));
    arguments.push(text::copied(host));
    arguments.push(text::copied("--plugin-supervisor"));
    arguments.push(text::copied(supervisor));
    proof {
        assert(text::texts(arguments@) =~= seq![
            "--socket"@,
            socket@,
            "--preview-scale"@,
            text::decimal(scale as int),
            "--plugin-host"@,
            host@,
            "--plugin-supervisor"@,
            supervisor@,
        ]);
    }
    arguments
}

// ---------------------------------------------------------------------------
// The hardware

/// A character of the class of an application.
pub open spec fn class_char(c: char) -> bool {
    'a' <= c <= 'z' || 'A' <= c <= 'Z' || '0' <= c <= '9' || c == '.' || c == '_' || c == '-'
}

/// The class of an application.
pub open spec fn is_class(class: Seq<char>) -> bool {
    &&& 0 < class.len() <= 128
    &&& forall|i: int| 0 <= i < class.len() ==> #[trigger] class_char(class[i])
}

fn class_is_valid(class: &str) -> (valid: bool)
    ensures
        valid == is_class(class@),
{
    let chars: Vec<char> = text::characters(class);
    let n: usize = chars.len();
    if n == 0 || n > 128 {
        return false;
    }
    let mut i: usize = 0;
    while i < n
        invariant
            i <= n == chars@.len(),
            chars@ == class@,
            forall|k: int| 0 <= k < i ==> #[trigger] class_char(class@[k]),
        decreases n - i,
    {
        let c: char = chars[i];
        if !(('a' <= c && c <= 'z') || ('A' <= c && c <= 'Z') || ('0' <= c && c <= '9') || c == '.'
            || c == '_' || c == '-') {
            proof {
                assert(!class_char(class@[i as int]));
            }
            return false;
        }
        i = i + 1;
    }
    true
}

/// The part of a path that begins at `from` is two full stops.
pub open spec fn climbs_at(path: Seq<char>, from: int) -> bool {
    &&& from + 2 <= path.len()
    &&& path[from] == '.'
    &&& path[from + 1] == '.'
    &&& from + 2 == path.len() || path[from + 2] == '/'
    &&& from == 0 || path[from - 1] == '/'
}

/// The path begins at the root, and never climbs.
pub open spec fn is_normalized(path: Seq<char>) -> bool {
    &&& path.len() > 0
    &&& path[0] == '/'
    &&& forall|i: int| 0 <= i < path.len() ==> !#[trigger] climbs_at(path, i)
}

/// Whether a path begins at the root, and never climbs.
pub fn path_is_normalized(path: &str) -> (r: bool)
    ensures
        r == is_normalized(path@),
{
    let chars: Vec<char> = text::characters(path);
    let n: usize = chars.len();
    if n == 0 || chars[0] != '/' {
        return false;
    }
    let mut i: usize = 0;
    while i < n
        invariant
            i <= n == chars@.len(),
            chars@ == path@,
            n > 0,
            path@[0] == '/',
            forall|k: int| 0 <= k < i ==> !#[trigger] climbs_at(path@, k),
        decreases n - i,
    {
        if n - i >= 2 && chars[i] == '.' && chars[i + 1] == '.' && (n - i == 2 || chars[i + 2]
            == '/') && (i == 0 || chars[i - 1] == '/') {
            proof {
                assert(climbs_at(path@, i as int));
            }
            return false;
        }
        i = i + 1;
    }
    true
}

/// How a plugin is shown on the hardware.
#[derive(Debug, PartialEq, Eq)]
pub struct RunPlan {
    pub selection: Selection,
    /// Only while an application of this class has the focus.
    pub application: Option<String>,
    pub hardware_socket: String,
    pub sandboxed: bool,
}

/// [`RunPlan`], field by field.
#[verifier::ext_equal]
pub struct RunPlanView {
    pub selection: SelectionView,
    pub application: Option<Seq<char>>,
    pub hardware_socket: Seq<char>,
    pub sandboxed: bool,
}

impl View for RunPlan {
    type V = RunPlanView;

    open spec fn view(&self) -> RunPlanView {
        RunPlanView {
            selection: self.selection@,
            application: match self.application {
                Some(class) => Some(class@),
                None => None,
            },
            hardware_socket: self.hardware_socket@,
            sandboxed: self.sandboxed,
        }
    }
}

/// How the arguments ask for a plugin to be shown on the hardware.
pub open spec fn run_asked(words: Seq<Seq<char>>, items: Seq<Seq<char>>) -> Result<
    RunPlanView,
    Seq<char>,
> {
    match selected(words, items) {
        Err(message) => Err(message),
        Ok(selection) => {
            let application = args::option_value(words, "--when-application"@);
            let hardware_socket = match args::option_value(words, "--hardware-socket"@) {
                Some(path) => path,
                None => DEFAULT_HARDWARE_SOCKET@,
            };
            if application is Some && selection.item is None {
                Err("--when-application requires --item"@)
            } else if application is Some && !is_class(application->0) {
                Err(
                    "--when-application must be an application class using letters, digits, '.', '_', or '-'"@,
                )
            } else if !is_normalized(hardware_socket) {
                Err("--hardware-socket must be a normalized absolute path"@)
            } else {
                Ok(
                    RunPlanView {
                        selection,
                        application: match application {
                            Some(class) => Some(text::lowered(class)),
                            None => None,
                        },
                        hardware_socket,
                        sandboxed: words.contains("--sandboxed"@),
                    },
                )
            }
        },
    }
}

/// How the arguments ask for a plugin to be shown on the hardware. The class
/// of an application is compared in lowercase.
pub fn plan_run(args: &[String], items: &[String]) -> (result: Result<RunPlan, String>)
    ensures
        args::outcome(result) == run_asked(text::texts(args@), text::texts(items@)),
{
    let selection = select(args, items)?;
    let application = match args::opt(args, "--when-application") {
        None => None,
        Some(class) => {
            if selection.item.is_none() {
                return Err(text::copied("--when-application requires --item"));
            }
            if !class_is_valid(class) {
                return Err(
                    text::copied(
                        "--when-application must be an application class using letters, digits, '.', '_', or '-'",
                    ),
                );
            }
            Some(text::lower_text(class))
        },
    };
    let hardware_socket = match args::opt(args, "--hardware-socket") {
        Some(path) => path,
        None => DEFAULT_HARDWARE_SOCKET,
    };
    if !path_is_normalized(hardware_socket) {
        return Err(text::copied("--hardware-socket must be a normalized absolute path"));
    }
    Ok(
        RunPlan {
            selection,
            application,
            hardware_socket: text::copied(hardware_socket),
            sandboxed: args::has_flag(args, "--sandboxed"),
        },
    )
}

/// The arguments of the process that shows a plugin on the hardware.
pub open spec fn run_words(
    plan: RunPlanView,
    socket: Seq<char>,
    host: Seq<char>,
    supervisor: Seq<char>,
    profiles: Option<Seq<char>>,
) -> Seq<Seq<char>> {
    seq![
        "--socket"@,
        socket,
        "--hardware-socket"@,
        plan.hardware_socket,
        "--system-bar"@,
        "--plugin-host"@,
        host,
        "--plugin-supervisor"@,
        supervisor,
    ] + (if plan.sandboxed {
        Seq::empty()
    } else {
        seq!["--trusted-plugins"@]
    }) + (match profiles {
        Some(path) => seq!["--profiles"@, path, "--hyprland-context"@],
        None => Seq::empty(),
    })
}

impl RunPlan {
    pub fn arguments(
        &self,
        socket: &str,
        host: &str,
        supervisor: &str,
        profiles: Option<&str>,
    ) -> (arguments:
        Vec<String>)
        ensures
            text::texts(arguments@) == run_words(
                self@,
                socket@,
                host@,
                supervisor@,
                args::str_view(profiles),
            ),
    {
        let mut arguments: Vec<String> = Vec::new();
        arguments.push(text::copied("--socket"));
        arguments.push(text::copied(socket));
        arguments.push(text::copied("--hardware-socket"));
        arguments.push(text::copied(self.hardware_socket.as_str()));
        arguments.push(text::copied("--system-bar"));
        arguments.push(text::copied("--plugin-host"));
        arguments.push(text::copied(host));
        arguments.push(text::copied("--plugin-supervisor"));
        arguments.push(text::copied(supervisor));
        if !self.sandboxed {
            arguments.push(text::copied("--trusted-plugins"));
        }
        if let Some(path) = profiles {
            arguments.push(text::copied("--profiles"));
            arguments.push(text::copied(path));
            arguments.push(text::copied("--hyprland-context"));
        }
        proof {
            assert(text::texts(arguments@) =~= run_words(
                self@,
                socket@,
                host@,
                supervisor@,
                args::str_view(profiles),
            ));
        }
        arguments
    }

    /// What is printed once the plugin is shown.
    pub fn ready(&self, package: &str, items: usize) -> (line: String)
        ensures
            line@ == "plugin-run=ready"@ + shown(package@, items as nat, self@.selection)
                + " mode="@ + (if self.sandboxed {
                "sandboxed"@
            } else {
                "trusted-local"@
            }) + " input=physical close=ctrl-c"@,
    {
        let words = show(package, items, &self.selection);
        let head = text::joined("plugin-run=ready", words.as_str());
        let mode = if self.sandboxed {
            "sandboxed"
        } else {
            "trusted-local"
        };
        text::joined4(head.as_str(), " mode=", mode, " input=physical close=ctrl-c")
    }
}

/// The profiles under which an item is shown only while an application has the
/// focus.
pub open spec fn contextual_text(source: Seq<char>, item: Seq<char>, application: Seq<char>) -> Seq<
    char,
> {
    "version = 1\nfallback = \"default\"\n\n[[contribution]]\nid = \"physical-preview-item\"\nscope = \"application\"\nwhen = { kind = \"text-equals\", key = \"application.id\", value = \""@
        + application + "\" }\nitems = [{ plugin = \""@ + source + "\", item = \""@ + item
        + "\", required = true }]\n\n[[profile]]\nid = \"default\"\n\n[[profile.element]]\nkind = \"slot\"\nid = \"inactive-preview\"\npolicy = \"collect\"\ncontributions = [\"physical-preview-item\"]\n\n[[profile]]\nid = \"physical-preview\"\n\n[[profile.element]]\nkind = \"slot\"\nid = \"physical-preview\"\npolicy = \"fixed\"\ncontributions = [\"physical-preview-item\"]\n\n[[rule]]\nprofile = \"physical-preview\"\npriority = 1000\nwhen = { kind = \"text-equals\", key = \"application.id\", value = \""@
        + application + "\" }\n"@
}

pub fn contextual_profile(source: &str, item: &str, application: &str) -> (document: String)
    ensures
        document@ == contextual_text(source@, item@, application@),
{
    let head = text::joined4(
        "version = 1\nfallback = \"default\"\n\n[[contribution]]\nid = \"physical-preview-item\"\nscope = \"application\"\nwhen = { kind = \"text-equals\", key = \"application.id\", value = \"",
        application,
        "\" }\nitems = [{ plugin = \"",
        source,
    );
    let middle = text::joined3(
        "\", item = \"",
        item,
        "\", required = true }]\n\n[[profile]]\nid = \"default\"\n\n[[profile.element]]\nkind = \"slot\"\nid = \"inactive-preview\"\npolicy = \"collect\"\ncontributions = [\"physical-preview-item\"]\n\n[[profile]]\nid = \"physical-preview\"\n\n[[profile.element]]\nkind = \"slot\"\nid = \"physical-preview\"\npolicy = \"fixed\"\ncontributions = [\"physical-preview-item\"]\n\n[[rule]]\nprofile = \"physical-preview\"\npriority = 1000\nwhen = { kind = \"text-equals\", key = \"application.id\", value = \"",
    );
    let document = text::joined4(head.as_str(), middle.as_str(), application, "\" }\n");
    proof {
        assert(document@ =~= contextual_text(source@, item@, application@));
    }
    document
}

// ---------------------------------------------------------------------------
// Waiting

/// What is waited for.
#[derive(Clone, Copy, Debug, PartialEq, Eq, Structural)]
pub enum Awaited {
    /// The socket of a preview.
    Preview,
    /// A plugin on the hardware.
    Plugin,
    /// The return of the hardware to the session.
    Restored,
}

/// What a look at what is waited for shows.
#[derive(Clone, Copy, Debug, PartialEq, Eq, Structural)]
pub struct Look {
    /// The process that it depends on is over.
    pub exited: bool,
    /// It is there.
    pub there: bool,
    /// No more time is left.
    pub expired: bool,
}

/// What follows a look.
#[derive(Clone, Copy, Debug, PartialEq, Eq, Structural)]
pub enum Wait {
    Ready,
    Again,
    Exited,
    Expired,
}

/// What follows a look. A preview that is there counts although its process is
/// over; a plugin does not.
pub open spec fn waited(awaited: Awaited, look: Look) -> Wait {
    if awaited == Awaited::Plugin && look.exited {
        Wait::Exited
    } else if look.there {
        Wait::Ready
    } else if awaited == Awaited::Preview && look.exited {
        Wait::Exited
    } else if look.expired {
        Wait::Expired
    } else {
        Wait::Again
    }
}

pub fn wait(awaited: Awaited, look: Look) -> (next: Wait)
    ensures
        next == waited(awaited, look),
{
    if awaited == Awaited::Plugin && look.exited {
        Wait::Exited
    } else if look.there {
        Wait::Ready
    } else if awaited == Awaited::Preview && look.exited {
        Wait::Exited
    } else if look.expired {
        Wait::Expired
    } else {
        Wait::Again
    }
}

impl Awaited {
    /// How many seconds are waited.
    pub fn seconds(&self) -> (seconds: u64)
        ensures
            seconds == (match *self {
                Awaited::Preview => 5u64,
                Awaited::Plugin => 15u64,
                Awaited::Restored => 10u64,
            }),
    {
        match self {
            Awaited::Preview => 5,
            Awaited::Plugin => 15,
            Awaited::Restored => 10,
        }
    }
}

/// Waiting ends: once no time is left, nothing is waited for any longer.
pub proof fn waiting_ends(awaited: Awaited, look: Look)
    requires
        look.expired,
    ensures
        !(waited(awaited, look) is Again),
{
}

/// A path is normal where it begins at the root and none of its parts is two
/// full stops.
pub proof fn normal_paths_never_climb(path: Seq<char>)
    ensures
        is_normalized(path) <==> path.len() > 0 && path[0] == '/' && forall|i: int|
            #![trigger path[i]]
            0 <= i < path.len() - 2 && path[i] == '/' && path[i + 1] == '.' && path[i + 2] == '.'
                ==> i + 3 < path.len() && path[i + 3] != '/',
{
    if is_normalized(path) {
        assert forall|i: int|
            #![trigger path[i]]
            0 <= i < path.len() - 2 && path[i] == '/' && path[i + 1] == '.' && path[i + 2]
                == '.' implies i + 3 < path.len() && path[i + 3] != '/' by {
            assert(!climbs_at(path, i + 1));
        }
    }
    if path.len() > 0 && path[0] == '/' && !is_normalized(path) {
        let i = choose|i: int| 0 <= i < path.len() && #[trigger] climbs_at(path, i);
        assert(path[i - 1] == '/');
    }
}

/// A preview is twice as large as life unless another size is asked for, and
/// then as large as life or four times as large.
pub proof fn previews_have_three_sizes(words: Seq<Seq<char>>)
    ensures
        scale_asked(words) matches Ok(scale) ==> scale == 1 || scale == 2 || scale == 4,
        args::option_value(words, "--scale"@) is None ==> scale_asked(words) == Ok::<
            u32,
            Seq<char>,
        >(2),
        args::option_value(words, "--scale"@) matches Some(value) ==> (scan::number_in(
            value,
            u32::MAX as nat,
        ) matches Some(n) ==> (n == 1 || n == 2 || n == 4 ==> scale_asked(words) == Ok::<
            u32,
            Seq<char>,
        >(n as u32)) && (!(n == 1 || n == 2 || n == 4) ==> scale_asked(words) is Err)),
{
    reveal_strlit("2");
    text::numbers_are_written_digit_by_digit(0, 2);
    assert("2"@ =~= text::decimal(2));
    scan::numbers_read_back(2, u32::MAX as nat);
}

/// What is shown is what is asked for: an item that there is, or all of them,
/// in a width that a canvas can have, or in their own.
pub proof fn selections_are_of_items_there_are(words: Seq<Seq<char>>, items: Seq<Seq<char>>)
    ensures
        selected(words, items) matches Ok(selection) ==> {
            &&& items.len() > 0
            &&& selection.item == args::option_value(words, "--item"@)
            &&& selection.item matches Some(item) ==> items.contains(item)
            &&& selection.width is Some <==> args::option_value(words, "--width"@) is Some
            &&& selection.width matches Some(width) ==> 1 <= width <= 8192 && scan::number_in(
                args::option_value(words, "--width"@)->0,
                u32::MAX as nat,
            ) == Some(width as nat)
        },
        items.len() > 0 && args::option_value(words, "--width"@) is None && (args::option_value(
            words,
            "--item"@,
        ) is None || items.contains(args::option_value(words, "--item"@)->0)) ==> selected(
            words,
            items,
        ) is Ok,
{
}

/// A plugin is shown on the hardware as it is asked for. One that is shown only
/// for an application is shown for one item, and the application has a class.
pub proof fn runs_are_as_asked_for(words: Seq<Seq<char>>, items: Seq<Seq<char>>)
    ensures
        run_asked(words, items) is Ok <==> {
            let application = args::option_value(words, "--when-application"@);
            let socket = args::option_value(words, "--hardware-socket"@);
            &&& selected(words, items) is Ok
            &&& application is Some ==> selected(words, items)->Ok_0.item is Some && is_class(
                application->0,
            )
            &&& socket is Some ==> is_normalized(socket->0)
        },
        run_asked(words, items) matches Ok(plan) ==> {
            let application = args::option_value(words, "--when-application"@);
            let socket = args::option_value(words, "--hardware-socket"@);
            &&& plan.selection == selected(words, items)->Ok_0
            &&& plan.application == (if application is Some {
                Some(text::lowered(application->0))
            } else {
                None
            })
            &&& plan.hardware_socket == (if socket is Some {
                socket->0
            } else {
                "/run/touchbar/hardware.sock"@
            })
            &&& plan.sandboxed <==> exists|i: int|
                0 <= i < words.len() && #[trigger] words[i] == "--sandboxed"@
        },
{
    reveal_strlit("/run/touchbar/hardware.sock");
    let fixed = "/run/touchbar/hardware.sock"@;
    assert(is_normalized(fixed)) by {
        assert forall|i: int| 0 <= i < fixed.len() implies !#[trigger] climbs_at(fixed, i) by {}
    }
}

/// What is there is not waited for, unless it is a plugin whose process is
/// over; and the end of a process ends the waiting for what only it can bring.
pub proof fn waiting_is_for_what_may_come(awaited: Awaited, look: Look)
    ensures
        waited(awaited, look) is Ready <==> look.there && !(awaited is Plugin && look.exited),
        waited(awaited, look) is Again <==> !look.there && !look.expired && !(look.exited && !(
        awaited is Restored)),
        waited(awaited, look) is Exited ==> look.exited && !(awaited is Restored),
        waited(awaited, look) is Expired ==> look.expired && !look.there,
{
}

} // verus!
