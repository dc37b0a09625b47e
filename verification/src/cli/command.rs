//! Which command the arguments ask for.
use vstd::prelude::*;

use super::args;
use crate::text;

verus! {

/// How the program is used.
pub const USAGE: &'static str = "usage: touchbarctl plugin COMMAND [OPTIONS]\n       touchbarctl session status|reload [--format text|json]\n       touchbarctl session profile list|select NAME|automatic [--format text|json]\n       touchbarctl hardware status [--format text|json]\n\n  new NAME [--source github:OWNER/REPO] [--directory DIR] [--sdk PATH]\n  build [--package DIR]\n  context [--format markdown|json]\n  check [--package DIR] [--format text|json]\n  test [--package DIR] [--host PATH] [--format text|json]\n  replay --scenario FILE [--screenshots DIR] [--package DIR] [--host PATH]\n  dev [--package DIR] [--item ID] [--width PX] [--scale 1|2|4]\n      [--host PATH] [--supervisor PATH] [--sessiond PATH]\n  run [--package DIR] [--item ID] [--width PX]\n      [--when-application CLASS] [--sandboxed]\n      [--host PATH] [--supervisor PATH] [--sessiond PATH]\n      [--hardware-socket PATH]\n  pack [--package DIR] [--output FILE]\n  release-check --tag TAG [--repository OWNER/REPO] [--package DIR]\n  publish --tag TAG --repository OWNER/REPO [--package DIR]\n  add (--path PACKAGE_OR_ARCHIVE | SOURCE_OR_ALIAS [--version VERSION])\n  update SOURCE [--version VERSION]\n  rollback SOURCE [--version VERSION]\n  search [QUERY] [--category CATEGORY] [--format text|json]\n  catalog-check [--catalog FILE] [--previous FILE] [--online] [--host PATH] [--format text|json]\n  submit --alias ALIAS --categories CATEGORY,... [--package DIR] [--format toml|json]\n  list [--format text|json]\n  inspect SOURCE [--format text|json]\n  permissions SOURCE [--format text|json]\n  permission SOURCE CAPABILITY allow|deny|reset (--session|--persistent)\n             [--reuse source|digest] [--format text|json]\n             [--bind LABEL=DIR] [--endpoint LABEL=SOCKET]\n             [--secret NAME=OBJECT_PATH] [--clipboard-socket SOCKET]\n  enable SOURCE | disable SOURCE | remove SOURCE\n  item SOURCE ITEM enable|disable|width [PX]\n  profile SOURCE PROFILE enable|disable\n\nTOUCHBAR_HOME overrides the local store root.";

/// What can be done with plugins.
#[derive(Clone, Copy, Debug, PartialEq, Eq, Structural)]
pub enum PluginCommand {
    New,
    Build,
    Context,
    Check,
    Test,
    Replay,
    Dev,
    Run,
    Pack,
    ReleaseCheck,
    Publish,
    Add,
    Update,
    Rollback,
    Search,
    CatalogCheck,
    Submit,
    List,
    Inspect,
    Permissions,
    Permission,
    Enable,
    Disable,
    Item,
    Profile,
    Remove,
}

/// What a command is called.
pub open spec fn called(command: PluginCommand) -> Seq<char> {
    match command {
        PluginCommand::New => "new"@,
        PluginCommand::Build => "build"@,
        PluginCommand::Context => "context"@,
        PluginCommand::Check => "check"@,
        PluginCommand::Test => "test"@,
        PluginCommand::Replay => "replay"@,
        PluginCommand::Dev => "dev"@,
        PluginCommand::Run => "run"@,
        PluginCommand::Pack => "pack"@,
        PluginCommand::ReleaseCheck => "release-check"@,
        PluginCommand::Publish => "publish"@,
        PluginCommand::Add => "add"@,
        PluginCommand::Update => "update"@,
        PluginCommand::Rollback => "rollback"@,
        PluginCommand::Search => "search"@,
        PluginCommand::CatalogCheck => "catalog-check"@,
        PluginCommand::Submit => "submit"@,
        PluginCommand::List => "list"@,
        PluginCommand::Inspect => "inspect"@,
        PluginCommand::Permissions => "permissions"@,
        PluginCommand::Permission => "permission"@,
        PluginCommand::Enable => "enable"@,
        PluginCommand::Disable => "disable"@,
        PluginCommand::Item => "item"@,
        PluginCommand::Profile => "profile"@,
        PluginCommand::Remove => "remove"@,
    }
}

impl PluginCommand {
    /// The command with the given name, where there is one.
    pub fn named(name: &str) -> (command: Option<Self>)
        ensures
            match command {
                Some(command) => called(command) == name@,
                None => forall|command: PluginCommand| #[trigger] called(command) != name@,
            },
    {
        if text::same(name, "new") {
            return Some(PluginCommand::New);
        }
        if text::same(name, "build") {
            return Some(PluginCommand::Build);
        }
        if text::same(name, "context") {
            return Some(PluginCommand::Context);
        }
        if text::same(name, "check") {
            return Some(PluginCommand::Check);
        }
        if text::same(name, "test") {
            return Some(PluginCommand::Test);
        }
        if text::same(name, "replay") {
            return Some(PluginCommand::Replay);
        }
        if text::same(name, "dev") {
            return Some(PluginCommand::Dev);
        }
        if text::same(name, "run") {
            return Some(PluginCommand::Run);
        }
        if text::same(name, "pack") {
            return Some(PluginCommand::Pack);
        }
        if text::same(name, "release-check") {
            return Some(PluginCommand::ReleaseCheck);
        }
        if text::same(name, "publish") {
            return Some(PluginCommand::Publish);
        }
        if text::same(name, "add") {
            return Some(PluginCommand::Add);
        }
        if text::same(name, "update") {
            return Some(PluginCommand::Update);
        }
        if text::same(name, "rollback") {
            return Some(PluginCommand::Rollback);
        }
        if text::same(name, "search") {
            return Some(PluginCommand::Search);
        }
        if text::same(name, "catalog-check") {
            return Some(PluginCommand::CatalogCheck);
        }
        if text::same(name, "submit") {
            return Some(PluginCommand::Submit);
        }
        if text::same(name, "list") {
            return Some(PluginCommand::List);
        }
        if text::same(name, "inspect") {
            return Some(PluginCommand::Inspect);
        }
        if text::same(name, "permissions") {
            return Some(PluginCommand::Permissions);
        }
        if text::same(name, "permission") {
            return Some(PluginCommand::Permission);
        }
        if text::same(name, "enable") {
            return Some(PluginCommand::Enable);
        }
        if text::same(name, "disable") {
            return Some(PluginCommand::Disable);
        }
        if text::same(name, "item") {
            return Some(PluginCommand::Item);
        }
        if text::same(name, "profile") {
            return Some(PluginCommand::Profile);
        }
        if text::same(name, "remove") {
            return Some(PluginCommand::Remove);
        }
        None
    }
}

/// What the program is asked to do.
#[derive(Debug, PartialEq, Eq)]
pub enum Choice {
    /// To say how it is used.
    Help,
    /// Something about the session.
    Session,
    /// Something about the hardware.
    Hardware,
    /// Something about plugins.
    Plugin(PluginCommand),
    /// Nothing that it can do.
    Refused(String),
}

/// [`Choice`], by the views of what it holds.
pub enum ChoiceView {
    Help,
    Session,
    Hardware,
    Plugin(PluginCommand),
    Refused(Seq<char>),
}

impl View for Choice {
    type V = ChoiceView;

    open spec fn view(&self) -> ChoiceView {
        match self {
            Choice::Help => ChoiceView::Help,
            Choice::Session => ChoiceView::Session,
            Choice::Hardware => ChoiceView::Hardware,
            Choice::Plugin(command) => ChoiceView::Plugin(*command),
            Choice::Refused(message) => ChoiceView::Refused(message@),
        }
    }
}

/// What the arguments ask for.
pub open spec fn asked(words: Seq<Seq<char>>, choice: ChoiceView) -> bool {
    if words.contains("--help"@) || words.contains("-h"@) {
        choice is Help
    } else if words.len() == 0 {
        choice == ChoiceView::Refused(USAGE@)
    } else if words[0] == "session"@ {
        choice is Session
    } else if words[0] == "hardware"@ {
        choice is Hardware
    } else if words[0] != "plugin"@ {
        choice == ChoiceView::Refused("unknown command group `"@ + words[0] + "`\n\n"@ + USAGE@)
    } else if words.len() == 1 {
        choice == ChoiceView::Refused(USAGE@)
    } else if exists|command: PluginCommand| #[trigger] called(command) == words[1] {
        choice matches ChoiceView::Plugin(command) && called(command) == words[1]
    } else {
        choice == ChoiceView::Refused("unknown plugin command `"@ + words[1] + "`\n\n"@ + USAGE@)
    }
}

/// What the arguments ask for. What stands behind the name of the command is
/// left to the command.
pub fn dispatch(arguments: &[String]) -> (choice: Choice)
    ensures
        asked(text::texts(arguments@), choice@),
{
    let ghost words = text::texts(arguments@);
    if args::has_flag(arguments, "--help") || args::has_flag(arguments, "-h") {
        return Choice::Help;
    }
    if arguments.len() == 0 {
        return Choice::Refused(text::copied(USAGE));
    }
    let scope = arguments[0].as_str();
    proof {
        assert(words[0] == scope@);
    }
    if text::same(scope, "session") {
        return Choice::Session;
    }
    if text::same(scope, "hardware") {
        return Choice::Hardware;
    }
    if !text::same(scope, "plugin") {
        return Choice::Refused(text::joined4("unknown command group `", scope, "`\n\n", USAGE));
    }
    if arguments.len() == 1 {
        return Choice::Refused(text::copied(USAGE));
    }
    let name = arguments[1].as_str();
    proof {
        assert(words[1] == name@);
    }
    match PluginCommand::named(name) {
        Some(command) => Choice::Plugin(command),
        None => Choice::Refused(text::joined4("unknown plugin command `", name, "`\n\n", USAGE)),
    }
}

// ---------------------------------------------------------------------------
// Arguments

/// The options that a command takes, each with a value.
pub open spec fn options_of(command: PluginCommand) -> Seq<Seq<char>> {
    match command {
        PluginCommand::New => seq!["--source"@, "--directory"@, "--sdk"@],
        PluginCommand::Build => seq!["--package"@],
        PluginCommand::Context | PluginCommand::List | PluginCommand::Inspect
        | PluginCommand::Permissions => seq!["--format"@],
        PluginCommand::Check => seq!["--package"@, "--format"@],
        PluginCommand::Test => seq!["--package"@, "--host"@, "--format"@],
        PluginCommand::Replay => seq!["--package"@, "--scenario"@, "--screenshots"@, "--host"@],
        PluginCommand::Dev => seq![
            "--package"@,
            "--item"@,
            "--width"@,
            "--scale"@,
            "--host"@,
            "--supervisor"@,
            "--sessiond"@,
        ],
        PluginCommand::Run => seq![
            "--package"@,
            "--item"@,
            "--width"@,
            "--when-application"@,
            "--host"@,
            "--supervisor"@,
            "--sessiond"@,
            "--hardware-socket"@,
        ],
        PluginCommand::Pack => seq!["--package"@, "--output"@],
        PluginCommand::ReleaseCheck | PluginCommand::Publish => seq![
            "--package"@,
            "--tag"@,
            "--repository"@,
        ],
        PluginCommand::Add => seq!["--path"@, "--version"@],
        PluginCommand::Update | PluginCommand::Rollback => seq!["--version"@],
        PluginCommand::Search => seq!["--category"@, "--format"@],
        PluginCommand::CatalogCheck => seq!["--catalog"@, "--previous"@, "--host"@, "--format"@],
        PluginCommand::Submit => seq!["--alias"@, "--categories"@, "--package"@, "--format"@],
        PluginCommand::Permission => seq![
            "--reuse"@,
            "--format"@,
            "--bind"@,
            "--endpoint"@,
            "--secret"@,
            "--clipboard-socket"@,
        ],
        PluginCommand::Enable | PluginCommand::Disable | PluginCommand::Remove
        | PluginCommand::Item | PluginCommand::Profile => Seq::empty(),
    }
}

/// The options that a command takes alone.
pub open spec fn flags_of(command: PluginCommand) -> Seq<Seq<char>> {
    match command {
        PluginCommand::Run => seq!["--sandboxed"@],
        PluginCommand::CatalogCheck => seq!["--online"@],
        PluginCommand::Permission => seq!["--session"@, "--persistent"@],
        _ => Seq::empty(),
    }
}

/// How many other arguments a command takes at most.
pub open spec fn words_of(command: PluginCommand) -> nat {
    match command {
        PluginCommand::New | PluginCommand::Add | PluginCommand::Update
        | PluginCommand::Rollback | PluginCommand::Search | PluginCommand::Inspect
        | PluginCommand::Permissions | PluginCommand::Enable | PluginCommand::Disable
        | PluginCommand::Remove => 1,
        PluginCommand::Permission => 3,
        _ => 0,
    }
}

/// What is wrong with the arguments of a command, if anything is. What becomes
/// of an item or a profile is said word by word.
pub open spec fn accepted(command: PluginCommand, words: Seq<Seq<char>>) -> Result<(), Seq<char>> {
    if command is Item || command is Profile {
        Ok(())
    } else {
        args::well_used(words, options_of(command), flags_of(command), words_of(command))
    }
}

fn options_known(command: PluginCommand) -> (options: Vec<&'static str>)
    ensures
        args::names(options@) == options_of(command),
{
    let options: Vec<&'static str> = match command {
        PluginCommand::New => vec!["--source", "--directory", "--sdk"],
        PluginCommand::Build => vec!["--package"],
        PluginCommand::Context | PluginCommand::List | PluginCommand::Inspect
        | PluginCommand::Permissions => vec!["--format"],
        PluginCommand::Check => vec!["--package", "--format"],
        PluginCommand::Test => vec!["--package", "--host", "--format"],
        PluginCommand::Replay => vec!["--package", "--scenario", "--screenshots", "--host"],
        PluginCommand::Dev => vec![
            "--package",
            "--item",
            "--width",
            "--scale",
            "--host",
            "--supervisor",
            "--sessiond",
        ],
        PluginCommand::Run => vec![
            "--package",
            "--item",
            "--width",
            "--when-application",
            "--host",
            "--supervisor",
            "--sessiond",
            "--hardware-socket",
        ],
        PluginCommand::Pack => vec!["--package", "--output"],
        PluginCommand::ReleaseCheck | PluginCommand::Publish => vec![
            "--package",
            "--tag",
            "--repository",
        ],
        PluginCommand::Add => vec!["--path", "--version"],
        PluginCommand::Update | PluginCommand::Rollback => vec!["--version"],
        PluginCommand::Search => vec!["--category", "--format"],
        PluginCommand::CatalogCheck => vec!["--catalog", "--previous", "--host", "--format"],
        PluginCommand::Submit => vec!["--alias", "--categories", "--package", "--format"],
        PluginCommand::Permission => vec![
            "--reuse",
            "--format",
            "--bind",
            "--endpoint",
            "--secret",
            "--clipboard-socket",
        ],
        PluginCommand::Enable | PluginCommand::Disable | PluginCommand::Remove
        | PluginCommand::Item | PluginCommand::Profile => vec![],
    };
    proof {
        assert(args::names(options@) =~= options_of(command));
    }
    options
}

fn flags_known(command: PluginCommand) -> (flags: Vec<&'static str>)
    ensures
        args::names(flags@) == flags_of(command),
{
    let flags: Vec<&'static str> = match command {
        PluginCommand::Run => vec!["--sandboxed"],
        PluginCommand::CatalogCheck => vec!["--online"],
        PluginCommand::Permission => vec!["--session", "--persistent"],
        _ => vec![],
    };
    proof {
        assert(args::names(flags@) =~= flags_of(command));
    }
    flags
}

impl PluginCommand {
    /// Whether a command takes the arguments that it is given.
    pub fn accept(self, arguments: &[String]) -> (result: Result<(), String>)
        ensures
            args::outcome(result) == accepted(self, text::texts(arguments@)),
    {
        let most: usize = match self {
            PluginCommand::Item | PluginCommand::Profile => {
                return Ok(());
            },
            PluginCommand::Permission => 3,
            PluginCommand::New | PluginCommand::Add | PluginCommand::Update
            | PluginCommand::Rollback | PluginCommand::Search | PluginCommand::Inspect
            | PluginCommand::Permissions | PluginCommand::Enable | PluginCommand::Disable
            | PluginCommand::Remove => 1,
            _ => 0,
        };
        let options = options_known(self);
        let flags = flags_known(self);
        args::reject_with_flags(arguments, options.as_slice(), flags.as_slice(), most)
    }
}

} // verus!
