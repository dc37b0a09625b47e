//! The files that a new plugin begins with, and what builds them.
use vstd::prelude::*;

use super::args;
use super::naming;
use crate::text;

verus! {

/// Where the core of the project is.
pub const CORE_REPOSITORY: &'static str = "https://github.com/cameroncooper/touchbar";

/// Where the catalog of plugins is.
pub const CATALOG_REPOSITORY: &'static str = "https://github.com/cameroncooper/touchbar-plugins";

/// Which release of the core a new plugin is built with.
pub const TOOLCHAIN_TAG: &'static str = "v0.1.0";

/// What a new plugin is asked to be.
#[derive(Debug, PartialEq, Eq)]
pub struct NewPlugin {
    pub name: String,
    /// The source, where one is given.
    pub source: Option<String>,
    /// Where its files go.
    pub directory: String,
    /// Where the development kit is, where it is not the released one.
    pub sdk: Option<String>,
}

/// [`NewPlugin`], field by field.
#[verifier::ext_equal]
pub struct NewPluginView {
    pub name: Seq<char>,
    pub source: Option<Seq<char>>,
    pub directory: Seq<char>,
    pub sdk: Option<Seq<char>>,
}

impl View for NewPlugin {
    type V = NewPluginView;

    open spec fn view(&self) -> NewPluginView {
        NewPluginView {
            name: self.name@,
            source: match self.source {
                Some(source) => Some(source@),
                None => None,
            },
            directory: self.directory@,
            sdk: match self.sdk {
                Some(sdk) => Some(sdk@),
                None => None,
            },
        }
    }
}

/// What a new plugin is asked to be.
pub open spec fn plugin_asked(words: Seq<Seq<char>>) -> Result<NewPluginView, Seq<char>> {
    match args::well_used(words, seq!["--source"@, "--directory"@, "--sdk"@], Seq::empty(), 1) {
        Err(message) => Err(message),
        Ok(_) => match args::positioned(words, Seq::empty(), 0) {
            None => Err("new requires NAME"@),
            Some(name) => match naming::name_checked(name) {
                Err(message) => Err(message),
                Ok(_) => Ok(
                    NewPluginView {
                        name,
                        source: args::option_value(words, "--source"@),
                        directory: match args::option_value(words, "--directory"@) {
                            Some(directory) => directory,
                            None => name,
                        },
                        sdk: args::option_value(words, "--sdk"@),
                    },
                ),
            },
        },
    }
}

fn owned(value: Option<&str>) -> (copy: Option<String>)
    ensures
        args::str_view(value) == (match copy {
            Some(copy) => Some(copy@),
            None => None::<Seq<char>>,
        }),
{
    match value {
        Some(value) => Some(text::copied(value)),
        None => None,
    }
}

/// What a new plugin is asked to be.
pub fn new_plugin(args: &[String]) -> (result: Result<NewPlugin, String>)
    ensures
        args::outcome(result) == plugin_asked(text::texts(args@)),
{
    let known: [&str; 3] = ["--source", "--directory", "--sdk"];
    proof {
        assert(args::names(known@) =~= seq!["--source"@, "--directory"@, "--sdk"@]);
    }
    args::reject(args, known.as_slice(), 1)?;
    let name = match args::positional(args, 0) {
        Some(name) => name,
        None => {
            return Err(text::copied("new requires NAME"));
        },
    };
    naming::validate_name(name)?;
    let source = owned(args::opt(args, "--source"));
    let directory = match args::opt(args, "--directory") {
        Some(directory) => text::copied(directory),
        None => text::copied(name),
    };
    let sdk = owned(args::opt(args, "--sdk"));
    Ok(NewPlugin { name: text::copied(name), source, directory, sdk })
}

// ---------------------------------------------------------------------------
// Files

/// How a plugin depends on the development kit.
pub open spec fn dependency_text(sdk: Option<Seq<char>>) -> Seq<char> {
    match sdk {
        Some(path) => "{ path = "@ + text::quotation(path) + " }"@,
        None => "{ git = \""@ + CORE_REPOSITORY@ + "\", tag = \""@ + TOOLCHAIN_TAG@ + "\" }"@,
    }
}

/// How a plugin depends on the development kit: on the released one, unless
/// another one is given.
pub fn sdk_dependency(sdk: Option<&str>) -> (dependency: String)
    ensures
        dependency@ == dependency_text(args::str_view(sdk)),
{
    match sdk {
        Some(path) => {
            let path = text::quoted(path);
            text::joined3("{ path = ", path.as_str(), " }")
        },
        None => {
            let head = text::joined4("{ git = \"", CORE_REPOSITORY, "\", tag = \"", TOOLCHAIN_TAG);
            text::joined(head.as_str(), "\" }")
        },
    }
}

/// The description of the crate of a new plugin.
pub open spec fn cargo_text(name: Seq<char>, dependency: Seq<char>) -> Seq<char> {
    "[package]\nname = \"touchbar-"@ + name + "\"\nversion = \"0.1.0\"\nedition = \"2024\"\nlicense = \"MIT OR Apache-2.0\"\n\n[lib]\ncrate-type = [\"cdylib\"]\n\n[dependencies]\ntouchbar-component-sdk = "@ + dependency + "\n\n[workspace]\n"@
}

/// The description of the crate of a new plugin.
pub fn cargo_document(name: &str, dependency: &str) -> (document: String)
    ensures
        document@ == cargo_text(name@, dependency@),
{
    let head = text::joined4(
        "[package]\nname = \"touchbar-",
        name,
        "\"\nversion = \"0.1.0\"\nedition = \"2024\"\nlicense = \"MIT OR Apache-2.0\"\n\n[lib]\ncrate-type = [\"cdylib\"]\n\n[dependencies]\ntouchbar-component-sdk = ",
        dependency,
    );
    text::joined(
        head.as_str(),
        "\n\n[workspace]\n",
    )
}

/// The manifest of a new plugin.
pub open spec fn manifest_text(name: Seq<char>, source: Seq<char>) -> Seq<char> {
    "manifest_version = 1\n\n[plugin]\nname = \""@ + naming::title_of(name)
        + "\"\nversion = \"0.1.0\"\ndescription = \"A TouchBar plugin\"\nlicense = \"MIT OR Apache-2.0\"\nsource = \""@ + source
        + "\"\napi = \"^1.0\"\n\n[runtime]\nkind = \"component\"\nentrypoint = \"component/plugin.wasm\"\nworld = \"touchbar:plugin/plugin@1.0.0\"\n\n[[items]]\nid = \"main\"\nlabel = \""@ + naming::title_of(name)
        + "\"\nexpanded_bar = \"main-actions\"\npress_and_hold_bar = \"main-actions\"\n\n[[items]]\nid = \"actions\"\nlabel = \"Actions\"\n\n[[bar]]\nid = \"main-actions\"\nminimum_width = 248\npreferred_width = 360\nmaximum_width = 640\ndismiss_on_selection = true\nprincipal_item = \"main\"\n\n[[bar.element]]\nkind = \"item\"\nitem = \"main\"\nminimum_width = 120\npreferred_width = 240\nmaximum_width = 480\n\n[[bar.element]]\nkind = \"fixed-space\"\nwidth = 8\n\n[[bar.element]]\nkind = \"item\"\nitem = \"actions\"\nminimum_width = 96\npreferred_width = 112\nmaximum_width = 152\n"@
}

pub fn manifest_document(name: &str, source: &str) -> (document: String)
    ensures
        document@ == manifest_text(name@, source@),
{
    let title = naming::title(name);
    let head = text::joined4(
        "manifest_version = 1\n\n[plugin]\nname = \"",
        title.as_str(),
        "\"\nversion = \"0.1.0\"\ndescription = \"A TouchBar plugin\"\nlicense = \"MIT OR Apache-2.0\"\nsource = \"",
        source,
    );
    text::joined4(
        head.as_str(),
        "\"\napi = \"^1.0\"\n\n[runtime]\nkind = \"component\"\nentrypoint = \"component/plugin.wasm\"\nworld = \"touchbar:plugin/plugin@1.0.0\"\n\n[[items]]\nid = \"main\"\nlabel = \"",
        title.as_str(),
        "\"\nexpanded_bar = \"main-actions\"\npress_and_hold_bar = \"main-actions\"\n\n[[items]]\nid = \"actions\"\nlabel = \"Actions\"\n\n[[bar]]\nid = \"main-actions\"\nminimum_width = 248\npreferred_width = 360\nmaximum_width = 640\ndismiss_on_selection = true\nprincipal_item = \"main\"\n\n[[bar.element]]\nkind = \"item\"\nitem = \"main\"\nminimum_width = 120\npreferred_width = 240\nmaximum_width = 480\n\n[[bar.element]]\nkind = \"fixed-space\"\nwidth = 8\n\n[[bar.element]]\nkind = \"item\"\nitem = \"actions\"\nminimum_width = 96\npreferred_width = 112\nmaximum_width = 152\n",
    )
}

/// The code of a new plugin, before its title.
pub const SCAFFOLD_HEAD: &'static str = "use touchbar_component_sdk::kit::{ColorRole, InputEvent, InputKind, Pressable, ViewBuilder};\nuse touchbar_component_sdk::touchbar::plugin::ui::{PresentationBegin, PresentationCommand, PresentationLifecycle, PresentationPlacement};\nuse touchbar_component_sdk::{Guest, HostEvent, Item, PresentationEvent, RenderRequest, Update, View};\nstruct Plugin;\nimpl Guest for Plugin {\n    fn items() -> Vec<Item> {\n        vec![\n            Item { id: \"main\".into(), label: \"";

/// The code of a new plugin, behind its title.
pub const SCAFFOLD_TAIL: &'static str = "\".into() },\n            Item { id: \"actions\".into(), label: \"Actions\".into() },\n        ]\n    }\n    fn render(request: RenderRequest) -> Result<View, String> {\n        let mut view = ViewBuilder::new();\n        let (widget, text, label) = if request.item_id == \"main\" {\n            (1, \"OPEN\", \"Open actions\")\n        } else if request.item_id == \"actions\" {\n            (2, \"ACTION\", \"Run action\")\n        } else {\n            return Err(format!(\"unknown item {}\", request.item_id));\n        };\n        let content = view.label(text, 11.0, ColorRole::Foreground);\n        let control = view.pressable(\n            widget,\n            label,\n            content,\n            Pressable { hold_ms: (widget == 1).then_some(420), ..Pressable::control() },\n        );\n        Ok(view.finish(control))\n    }\n    fn handle_event(event: InputEvent) -> Result<Update, String> {\n        let presentation = match (event.widget_id, event.kind) {\n            (1, InputKind::Activated) => Some(PresentationCommand::Begin(PresentationBegin {\n                placement: PresentationPlacement::Anchored,\n                lifecycle: PresentationLifecycle::Persistent,\n                target: None,\n            })),\n            (1, InputKind::LongPressed) => Some(PresentationCommand::Begin(PresentationBegin {\n                placement: PresentationPlacement::Anchored,\n                lifecycle: PresentationLifecycle::Transient,\n                target: None,\n            })),\n            _ => None,\n        };\n        Ok(Update { rerender: true, presentation })\n    }\n    fn handle_presentation_event(_event: PresentationEvent) -> Result<Update, String> {\n        Ok(Update { rerender: true, presentation: None })\n    }\n    fn handle_host_event(_event: HostEvent) -> Result<Update, String> {\n        Ok(Update { rerender: false, presentation: None })\n    }\n}\ntouchbar_component_sdk::export!(Plugin);\n";

/// The code of a new plugin.
pub fn code_document(name: &str) -> (document: String)
    ensures
        document@ == SCAFFOLD_HEAD@ + naming::title_of(name@) + SCAFFOLD_TAIL@,
{
    let title = naming::title(name);
    text::joined3(SCAFFOLD_HEAD, title.as_str(), SCAFFOLD_TAIL)
}

/// What a new plugin is put through in a test.
pub const REPLAY_SCENARIO: &'static str = r##"{
  "version": 1,
  "item": "main",
  "width": 160,
  "appearance": {
    "preset": "dark",
    "motion": "full",
    "colors": {}
  },
  "steps": [
    { "kind": "touch", "contact_id": 1, "phase": "down", "x": 80, "y": 30, "time_ms": 0 },
    { "kind": "touch", "contact_id": 1, "phase": "up", "x": 80, "y": 30, "time_ms": 50 },
    { "kind": "presentation", "event": { "kind": "started" } },
    { "kind": "presentation", "event": { "kind": "ended", "reason": "selection" } },
    {
      "kind": "appearance",
      "preset": "light",
      "revision": 2,
      "motion": "reduced",
      "colors": { "accent": "#246bfe" }
    },
    { "kind": "touch", "contact_id": 2, "phase": "down", "x": 80, "y": 30, "time_ms": 600 },
    { "kind": "advance", "time_ms": 1100 },
    { "kind": "touch", "contact_id": 2, "phase": "up", "x": 80, "y": 30, "time_ms": 1200 },
    { "kind": "snapshot", "name": "final" }
  ]
}
"##;

/// What an agent is told who works on a new plugin.
pub const AGENT_GUIDE: &'static str = r#"# TouchBar plugin agent guide

This repository is one sandboxed TouchBar component pack. Keep every
item ID stable after release and render correctly at every assigned width at
the fixed 60-pixel height. The canvas follows the attached panel, so never
assume a particular total strip width.

Use semantic appearance roles from `RenderRequest`; never assume a fixed
background or pair a hard-coded foreground with a theme-controlled surface.
Text, geometry, SVG masks, image tint, graphs, and animation should all react
to the supplied theme and motion policy.

The generated `main-actions` presentation demonstrates both tap-to-open and
hold-slide interaction. Keep presentation references package-local, declare
ordered min/preferred/max sizing for the bar and every item, and handle
presentation lifecycle events instead of assuming a request was accepted.

Declare only the narrow capabilities the component actually needs. The guest
has no ambient environment, filesystem, network, D-Bus, command execution,
clipboard, or desktop access. Optional capabilities must degrade gracefully;
required capabilities prevent launch when denied.

Before handing work back, run:

```text
cargo generate-lockfile
touchbarctl plugin build
touchbarctl plugin check
touchbarctl plugin test --format json
touchbarctl plugin replay --scenario tests/interaction.json
touchbarctl plugin replay --scenario tests/interaction.json --screenshots screenshots
```

The replay scenario drives coordinates through the real hit-testing, capture,
slider, and hold recognizers with a deterministic clock. It also demonstrates
presentation lifecycle callbacks and a dynamic light/reduced-motion theme. Its
versioned JSON output is suitable for semantic snapshot assertions. The optional
screenshots command renders named checkpoints through the production GLES UI
renderer and refuses to overwrite existing PNGs.

Run `touchbarctl plugin dev` to open the complete pack in the real compositor's
desktop preview. Use `--item ID --width PX` for one responsive item and
`--scale 1|2|4` for display sizing. Mouse and Wayland touch exercise the normal
capture and presentation router, but are explicitly synthetic and cannot
authorize activation-gated OS operations.

On supported hardware, run `touchbarctl plugin run --item ID --width PX` to
launch the workspace session compositor without stopping the hardware service
or changing installed plugins. Ctrl-C returns the strip to the installed user
session. This is trusted local hosting by default; add `--sandboxed` when the
test specifically covers production permission or broker behavior.

For capability-driven widgets, add exact typed D-Bus call/subscription, HTTP
inline/stream, constrained-command, filesystem-read, framed local-service,
notification, URI-open, clipboard, or secret-read
fixtures to the replay scenario. They traverse the real asynchronous broker ABI
and production scope/activation checks without contacting the desktop/network,
launching a process, reading a host file, or opening a Unix socket. Every
expected response must be consumed, so unexpected or missing integration calls
fail the replay instead of silently producing a plausible screenshot.
Clipboard and URI fixtures remain physical-activation gated; use only fake
clipboard values in a committed scenario. Secret fixtures are activation-gated,
never reported by the host, and must contain conspicuously synthetic values only.

For release, update both Cargo.toml and touchbar-plugin.toml to the same plain
semantic version, commit Cargo.lock, tag that commit as `vMAJOR.MINOR.PATCH`,
and push the tag. The generated workflow publishes exactly
`touchbar-plugin.touchbar` and creates a GitHub provenance attestation.
After that release succeeds, `touchbarctl plugin submit --alias ALIAS
--categories CATEGORY,...` emits a reviewed-catalog entry without publishing
or changing anything remotely.
"#;

/// How a new plugin is tested wherever it is changed.
pub const CHECK_WORKFLOW: &'static str = r#"name: TouchBar plugin checks

on:
  push:
    branches: [main]
  pull_request:

permissions:
  contents: read

jobs:
  check:
    runs-on: ubuntu-latest
    steps:
      - uses: actions/checkout@v7
        with:
          persist-credentials: false
      - name: Install Rust component target
        run: rustup target add wasm32-wasip2
      - name: Install TouchBar toolchain
        run: |
          cargo install --locked --git https://github.com/cameroncooper/touchbar --tag v0.1.0 touchbar-cli
          cargo install --locked --git https://github.com/cameroncooper/touchbar --tag v0.1.0 touchbar-plugin-host
      - name: Build and validate every responsive width
        run: |
          touchbarctl plugin build
          touchbarctl plugin check
          touchbarctl plugin test
"#;

/// How a new plugin is released.
pub const RELEASE_WORKFLOW: &'static str = r#"name: Publish TouchBar plugin

on:
  push:
    tags: ["v*.*.*"]

permissions:
  contents: write
  id-token: write
  attestations: write

jobs:
  release:
    runs-on: ubuntu-latest
    steps:
      - uses: actions/checkout@v7
        with:
          persist-credentials: false
      - name: Install Rust component target
        run: rustup target add wasm32-wasip2
      - name: Install TouchBar toolchain
        run: |
          cargo install --locked --git https://github.com/cameroncooper/touchbar --tag v0.1.0 touchbar-cli
          cargo install --locked --git https://github.com/cameroncooper/touchbar --tag v0.1.0 touchbar-plugin-host
      - name: Build, test, and package the tagged source
        run: |
          cargo build --release --locked --target wasm32-wasip2
          touchbarctl plugin build
          touchbarctl plugin check
          touchbarctl plugin test
          touchbarctl plugin release-check --tag "$GITHUB_REF_NAME" --repository "$GITHUB_REPOSITORY"
          touchbarctl plugin pack
      - name: Attest package provenance
        uses: actions/attest@v4
        with:
          subject-path: touchbar-plugin.touchbar
      - name: Create GitHub Release with the standard package asset
        env:
          GITHUB_TOKEN: ${{ github.token }}
        run: >-
          touchbarctl plugin publish
          --tag "$GITHUB_REF_NAME"
          --repository "$GITHUB_REPOSITORY"
"#;

/// What a new plugin keeps out of its repository.
pub const IGNORED_FILES: &'static str = "/target\n/component/*.wasm\n/*.touchbar\n";

/// The front page of a new plugin.
pub fn readme_document(name: &str) -> (document: String)
    ensures
        document@ == "# "@ + naming::title_of(name@)
            + "\n\nGenerated with `touchbarctl plugin new`.\n"@,
{
    let title = naming::title(name);
    text::joined3("# ", title.as_str(), "\n\nGenerated with `touchbarctl plugin new`.\n")
}

/// A file of a new plugin.
#[derive(Debug, PartialEq, Eq)]
pub struct ScaffoldFile {
    /// Where it is in the directory of the plugin.
    pub path: &'static str,
    pub document: String,
}

/// A file by its path and its text.
pub open spec fn file_view(file: ScaffoldFile) -> (Seq<char>, Seq<char>) {
    (file.path@, file.document@)
}

fn file(path: &'static str, document: String) -> (file: ScaffoldFile)
    ensures
        file_view(file) == (path@, document@),
{
    ScaffoldFile { path, document }
}

/// The files of a new plugin, in the order in which they are written.
pub open spec fn plugin_files(name: Seq<char>, source: Seq<char>, dependency: Seq<char>) -> Seq<
    (Seq<char>, Seq<char>),
> {
    seq![
        ("Cargo.toml"@, cargo_text(name, dependency)),
        ("touchbar-plugin.toml"@, manifest_text(name, source)),
        ("src/lib.rs"@, SCAFFOLD_HEAD@ + naming::title_of(name) + SCAFFOLD_TAIL@),
        ("tests/interaction.json"@, REPLAY_SCENARIO@),
        (
            "README.md"@,
            "# "@ + naming::title_of(name) + "\n\nGenerated with `touchbarctl plugin new`.\n"@,
        ),
        (".gitignore"@, IGNORED_FILES@),
        ("AGENTS.md"@, AGENT_GUIDE@),
        (".github/workflows/check.yml"@, CHECK_WORKFLOW@),
        (".github/workflows/release.yml"@, RELEASE_WORKFLOW@),
    ]
}

/// The files of a new plugin, in the order in which they are written.
pub fn scaffold_files(name: &str, source: &str, dependency: &str) -> (files: Vec<ScaffoldFile>)
    ensures
        files@.len() == plugin_files(name@, source@, dependency@).len(),
        forall|i: int|
            0 <= i < files@.len() ==> file_view(#[trigger] files@[i]) == plugin_files(
                name@,
                source@,
                dependency@,
            )[i],
{
    let mut files: Vec<ScaffoldFile> = Vec::new();
    files.push(file("Cargo.toml", cargo_document(name, dependency)));
    files.push(file("touchbar-plugin.toml", manifest_document(name, source)));
    files.push(file("src/lib.rs", code_document(name)));
    files.push(file("tests/interaction.json", text::copied(REPLAY_SCENARIO)));
    files.push(file("README.md", readme_document(name)));
    files.push(file(".gitignore", text::copied(IGNORED_FILES)));
    files.push(file("AGENTS.md", text::copied(AGENT_GUIDE)));
    files.push(file(".github/workflows/check.yml", text::copied(CHECK_WORKFLOW)));
    files.push(file(".github/workflows/release.yml", text::copied(RELEASE_WORKFLOW)));
    files
}

/// What is said of a new plugin.
pub fn created_text(source: &str, directory: &str) -> (said: String)
    ensures
        said@ == "Created "@ + source@ + "\n\n  cd "@ + directory@
            + "\n  touchbarctl plugin build\n  touchbarctl plugin test --format json\n  touchbarctl plugin replay --scenario tests/interaction.json\n  touchbarctl plugin dev"@,
{
    let head = text::joined4("Created ", source, "\n\n  cd ", directory);
    text::joined(
        head.as_str(),
        "\n  touchbarctl plugin build\n  touchbarctl plugin test --format json\n  touchbarctl plugin replay --scenario tests/interaction.json\n  touchbarctl plugin dev",
    )
}

// ---------------------------------------------------------------------------
// Building

/// The name of a crate with underscores in place of hyphens.
pub open spec fn library_name(name: Seq<char>) -> Seq<char> {
    Seq::new(
        name.len(),
        |i: int|
            if name[i] == '-' {
                '_'
            } else {
                name[i]
            },
    )
}

/// The file that a build makes of a crate.
pub fn built_file(name: &str) -> (file: String)
    ensures
        file@ == library_name(name@) + ".wasm"@,
{
    let chars: Vec<char> = text::characters(name);
    let mut library: String = String::new();
    let mut i: usize = 0;
    while i < chars.len()
        invariant
            i <= chars@.len(),
            chars@ == name@,
            library@ == library_name(name@).subrange(0, i as int),
        decreases chars@.len() - i,
    {
        if chars[i] == '-' {
            library.push('_');
        } else {
            library.push(chars[i]);
        }
        proof {
            assert(library@ =~= library_name(name@).subrange(0, i + 1));
        }
        i = i + 1;
    }
    proof {
        assert(library_name(name@).subrange(0, i as int) =~= library_name(name@));
    }
    text::joined(library.as_str(), ".wasm")
}

/// Which compiler a build uses.
#[derive(Clone, Copy, Debug, PartialEq, Eq, Structural)]
pub enum Toolchain {
    /// The one that the environment names.
    Named,
    /// The one that is found.
    Found,
}

/// Which compiler a build uses: its two parts are named together, or not at
/// all.
pub fn toolchain(cargo: bool, rustc: bool) -> (result: Result<Toolchain, String>)
    ensures
        match result {
            Ok(toolchain) => cargo == rustc && toolchain == (if cargo {
                Toolchain::Named
            } else {
                Toolchain::Found
            }),
            Err(message) => cargo != rustc && message@
                == "component builds require CARGO and RUSTC to be set together"@,
        },
{
    if cargo != rustc {
        return Err(text::copied("component builds require CARGO and RUSTC to be set together"));
    }
    if cargo {
        Ok(Toolchain::Named)
    } else {
        Ok(Toolchain::Found)
    }
}

/// What came of asking a rustup for a program.
#[derive(Clone, Copy, Debug, PartialEq, Eq, Structural)]
pub enum Answer {
    /// There is no such rustup.
    Absent,
    /// It could not be asked.
    Refused,
    /// It answered; says whether it succeeded, and whether what it names is there.
    Given { succeeded: bool, present: bool },
}

/// What an answer of a rustup is worth.
#[derive(Clone, Copy, Debug, PartialEq, Eq, Structural)]
pub enum Lookup {
    Found,
    /// There is no such rustup, or not what it names.
    Missing,
    Failed,
}

pub open spec fn worth(answer: Answer) -> Lookup {
    match answer {
        Answer::Absent => Lookup::Missing,
        Answer::Refused => Lookup::Failed,
        Answer::Given { succeeded, present } => if !succeeded {
            Lookup::Failed
        } else if !present {
            Lookup::Missing
        } else {
            Lookup::Found
        },
    }
}

/// What an answer of a rustup is worth.
pub fn lookup(answer: Answer) -> (lookup: Lookup)
    ensures
        lookup == worth(answer),
{
    match answer {
        Answer::Absent => Lookup::Missing,
        Answer::Refused => Lookup::Failed,
        Answer::Given { succeeded, present } => {
            if !succeeded {
                Lookup::Failed
            } else if !present {
                Lookup::Missing
            } else {
                Lookup::Found
            }
        },
    }
}

/// How far the search for a compiler is. Each rustup that is tried has a number.
#[derive(Clone, Copy, Debug, PartialEq, Eq, Structural)]
pub enum Search {
    /// A rustup is asked for Cargo.
    AskCargo(usize),
    /// A rustup that has Cargo is asked for the compiler.
    AskCompiler(usize),
    /// Both are taken from a rustup.
    Taken(usize),
    /// No rustup has them.
    Exhausted,
    /// A rustup could not say where Cargo is.
    NoCargo(usize),
    /// A rustup that has Cargo could not say where the compiler is.
    NoCompiler(usize),
}

/// How a search among a number of rustups begins, or goes on.
pub open spec fn trying(number: int, candidates: int) -> Search {
    if number < candidates {
        Search::AskCargo(number as usize)
    } else {
        Search::Exhausted
    }
}

/// How far the search is after an answer.
pub open spec fn searched(search: Search, candidates: usize, found: Lookup) -> Search {
    match (search, found) {
        (Search::AskCargo(number), Lookup::Found) => Search::AskCompiler(number),
        (Search::AskCargo(number), Lookup::Missing) => trying(number + 1, candidates as int),
        (Search::AskCargo(number), Lookup::Failed) => Search::NoCargo(number),
        (Search::AskCompiler(number), Lookup::Found) => Search::Taken(number),
        (Search::AskCompiler(number), _) => Search::NoCompiler(number),
        _ => search,
    }
}

/// Begins a search among a number of rustups.
pub fn begin_search(candidates: usize) -> (search: Search)
    ensures
        search == trying(0, candidates as int),
{
    if 0 < candidates {
        Search::AskCargo(0)
    } else {
        Search::Exhausted
    }
}

/// Goes on with a search after an answer.
pub fn search_on(search: Search, candidates: usize, found: Lookup) -> (next: Search)
    ensures
        next == searched(search, candidates, found),
{
    match (search, found) {
        (Search::AskCargo(number), Lookup::Found) => Search::AskCompiler(number),
        (Search::AskCargo(number), Lookup::Missing) => {
            if candidates > 0 && number < candidates - 1 {
                Search::AskCargo(number + 1)
            } else {
                Search::Exhausted
            }
        },
        (Search::AskCargo(number), Lookup::Failed) => Search::NoCargo(number),
        (Search::AskCompiler(number), Lookup::Found) => Search::Taken(number),
        (Search::AskCompiler(number), _) => Search::NoCompiler(number),
        _ => search,
    }
}

/// How many answers a search may still wait for.
pub open spec fn open_questions(search: Search, candidates: usize) -> int {
    match search {
        Search::AskCargo(number) => if number < candidates {
            candidates - number + 1
        } else {
            2
        },
        Search::AskCompiler(_) => 1,
        _ => 0,
    }
}

/// Every answer brings a search nearer to its end.
pub proof fn searches_end(search: Search, candidates: usize, found: Lookup)
    requires
        open_questions(search, candidates) > 0,
    ensures
        0 <= open_questions(searched(search, candidates, found), candidates) < open_questions(
            search,
            candidates,
        ),
{
}

/// The search after a number of rustups that are missing.
pub open spec fn passed_over(candidates: usize, count: nat) -> Search
    decreases count,
{
    if count == 0 {
        trying(0, candidates as int)
    } else {
        searched(passed_over(candidates, (count - 1) as nat), candidates, Lookup::Missing)
    }
}

/// Rustups that are missing are passed over one by one, until none is left.
pub proof fn the_first_rustup_counts(candidates: usize, count: nat)
    ensures
        passed_over(candidates, count) == trying(count as int, candidates as int),
    decreases count,
{
    if count > 0 {
        the_first_rustup_counts(candidates, (count - 1) as nat);
    }
}

/// Whether a compiler can build components: it says where the library of their
/// target is, and there is one.
pub fn has_wasi(succeeded: bool, named: bool, present: bool) -> (has: bool)
    ensures
        has == (succeeded && named && present),
{
    succeeded && named && present
}

/// Where a helper program is.
#[derive(Clone, Copy, Debug, PartialEq, Eq, Structural)]
pub enum Helper {
    Argument,
    Environment,
    Sibling,
    Release,
    Debug,
    Installed,
    Searched,
}

/// Where a helper program might be.
#[derive(Clone, Copy, Debug, PartialEq, Eq, Structural)]
pub struct HelperFacts {
    pub argument: bool,
    pub environment: bool,
    pub sibling: bool,
    pub release: bool,
    pub debug: bool,
    pub installed: bool,
}

/// Where a helper program is taken from: what the user says counts first, and
/// a released build before one that is being worked on.
pub open spec fn helper_of(facts: HelperFacts) -> Helper {
    if facts.argument {
        Helper::Argument
    } else if facts.environment {
        Helper::Environment
    } else if facts.sibling {
        Helper::Sibling
    } else if facts.release {
        Helper::Release
    } else if facts.debug {
        Helper::Debug
    } else if facts.installed {
        Helper::Installed
    } else {
        Helper::Searched
    }
}

pub fn helper(facts: HelperFacts) -> (helper: Helper)
    ensures
        helper == helper_of(facts),
{
    if facts.argument {
        Helper::Argument
    } else if facts.environment {
        Helper::Environment
    } else if facts.sibling {
        Helper::Sibling
    } else if facts.release {
        Helper::Release
    } else if facts.debug {
        Helper::Debug
    } else if facts.installed {
        Helper::Installed
    } else {
        Helper::Searched
    }
}

} // verus!
