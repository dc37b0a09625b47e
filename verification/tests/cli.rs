use touchbar::catalog::{Catalog, CatalogEntry, CatalogState, CatalogTier, CATALOG_VERSION};
use touchbar::cli::args::{
    has_flag, opt, options, output_format, positional, positional_with_flags, reject,
    reject_with_flags, Format,
};
use touchbar::cli::cargo::{
    component_file, crate_field, declared_version, target_directory, tell_directory, tell_field,
    tell_file,
};
use touchbar::cli::change::{item_setting, profile_setting, ItemSetting};
use touchbar::cli::command::{dispatch, Choice, PluginCommand, USAGE};
use touchbar::cli::consent::{
    binding_pair, check_decidable, consent_word, decide, decision_line,
    grant_bindings, lifetime, reject_allow_options, validated_user_socket, warns, ConsentFacts,
    Decision, Lifetime, Provenance, ReusePolicy, SocketFacts, Targets,
};
use touchbar::cli::hardware::{hardware_request, recovery_marker_status, HardwareStatus, Marker};
use touchbar::cli::listing::{
    catalog_line, check_listing, found_lines, inspect_lines, installed_line, list_lines,
    origin_label, permissions_lines, rolled_back_line, GrantFacts, InspectedFacts, ItemFacts,
    PluginFacts, PolicyFacts, ProfileFacts, RequestFacts, SnapshotFacts,
};
use touchbar::cli::matrix::{component_test_matrix, PresentationElement};
use touchbar::cli::naming::{title, validate_name};
use touchbar::cli::plan::{
    contextual_profile, path_is_normalized, plan_run, preview_arguments, preview_ready,
    preview_scale, select, wait, Awaited, Look, Selection, Wait,
};
use touchbar::cli::scaffold::{
    begin_search, built_file, cargo_document, code_document, created_text, has_wasi, helper,
    lookup, manifest_document, new_plugin, readme_document, scaffold_files, sdk_dependency,
    search_on, toolchain, Answer, Helper, HelperFacts, Lookup, Search, Toolchain, CORE_REPOSITORY,
    TOOLCHAIN_TAG,
};
use touchbar::cli::session::{profile_list_lines, session_request, session_verdict, status_lines};
use touchbar::cli::target::{
    addition, check_release, install_source_from_catalog, repository_identity, settle_release,
    source, split_categories, submission, Addition, InstallTarget, PackageFacts, SourceForm,
};
use touchbar::control::{
    PowerSourceStatus, ProcessStatus, ProfileRuntimeStatus, Request, Response,
    SessionRuntimeStatus, VERSION,
};
use touchbar::github::release::{InstalledOrigin, RELEASE_ASSET_NAME};
use touchbar::github::Version;
use touchbar::source::GithubSource;

fn words(list: &[&str]) -> Vec<String> {
    list.iter().map(|word| word.to_string()).collect()
}

#[test]
fn parses_options() {
    let args: Vec<String> = vec!["demo".into(), "--format".into(), "json".into()];
    assert_eq!(positional(&args, 0), Some("demo"));
    assert_eq!(positional(&args, 1), None);
    assert_eq!(opt(&args, "--format"), Some("json"));
}

#[test]
fn options_flags_and_positions_are_told_apart() {
    let args = words(&["a", "--bind", "x=1", "--session", "b", "--bind", "y=2"]);
    assert_eq!(options(&args, "--bind"), ["x=1", "y=2"]);
    assert_eq!(opt(&args, "--bind"), Some("x=1"));
    assert!(has_flag(&args, "--session"));
    assert!(!has_flag(&args, "--persistent"));
    assert_eq!(positional_with_flags(&args, 1, &["--session"]), Some("b"));
    // without the flag being known, it takes the next word with it
    assert_eq!(positional(&args, 1), None);
    assert!(reject_with_flags(&args, &["--bind"], &["--session"], 2).is_ok());
    assert!(reject_with_flags(&args, &["--bind"], &["--session"], 1).is_err());
    assert!(reject(&words(&["--other", "x"]), &["--format"], 0).is_err());
    assert!(reject(&words(&["--format"]), &["--format"], 0).is_err());
    assert!(matches!(output_format(&words(&[])), Ok(Format::Text)));
    assert!(matches!(output_format(&words(&["--format", "json"])), Ok(Format::Json)));
    assert!(output_format(&words(&["--format", "xml"])).is_err());
}

#[test]
fn commands_are_dispatched_by_name() {
    assert!(matches!(dispatch(&words(&["plugin", "new", "--help"])), Choice::Help));
    assert!(matches!(dispatch(&words(&["session", "status"])), Choice::Session));
    assert!(matches!(dispatch(&words(&["hardware"])), Choice::Hardware));
    assert!(matches!(
        dispatch(&words(&["plugin", "catalog-check"])),
        Choice::Plugin(PluginCommand::CatalogCheck)
    ));
    assert_eq!(dispatch(&[]), Choice::Refused(USAGE.into()));
    assert_eq!(dispatch(&words(&["plugin"])), Choice::Refused(USAGE.into()));
    assert_eq!(
        dispatch(&words(&["other"])),
        Choice::Refused(format!("unknown command group `other`\n\n{USAGE}"))
    );
    assert_eq!(
        dispatch(&words(&["plugin", "other"])),
        Choice::Refused(format!("unknown plugin command `other`\n\n{USAGE}"))
    );
}

#[test]
fn component_test_matrix_includes_standard_and_presentation_widths() {
    let item = |id: &str, minimum_width, preferred_width, maximum_width| {
        PresentationElement::Item { item: id.into(), minimum_width, preferred_width, maximum_width }
    };
    let bars = vec![vec![
        item("now-playing", 128, 240, 480),
        PresentationElement::Space,
        PresentationElement::Group { elements: vec![item("media-timeline", 120, 240, 480)] },
    ]];
    let matrix = component_test_matrix(&words(&["now-playing", "media-timeline"]), &bars);
    let widths = |id: &str| -> Vec<u32> {
        matrix.iter().find(|row| row.id == id).unwrap().widths.clone()
    };
    assert_eq!(widths("now-playing"), [80, 128, 160, 240, 320, 480, 1004, 2008]);
    assert_eq!(widths("media-timeline"), [80, 120, 160, 240, 320, 480, 1004, 2008]);
}

#[test]
fn parses_fresh_v1_profile_control_commands() {
    let (request, format, list) = session_request(&[
        "profile".into(),
        "select".into(),
        "coding".into(),
        "--format".into(),
        "json".into(),
    ])
    .unwrap();
    assert_eq!(
        request,
        Request::ProfileSelect { version: VERSION, profile: "coding".into() }
    );
    assert_eq!(format, Format::Json);
    assert!(!list);

    let (request, _, list) = session_request(&["profile".into(), "list".into()]).unwrap();
    assert!(matches!(request, Request::Status { .. }));
    assert!(list);

    let (request, _, _) = session_request(&["profile".into(), "automatic".into()]).unwrap();
    assert!(matches!(request, Request::ProfileAutomatic { .. }));
    assert!(session_request(&[
        "profile".into(),
        "select".into(),
        "coding".into(),
        "extra".into()
    ])
    .is_err());
}

#[test]
fn other_session_commands_are_refused() {
    assert!(matches!(
        session_request(&words(&["status"])).unwrap(),
        (Request::Status { version: VERSION }, Format::Text, false)
    ));
    assert!(matches!(
        session_request(&words(&["reload"])).unwrap().0,
        Request::Reload { version: VERSION }
    ));
    for wrong in [
        &[][..],
        &["other"],
        &["profile"],
        &["profile", "other"],
        &["profile", "select"],
    ] {
        assert!(session_request(&words(wrong)).is_err(), "{wrong:?}");
    }
}

fn response() -> Response {
    Response {
        version: VERSION,
        ok: true,
        message: "running".into(),
        runtime: SessionRuntimeStatus {
            hardware_connected: true,
            hardware_yielded: false,
            user_content_visible: false,
            fn_pressed: false,
            system_scene_visible: true,
            profile: ProfileRuntimeStatus {
                configured: true,
                ready: false,
                automatic: true,
                active: Some("b".into()),
                available: words(&["a", "b"]),
                missing_required_items: words(&["x", "y"]),
            },
            plugin_placeholder: None,
            power_source: PowerSourceStatus::Unknown,
            animation_frame_rate_hz: 60,
        },
        processes: vec![ProcessStatus {
            source: "github:a/b".into(),
            item: "main".into(),
            state: "running".into(),
            pid: Some(12),
            restarts: 1,
            detail: Some("late".into()),
        }],
    }
}

#[test]
fn the_status_is_printed_line_by_line() {
    let mut response = response();
    assert_eq!(
        status_lines(&response),
        [
            "running hardware=connected fn=released system_scene=visible",
            "profile=waiting mode=automatic active=b available=a,b missing=x,y",
            "running  github:a/b:main  pid=12 restarts=1  late",
        ]
    );
    assert_eq!(
        profile_list_lines(&response.runtime.profile),
        ["mode=automatic state=waiting", "  a", "* b", "missing required items: x, y"]
    );
    response.runtime.hardware_yielded = true;
    response.runtime.profile = ProfileRuntimeStatus::default();
    response.processes[0].pid = None;
    response.processes[0].detail = None;
    assert_eq!(
        status_lines(&response),
        [
            "running hardware=yielded fn=released system_scene=visible",
            "profile=all-items configured=false",
            "running  github:a/b:main  pid=- restarts=1",
        ]
    );
    assert!(session_verdict(&response).is_ok());
    response.ok = false;
    assert!(session_verdict(&response).is_err());
}

#[test]
fn validates_names() {
    assert!(validate_name("media-controls").is_ok());
    for value in ["", "Media", "media_controls", "-media", "media-"] {
        assert!(validate_name(value).is_err())
    }
}

#[test]
fn names_become_titles() {
    assert_eq!(title("media-controls"), "Media Controls");
    assert_eq!(title("a--b"), "A  B");
    // a letter whose capital is two letters
    assert_eq!(title("\u{df}a"), "SSa");
    assert!(validate_name(&"a".repeat(64)).is_ok());
    assert!(validate_name(&"a".repeat(65)).is_err());
}

#[test]
fn accepts_only_canonical_github_identity_inputs() {
    assert_eq!(
        source("https://github.com/cameroncooper/touchbar-demo").unwrap(),
        SourceForm::Repository {
            owner: "cameroncooper".into(),
            repository: "touchbar-demo".into(),
        }
    );
    assert_eq!(
        source("github:cameroncooper/touchbar-demo").unwrap(),
        SourceForm::Identity("github:cameroncooper/touchbar-demo".into())
    );
    for invalid in [
        "http://github.com/cameroncooper/touchbar-demo",
        "https://github.com/cameroncooper/touchbar-demo/releases",
        "https://github.com/cameroncooper/touchbar-demo?ref=main",
        "https://example.com/cameroncooper/touchbar-demo",
    ] {
        assert!(source(invalid).is_err(), "accepted {invalid}");
    }
    // the form of a name is left to the identity of packages
    assert_eq!(
        source("https://github.com/cameroncooper/touchbar-demo.git").unwrap(),
        SourceForm::Repository {
            owner: "cameroncooper".into(),
            repository: "touchbar-demo.git".into(),
        }
    );
    assert!(source("neither").unwrap_err().starts_with("source must be github:owner/repository"));
}

fn entry(alias: &str, source: &GithubSource) -> CatalogEntry {
    CatalogEntry {
        alias: alias.into(),
        source: source.clone(),
        name: "Media Controls".into(),
        description: "Playback and timeline controls".into(),
        categories: vec!["media".into()],
        tier: CatalogTier::Listed,
        state: CatalogState::Active,
    }
}

#[test]
fn catalog_aliases_resolve_without_replacing_canonical_identity() {
    let source = GithubSource::named("alice", "touchbar-media");
    let catalog = Catalog {
        catalog_version: CATALOG_VERSION,
        plugins: vec![entry("media-controls", &source)],
    };
    match install_source_from_catalog("media-controls", &catalog).unwrap() {
        InstallTarget::Listed(entry) => {
            assert!(entry.source.is_same(&source));
            assert_eq!(entry.alias, "media-controls");
        }
        other => panic!("{other:?}"),
    }
    match install_source_from_catalog("github:alice/touchbar-media", &catalog).unwrap() {
        InstallTarget::Source(SourceForm::Identity(direct)) => assert_eq!(direct, source.text()),
        other => panic!("{other:?}"),
    }
    assert!(install_source_from_catalog("missing", &catalog).is_err());
}

#[test]
fn retired_entries_are_not_installed() {
    let source = GithubSource::named("alice", "touchbar-media");
    let mut retired = entry("media-controls", &source);
    retired.state = CatalogState::Retired;
    let catalog = Catalog { catalog_version: CATALOG_VERSION, plugins: vec![retired] };
    assert_eq!(
        install_source_from_catalog("media-controls", &catalog).unwrap_err(),
        "unknown catalog alias `media-controls`; use `touchbarctl plugin search`"
    );
    assert!(install_source_from_catalog("Media", &catalog).unwrap_err().starts_with(
        "install target must be a GitHub source, URL, or catalog alias"
    ));
}

#[test]
fn plugins_are_added_from_one_place() {
    assert!(matches!(addition(&words(&["--path", "x"])), Ok(Addition::Path("x"))));
    assert!(matches!(addition(&words(&["demo"])), Ok(Addition::Remote("demo"))));
    for wrong in [&[][..], &["demo", "--path", "x"], &["--path", "x", "--version", "1.0.0"]] {
        assert!(addition(&words(wrong)).is_err());
    }
}

#[test]
fn releases_match_their_tag_their_repository_and_their_crate() {
    let version = Version::new(0, 1, 0);
    let source = GithubSource::named("alice", "demo");
    let other = GithubSource::named("alice", "other");
    let later = Version::new(0, 2, 0);
    let check = |tag: &str, source: &GithubSource, repository: Option<&GithubSource>, cargo| {
        let cargo: Option<&Version> = cargo;
        let repository = repository.cloned().map(Ok);
        settle_release(tag, &version, source, repository, cargo.cloned().map(Ok))
    };
    assert!(check("v0.1.0", &source, Some(&source), Some(&version)).is_ok());
    assert!(check("0.1.0", &source, None, None).unwrap_err().contains("release tag"));
    assert_eq!(
        check("v0.1.0", &source, Some(&other), None).unwrap_err(),
        "manifest source does not match the release repository"
    );
    assert_eq!(
        check("v0.1.0", &GithubSource::named("local", "demo"), None, None).unwrap_err(),
        "release packages require an explicit non-local GitHub source"
    );
    assert_eq!(
        check("v0.1.0", &source, None, Some(&later)).unwrap_err(),
        "Cargo.toml and touchbar-plugin.toml versions do not match"
    );
    assert_eq!(repository_identity("Alice/Demo"), "github:alice/demo");
}

#[test]
fn releases_are_checked_from_the_tag_to_the_crate() {
    let version = Version::new(0, 1, 0);
    let source = GithubSource::named("alice", "demo");
    let local = GithubSource::named("local", "demo");
    let unread = || Some(Err("bad repository".to_string()));
    let package = |version: &str| format!("[package]\nname = \"demo\"\nversion = \"{version}\"\n");
    let check = |tag: &str, source: &GithubSource, repository, document: Option<&str>| {
        let document = document.map(|text| Ok(text.to_string()));
        check_release(tag, &version, source, repository, document)
    };
    assert_eq!(check("v0.1.0", &source, Some(Ok(source.clone())), Some(&package("0.1.0"))), Ok(()));
    assert_eq!(check("v0.1.0", &source, None, None), Ok(()));
    // the first thing that is wrong is what is said
    assert!(check("v1", &local, unread(), Some("[")).unwrap_err().starts_with("release tag"));
    assert_eq!(check("v0.1.0", &local, unread(), Some("[")).unwrap_err(), "bad repository");
    assert_eq!(
        check("v0.1.0", &local, None, Some("[")).unwrap_err(),
        "release packages require an explicit non-local GitHub source"
    );
    let cause = toml::from_str::<toml::Value>("[").unwrap_err().to_string();
    assert_eq!(check("v0.1.0", &source, None, Some("[")).unwrap_err(), cause);
    assert_eq!(
        check("v0.1.0", &source, None, Some("[package]\nname = \"demo\"")).unwrap_err(),
        "Cargo.toml package.version is required"
    );
    assert!(check("v0.1.0", &source, None, Some(&package("1")))
        .unwrap_err()
        .starts_with("Cargo.toml package.version is not semantic: "));
    assert_eq!(
        check("v0.1.0", &source, None, Some(&package("0.2.0"))).unwrap_err(),
        "Cargo.toml and touchbar-plugin.toml versions do not match"
    );
    assert_eq!(
        check_release("v0.1.0", &version, &source, None, Some(Err("gone".into()))),
        Err("gone".to_string())
    );
}

#[test]
fn cargo_says_what_is_built_and_where() {
    let document = "[package]\nname = \"touchbar-demo\"\nversion = \"0.1.0\"\n";
    assert_eq!(component_file(document), Ok("touchbar_demo.wasm".to_string()));
    assert_eq!(crate_field(document, "name"), Ok("touchbar-demo".to_string()));
    assert!(declared_version(document).is_ok_and(|it| it.is_same(&Version::new(0, 1, 0))));
    for other in ["", "package = 1", "[package]\nname = 1", "[package.name]\nx = 1"] {
        assert_eq!(component_file(other).unwrap_err(), "Cargo.toml package.name is required");
    }
    let cause = toml::from_str::<toml::Value>("package").unwrap_err().to_string();
    assert_eq!(component_file("package"), Err(cause));
    assert_eq!(tell_field(Ok(None), "x").unwrap_err(), "Cargo.toml package.x is required");
    assert_eq!(tell_file(Ok(Some("a-b".into()))), Ok("a_b.wasm".to_string()));

    let metadata = br#"{"packages":[],"target_directory":"/work/target"}"#;
    assert_eq!(target_directory(metadata), Ok("/work/target".to_string()));
    for other in [&b"{}"[..], b"[]", br#"{"target_directory":1}"#] {
        assert_eq!(
            target_directory(other).unwrap_err(),
            "cargo metadata omitted target_directory"
        );
    }
    let cause = serde_json::from_slice::<serde_json::Value>(b"{").unwrap_err().to_string();
    assert_eq!(target_directory(b"{"), Err(cause));
    assert_eq!(tell_directory(Err("x".into())), Err("x".to_string()));
}

#[test]
fn compilers_are_searched_for_in_order() {
    assert_eq!(begin_search(0), Search::Exhausted);
    let first = begin_search(2);
    assert_eq!(first, Search::AskCargo(0));
    let second = search_on(first, 2, lookup(Answer::Absent));
    assert_eq!(second, Search::AskCargo(1));
    let answer = |succeeded, present| lookup(Answer::Given { succeeded, present });
    assert_eq!(search_on(second, 2, answer(true, false)), Search::Exhausted);
    assert_eq!(search_on(second, 2, answer(false, true)), Search::NoCargo(1));
    assert_eq!(search_on(second, 2, lookup(Answer::Refused)), Search::NoCargo(1));
    let third = search_on(second, 2, answer(true, true));
    assert_eq!(third, Search::AskCompiler(1));
    assert_eq!(search_on(third, 2, Lookup::Found), Search::Taken(1));
    assert_eq!(search_on(third, 2, Lookup::Missing), Search::NoCompiler(1));
    assert_eq!(search_on(Search::Taken(1), 2, Lookup::Failed), Search::Taken(1));
    assert!(has_wasi(true, true, true));
    assert!(!has_wasi(false, true, true) && !has_wasi(true, false, true));
    assert!(!has_wasi(true, true, false));
}

#[test]
fn submissions_are_new_to_the_catalog() {
    let source = GithubSource::named("alice", "touchbar-media");
    let bundled = Catalog {
        catalog_version: CATALOG_VERSION,
        plugins: vec![entry("media-controls", &source)],
    };
    let package = |source: GithubSource| PackageFacts {
        source,
        name: "Clock".into(),
        description: "Shows the time".into(),
    };
    let fresh = GithubSource::named("bob", "clock");
    let accepted = submission(package(fresh.clone()), "clock", "time,  system,time", &bundled);
    let accepted = accepted.unwrap();
    assert_eq!(accepted.alias, "clock");
    assert_eq!(accepted.categories, ["system", "time"]);
    assert_eq!(
        submission(package(fresh.clone()), "media-controls", "time", &bundled).unwrap_err(),
        "catalog alias `media-controls` is already listed"
    );
    assert_eq!(
        submission(package(source), "clock", "time", &bundled).unwrap_err(),
        "github:alice/touchbar-media is already listed as `media-controls`"
    );
    assert_eq!(
        submission(package(GithubSource::named("local", "x")), "clock", "time", &bundled)
            .unwrap_err(),
        "catalog submissions require an explicit public GitHub source"
    );
    assert!(submission(package(fresh), "Clock", "time", &bundled).is_err());
    assert_eq!(split_categories("b, a ,b"), ["a", "b"]);
}

#[test]
fn consent_bindings_are_explicit_canonical_and_user_owned() {
    let directory = "/home/alice/gallery";
    let socket = "/home/alice/gallery/service.sock";
    let args = words(&[
        "--bind",
        &format!("gallery={directory}"),
        "--endpoint",
        &format!("service={socket}"),
        "--secret",
        "token=/org/freedesktop/secrets/collection/login/1",
        "--clipboard-socket",
        socket,
    ]);
    let own = 1000;
    let plain = SocketFacts { plain_parent: true, socket: true, owner: own };
    let seen = |path: &str, facts: &SocketFacts| {
        validated_user_socket(path, facts, own).map(|_| path.to_string())
    };
    let targets = Targets {
        mounts: vec![Ok(directory.into())],
        endpoints: vec![seen(socket, &plain)],
        clipboards: vec![seen(socket, &plain)],
    };
    let bindings = grant_bindings(&args, &targets).unwrap();
    assert_eq!(bindings.filesystem_mounts.get("gallery").unwrap(), directory);
    assert!(bindings.local_endpoints.contains("service"));
    assert!(bindings.secrets.contains("token"));
    assert!(bindings.clipboard.is_some());

    let relative = words(&["--endpoint", "service=relative.sock"]);
    let targets = Targets {
        mounts: Vec::new(),
        endpoints: vec![seen("relative.sock", &plain)],
        clipboards: Vec::new(),
    };
    assert!(grant_bindings(&relative, &targets).is_err());
    let linked = words(&["--clipboard-socket", "/home/alice/gallery/linked.sock"]);
    let link = SocketFacts { socket: false, ..plain };
    let targets = Targets {
        mounts: Vec::new(),
        endpoints: Vec::new(),
        clipboards: vec![seen("/home/alice/gallery/linked.sock", &link)],
    };
    assert!(grant_bindings(&linked, &targets).is_err());
    assert!(validated_user_socket(socket, &SocketFacts { owner: 0, ..plain }, own).is_err());
    assert!(
        validated_user_socket(socket, &SocketFacts { plain_parent: false, ..plain }, own).is_err()
    );
}

#[test]
fn bindings_have_one_name_each() {
    assert_eq!(binding_pair("a=b=c", "X").unwrap(), ("a".to_string(), "b=c".to_string()));
    for wrong in ["", "a", "=b", "a="] {
        assert_eq!(binding_pair(wrong, "X").unwrap_err(), "binding must be X");
    }
    let twice = words(&["--bind", "a=/x", "--bind", "a=/y"]);
    let targets = Targets {
        mounts: vec![Ok("/x".into()), Ok("/y".into())],
        endpoints: Vec::new(),
        clipboards: Vec::new(),
    };
    assert_eq!(
        grant_bindings(&twice, &targets).unwrap_err(),
        "duplicate filesystem binding `a`"
    );
    let sockets = words(&["--clipboard-socket", "/x", "--clipboard-socket", "/y"]);
    let targets = Targets {
        mounts: Vec::new(),
        endpoints: Vec::new(),
        clipboards: vec![Ok("/x".into()), Ok("/y".into())],
    };
    assert_eq!(
        grant_bindings(&sockets, &targets).unwrap_err(),
        "--clipboard-socket may be supplied only once"
    );
}

fn facts(provenance: Provenance) -> ConsentFacts {
    ConsentFacts { native: false, requested: true, implemented: true, provenance }
}

#[test]
fn consent_is_decided_by_action_lifetime_and_provenance() {
    let verified = facts(Provenance::VerifiedRelease);
    let local = facts(Provenance::LocalDevelopment);
    let decided = |list: &[&str], action: &str, lifetime, facts: &ConsentFacts| {
        decide(&words(list), action, lifetime, facts, "http.fetch")
    };
    let persistent = Lifetime::Persistent;
    assert_eq!(
        decided(&[], "allow", persistent, &verified),
        Ok(Decision::Allow(ReusePolicy::VerifiedSameSource))
    );
    assert_eq!(
        decided(&[], "allow", Lifetime::Session, &verified),
        Ok(Decision::Allow(ReusePolicy::ExactDigest))
    );
    assert_eq!(
        decided(&[], "allow", persistent, &local),
        Ok(Decision::Allow(ReusePolicy::ExactDigest))
    );
    assert!(decided(&["--reuse", "source"], "allow", persistent, &local).is_err());
    assert!(decided(&["--reuse", "digest"], "allow", Lifetime::Session, &verified).is_err());
    assert!(decided(&["--reuse", "other"], "allow", persistent, &verified).is_err());
    assert_eq!(decided(&[], "deny", persistent, &local), Ok(Decision::Deny));
    assert_eq!(decided(&[], "reset", persistent, &local), Ok(Decision::Reset));
    assert_eq!(
        decided(&["--bind", "a=/x"], "deny", persistent, &local),
        Err("--bind is valid only with allow".into())
    );
    assert!(decided(&[], "other", persistent, &local).is_err());
    let missing = ConsentFacts { implemented: false, ..verified };
    assert_eq!(
        decided(&[], "allow", persistent, &missing),
        Err("this host does not implement http.fetch".into())
    );
    assert!(reject_allow_options(&words(&["--format", "json"])).is_ok());
    assert!(warns(Decision::Allow(ReusePolicy::ExactDigest), persistent, local.provenance));
    assert!(!warns(Decision::Deny, persistent, local.provenance));
    assert_eq!(
        decision_line(Decision::Allow(ReusePolicy::ExactDigest), false, "s", "c"),
        "Allowed s c (exact-digest)"
    );
    assert_eq!(decision_line(Decision::Reset, false, "s", "c"), "No stored decision for s c");
    assert_eq!(decision_line(Decision::Reset, true, "s", "c"), "Reset s c to needs-consent");
    assert_eq!(decision_line(Decision::Deny, true, "s", "c"), "Denied s c");
}

#[test]
fn consent_needs_a_sandbox_and_a_request() {
    let facts = facts(Provenance::VerifiedRelease);
    assert!(check_decidable(&facts, "s", "c").is_ok());
    assert!(check_decidable(&ConsentFacts { native: true, ..facts }, "s", "c").is_err());
    assert_eq!(
        check_decidable(&ConsentFacts { requested: false, ..facts }, "s", "c").unwrap_err(),
        "s does not request c"
    );
    let args = words(&["s", "c", "allow", "--session"]);
    assert_eq!(PluginCommand::Permission.accept(&args), Ok(()));
    assert_eq!(consent_word(&args, 2), Ok("allow"));
    assert_eq!(
        consent_word(&words(&["s"]), 1).unwrap_err(),
        "permission requires CAPABILITY"
    );
    assert_eq!(lifetime(&args), Ok(Lifetime::Session));
    assert_eq!(lifetime(&words(&["--persistent"])), Ok(Lifetime::Persistent));
    assert!(lifetime(&words(&[])).is_err());
    assert!(lifetime(&words(&["--session", "--persistent"])).is_err());
}

#[test]
fn hardware_recovery_status_requires_a_regular_marker() {
    let owner = 1000;
    assert_eq!(recovery_marker_status(Marker::Missing, owner), "normal");

    let marker = Marker::Found { regular: true, owner, mode: 0o644 };
    assert_eq!(recovery_marker_status(marker, owner), "fallback-locked");
    assert_eq!(recovery_marker_status(marker, owner + 1), "invalid-marker");

    let writable = Marker::Found { regular: true, owner, mode: 0o622 };
    assert_eq!(recovery_marker_status(writable, owner), "invalid-marker");

    let linked = Marker::Found { regular: false, owner, mode: 0o777 };
    assert_eq!(recovery_marker_status(linked, owner), "invalid-marker");
    assert_eq!(recovery_marker_status(Marker::Unreadable, owner), "unknown");
}

#[test]
fn the_hardware_status_is_read_from_properties() {
    let properties = "LoadState=loaded\nActiveState=active\nSubState=running\nMainPID=42\n";
    let status = HardwareStatus::read(properties, true, "normal");
    assert_eq!(status.main_pid, 42);
    assert_eq!(
        status.line(),
        "touchbar.service load=loaded active=active sub=running pid=42 socket=ready recovery=normal"
    );
    assert!(status.verdict().is_ok());
    let gone = HardwareStatus::read("", false, "normal");
    assert_eq!(gone.active, "unknown");
    assert_eq!(gone.main_pid, 0);
    assert_eq!(gone.verdict().unwrap_err(), "hardware service is not ready");
    assert!(matches!(hardware_request(&words(&["status"])), Ok(Format::Text)));
    assert_eq!(hardware_request(&[]).unwrap_err(), "hardware requires status");
    assert_eq!(
        hardware_request(&words(&["other"])).unwrap_err(),
        "unknown hardware command `other`"
    );
}

#[test]
fn items_are_selected_for_a_run() {
    let items = words(&["main", "actions"]);
    let selection = select(&words(&["--item", "main", "--width", "+240"]), &items).unwrap();
    assert_eq!(selection, Selection { item: Some("main".into()), width: Some(240) });
    assert_eq!(selection.change("main").enabled, Some(true));
    assert_eq!(selection.change("main").width, Some(240));
    assert_eq!(selection.change("actions").enabled, Some(false));
    assert_eq!(selection.change("actions").width, None);
    assert_eq!(select(&[], &[]).unwrap_err(), "plugin has no items");
    assert_eq!(
        select(&words(&["--item", "x"]), &items).unwrap_err(),
        "plugin has no item `x`"
    );
    assert!(select(&words(&["--width", "0"]), &items).is_err());
    assert_eq!(
        select(&words(&["--width", "x"]), &items).unwrap_err(),
        "--width must be an integer: invalid digit found in string"
    );
    let cause = "4294967296".parse::<u32>().unwrap_err();
    assert_eq!(
        select(&words(&["--width", "4294967296"]), &items).unwrap_err(),
        format!("--width must be an integer: {cause}")
    );
}

#[test]
fn previews_are_planned() {
    assert_eq!(preview_scale(&[]), Ok(2));
    assert_eq!(preview_scale(&words(&["--scale", "4"])), Ok(4));
    let scale = |value: &str| preview_scale(&words(&["--scale", value])).unwrap_err();
    assert_eq!(scale("3"), "--scale must be 1, 2, or 4");
    assert_eq!(scale("big"), "--scale must be 1, 2, or 4: invalid digit found in string");
    assert_eq!(
        preview_arguments("s", 2, "h", "v"),
        ["--socket", "s", "--preview-scale", "2", "--plugin-host", "h", "--plugin-supervisor", "v"]
    );
    assert_eq!(
        preview_ready("p", 2, &Selection { item: None, width: None }, 2),
        "plugin-preview=ready package=p items=2 selected=all width=manifest scale=2 \
         input=synthetic close=escape"
    );
}

#[test]
fn runs_on_hardware_are_planned() {
    let items = words(&["main"]);
    let plan = plan_run(&words(&["--item", "main", "--when-application", "Org.Editor"]), &items);
    let plan = plan.unwrap();
    assert_eq!(plan.application.as_deref(), Some("org.editor"));
    assert_eq!(plan.hardware_socket, "/run/touchbar/hardware.sock");
    assert_eq!(
        plan.arguments("s", "h", "v", Some("p")),
        [
            "--socket",
            "s",
            "--hardware-socket",
            "/run/touchbar/hardware.sock",
            "--system-bar",
            "--plugin-host",
            "h",
            "--plugin-supervisor",
            "v",
            "--trusted-plugins",
            "--profiles",
            "p",
            "--hyprland-context",
        ]
    );
    assert_eq!(
        plan.ready("p", 1),
        "plugin-run=ready package=p items=1 selected=main width=manifest mode=trusted-local \
         input=physical close=ctrl-c"
    );
    let sandboxed = plan_run(&words(&["--sandboxed"]), &items).unwrap();
    assert!(!sandboxed.arguments("s", "h", "v", None).contains(&"--trusted-plugins".to_string()));
    for wrong in [
        &["--when-application", "x"][..],
        &["--item", "main", "--when-application", "a b"],
        &["--hardware-socket", "relative"],
        &["--hardware-socket", "/a/../b"],
    ] {
        assert!(plan_run(&words(wrong), &items).is_err(), "{wrong:?}");
    }
    assert!(path_is_normalized("/run/touchbar/hardware.sock"));
    assert!(!path_is_normalized("/run/../hardware.sock"));
}

#[test]
fn contextual_profiles_are_documents() {
    let document = contextual_profile("github:a/b", "main", "org.editor");
    let table: toml::Table = document.parse().unwrap();
    assert_eq!(table["fallback"].as_str(), Some("default"));
    assert_eq!(table["contribution"][0]["when"]["value"].as_str(), Some("org.editor"));
    assert_eq!(table["contribution"][0]["items"][0]["plugin"].as_str(), Some("github:a/b"));
    assert_eq!(table["rule"][0]["profile"].as_str(), Some("physical-preview"));
}

#[test]
fn waiting_ends_with_time_or_with_the_process() {
    let look = |exited, there, expired| Look { exited, there, expired };
    assert_eq!(wait(Awaited::Preview, look(true, true, false)), Wait::Ready);
    assert_eq!(wait(Awaited::Plugin, look(true, true, false)), Wait::Exited);
    assert_eq!(wait(Awaited::Restored, look(true, false, false)), Wait::Again);
    assert_eq!(wait(Awaited::Preview, look(false, false, true)), Wait::Expired);
    assert_eq!(wait(Awaited::Preview, look(true, false, false)), Wait::Exited);
    assert_eq!(
        (Awaited::Preview.seconds(), Awaited::Plugin.seconds(), Awaited::Restored.seconds()),
        (5, 15, 10)
    );
}

#[test]
fn settings_of_items_and_profiles_are_read() {
    let item = |list: &[&str]| item_setting(&words(list));
    assert_eq!(item(&["s", "i", "enable"]), Ok(ItemSetting::Enabled(true)));
    assert_eq!(item(&["s", "i", "disable"]), Ok(ItemSetting::Enabled(false)));
    assert_eq!(item(&["s", "i", "width", "240"]), Ok(ItemSetting::Width(240)));
    assert_eq!(
        item(&["s", "i", "width", "x"]),
        Err("PX must be an integer: invalid digit found in string".into())
    );
    assert_eq!(item(&["s"]), Err("item requires ITEM".into()));
    assert!(item(&["s", "i", "enable", "x"]).is_err());
    assert_eq!(profile_setting(&words(&["s", "p", "enable"])), Ok(true));
    assert_eq!(profile_setting(&words(&["s", "p", "disable"])), Ok(false));
    assert!(profile_setting(&words(&["s", "p", "other"])).is_err());
}

#[test]
fn scaffold_is_standalone_theme_aware_and_release_ready() {
    let plan = new_plugin(&words(&[
        "demo",
        "--source",
        "https://github.com/alice/demo",
        "--directory",
        "/tmp/work/demo",
    ]))
    .unwrap();
    assert_eq!(plan.name, "demo");
    assert_eq!(plan.source.as_deref(), Some("https://github.com/alice/demo"));
    assert_eq!(plan.directory, "/tmp/work/demo");
    let dependency = sdk_dependency(plan.sdk.as_deref());
    let cargo = cargo_document(&plan.name, &dependency);
    assert!(cargo.contains(CORE_REPOSITORY));
    assert!(cargo.contains(TOOLCHAIN_TAG));
    assert!(!cargo.contains("/tmp/work"));
    let table: toml::Table = cargo.parse().unwrap();
    assert_eq!(table["package"]["name"].as_str(), Some("touchbar-demo"));

    let manifest = manifest_document(&plan.name, "github:alice/demo");
    let table: toml::Table = manifest.parse().unwrap();
    assert_eq!(table["plugin"]["source"].as_str(), Some("github:alice/demo"));
    assert_eq!(table["plugin"]["name"].as_str(), Some("Demo"));
    assert!(code_document(&plan.name).contains("label: \"Demo\""));

    let files = scaffold_files(&plan.name, "github:alice/demo", &dependency);
    let document = |path: &str| {
        files.iter().find(|file| file.path == path).map(|file| file.document.as_str()).unwrap()
    };
    assert_eq!(document("Cargo.toml"), cargo);
    assert_eq!(document("touchbar-plugin.toml"), manifest);
    let guide = document("AGENTS.md");
    assert!(guide.contains("semantic appearance roles"));
    let replay = document("tests/interaction.json");
    assert!(replay.contains("\"kind\": \"advance\""));
    assert!(replay.contains("\"preset\": \"light\""));
    let release = document(".github/workflows/release.yml");
    assert!(release.contains("actions/attest@v4"));
    assert!(release.contains(RELEASE_ASSET_NAME));
    assert!(release.contains("touchbarctl plugin publish"));
    assert!(!release.contains("gh release"));

    let version = Version::new(0, 1, 0);
    assert_eq!(table["plugin"]["version"].as_str(), Some(version.text().as_str()));
    let alice = GithubSource::named("alice", "demo");
    let repository = Some(Ok(alice.clone()));
    assert_eq!(check_release("v0.1.0", &version, &alice, repository, Some(Ok(cargo))), Ok(()));
}

#[test]
fn scaffolds_hold_everything_a_plugin_begins_with() {
    let files = scaffold_files("my-clock", "github:ada/clock", "\"1\"");
    let paths: Vec<&str> = files.iter().map(|file| file.path).collect();
    assert_eq!(
        paths,
        [
            "Cargo.toml",
            "touchbar-plugin.toml",
            "src/lib.rs",
            "tests/interaction.json",
            "README.md",
            ".gitignore",
            "AGENTS.md",
            ".github/workflows/check.yml",
            ".github/workflows/release.yml",
        ]
    );
    assert_eq!(files[2].document, code_document("my-clock"));
    assert!(files[4].document.starts_with("# My Clock\n\n"));
    assert_eq!(files[4].document, readme_document("my-clock"));
    assert_eq!(files[5].document, "/target\n/component/*.wasm\n/*.touchbar\n");
    assert_eq!(component_file(&files[0].document), Ok("touchbar_my_clock.wasm".to_string()));
    assert!(serde_json::from_str::<serde_json::Value>(&files[3].document).is_ok());
}

#[test]
fn scaffolds_may_depend_on_a_local_kit() {
    let dependency = sdk_dependency(Some("/a \"b\""));
    assert_eq!(dependency, r#"{ path = "/a \"b\"" }"#);
    let plan = new_plugin(&words(&["demo", "--sdk", "/kit"])).unwrap();
    assert_eq!((plan.directory.as_str(), plan.sdk.as_deref()), ("demo", Some("/kit")));
    assert_eq!(new_plugin(&[]).unwrap_err(), "new requires NAME");
    assert!(new_plugin(&words(&["Demo"])).is_err());
    assert!(created_text("s", "d").starts_with("Created s\n\n  cd d\n"));
    assert_eq!(built_file("touchbar-demo"), "touchbar_demo.wasm");
    assert_eq!(toolchain(true, true), Ok(Toolchain::Named));
    assert_eq!(toolchain(false, false), Ok(Toolchain::Found));
    assert!(toolchain(true, false).is_err());
}

#[test]
fn helpers_are_looked_for_in_order() {
    let none = HelperFacts {
        argument: false,
        environment: false,
        sibling: false,
        release: false,
        debug: false,
        installed: false,
    };
    assert_eq!(helper(none), Helper::Searched);
    assert_eq!(helper(HelperFacts { installed: true, ..none }), Helper::Installed);
    assert_eq!(helper(HelperFacts { debug: true, installed: true, ..none }), Helper::Debug);
    assert_eq!(helper(HelperFacts { argument: true, environment: true, ..none }), Helper::Argument);
    assert_eq!(
        helper(HelperFacts { environment: true, sibling: true, ..none }),
        Helper::Environment,
    );
}

fn plugin(enabled: bool, origin: InstalledOrigin) -> PluginFacts {
    PluginFacts { source: "github:a/b".into(), version: "1.2.3".into(), enabled, origin }
}

#[test]
fn installed_plugins_are_listed() {
    assert_eq!(list_lines(&Vec::new()), ["No plugins installed."]);
    let released = |immutable| InstalledOrigin::GithubRelease {
        release_id: 1,
        tag: "v1.2.3".into(),
        asset_id: 2,
        asset_name: "x".into(),
        asset_digest: "sha256:a".into(),
        immutable,
        attested: false,
    };
    assert_eq!(
        list_lines(&vec![
            plugin(true, InstalledOrigin::LocalDevelopment),
            plugin(false, released(true)),
        ]),
        [
            "enabled   1.2.3  github:a/b  local-development",
            "disabled  1.2.3  github:a/b  verified-release",
        ]
    );
    assert_eq!(origin_label(&released(false)), "unverified-release");
    assert!(installed_line(&plugin(true, released(true))).contains("1.2.3"));
    assert!(rolled_back_line(&plugin(true, released(true))).contains("1.2.3"));
}

#[test]
fn catalog_entries_are_printed_and_compared() {
    let listed = entry("media-controls", &GithubSource::named("alice", "touchbar-media"));
    assert_eq!(
        found_lines(&listed),
        [
            "media-controls  listed  github:alice/touchbar-media  [media]",
            "    Media Controls \u{2014} Playback and timeline controls",
        ]
    );
    assert!(check_listing(&listed, "Media Controls", "Playback and timeline controls").is_ok());
    assert!(check_listing(&listed, "Other", "Playback and timeline controls").is_err());
    assert!(check_listing(&listed, "Media Controls", "Other").is_err());
    assert!(catalog_line(3, true).contains('3'));
    assert_ne!(catalog_line(3, true), catalog_line(3, false));
}

#[test]
fn plugins_are_inspected_in_full() {
    let request = |required| RequestFacts { capability: "http.fetch".into(), required };
    let facts = InspectedFacts {
        plugin: plugin(true, InstalledOrigin::LocalDevelopment),
        runtime: "component".into(),
        path: "/p".into(),
        digest: "sha256:a".into(),
        items: vec![ItemFacts { id: "main".into(), width: 240, enabled: true }],
        profiles: vec![ProfileFacts { id: "all".into(), label: "All".into(), enabled: false }],
        requests: vec![request(true)],
        retained: vec![SnapshotFacts {
            version: "1.0.0".into(),
            digest: "sha256:b".into(),
            origin: InstalledOrigin::LocalDevelopment,
        }],
    };
    let text = inspect_lines(&facts).join("\n");
    for part in ["github:a/b", "component", "main", "240", "All", "http.fetch", "1.0.0"] {
        assert!(text.contains(part), "{part} in {text}");
    }
    let policy = PolicyFacts {
        plugin: plugin(true, InstalledOrigin::LocalDevelopment),
        grants: vec![GrantFacts {
            request: request(false),
            status: "needs-consent".into(),
            risk: "high".into(),
            reason: "to fetch".into(),
            scope: "{}".into(),
        }],
        warnings: words(&["careful"]),
    };
    let text = permissions_lines(&policy).join("\n");
    for part in ["http.fetch", "optional", "needs-consent", "high", "to fetch", "careful"] {
        assert!(text.contains(part), "{part} in {text}");
    }
}
