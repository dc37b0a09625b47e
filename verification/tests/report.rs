use touchbar::catalog::{CatalogEntry, CatalogState, CatalogTier};
use touchbar::cli::command::PluginCommand;
use touchbar::cli::matrix::TestedItem;
use touchbar::cli::report::{
    alias_line, check_lines, published_line, ready_line, release_line, render_cases, test_lines,
    CheckedFacts, TestedFacts,
};
use touchbar::cli::target::{
    check_publication, crate_version, entry_format, requested_version, tell_version, EntryFormat,
};
use touchbar::github::publish::PublishedRelease;
use touchbar::github::release::ResolvedRelease;
use touchbar::github::Version;
use touchbar::source::GithubSource;

fn words(list: &[&str]) -> Vec<String> {
    list.iter().map(|word| word.to_string()).collect()
}

#[test]
fn checked_packages_are_counted() {
    let facts = CheckedFacts {
        source: "github:ada/clock".into(),
        version: "1.2.3".into(),
        items: 2,
        profiles: 1,
        requests: 0,
        digest: "sha256:ab".into(),
    };
    assert_eq!(
        check_lines(&facts),
        vec![
            "OK  github:ada/clock 1.2.3",
            "    2 item(s), 1 automatic profile(s), 0 permission request(s)",
            "    sha256:ab",
        ]
    );
}

#[test]
fn tested_packages_are_reported_item_by_item() {
    let items = vec![
        TestedItem { id: "main".into(), widths: vec![80, 160, 320] },
        TestedItem { id: "more".into(), widths: vec![96] },
    ];
    assert_eq!(render_cases(&items), 4);
    assert_eq!(render_cases(&vec![]), 0);
    let facts = TestedFacts {
        source: "github:ada/clock".into(),
        version: "1.2.3".into(),
        items,
        bars: 1,
    };
    assert_eq!(
        test_lines(&facts),
        vec![
            "PASS  github:ada/clock 1.2.3",
            "    2 item(s), 1 presentation bar(s), 4 render case(s)",
            "    main: 80, 160, 320 px",
            "    more: 96 px",
        ]
    );
}

#[test]
fn releases_are_reported_on_one_line() {
    let source = GithubSource::named("ada", "clock");
    assert_eq!(
        ready_line(&source, "1.2.3", "sha256:ab"),
        "Release-ready github:ada/clock 1.2.3 sha256:ab"
    );
    let published = PublishedRelease {
        release_id: 7,
        asset_id: 8,
        tag: "v1.2.3".into(),
        asset_name: "touchbar-plugin.touchbar".into(),
        asset_size: 90,
        asset_digest: "sha256:ab".into(),
    };
    assert_eq!(
        published_line(&source, &published),
        "Published github:ada/clock v1.2.3 release_id=7 asset_id=8 asset=touchbar-plugin.touchbar bytes=90 sha256:ab"
    );
    let release = ResolvedRelease {
        source: source.clone(),
        version: Version::new(1, 2, 3),
        release_id: 7,
        tag: "v1.2.3".into(),
        immutable: true,
        asset_id: 8,
        asset_name: "touchbar-plugin.touchbar".into(),
        asset_size: 90,
        asset_digest: "sha256:ab".into(),
        repository_id: 1,
        owner_id: 2,
    };
    assert_eq!(
        release_line(&release, false),
        "release: v1.2.3 asset=touchbar-plugin.touchbar digest=sha256:ab immutable=true attested=false"
    );
    let entry = CatalogEntry {
        alias: "clock".into(),
        source,
        name: "Clock".into(),
        description: "Shows the time".into(),
        categories: words(&["time"]),
        tier: CatalogTier::FirstParty,
        state: CatalogState::Active,
    };
    assert_eq!(
        alias_line(&entry),
        "Catalog alias `clock` resolves to github:ada/clock (first-party)"
    );
}

#[test]
fn packages_are_published_to_their_own_repository() {
    let ours = GithubSource::named("ada", "clock");
    let theirs = GithubSource::named("ada", "watch");
    assert_eq!(check_publication(&ours, &ours.clone()), Ok(()));
    assert_eq!(
        check_publication(&ours, &theirs),
        Err("manifest source does not match the publish repository".into())
    );
}

#[test]
fn versions_are_semantic() {
    assert!(crate_version("1.2.3").is_ok_and(|version| version.is_same(&Version::new(1, 2, 3))));
    let message = crate_version("1.2").unwrap_err();
    assert!(message.starts_with("Cargo.toml package.version is not semantic: "));
    assert!(message.len() > "Cargo.toml package.version is not semantic: ".len());

    assert!(requested_version(&words(&["demo"])).is_ok_and(|version| version.is_none()));
    let asked = requested_version(&words(&["demo", "--version", "2.0.1-rc.1"]));
    assert_eq!(asked.unwrap().map(|version| version.text()), Some("2.0.1-rc.1".into()));
    let message = requested_version(&words(&["demo", "--version", "latest"])).unwrap_err();
    assert!(message.starts_with("--version must be a semantic version: "));

    assert_eq!(
        tell_version(Err("too short".into()), "no version").unwrap_err(),
        "no version: too short"
    );
    assert!(tell_version(Ok(Version::new(1, 0, 0)), "no version").is_ok());
}

#[test]
fn entries_are_printed_in_two_formats() {
    assert_eq!(entry_format(&words(&[])), Ok(EntryFormat::Toml));
    assert_eq!(entry_format(&words(&["--format", "toml"])), Ok(EntryFormat::Toml));
    assert_eq!(entry_format(&words(&["--format", "json"])), Ok(EntryFormat::Json));
    assert_eq!(
        entry_format(&words(&["--format", "text"])),
        Err("unsupported submission format `text`".into())
    );
}

#[test]
fn commands_take_their_own_arguments() {
    assert_eq!(PluginCommand::Dev.accept(&words(&["--scale", "4", "--item", "main"])), Ok(()));
    assert_eq!(
        PluginCommand::Dev.accept(&words(&["--sandboxed"])),
        Err("unknown option `--sandboxed`".into())
    );
    assert_eq!(PluginCommand::Run.accept(&words(&["--sandboxed", "--item", "main"])), Ok(()));
    assert_eq!(
        PluginCommand::Run.accept(&words(&["--scale", "4"])),
        Err("unknown option `--scale`".into())
    );
    assert_eq!(PluginCommand::CatalogCheck.accept(&words(&["--online"])), Ok(()));
    assert_eq!(
        PluginCommand::Build.accept(&words(&["--package"])),
        Err("--package requires a value".into())
    );
    assert_eq!(PluginCommand::Enable.accept(&words(&["github:ada/clock"])), Ok(()));
    assert_eq!(
        PluginCommand::Enable.accept(&words(&["github:ada/clock", "more"])),
        Err("too many arguments".into())
    );
    assert_eq!(
        PluginCommand::Permission.accept(&words(&["a", "b", "allow", "--session"])),
        Ok(())
    );
    assert_eq!(
        PluginCommand::Permission.accept(&words(&["a", "b", "allow", "now"])),
        Err("too many arguments".into())
    );
    assert_eq!(PluginCommand::Item.accept(&words(&["a", "b", "width", "80", "more"])), Ok(()));
}
