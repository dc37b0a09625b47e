//! What the commands about installed plugins print.
use vstd::prelude::*;

use super::session;
use crate::catalog::CatalogEntry;
use crate::github::release::InstalledOrigin;
use crate::text;

verus! {

/// What an origin is called.
pub open spec fn origin_word(origin: InstalledOrigin) -> Seq<char> {
    match origin {
        InstalledOrigin::LocalDevelopment => "local-development"@,
        InstalledOrigin::GithubRelease { immutable, .. } => session::either(
            immutable,
            "verified-release"@,
            "unverified-release"@,
        ),
    }
}

pub fn origin_label(origin: &InstalledOrigin) -> (label: &'static str)
    ensures
        label@ == origin_word(*origin),
{
    match origin {
        InstalledOrigin::LocalDevelopment => "local-development",
        InstalledOrigin::GithubRelease { immutable, .. } => {
            if *immutable {
                "verified-release"
            } else {
                "unverified-release"
            }
        },
    }
}

/// Whether something is enabled, in one word.
pub open spec fn state_word(enabled: bool) -> Seq<char> {
    session::either(enabled, "enabled"@, "disabled"@)
}

fn state(enabled: bool) -> (word: &'static str)
    ensures
        word@ == state_word(enabled),
{
    if enabled {
        "enabled"
    } else {
        "disabled"
    }
}

/// Whether something is required, in one word.
pub open spec fn need_word(required: bool) -> Seq<char> {
    session::either(required, "required"@, "optional"@)
}

fn need(required: bool) -> (word: &'static str)
    ensures
        word@ == need_word(required),
{
    if required {
        "required"
    } else {
        "optional"
    }
}

fn append(lines: &mut Vec<String>, more: Vec<String>)
    ensures
        text::texts(final(lines)@) == text::texts(old(lines)@) + text::texts(more@),
{
    let ghost before = lines@;
    let mut i: usize = 0;
    proof {
        assert(text::texts(before) + text::texts(more@.subrange(0, 0)) =~= text::texts(before));
    }
    while i < more.len()
        invariant
            i <= more@.len(),
            text::texts(lines@) == text::texts(before) + text::texts(more@.subrange(0, i as int)),
        decreases more@.len() - i,
    {
        let ghost so_far = lines@;
        let line = more[i].clone();
        lines.push(line);
        proof {
            assert(text::texts(lines@) =~= text::texts(so_far).push(line@));
            assert(text::texts(more@.subrange(0, i + 1)) =~= text::texts(
                more@.subrange(0, i as int),
            ).push(line@));
            assert(text::texts(lines@) =~= text::texts(before) + text::texts(
                more@.subrange(0, i + 1),
            ));
        }
        i = i + 1;
    }
    proof {
        assert(more@.subrange(0, i as int) =~= more@);
    }
}

// ---------------------------------------------------------------------------
// Lists

/// An installed plugin.
#[derive(Debug)]
pub struct PluginFacts {
    pub source: String,
    pub version: String,
    pub enabled: bool,
    pub origin: InstalledOrigin,
}

/// An installed plugin in one line.
pub open spec fn plugin_text(plugin: PluginFacts) -> Seq<char> {
    session::either(plugin.enabled, "enabled "@, "disabled"@) + "  "@ + plugin.version@ + "  "@
        + plugin.source@ + "  "@ + origin_word(plugin.origin)
}

pub fn plugin_line(plugin: &PluginFacts) -> (line: String)
    ensures
        line@ == plugin_text(*plugin),
{
    let state = if plugin.enabled {
        "enabled "
    } else {
        "disabled"
    };
    let head = text::joined4(state, "  ", plugin.version.as_str(), "  ");
    text::joined4(head.as_str(), plugin.source.as_str(), "  ", origin_label(&plugin.origin))
}

/// Installed plugins, line by line.
pub open spec fn plugins_text(plugins: Seq<PluginFacts>) -> Seq<Seq<char>> {
    Seq::new(plugins.len(), |i: int| plugin_text(plugins[i]))
}

fn plugins_rows(plugins: &Vec<PluginFacts>) -> (lines: Vec<String>)
    ensures
        text::texts(lines@) == plugins_text(plugins@),
{
    let mut lines: Vec<String> = Vec::new();
    let mut i: usize = 0;
    while i < plugins.len()
        invariant
            i <= plugins@.len(),
            lines@.len() == i,
            forall|k: int| 0 <= k < i ==> #[trigger] lines@[k]@ == plugin_text(plugins@[k]),
        decreases plugins@.len() - i,
    {
        lines.push(plugin_line(&plugins[i]));
        i = i + 1;
    }
    proof {
        assert(text::texts(lines@) =~= plugins_text(plugins@));
    }
    lines
}

/// The installed plugins, line by line.
pub fn list_lines(plugins: &Vec<PluginFacts>) -> (lines: Vec<String>)
    ensures
        text::texts(lines@) == (if plugins@.len() == 0 {
            seq!["No plugins installed."@]
        } else {
            plugins_text(plugins@)
        }),
{
    if plugins.len() == 0 {
        let mut lines: Vec<String> = Vec::new();
        lines.push(text::copied("No plugins installed."));
        proof {
            assert(text::texts(lines@) =~= seq!["No plugins installed."@]);
        }
        return lines;
    }
    plugins_rows(plugins)
}

/// An entry of the catalog in two lines.
pub open spec fn found_text(entry: CatalogEntry) -> Seq<Seq<char>> {
    seq![
        entry.alias@ + "  "@ + entry.tier.label() + "  "@ + entry.source.written() + "  ["@
            + text::listed(text::texts(entry.categories@), ","@) + "]"@,
        "    "@ + entry.name@ + " \u{2014} "@ + entry.description@,
    ]
}

pub fn found_lines(entry: &CatalogEntry) -> (lines: Vec<String>)
    ensures
        text::texts(lines@) == found_text(*entry),
{
    let identity = entry.source.text();
    let categories = text::list(&entry.categories, ",");
    let head = text::joined4(entry.alias.as_str(), "  ", entry.tier.as_str(), "  ");
    let first = text::joined4(head.as_str(), identity.as_str(), "  [", categories.as_str());
    let mut lines: Vec<String> = Vec::new();
    lines.push(text::joined(first.as_str(), "]"));
    lines.push(
        text::joined4("    ", entry.name.as_str(), " \u{2014} ", entry.description.as_str()),
    );
    proof {
        assert(text::texts(lines@) =~= found_text(*entry));
    }
    lines
}

/// What is said of a catalog that is in order.
pub fn catalog_line(entries: usize, online: bool) -> (line: String)
    ensures
        line@ == "Catalog OK  "@ + text::decimal(entries as int) + " entr"@ + session::either(
            entries == 1,
            "y"@,
            "ies"@,
        ) + session::either(online, "  releases=verified"@, ""@),
{
    let count = text::decimal_text(entries as u64);
    let head = text::joined3("Catalog OK  ", count.as_str(), " entr");
    let ending = if entries == 1 {
        "y"
    } else {
        "ies"
    };
    let releases = if online {
        "  releases=verified"
    } else {
        ""
    };
    text::joined3(head.as_str(), ending, releases)
}

/// Whether the manifest of a release is what the catalog says of it.
pub fn check_listing(entry: &CatalogEntry, name: &str, description: &str) -> (result: Result<
    (),
    String,
>)
    ensures
        match result {
            Ok(_) => entry.name@ == name@ && entry.description@ == description@,
            Err(message) => (entry.name@ != name@ || entry.description@ != description@) && message@
                == "catalog entry `"@ + entry.alias@
                + "` name or description differs from its latest package manifest"@,
        },
{
    if !text::same(entry.name.as_str(), name) || !text::same(
        entry.description.as_str(),
        description,
    ) {
        return Err(
            text::joined3(
                "catalog entry `",
                entry.alias.as_str(),
                "` name or description differs from its latest package manifest",
            ),
        );
    }
    Ok(())
}

// ---------------------------------------------------------------------------
// One plugin

/// An item of an installed plugin.
#[derive(Debug)]
pub struct ItemFacts {
    pub id: String,
    pub width: u32,
    pub enabled: bool,
}

/// A profile of an installed plugin.
#[derive(Debug)]
pub struct ProfileFacts {
    pub id: String,
    pub label: String,
    pub enabled: bool,
}

/// Something that a plugin asks for.
#[derive(Debug)]
pub struct RequestFacts {
    pub capability: String,
    pub required: bool,
}

/// An earlier release that is still there.
#[derive(Debug)]
pub struct SnapshotFacts {
    pub version: String,
    pub digest: String,
    pub origin: InstalledOrigin,
}

/// An installed plugin, in all its parts.
#[derive(Debug)]
pub struct InspectedFacts {
    pub plugin: PluginFacts,
    pub runtime: String,
    pub path: String,
    pub digest: String,
    pub items: Vec<ItemFacts>,
    pub profiles: Vec<ProfileFacts>,
    pub requests: Vec<RequestFacts>,
    pub retained: Vec<SnapshotFacts>,
}

pub open spec fn item_text(item: ItemFacts) -> Seq<char> {
    "item: "@ + item.id@ + " width="@ + text::decimal(item.width as int) + " "@ + state_word(
        item.enabled,
    )
}

fn item_line(item: &ItemFacts) -> (line: String)
    ensures
        line@ == item_text(*item),
{
    let width = text::decimal_text(item.width as u64);
    let head = text::joined4("item: ", item.id.as_str(), " width=", width.as_str());
    text::joined3(head.as_str(), " ", state(item.enabled))
}

pub open spec fn profile_text(profile: ProfileFacts) -> Seq<char> {
    "profile: "@ + profile.id@ + " "@ + state_word(profile.enabled) + " ("@ + profile.label@ + ")"@
}

fn profile_line(profile: &ProfileFacts) -> (line: String)
    ensures
        line@ == profile_text(*profile),
{
    let head = text::joined4("profile: ", profile.id.as_str(), " ", state(profile.enabled));
    text::joined4(head.as_str(), " (", profile.label.as_str(), ")")
}

pub open spec fn request_text(request: RequestFacts) -> Seq<char> {
    "permission: "@ + request.capability@ + " ("@ + need_word(request.required) + ")"@
}

fn request_line(request: &RequestFacts) -> (line: String)
    ensures
        line@ == request_text(*request),
{
    let head = text::joined3("permission: ", request.capability.as_str(), " (");
    text::joined3(head.as_str(), need(request.required), ")")
}

pub open spec fn snapshot_text(snapshot: SnapshotFacts) -> Seq<char> {
    "retained: "@ + snapshot.version@ + " "@ + snapshot.digest@ + " "@ + origin_word(
        snapshot.origin,
    )
}

fn snapshot_line(snapshot: &SnapshotFacts) -> (line: String)
    ensures
        line@ == snapshot_text(*snapshot),
{
    let head = text::joined4(
        "retained: ",
        snapshot.version.as_str(),
        " ",
        snapshot.digest.as_str(),
    );
    text::joined3(head.as_str(), " ", origin_label(&snapshot.origin))
}

/// Items, line by line.
pub open spec fn items_text(items: Seq<ItemFacts>) -> Seq<Seq<char>> {
    Seq::new(items.len(), |i: int| item_text(items[i]))
}

fn items_rows(items: &Vec<ItemFacts>) -> (lines: Vec<String>)
    ensures
        text::texts(lines@) == items_text(items@),
{
    let mut lines: Vec<String> = Vec::new();
    let mut i: usize = 0;
    while i < items.len()
        invariant
            i <= items@.len(),
            lines@.len() == i,
            forall|k: int| 0 <= k < i ==> #[trigger] lines@[k]@ == item_text(items@[k]),
        decreases items@.len() - i,
    {
        lines.push(item_line(&items[i]));
        i = i + 1;
    }
    proof {
        assert(text::texts(lines@) =~= items_text(items@));
    }
    lines
}

/// Profiles, line by line.
pub open spec fn profiles_text(profiles: Seq<ProfileFacts>) -> Seq<Seq<char>> {
    Seq::new(profiles.len(), |i: int| profile_text(profiles[i]))
}

fn profiles_rows(profiles: &Vec<ProfileFacts>) -> (lines: Vec<String>)
    ensures
        text::texts(lines@) == profiles_text(profiles@),
{
    let mut lines: Vec<String> = Vec::new();
    let mut i: usize = 0;
    while i < profiles.len()
        invariant
            i <= profiles@.len(),
            lines@.len() == i,
            forall|k: int| 0 <= k < i ==> #[trigger] lines@[k]@ == profile_text(profiles@[k]),
        decreases profiles@.len() - i,
    {
        lines.push(profile_line(&profiles[i]));
        i = i + 1;
    }
    proof {
        assert(text::texts(lines@) =~= profiles_text(profiles@));
    }
    lines
}

/// What is asked for, line by line.
pub open spec fn requests_text(requests: Seq<RequestFacts>) -> Seq<Seq<char>> {
    Seq::new(requests.len(), |i: int| request_text(requests[i]))
}

fn requests_rows(requests: &Vec<RequestFacts>) -> (lines: Vec<String>)
    ensures
        text::texts(lines@) == requests_text(requests@),
{
    let mut lines: Vec<String> = Vec::new();
    let mut i: usize = 0;
    while i < requests.len()
        invariant
            i <= requests@.len(),
            lines@.len() == i,
            forall|k: int| 0 <= k < i ==> #[trigger] lines@[k]@ == request_text(requests@[k]),
        decreases requests@.len() - i,
    {
        lines.push(request_line(&requests[i]));
        i = i + 1;
    }
    proof {
        assert(text::texts(lines@) =~= requests_text(requests@));
    }
    lines
}

/// Earlier releases, line by line.
pub open spec fn snapshots_text(snapshots: Seq<SnapshotFacts>) -> Seq<Seq<char>> {
    Seq::new(snapshots.len(), |i: int| snapshot_text(snapshots[i]))
}

fn snapshots_rows(snapshots: &Vec<SnapshotFacts>) -> (lines: Vec<String>)
    ensures
        text::texts(lines@) == snapshots_text(snapshots@),
{
    let mut lines: Vec<String> = Vec::new();
    let mut i: usize = 0;
    while i < snapshots.len()
        invariant
            i <= snapshots@.len(),
            lines@.len() == i,
            forall|k: int| 0 <= k < i ==> #[trigger] lines@[k]@ == snapshot_text(snapshots@[k]),
        decreases snapshots@.len() - i,
    {
        lines.push(snapshot_line(&snapshots[i]));
        i = i + 1;
    }
    proof {
        assert(text::texts(lines@) =~= snapshots_text(snapshots@));
    }
    lines
}

/// A truth value in one word.
pub open spec fn flag_word(flag: bool) -> Seq<char> {
    session::either(flag, "true"@, "false"@)
}

fn flag(value: bool) -> (word: &'static str)
    ensures
        word@ == flag_word(value),
{
    if value {
        "true"
    } else {
        "false"
    }
}

/// The release that a plugin came from, in two lines.
pub open spec fn release_text(origin: InstalledOrigin) -> Seq<Seq<char>> {
    match origin {
        InstalledOrigin::LocalDevelopment => Seq::empty(),
        InstalledOrigin::GithubRelease {
            release_id,
            tag,
            asset_id,
            asset_name,
            asset_digest,
            immutable,
            attested,
        } => seq![
            "release: "@ + tag@ + " id="@ + text::decimal(release_id as int) + " immutable="@
                + flag_word(immutable) + " attested="@ + flag_word(attested),
            "asset: "@ + asset_name@ + " id="@ + text::decimal(asset_id as int) + " "@
                + asset_digest@,
        ],
    }
}

fn release_lines(origin: &InstalledOrigin) -> (lines: Vec<String>)
    ensures
        text::texts(lines@) == release_text(*origin),
{
    let mut lines: Vec<String> = Vec::new();
    match origin {
        InstalledOrigin::LocalDevelopment => {},
        InstalledOrigin::GithubRelease {
            release_id,
            tag,
            asset_id,
            asset_name,
            asset_digest,
            immutable,
            attested,
        } => {
            let release = text::decimal_text(*release_id);
            let head = text::joined4("release: ", tag.as_str(), " id=", release.as_str());
            let end = text::joined4(
                " immutable=",
                flag(*immutable),
                " attested=",
                flag(*attested),
            );
            let first = text::joined(head.as_str(), end.as_str());
            proof {
                assert(first@ =~= release_text(*origin)[0]);
            }
            lines.push(first);
            let asset = text::decimal_text(*asset_id);
            let name = text::joined4("asset: ", asset_name.as_str(), " id=", asset.as_str());
            lines.push(text::joined3(name.as_str(), " ", asset_digest.as_str()));
        },
    }
    proof {
        assert(text::texts(lines@) =~= release_text(*origin));
    }
    lines
}

/// An installed plugin, line by line.
pub open spec fn inspected_text(facts: InspectedFacts) -> Seq<Seq<char>> {
    seq![
        facts.plugin.source@ + " "@ + facts.plugin.version@,
        "state: "@ + state_word(facts.plugin.enabled),
        "runtime: "@ + facts.runtime@,
        "origin: "@ + origin_word(facts.plugin.origin),
        "package: "@ + facts.path@,
        "digest: "@ + facts.digest@,
    ] + release_text(facts.plugin.origin) + items_text(facts.items@) + profiles_text(
        facts.profiles@,
    ) + requests_text(facts.requests@) + snapshots_text(facts.retained@)
}

/// An installed plugin, line by line.
pub fn inspect_lines(facts: &InspectedFacts) -> (lines: Vec<String>)
    ensures
        text::texts(lines@) == inspected_text(*facts),
{
    let mut lines: Vec<String> = Vec::new();
    lines.push(text::joined3(facts.plugin.source.as_str(), " ", facts.plugin.version.as_str()));
    lines.push(text::joined("state: ", state(facts.plugin.enabled)));
    lines.push(text::joined("runtime: ", facts.runtime.as_str()));
    lines.push(text::joined("origin: ", origin_label(&facts.plugin.origin)));
    lines.push(text::joined("package: ", facts.path.as_str()));
    lines.push(text::joined("digest: ", facts.digest.as_str()));
    proof {
        assert(text::texts(lines@) =~= seq![
            facts.plugin.source@ + " "@ + facts.plugin.version@,
            "state: "@ + state_word(facts.plugin.enabled),
            "runtime: "@ + facts.runtime@,
            "origin: "@ + origin_word(facts.plugin.origin),
            "package: "@ + facts.path@,
            "digest: "@ + facts.digest@,
        ]);
    }
    let release = release_lines(&facts.plugin.origin);
    append(&mut lines, release);
    let items = items_rows(&facts.items);
    append(&mut lines, items);
    let profiles = profiles_rows(&facts.profiles);
    append(&mut lines, profiles);
    let requests = requests_rows(&facts.requests);
    append(&mut lines, requests);
    let retained = snapshots_rows(&facts.retained);
    append(&mut lines, retained);
    lines
}

// ---------------------------------------------------------------------------
// Permissions

/// What becomes of something that a plugin asks for.
#[derive(Debug)]
pub struct GrantFacts {
    pub request: RequestFacts,
    pub status: String,
    pub risk: String,
    pub reason: String,
    /// The scope, as it is written in JSON.
    pub scope: String,
}

/// A grant in three lines.
pub open spec fn grant_text(grant: GrantFacts) -> Seq<Seq<char>> {
    seq![
        grant.request.capability@ + "  "@ + need_word(
            grant.request.required,
        ) + "  "@ + grant.status@
            + "  risk="@ + grant.risk@,
        "    "@ + grant.reason@,
        "    scope="@ + grant.scope@,
    ]
}

fn grant_lines(grant: &GrantFacts) -> (lines: Vec<String>)
    ensures
        text::texts(lines@) == grant_text(*grant),
{
    let mut lines: Vec<String> = Vec::new();
    let head = text::joined4(
        grant.request.capability.as_str(),
        "  ",
        need(grant.request.required),
        "  ",
    );
    lines.push(
        text::joined4(head.as_str(), grant.status.as_str(), "  risk=", grant.risk.as_str()),
    );
    lines.push(text::joined("    ", grant.reason.as_str()));
    lines.push(text::joined("    scope=", grant.scope.as_str()));
    proof {
        assert(text::texts(lines@) =~= grant_text(*grant));
    }
    lines
}

/// The first `to` grants, line by line.
pub open spec fn grants_text(grants: Seq<GrantFacts>, to: int) -> Seq<Seq<char>>
    decreases to,
{
    if to <= 0 {
        Seq::empty()
    } else {
        grants_text(grants, to - 1) + grant_text(grants[to - 1])
    }
}

/// Warnings, line by line.
pub open spec fn warnings_text(warnings: Seq<String>) -> Seq<Seq<char>> {
    Seq::new(warnings.len(), |i: int| "warning: "@ + warnings[i]@)
}

/// What a plugin is allowed.
#[derive(Debug)]
pub struct PolicyFacts {
    pub plugin: PluginFacts,
    pub grants: Vec<GrantFacts>,
    pub warnings: Vec<String>,
}

/// What a plugin is allowed, line by line.
pub open spec fn policy_text(policy: PolicyFacts) -> Seq<Seq<char>> {
    seq![
        policy.plugin.source@ + " "@ + policy.plugin.version@ + "  "@ + origin_word(
            policy.plugin.origin,
        ) + "  "@ + state_word(policy.plugin.enabled),
    ] + (if policy.grants@.len() == 0 {
        seq!["No capabilities requested."@]
    } else {
        Seq::empty()
    }) + grants_text(policy.grants@, policy.grants@.len() as int) + warnings_text(policy.warnings@)
}

/// What a plugin is allowed, line by line.
pub fn permissions_lines(policy: &PolicyFacts) -> (lines: Vec<String>)
    ensures
        text::texts(lines@) == policy_text(*policy),
{
    let mut lines: Vec<String> = Vec::new();
    let head = text::joined4(
        policy.plugin.source.as_str(),
        " ",
        policy.plugin.version.as_str(),
        "  ",
    );
    lines.push(
        text::joined4(
            head.as_str(),
            origin_label(&policy.plugin.origin),
            "  ",
            state(policy.plugin.enabled),
        ),
    );
    if policy.grants.len() == 0 {
        lines.push(text::copied("No capabilities requested."));
    }
    let ghost first = seq![
        policy.plugin.source@ + " "@ + policy.plugin.version@ + "  "@ + origin_word(
            policy.plugin.origin,
        ) + "  "@ + state_word(policy.plugin.enabled),
    ] + (if policy.grants@.len() == 0 {
        seq!["No capabilities requested."@]
    } else {
        Seq::empty()
    });
    proof {
        assert(text::texts(lines@) =~= first);
        assert(first + grants_text(policy.grants@, 0) =~= first);
    }
    let mut i: usize = 0;
    while i < policy.grants.len()
        invariant
            i <= policy.grants@.len(),
            text::texts(lines@) == first + grants_text(policy.grants@, i as int),
        decreases policy.grants@.len() - i,
    {
        let more = grant_lines(&policy.grants[i]);
        append(&mut lines, more);
        proof {
            assert(text::texts(lines@) =~= first + grants_text(policy.grants@, i + 1));
        }
        i = i + 1;
    }
    let warnings = warning_lines(&policy.warnings);
    append(&mut lines, warnings);
    lines
}

fn warning_lines(warnings: &Vec<String>) -> (lines: Vec<String>)
    ensures
        text::texts(lines@) == warnings_text(warnings@),
{
    let mut lines: Vec<String> = Vec::new();
    let mut i: usize = 0;
    while i < warnings.len()
        invariant
            i <= warnings@.len(),
            lines@.len() == i,
            forall|k: int| 0 <= k < i ==> #[trigger] lines@[k]@ == "warning: "@ + warnings@[k]@,
        decreases warnings@.len() - i,
    {
        lines.push(text::joined("warning: ", warnings[i].as_str()));
        i = i + 1;
    }
    proof {
        assert(text::texts(lines@) =~= warnings_text(warnings@));
    }
    lines
}

/// What is said of a plugin that was installed.
pub fn installed_line(plugin: &PluginFacts) -> (line: String)
    ensures
        line@ == "Installed "@ + plugin.source@ + " "@ + plugin.version@ + " ("@ + origin_word(
            plugin.origin,
        ) + ", "@ + state_word(plugin.enabled) + ")"@,
{
    let head = text::joined4("Installed ", plugin.source.as_str(), " ", plugin.version.as_str());
    let middle = text::joined4(head.as_str(), " (", origin_label(&plugin.origin), ", ");
    text::joined3(middle.as_str(), state(plugin.enabled), ")")
}

/// What is said of a plugin that was rolled back.
pub fn rolled_back_line(plugin: &PluginFacts) -> (line: String)
    ensures
        line@ == "Rolled back "@ + plugin.source@ + " to "@ + plugin.version@ + " ("@ + state_word(
            plugin.enabled,
        ) + ")"@,
{
    let head = text::joined4(
        "Rolled back ",
        plugin.source.as_str(),
        " to ",
        plugin.version.as_str(),
    );
    text::joined4(head.as_str(), " (", state(plugin.enabled), ")")
}

} // verus!
