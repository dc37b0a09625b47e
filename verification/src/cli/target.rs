//! What is installed, released or submitted.
use vstd::prelude::*;

use super::args;
use super::cargo;
use super::naming;
use crate::catalog;
use crate::catalog::{Catalog, CatalogEntry, CatalogState, CatalogTier, CATALOG_VERSION};
use crate::github::location;
use crate::github::location::{Address, AddressView};
use crate::github::version;
use crate::github::version::{parse_version, Version, VersionView};
use crate::source::GithubSource;
use crate::text;
use crate::text::TextSet;

verus! {

// ---------------------------------------------------------------------------
// Sources

/// How a source is written.
#[derive(Debug, PartialEq, Eq)]
pub enum SourceForm {
    /// As the identity of a package, which begins with `github:`.
    Identity(String),
    /// As the address of a repository.
    Repository { owner: String, repository: String },
}

/// [`SourceForm`], by the views of what it holds.
pub enum SourceFormView {
    Identity(Seq<char>),
    Repository { owner: Seq<char>, repository: Seq<char> },
}

impl View for SourceForm {
    type V = SourceFormView;

    open spec fn view(&self) -> SourceFormView {
        match self {
            SourceForm::Identity(text) => SourceFormView::Identity(text@),
            SourceForm::Repository { owner, repository } => SourceFormView::Repository {
                owner: owner@,
                repository: repository@,
            },
        }
    }
}

/// Where the first slash from `from` on stands, or else the end.
pub open spec fn slash(path: Seq<char>, from: int) -> int
    decreases path.len() - from,
{
    if from >= path.len() {
        path.len() as int
    } else if path[from] == '/' {
        from
    } else {
        slash(path, from + 1)
    }
}

/// The two parts of a path that has exactly two, and neither of them empty.
pub open spec fn two_parts(path: Seq<char>) -> Option<(Seq<char>, Seq<char>)> {
    let middle = slash(path, 1);
    if path.len() > 0 && path[0] == '/' && 1 < middle && middle + 1 < path.len() && slash(
        path,
        middle + 1,
    ) == path.len() {
        Some((path.subrange(1, middle), path.subrange(middle + 1, path.len() as int)))
    } else {
        None
    }
}

fn find_slash(chars: &Vec<char>, from: usize) -> (at: usize)
    requires
        from <= chars@.len(),
    ensures
        at == slash(chars@, from as int),
        from <= at <= chars@.len(),
{
    let mut at: usize = from;
    while at < chars.len() && chars[at] != '/'
        invariant
            from <= at <= chars@.len(),
            slash(chars@, from as int) == slash(chars@, at as int),
        decreases chars@.len() - at,
    {
        at = at + 1;
    }
    at
}

fn split_path(path: &str) -> (parts: Option<(String, String)>)
    ensures
        two_parts(path@) == (match parts {
            Some((first, second)) => Some((first@, second@)),
            None => None::<(Seq<char>, Seq<char>)>,
        }),
{
    let chars: Vec<char> = text::characters(path);
    let n: usize = chars.len();
    if n == 0 || chars[0] != '/' {
        return None;
    }
    let middle: usize = find_slash(&chars, 1);
    if middle <= 1 || middle >= n || middle + 1 >= n {
        return None;
    }
    if find_slash(&chars, middle + 1) != n {
        return None;
    }
    Some((text::text_of(&chars, 1, middle), text::text_of(&chars, middle + 1, n)))
}

/// The address of a repository on GitHub, and nothing else.
pub open spec fn repository_address(address: AddressView) -> bool {
    &&& address.scheme == "https"@
    &&& address.host == Some("github.com"@)
    &&& address.port is None
    &&& address.username.len() == 0
    &&& address.password is None
    &&& address.query is None
    &&& address.fragment is None
}

/// What a source is, once it has been read as an address.
pub open spec fn source_checked(value: Seq<char>, parsed: Result<AddressView, Seq<char>>) -> Result<
    SourceFormView,
    Seq<char>,
> {
    if text::begins(value, "github:"@) {
        Ok(SourceFormView::Identity(value))
    } else {
        match parsed {
            Err(cause) => Err(
                "source must be github:owner/repository or an HTTPS GitHub URL: "@ + cause,
            ),
            Ok(address) => if !repository_address(address) {
                Err("GitHub URL must be exactly https://github.com/owner/repository"@)
            } else if address.no_base {
                Err("GitHub URL has no repository path"@)
            } else {
                match two_parts(address.path) {
                    None => Err(
                        "GitHub URL must be exactly https://github.com/owner/repository"@,
                    ),
                    Some((owner, repository)) => Ok(
                        SourceFormView::Repository { owner, repository },
                    ),
                }
            },
        }
    }
}

fn is_repository_address(address: &Address) -> (r: bool)
    ensures
        r == repository_address(address@),
{
    let on_github: bool = match &address.host {
        Some(host) => text::same(host.as_str(), "github.com"),
        None => false,
    };
    text::same(address.scheme.as_str(), "https") && on_github && address.port.is_none()
        && address.username.as_str().is_empty() && address.password.is_none()
        && address.query.is_none() && address.fragment.is_none()
}

/// [`source`], once the text has been read as an address.
pub fn check_source(value: &str, parsed: Result<Address, String>) -> (result: Result<
    SourceForm,
    String,
>)
    ensures
        args::outcome(result) == source_checked(value@, location::parsed_view(parsed)),
{
    if text::starts_with(value, "github:") {
        return Ok(SourceForm::Identity(text::copied(value)));
    }
    let address = match parsed {
        Ok(address) => address,
        Err(cause) => {
            return Err(
                text::joined(
                    "source must be github:owner/repository or an HTTPS GitHub URL: ",
                    cause.as_str(),
                ),
            );
        },
    };
    if !is_repository_address(&address) {
        return Err(
            text::copied("GitHub URL must be exactly https://github.com/owner/repository"),
        );
    }
    if address.no_base {
        return Err(text::copied("GitHub URL has no repository path"));
    }
    match split_path(address.path.as_str()) {
        None => Err(
            text::copied("GitHub URL must be exactly https://github.com/owner/repository"),
        ),
        Some((owner, repository)) => Ok(SourceForm::Repository { owner, repository }),
    }
}

/// Which source a user names: an identity, which is checked where packages are
/// known, or the address of a repository.
pub fn source(value: &str) -> (result: Result<SourceForm, String>)
    ensures
        args::outcome(result) == source_checked(value@, location::address_of(value@)),
{
    let parsed = location::parse_address(value);
    check_source(value, parsed)
}

/// What is to be installed.
#[derive(Debug)]
pub enum InstallTarget<'a> {
    /// A source that the user names.
    Source(SourceForm),
    /// A pack of the catalog.
    Listed(&'a CatalogEntry),
}

/// What a user names as the thing to install.
pub open spec fn targets<'a>(
    result: Result<InstallTarget<'a>, String>,
    value: Seq<char>,
    catalog: Catalog,
) -> bool {
    if text::begins(value, "github:"@) || text::begins(value, "https://"@) {
        match (result, source_checked(value, location::address_of(value))) {
            (Ok(InstallTarget::Source(form)), Ok(wanted)) => form@ == wanted,
            (Err(message), Err(why)) => message@ == why,
            _ => false,
        }
    } else if !naming::is_name(value) {
        result is Err && result->Err_0@
            == "install target must be a GitHub source, URL, or catalog alias: NAME must be a lowercase kebab-case identifier"@
    } else {
        match catalog.known(value) {
            Some(entry) => if entry.state == CatalogState::Active {
                result matches Ok(InstallTarget::Listed(listed)) && *listed == entry
            } else {
                result is Err && result->Err_0@ == unknown_alias(value)
            },
            None => result is Err && result->Err_0@ == unknown_alias(value),
        }
    }
}

/// What is said of an alias that is not in the catalog.
pub open spec fn unknown_alias(value: Seq<char>) -> Seq<char> {
    "unknown catalog alias `"@ + value + "`; use `touchbarctl plugin search`"@
}

/// What a user names as the thing to install: a source, or the alias of a pack
/// that is not retired.
pub fn install_source_from_catalog<'a>(value: &str, catalog: &'a Catalog) -> (result: Result<
    InstallTarget<'a>,
    String,
>)
    ensures
        targets(result, value@, *catalog),
{
    if text::starts_with(value, "github:") || text::starts_with(value, "https://") {
        let form = source(value)?;
        return Ok(InstallTarget::Source(form));
    }
    if naming::validate_name(value).is_err() {
        return Err(
            text::copied(
                "install target must be a GitHub source, URL, or catalog alias: NAME must be a lowercase kebab-case identifier",
            ),
        );
    }
    match catalog.resolve(value) {
        Some(entry) => Ok(InstallTarget::Listed(entry)),
        None => Err(
            text::joined3(
                "unknown catalog alias `",
                value,
                "`; use `touchbarctl plugin search`",
            ),
        ),
    }
}

// ---------------------------------------------------------------------------
// Adding and updating

/// What a plugin is added from.
#[derive(Debug)]
pub enum Addition<'a> {
    Path(&'a str),
    Remote(&'a str),
}

/// What a plugin is added from.
pub open spec fn added(result: Result<Addition, String>, words: Seq<Seq<char>>) -> bool {
    let path = args::option_value(words, "--path"@);
    let remote = args::positioned(words, Seq::empty(), 0);
    match args::well_used(words, seq!["--path"@, "--version"@], Seq::empty(), 1) {
        Err(message) => result is Err && result->Err_0@ == message,
        Ok(_) => if (path is Some) == (remote is Some) {
            result is Err && result->Err_0@
                == "add requires exactly one --path PACKAGE_OR_ARCHIVE or GitHub SOURCE"@
        } else if path is Some && args::option_value(words, "--version"@) is Some {
            result is Err && result->Err_0@
                == "--version is only valid for a GitHub release install"@
        } else {
            match result {
                Ok(Addition::Path(given)) => path == Some(given@),
                Ok(Addition::Remote(given)) => remote == Some(given@),
                Err(_) => false,
            }
        },
    }
}

pub fn addition<'a>(args: &'a [String]) -> (result: Result<Addition<'a>, String>)
    ensures
        added(result, text::texts(args@)),
{
    let known: [&str; 2] = ["--path", "--version"];
    proof {
        assert(args::names(known@) =~= seq!["--path"@, "--version"@]);
    }
    args::reject(args, known.as_slice(), 1)?;
    let path = args::opt(args, "--path");
    let remote = args::positional(args, 0);
    match (path, remote) {
        (Some(path), None) => {
            if args::opt(args, "--version").is_some() {
                return Err(
                    text::copied("--version is only valid for a GitHub release install"),
                );
            }
            Ok(Addition::Path(path))
        },
        (None, Some(remote)) => Ok(Addition::Remote(remote)),
        _ => Err(
            text::copied("add requires exactly one --path PACKAGE_OR_ARCHIVE or GitHub SOURCE"),
        ),
    }
}

// ---------------------------------------------------------------------------
// Releasing

/// The identity of a repository that is written as owner and name.
pub fn repository_identity(repository: &str) -> (identity: String)
    ensures
        identity@ == "github:"@ + text::lowered(repository@),
{
    let low = text::lower_text(repository);
    text::joined("github:", low.as_str())
}

/// The version that a crate declares, where there is a description of one.
pub open spec fn declared_by(document: Option<Result<String, String>>) -> Option<
    Result<VersionView, Seq<char>>,
> {
    match document {
        None => None,
        Some(Err(cause)) => Some(Err(cause@)),
        Some(Ok(document)) => Some(
            cargo::version_declared(cargo::text_at(document@, "package"@, "version"@)),
        ),
    }
}

/// A declared version, by its view.
pub open spec fn declared_view(declared: Option<Result<Version, String>>) -> Option<
    Result<VersionView, Seq<char>>,
> {
    match declared {
        None => None,
        Some(declared) => Some(version::parsed_view(declared)),
    }
}

/// What keeps a package from being released, if anything does: first its tag,
/// then the repository, the source, and the version of its crate.
pub open spec fn release_checked(
    tag: Seq<char>,
    version: Version,
    source: GithubSource,
    repository: Option<Result<GithubSource, String>>,
    declared: Option<Result<VersionView, Seq<char>>>,
) -> Result<(), Seq<char>> {
    if !version@.plain() || tag != "v"@ + version@.written() {
        Err(
            "release tag must exactly match the plain manifest version as vMAJOR.MINOR.PATCH"@,
        )
    } else if repository matches Some(Err(cause)) {
        Err(repository->0->Err_0@)
    } else if repository is Some && !source.same(repository->0->Ok_0) {
        Err("manifest source does not match the release repository"@)
    } else if source.owned_by() == "local"@ {
        Err("release packages require an explicit non-local GitHub source"@)
    } else {
        match declared {
            None => Ok(()),
            Some(Err(message)) => Err(message),
            Some(Ok(crate_version)) => if crate_version != version@ {
                Err("Cargo.toml and touchbar-plugin.toml versions do not match"@)
            } else {
                Ok(())
            },
        }
    }
}

/// [`check_release`], once the version of the crate has been read.
pub fn settle_release(
    tag: &str,
    version: &Version,
    source: &GithubSource,
    repository: Option<Result<GithubSource, String>>,
    declared: Option<Result<Version, String>>,
) -> (result: Result<(), String>)
    ensures
        args::outcome(result) == release_checked(
            tag@,
            *version,
            *source,
            repository,
            declared_view(declared),
        ),
{
    let number = version.text();
    let wanted = text::joined("v", number.as_str());
    if !version.is_plain() || !text::same(tag, wanted.as_str()) {
        return Err(
            text::copied(
                "release tag must exactly match the plain manifest version as vMAJOR.MINOR.PATCH",
            ),
        );
    }
    match repository {
        Some(Err(cause)) => {
            return Err(cause);
        },
        Some(Ok(repository)) => {
            if !source.is_same(&repository) {
                return Err(text::copied("manifest source does not match the release repository"));
            }
        },
        None => {},
    }
    if text::same(source.owner(), "local") {
        return Err(
            text::copied("release packages require an explicit non-local GitHub source"),
        );
    }
    match declared {
        None => Ok(()),
        Some(Err(message)) => Err(message),
        Some(Ok(crate_version)) => {
            if !crate_version.is_same(version) {
                return Err(
                    text::copied("Cargo.toml and touchbar-plugin.toml versions do not match"),
                );
            }
            Ok(())
        },
    }
}

/// Whether a package may be released under a tag, from a repository, and with
/// the version that its crate declares. The repository is missing where none is
/// asked for, and the description of the crate where the package has none; where
/// they could not be read, there is what went wrong.
pub fn check_release(
    tag: &str,
    version: &Version,
    source: &GithubSource,
    repository: Option<Result<GithubSource, String>>,
    document: Option<Result<String, String>>,
) -> (result: Result<(), String>)
    ensures
        args::outcome(result) == release_checked(
            tag@,
            *version,
            *source,
            repository,
            declared_by(document),
        ),
{
    let declared = match document {
        None => None,
        Some(Err(cause)) => Some(Err(cause)),
        Some(Ok(document)) => Some(cargo::declared_version(document.as_str())),
    };
    settle_release(tag, version, source, repository, declared)
}

/// What may be released has a plain version, a tag that names it, a source that
/// is not local and is the repository that is asked for, and a crate of the same
/// version, where it has one.
pub proof fn released_packages_agree(
    tag: Seq<char>,
    version: Version,
    source: GithubSource,
    repository: Option<Result<GithubSource, String>>,
    declared: Option<Result<VersionView, Seq<char>>>,
)
    ensures
        release_checked(tag, version, source, repository, declared) is Ok <==> {
            &&& version@.plain()
            &&& tag == "v"@ + version@.written()
            &&& source.owned_by() != "local"@
            &&& repository is Some ==> repository->0 is Ok && source.same(repository->0->Ok_0)
            &&& declared is Some ==> declared == Some(
                Ok::<VersionView, Seq<char>>(version@),
            )
        },
{
}

/// Whether a package is published to the repository that it names.
pub fn check_publication(source: &GithubSource, repository: &GithubSource) -> (result: Result<
    (),
    String,
>)
    ensures
        args::outcome(result) == (if source.same(*repository) {
            Ok(())
        } else {
            Err("manifest source does not match the publish repository"@)
        }),
{
    if !source.is_same(repository) {
        return Err(text::copied("manifest source does not match the publish repository"));
    }
    Ok(())
}

// ---------------------------------------------------------------------------
// Versions

/// What a text says about a version, or what is said of one that is none.
pub open spec fn version_told(
    parsed: Result<VersionView, Seq<char>>,
    problem: Seq<char>,
) -> Result<VersionView, Seq<char>> {
    match parsed {
        Ok(version) => Ok(version),
        Err(cause) => Err(problem + ": "@ + cause),
    }
}

/// What is said of a text that is no version.
pub fn tell_version(parsed: Result<Version, String>, problem: &str) -> (result: Result<
    Version,
    String,
>)
    ensures
        args::outcome(result) == version_told(version::parsed_view(parsed), problem@),
{
    match parsed {
        Ok(version) => Ok(version),
        Err(cause) => Err(text::joined3(problem, ": ", cause.as_str())),
    }
}

/// The version that a crate has.
pub fn crate_version(written: &str) -> (result: Result<Version, String>)
    ensures
        args::outcome(result) == version_told(
            version::version_of(written@),
            "Cargo.toml package.version is not semantic"@,
        ),
        result is Ok ==> result->Ok_0@.written() == written@,
{
    let parsed = parse_version(written);
    tell_version(parsed, "Cargo.toml package.version is not semantic")
}

/// The version that is asked for, where one is.
pub fn requested_version(args: &[String]) -> (result: Result<Option<Version>, String>)
    ensures
        match args::option_value(text::texts(args@), "--version"@) {
            None => result == Ok::<Option<Version>, String>(None),
            Some(written) => match (
                result,
                version_told(version::version_of(written), "--version must be a semantic version"@),
            ) {
                (Ok(Some(version)), Ok(wanted)) => version@ == wanted && wanted.written()
                    == written,
                (Err(message), Err(told)) => message@ == told,
                _ => false,
            },
        },
{
    match args::opt(args, "--version") {
        None => Ok(None),
        Some(written) => {
            let parsed = parse_version(written);
            match tell_version(parsed, "--version must be a semantic version") {
                Ok(version) => Ok(Some(version)),
                Err(message) => Err(message),
            }
        },
    }
}

// ---------------------------------------------------------------------------
// Submitting

/// Where the first comma from `from` on stands, or else the end.
pub open spec fn comma(text: Seq<char>, from: int) -> int
    decreases text.len() - from,
{
    if from >= text.len() {
        text.len() as int
    } else if text[from] == ',' {
        from
    } else {
        comma(text, from + 1)
    }
}

/// The trimmed parts between the commas of a text, from `from` on.
pub open spec fn parts_from(text: Seq<char>, from: int) -> Seq<Seq<char>>
    decreases text.len() - from,
    when 0 <= from <= text.len()
{
    let end = comma(text, from);
    if end >= text.len() || end < from {
        seq![text::trimmed(text.subrange(from, text.len() as int))]
    } else {
        seq![text::trimmed(text.subrange(from, end))] + parts_from(text, end + 1)
    }
}

/// The trimmed parts between commas, in order, each once.
pub open spec fn categories_of(categories: Seq<Seq<char>>, text: Seq<char>) -> bool {
    text::sorted(categories) && categories.to_set() == parts_from(text, 0).to_set()
}

fn find_comma(chars: &Vec<char>, from: usize) -> (at: usize)
    requires
        from <= chars@.len(),
    ensures
        at == comma(chars@, from as int),
        from <= at <= chars@.len(),
{
    let mut at: usize = from;
    while at < chars.len() && chars[at] != ','
        invariant
            from <= at <= chars@.len(),
            comma(chars@, from as int) == comma(chars@, at as int),
        decreases chars@.len() - at,
    {
        at = at + 1;
    }
    at
}

fn add_part(set: &mut TextSet<String>, part: &str)
    requires
        old(set).wf(),
    ensures
        final(set).wf(),
        final(set)@.to_set() == old(set)@.to_set().insert(text::trimmed(part@)),
{
    let short = text::trim(part);
    let ghost before = set@;
    let ghost key = short@;
    proof {
        text::lemma_rank(before, key);
        text::lemma_insert_to_set(before, text::rank(before, key) as int, key);
    }
    let added = set.insert(short);
    proof {
        if !added {
            assert(before.to_set().insert(key) =~= before.to_set());
        }
    }
}

/// The trimmed parts between the commas of a text, in order, each once.
pub fn split_categories(text: &str) -> (categories: Vec<String>)
    ensures
        categories_of(text::texts(categories@), text@),
{
    let chars: Vec<char> = text::characters(text);
    let n: usize = chars.len();
    let mut set: TextSet<String> = TextSet::new();
    let mut from: usize = 0;
    let ghost all = parts_from(text@, 0).to_set();
    proof {
        assert(set@.to_set() =~= Set::<Seq<char>>::empty());
        assert(set@.to_set().union(parts_from(text@, 0).to_set()) =~= all);
    }
    loop
        invariant
            from <= n == chars@.len(),
            chars@ == text@,
            set.wf(),
            all == parts_from(text@, 0).to_set(),
            set@.to_set().union(parts_from(text@, from as int).to_set()) == all,
        ensures
            set.wf(),
            set@.to_set() == all,
        decreases n - from,
    {
        let end: usize = find_comma(&chars, from);
        let part = text::text_of(&chars, from, end);
        let ghost before = set@.to_set();
        let ghost here = text::trimmed(part@);
        add_part(&mut set, part.as_str());
        if end >= n {
            proof {
                assert(parts_from(text@, from as int) =~= seq![here]);
                lemma_set_front(Seq::empty(), here);
                assert(set@.to_set() =~= all);
            }
            break;
        }
        proof {
            let rest = parts_from(text@, end + 1);
            assert(parts_from(text@, from as int) =~= seq![here] + rest);
            lemma_set_front(rest, here);
            assert(set@.to_set().union(rest.to_set()) =~= before.union(
                rest.to_set().insert(here),
            ));
        }
        from = end + 1;
    }
    let mut categories: Vec<String> = Vec::new();
    let mut i: usize = 0;
    while i < set.len()
        invariant
            i <= set@.len(),
            categories@.len() == i,
            forall|k: int| 0 <= k < i ==> #[trigger] categories@[k]@ == set@[k],
        decreases set@.len() - i,
    {
        categories.push(set.get(i).clone());
        i = i + 1;
    }
    proof {
        assert(text::texts(categories@) =~= set@);
    }
    categories
}

proof fn lemma_set_front(rest: Seq<Seq<char>>, front: Seq<char>)
    ensures
        (seq![front] + rest).to_set() == rest.to_set().insert(front),
        seq![front].to_set() == Set::<Seq<char>>::empty().insert(front),
{
    let whole = seq![front] + rest;
    assert forall|x: Seq<char>| whole.to_set().contains(x) == rest.to_set().insert(front).contains(
        x,
    ) by {
        if whole.contains(x) {
            let i = choose|i: int| 0 <= i < whole.len() && whole[i] == x;
            if i > 0 {
                assert(rest[i - 1] == x);
            }
        }
        if rest.contains(x) {
            let i = choose|i: int| 0 <= i < rest.len() && rest[i] == x;
            assert(whole[i + 1] == x);
        }
        if x == front {
            assert(whole[0] == x);
        }
    }
    assert(whole.to_set() =~= rest.to_set().insert(front));
    assert(seq![front][0] == front);
    assert(seq![front].to_set() =~= Set::<Seq<char>>::empty().insert(front));
}

/// How the entry of a package is printed.
#[derive(Clone, Copy, Debug, PartialEq, Eq, Structural)]
pub enum EntryFormat {
    Toml,
    Json,
}

/// How the entry of a package is to be printed.
pub open spec fn entry_format_asked(words: Seq<Seq<char>>) -> Result<EntryFormat, Seq<char>> {
    match args::option_value(words, "--format"@) {
        None => Ok(EntryFormat::Toml),
        Some(value) => if value == "toml"@ {
            Ok(EntryFormat::Toml)
        } else if value == "json"@ {
            Ok(EntryFormat::Json)
        } else {
            Err("unsupported submission format `"@ + value + "`"@)
        },
    }
}

pub fn entry_format(args: &[String]) -> (result: Result<EntryFormat, String>)
    ensures
        entry_format_asked(text::texts(args@)) == (match result {
            Ok(format) => Ok::<EntryFormat, Seq<char>>(format),
            Err(message) => Err(message@),
        }),
{
    match args::opt(args, "--format") {
        None => Ok(EntryFormat::Toml),
        Some(value) => {
            if text::same(value, "toml") {
                Ok(EntryFormat::Toml)
            } else if text::same(value, "json") {
                Ok(EntryFormat::Json)
            } else {
                Err(text::joined3("unsupported submission format `", value, "`"))
            }
        },
    }
}

/// What a package says of itself.
#[derive(Debug)]
pub struct PackageFacts {
    pub source: GithubSource,
    pub name: String,
    pub description: String,
}

/// The entry that a package would have in the catalog.
pub open spec fn proposes(
    entry: CatalogEntry,
    package: PackageFacts,
    alias: Seq<char>,
    categories: Seq<char>,
) -> bool {
    &&& entry.alias@ == alias
    &&& entry.source == package.source
    &&& entry.name == package.name
    &&& entry.description == package.description
    &&& categories_of(text::texts(entry.categories@), categories)
    &&& entry.tier == CatalogTier::Listed
    &&& entry.state == CatalogState::Active
}

/// What keeps an entry out of the catalog, if anything does.
pub open spec fn entry_refused(entry: CatalogEntry, bundled: Catalog) -> Option<Seq<char>> {
    let at = catalog::entry_from(bundled.plugins@, entry.source, bundled.plugins@.len() as int);
    if bundled.known(entry.alias@) is Some {
        Some("catalog alias `"@ + entry.alias@ + "` is already listed"@)
    } else if at is Some {
        Some(
            entry.source.written() + " is already listed as `"@ + bundled.plugins@[at->0].alias@
                + "`"@,
        )
    } else {
        None
    }
}

/// The entry that a package would have in the catalog, where it may have one.
pub fn submission(
    package: PackageFacts,
    alias: &str,
    categories: &str,
    bundled: &Catalog,
) -> (result:
    Result<CatalogEntry, String>)
    ensures
        if package.source.owned_by() == "local"@ {
            result is Err && result->Err_0@
                == "catalog submissions require an explicit public GitHub source"@
        } else {
            exists|entry: CatalogEntry|
                {
                    &&& #[trigger] proposes(entry, package, alias@, categories@)
                    &&& match result {
                        Ok(accepted) => accepted == entry && entry_refused(entry, *bundled) is None
                            && alone_issues(entry).len() == 0,
                        Err(message) => if alone_issues(entry).len() > 0 {
                            message@ == catalog::issue_lines(
                                alone_issues(entry),
                                alone_issues(entry).len() as int,
                            )
                        } else {
                            entry_refused(entry, *bundled) == Some(message@)
                        },
                    }
                }
        },
{
    if text::same(package.source.owner(), "local") {
        return Err(
            text::copied("catalog submissions require an explicit public GitHub source"),
        );
    }
    let entry = CatalogEntry {
        alias: text::copied(alias),
        source: package.source.clone(),
        name: package.name.clone(),
        description: package.description.clone(),
        categories: split_categories(categories),
        tier: CatalogTier::Listed,
        state: CatalogState::Active,
    };
    proof {
        assert(proposes(entry, package, alias@, categories@));
    }
    let ghost proposed = entry;
    let mut plugins: Vec<CatalogEntry> = Vec::new();
    plugins.push(entry);
    let mut alone = Catalog { catalog_version: CATALOG_VERSION, plugins };
    proof {
        assert(alone.plugins@ =~= seq![proposed]);
        assert(catalog::catalog_issues(alone) =~= alone_issues(proposed));
    }
    if let Err(errors) = alone.validate() {
        return Err(errors.message());
    }
    let entry = &alone.plugins[0];
    if bundled.find(entry.alias.as_str()).is_some() {
        return Err(
            text::joined3("catalog alias `", entry.alias.as_str(), "` is already listed"),
        );
    }
    if let Some(existing) = bundled.find_source(&entry.source) {
        let identity = entry.source.text();
        return Err(
            text::joined4(
                identity.as_str(),
                " is already listed as `",
                existing.alias.as_str(),
                "`",
            ),
        );
    }
    match alone.plugins.pop() {
        Some(entry) => Ok(entry),
        None => Err(String::new()),
    }
}

/// What is wrong with an entry in itself.
pub open spec fn alone_issues(entry: CatalogEntry) -> Seq<catalog::Issue> {
    catalog::entries_issues(seq![entry], 1)
}

/// A path is that of a repository exactly where it is a slash, the owner, a slash and the
/// repository, neither of these two empty and no slash in them.
pub proof fn repositories_have_two_parts(
    path: Seq<char>,
    owner: Seq<char>,
    repository: Seq<char>,
)
    ensures
        two_parts(path) == Some((owner, repository)) <==> {
            &&& owner.len() > 0
            &&& repository.len() > 0
            &&& !owner.contains('/')
            &&& !repository.contains('/')
            &&& path == seq!['/'] + owner + seq!['/'] + repository
        },
{
    if path.len() > 0 {
        lemma_slash(path, 1);
        let middle = slash(path, 1);
        if middle < path.len() {
            lemma_slash(path, middle + 1);
        }
        if two_parts(path) == Some((owner, repository)) {
            assert(path =~= seq!['/'] + owner + seq!['/'] + repository);
            if owner.contains('/') {
                let i = choose|i: int| 0 <= i < owner.len() && owner[i] == '/';
                assert(path[i + 1] == '/');
            }
            if repository.contains('/') {
                let i = choose|i: int| 0 <= i < repository.len() && repository[i] == '/';
                assert(path[middle + 1 + i] == '/');
            }
        }
        if owner.len() > 0 && repository.len() > 0 && !owner.contains('/') && !repository.contains(
            '/',
        ) && path == seq!['/'] + owner + seq!['/'] + repository {
            let k = owner.len() + 1;
            assert(path[k as int] == '/');
            assert forall|i: int| 1 <= i < k implies path[i] != '/' by {
                assert(path[i] == owner[i - 1]);
                if path[i] == '/' {
                    assert(owner.contains('/'));
                }
            }
            assert(middle == k);
            assert forall|i: int| k < i < path.len() implies path[i] != '/' by {
                assert(path[i] == repository[i - k - 1]);
                if path[i] == '/' {
                    assert(repository.contains('/'));
                }
            }
            assert(path[0] == '/');
            assert(slash(path, middle + 1) == path.len());
            assert(path.subrange(1, middle) =~= owner);
            assert(path.subrange(middle + 1, path.len() as int) =~= repository);
        }
    }
}

proof fn lemma_slash(path: Seq<char>, from: int)
    requires
        0 <= from <= path.len(),
    ensures
        from <= slash(path, from) <= path.len(),
        slash(path, from) < path.len() ==> path[slash(path, from)] == '/',
        forall|i: int| from <= i < slash(path, from) ==> #[trigger] path[i] != '/',
    decreases path.len() - from,
{
    if from < path.len() && path[from] != '/' {
        lemma_slash(path, from + 1);
    }
}

/// The characters from `from` to `to` have no comma among them, and commas or the ends of
/// the text beside them.
pub open spec fn between_commas(text: Seq<char>, from: int, to: int) -> bool {
    &&& 0 <= from <= to <= text.len()
    &&& forall|i: int| from <= i < to ==> #[trigger] text[i] != ','
    &&& from == 0 || text[from - 1] == ','
    &&& to == text.len() || text[to] == ','
}

proof fn lemma_first_comma(text: Seq<char>, from: int)
    requires
        0 <= from <= text.len(),
    ensures
        from <= comma(text, from) <= text.len(),
        comma(text, from) < text.len() ==> text[comma(text, from)] == ',',
        forall|i: int| from <= i < comma(text, from) ==> #[trigger] text[i] != ',',
    decreases text.len() - from,
{
    if from < text.len() && text[from] != ',' {
        lemma_first_comma(text, from + 1);
    }
}

proof fn lemma_parts(text: Seq<char>, from: int, part: Seq<char>)
    requires
        0 <= from <= text.len(),
        from == 0 || text[from - 1] == ',',
    ensures
        parts_from(text, from).contains(part) <==> exists|a: int, b: int|
            from <= a && #[trigger] between_commas(text, a, b) && text::trimmed(text.subrange(a, b))
                == part,
    decreases text.len() - from,
{
    lemma_first_comma(text, from);
    let end = comma(text, from);
    let first = text::trimmed(text.subrange(from, end));
    assert(between_commas(text, from, end));
    let all = parts_from(text, from);
    if end < text.len() {
        lemma_parts(text, end + 1, part);
        let rest = parts_from(text, end + 1);
        assert(all =~= seq![first] + rest);
        if all.contains(part) {
            let k = choose|k: int| 0 <= k < all.len() && all[k] == part;
            if k == 0 {
                assert(between_commas(text, from, end));
            } else {
                assert(rest[k - 1] == part);
                assert(rest.contains(part));
            }
        }
        if rest.contains(part) {
            let k = choose|k: int| 0 <= k < rest.len() && rest[k] == part;
            assert(all[k + 1] == part);
        }
        if first == part {
            assert(all[0] == part);
        }
        if exists|a: int, b: int|
            from <= a && #[trigger] between_commas(text, a, b) && text::trimmed(text.subrange(a, b))
                == part {
            let (a, b) = choose|a: int, b: int|
                from <= a && #[trigger] between_commas(text, a, b) && text::trimmed(
                    text.subrange(a, b),
                ) == part;
            if a <= end {
                if a > from {
                    assert(text[a - 1] == ',');
                }
                assert(a == from);
                if b < end {
                    assert(text[b] == ',');
                } else if b > end {
                    assert(text[end] != ',');
                }
                assert(b == end);
                assert(first == part);
            } else {
                assert(end + 1 <= a);
                assert(rest.contains(part));
            }
        }
    } else {
        assert(all =~= seq![first]);
        if all.contains(part) {
            let k = choose|k: int| 0 <= k < all.len() && all[k] == part;
            assert(between_commas(text, from, end));
        }
        if first == part {
            assert(all[0] == part);
        }
        if exists|a: int, b: int|
            from <= a && #[trigger] between_commas(text, a, b) && text::trimmed(text.subrange(a, b))
                == part {
            let (a, b) = choose|a: int, b: int|
                from <= a && #[trigger] between_commas(text, a, b) && text::trimmed(
                    text.subrange(a, b),
                ) == part;
            if a > from {
                assert(text[a - 1] == ',');
            }
            if b < end {
                assert(text[b] == ',');
            }
            assert(a == from && b == end);
        }
    }
}

/// The categories in a text are what stands between its commas, without the white space at
/// the ends, each once and in order.
pub proof fn categories_stand_between_commas(
    categories: Seq<Seq<char>>,
    text: Seq<char>,
    category: Seq<char>,
)
    requires
        categories_of(categories, text),
    ensures
        categories.contains(category) <==> exists|a: int, b: int|
            #[trigger] between_commas(text, a, b) && text::trimmed(text.subrange(a, b)) == category,
        forall|i: int, j: int|
            0 <= i < j < categories.len() ==> text::text_less(
                #[trigger] categories[i],
                #[trigger] categories[j],
            ),
{
    lemma_parts(text, 0, category);
    assert(categories.to_set().contains(category) == parts_from(text, 0).to_set().contains(
        category,
    ));
}

} // verus!
