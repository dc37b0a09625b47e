//! Strict, curated discovery metadata for GitHub-hosted TouchBar packs.
//!
//! Catalog aliases are discovery conveniences, never package identities or a
//! substitute for release provenance. The catalog is bundled with the core
//! build so a mutable network document cannot silently retarget an install.
use vstd::prelude::*;

use crate::source::GithubSource;
use crate::text;

verus! {

pub const CATALOG_VERSION: u32 = 1;

pub const MAX_CATALOG_BYTES: usize = 1048576;

pub const MAX_CATALOG_ENTRIES: usize = 4096;

/// How far a pack has been looked at.
#[derive(Clone, Copy, Debug, PartialEq, Eq, Structural)]
pub enum CatalogTier {
    Listed,
    Curated,
    FirstParty,
}

impl CatalogTier {
    pub open spec fn standing(self) -> int {
        match self {
            CatalogTier::Listed => 0,
            CatalogTier::Curated => 1,
            CatalogTier::FirstParty => 2,
        }
    }

    pub fn rank(self) -> (r: u8)
        ensures
            r == self.standing(),
    {
        match self {
            CatalogTier::Listed => 0,
            CatalogTier::Curated => 1,
            CatalogTier::FirstParty => 2,
        }
    }

    /// The tier as it is written.
    pub open spec fn label(self) -> Seq<char> {
        match self {
            CatalogTier::Listed => "listed"@,
            CatalogTier::Curated => "curated"@,
            CatalogTier::FirstParty => "first-party"@,
        }
    }

    /// The tier as it is written.
    pub fn as_str(self) -> (text: &'static str)
        ensures
            text@ == self.label(),
    {
        match self {
            CatalogTier::Listed => "listed",
            CatalogTier::Curated => "curated",
            CatalogTier::FirstParty => "first-party",
        }
    }
}

/// Whether an alias can still be installed.
#[derive(Clone, Copy, Debug, PartialEq, Eq, Structural)]
pub enum CatalogState {
    Active,
    Retired,
}

/// A pack that can be found by its alias.
#[derive(Clone, Debug, PartialEq, Eq)]
pub struct CatalogEntry {
    pub alias: String,
    pub source: GithubSource,
    pub name: String,
    pub description: String,
    pub categories: Vec<String>,
    pub tier: CatalogTier,
    pub state: CatalogState,
}

/// All packs that can be found.
#[derive(Clone, Debug, PartialEq, Eq)]
pub struct Catalog {
    pub catalog_version: u32,
    pub plugins: Vec<CatalogEntry>,
}

/// Something that is wrong with a catalog.
#[derive(Clone, Debug, PartialEq, Eq)]
pub struct ValidationIssue {
    pub field: String,
    pub message: String,
}

/// All that is wrong with a catalog.
#[derive(Clone, Debug, PartialEq, Eq)]
pub struct ValidationErrors(pub Vec<ValidationIssue>);

/// Something that is wrong, in mathematical terms.
#[verifier::ext_equal]
pub struct Issue {
    pub field: Seq<char>,
    pub message: Seq<char>,
}

impl View for ValidationIssue {
    type V = Issue;

    open spec fn view(&self) -> Issue {
        Issue { field: self.field@, message: self.message@ }
    }
}

pub open spec fn issues_of(issues: Seq<ValidationIssue>) -> Seq<Issue> {
    Seq::new(issues.len(), |i: int| issues[i]@)
}

impl View for ValidationErrors {
    type V = Seq<Issue>;

    open spec fn view(&self) -> Seq<Issue> {
        issues_of(self.0@)
    }
}

/// The lines of the first `n` issues.
pub open spec fn issue_lines(issues: Seq<Issue>, n: int) -> Seq<char>
    decreases n,
{
    if n <= 0 {
        "invalid TouchBar catalog:\n"@
    } else {
        issue_lines(issues, n - 1) + "- "@ + issues[n - 1].field + ": "@ + issues[n - 1].message
            + "\n"@
    }
}

impl ValidationErrors {
    /// The message for a person: one line for each issue.
    pub fn message(&self) -> (text: String)
        ensures
            text@ == issue_lines(self@, self@.len() as int),
    {
        let mut text: String = "invalid TouchBar catalog:\n".to_owned();
        let mut i: usize = 0;
        while i < self.0.len()
            invariant
                i <= self.0@.len(),
                text@ == issue_lines(self@, i as int),
            decreases self.0@.len() - i,
        {
            let line: String = text::joined4(
                text.as_str(),
                "- ",
                self.0[i].field.as_str(),
                ": ",
            );
            text = text::joined3(line.as_str(), self.0[i].message.as_str(), "\n");
            i = i + 1;
        }
        text
    }
}

/// Why a catalog is refused.
#[derive(Debug, PartialEq, Eq)]
pub enum CatalogError {
    TooLarge,
    /// The document is not a catalog; the text says why.
    Parse(String),
    Invalid(ValidationErrors),
}

impl CatalogError {
    /// The message for a person.
    pub fn message(&self) -> (text: String)
        ensures
            text@ == (match *self {
                CatalogError::TooLarge => "catalog exceeds "@ + text::decimal(
                    MAX_CATALOG_BYTES as int,
                ) + " bytes"@,
                CatalogError::Parse(error) => "could not parse catalog: "@ + error@,
                CatalogError::Invalid(errors) => issue_lines(errors@, errors@.len() as int),
            }),
    {
        match self {
            CatalogError::TooLarge => text::joined3(
                "catalog exceeds ",
                text::decimal_text(MAX_CATALOG_BYTES as u64).as_str(),
                " bytes",
            ),
            CatalogError::Parse(error) => text::joined(
                "could not parse catalog: ",
                error.as_str(),
            ),
            CatalogError::Invalid(errors) => errors.message(),
        }
    }
}

// ---------------------------------------------------------------------------
// What a catalog may hold

/// An issue where a condition holds, and none where it does not.
pub open spec fn issue_if(bad: bool, field: Seq<char>, message: Seq<char>) -> Seq<Issue> {
    if bad {
        seq![Issue { field, message }]
    } else {
        Seq::empty()
    }
}

/// Lower-case letters, digits and hyphens, beginning with a letter, with
/// single hyphens inside only.
pub open spec fn is_identifier(value: Seq<char>, maximum: int) -> bool {
    &&& 0 < value.len() <= maximum
    &&& forall|i: int|
        0 <= i < value.len() ==> ('a' <= #[trigger] value[i] <= 'z' || '0' <= value[i] <= '9'
            || value[i] == '-')
    &&& 'a' <= value[0] <= 'z'
    &&& value.last() != '-'
    &&& forall|i: int|
        0 <= i < value.len() - 1 && #[trigger] value[i] == '-' ==> value[i + 1] != '-'
}

/// Characters that could mislead a reader.
pub open spec fn is_deceptive(c: char) -> bool {
    ||| text::is_control(c)
    ||| c == '\u{200b}'
    ||| c == '\u{200e}'
    ||| c == '\u{200f}'
    ||| '\u{202a}' <= c <= '\u{202e}'
    ||| '\u{2066}' <= c <= '\u{2069}'
    ||| c == '\u{feff}'
}

/// A text for people: nonempty, trimmed, not too long, with nothing deceptive.
pub open spec fn is_readable(value: Seq<char>, maximum: int) -> bool {
    &&& 0 < value.len() <= maximum
    &&& !text::is_space(value[0])
    &&& !text::is_space(value.last())
    &&& forall|i: int| 0 <= i < value.len() ==> !is_deceptive(#[trigger] value[i])
}

/// The message about a bad identifier.
pub open spec fn identifier_message(maximum: int) -> Seq<char> {
    "must be a lowercase kebab-case identifier of at most "@ + text::decimal(maximum) + " bytes"@
}

/// The message about a bad text.
pub open spec fn text_message(maximum: int) -> Seq<char> {
    "must be trimmed, nonempty text of at most "@ + text::decimal(maximum) + " characters"@
}

/// How an entry is referred to.
pub open spec fn entry_field(index: int) -> Seq<char> {
    "plugin["@ + text::decimal(index) + "]"@
}

/// How a category of an entry is referred to.
pub open spec fn category_field(index: int, category: int) -> Seq<char> {
    entry_field(index) + ".categories["@ + text::decimal(category) + "]"@
}

/// The text occurs among the first `n`.
pub open spec fn among(texts: Seq<String>, n: int, value: Seq<char>) -> bool {
    exists|i: int| 0 <= i < n && (#[trigger] texts[i])@ == value
}

/// What is wrong with a category.
pub open spec fn category_issues(categories: Seq<String>, index: int, k: int) -> Seq<Issue> {
    issue_if(
        !is_identifier(categories[k]@, 32),
        category_field(index, k),
        identifier_message(32),
    ) + issue_if(
        among(categories, k, categories[k]@),
        category_field(index, k),
        "duplicate category"@,
    ) + issue_if(
        k > 0 && !text::text_less(categories[k - 1]@, categories[k]@),
        entry_field(index) + ".categories"@,
        "categories must be uniquely sorted"@,
    )
}

/// What is wrong with the first `n` categories.
pub open spec fn categories_issues(categories: Seq<String>, index: int, n: int) -> Seq<Issue>
    decreases n,
{
    if n <= 0 {
        Seq::empty()
    } else {
        categories_issues(categories, index, n - 1) + category_issues(categories, index, n - 1)
    }
}

/// The alias is that of one of the first `n` entries.
pub open spec fn alias_among(plugins: Seq<CatalogEntry>, n: int, alias: Seq<char>) -> bool {
    exists|i: int| 0 <= i < n && (#[trigger] plugins[i]).alias@ == alias
}

/// The repository is that of one of the first `n` entries.
pub open spec fn source_among(plugins: Seq<CatalogEntry>, n: int, source: GithubSource) -> bool {
    exists|i: int| 0 <= i < n && (#[trigger] plugins[i]).source.same(source)
}

/// What is wrong with the texts of an entry.
pub open spec fn label_issues(entry: CatalogEntry, index: int) -> Seq<Issue> {
    let field = entry_field(index);
    issue_if(!is_identifier(entry.alias@, 64), field + ".alias"@, identifier_message(64))
        + issue_if(!is_readable(entry.name@, 80), field + ".name"@, text_message(80)) + issue_if(
        !is_readable(entry.description@, 280),
        field + ".description"@,
        text_message(280),
    ) + issue_if(
        entry.source.owned_by() == "local"@,
        field + ".source"@,
        "catalog entries require a public GitHub repository identity"@,
    ) + issue_if(
        entry.categories@.len() == 0 || entry.categories@.len() > 8,
        field + ".categories"@,
        "must contain between one and eight categories"@,
    )
}

/// What is wrong with an entry among the others.
pub open spec fn standing_issues(plugins: Seq<CatalogEntry>, index: int) -> Seq<Issue> {
    let entry = plugins[index];
    let field = entry_field(index);
    issue_if(
        alias_among(plugins, index, entry.alias@),
        field + ".alias"@,
        "duplicate catalog alias"@,
    ) + issue_if(
        source_among(plugins, index, entry.source),
        field + ".source"@,
        "a GitHub source may have only one catalog alias"@,
    ) + issue_if(
        index > 0 && !text::text_less(plugins[index - 1].alias@, entry.alias@),
        "plugin"@,
        "entries must be uniquely sorted by alias"@,
    ) + issue_if(
        entry.tier == CatalogTier::FirstParty && entry.source.owned_by() != "cameroncooper"@,
        field + ".tier"@,
        "first-party entries must be owned by github:cameroncooper"@,
    )
}

/// What is wrong with an entry.
pub open spec fn entry_issues(plugins: Seq<CatalogEntry>, index: int) -> Seq<Issue> {
    label_issues(plugins[index], index) + categories_issues(
        plugins[index].categories@,
        index,
        plugins[index].categories@.len() as int,
    ) + standing_issues(plugins, index)
}

/// What is wrong with the first `n` entries.
pub open spec fn entries_issues(plugins: Seq<CatalogEntry>, n: int) -> Seq<Issue>
    decreases n,
{
    if n <= 0 {
        Seq::empty()
    } else {
        entries_issues(plugins, n - 1) + entry_issues(plugins, n - 1)
    }
}

/// All that is wrong with a catalog.
pub open spec fn catalog_issues(catalog: Catalog) -> Seq<Issue> {
    issue_if(
        catalog.catalog_version != CATALOG_VERSION,
        "catalog_version"@,
        "unsupported catalog version "@ + text::decimal(catalog.catalog_version as int)
            + "; this build supports "@ + text::decimal(CATALOG_VERSION as int),
    ) + issue_if(
        catalog.plugins@.len() > MAX_CATALOG_ENTRIES,
        "plugin"@,
        "catalog exceeds "@ + text::decimal(MAX_CATALOG_ENTRIES as int) + " entries"@,
    ) + entries_issues(catalog.plugins@, catalog.plugins@.len() as int)
}

// ---------------------------------------------------------------------------
// Checking

proof fn lemma_extend(start: Seq<Issue>, parts: Seq<Issue>, more: Seq<Issue>)
    ensures
        (start + parts) + more == start + (parts + more),
{
    assert((start + parts) + more =~= start + (parts + more));
}

/// Notes an issue where a condition holds.
fn note(issues: &mut Vec<ValidationIssue>, bad: bool, field: &str, message: &str)
    ensures
        issues_of(final(issues)@) == issues_of(old(issues)@) + issue_if(bad, field@, message@),
{
    let ghost before = issues@;
    if bad {
        let issue: ValidationIssue = ValidationIssue {
            field: field.to_owned(),
            message: message.to_owned(),
        };
        let ghost seen = issue@;
        issues.push(issue);
        proof {
            assert(issues_of(issues@) =~= issues_of(before) + seq![seen]);
        }
    } else {
        proof {
            assert(issues_of(issues@) =~= issues_of(before) + Seq::<Issue>::empty());
        }
    }
}

fn identifier_ok(value: &str, maximum: usize) -> (r: bool)
    ensures
        r == is_identifier(value@, maximum as int),
{
    let chars: Vec<char> = text::characters(value);
    if chars.len() == 0 || chars.len() > maximum {
        return false;
    }
    if !('a' <= chars[0] && chars[0] <= 'z') || chars[chars.len() - 1] == '-' {
        return false;
    }
    let mut i: usize = 0;
    while i < chars.len()
        invariant
            chars@ == value@,
            i <= chars@.len(),
            forall|k: int|
                0 <= k < i ==> ('a' <= #[trigger] value@[k] <= 'z' || '0' <= value@[k] <= '9'
                    || value@[k] == '-'),
            forall|k: int|
                0 <= k < i && k < value@.len() - 1 && #[trigger] value@[k] == '-' ==> value@[k + 1]
                    != '-',
        decreases chars@.len() - i,
    {
        let c: char = chars[i];
        if !(('a' <= c && c <= 'z') || ('0' <= c && c <= '9') || c == '-') {
            proof {
                assert(value@[i as int] == c);
            }
            return false;
        }
        if c == '-' && i + 1 < chars.len() && chars[i + 1] == '-' {
            proof {
                assert(value@[i as int] == '-');
            }
            return false;
        }
        i = i + 1;
    }
    true
}

fn deceptive(c: char) -> (r: bool)
    ensures
        r == is_deceptive(c),
{
    text::control(c) || c == '\u{200b}' || c == '\u{200e}' || c == '\u{200f}' || ('\u{202a}' <= c
        && c <= '\u{202e}') || ('\u{2066}' <= c && c <= '\u{2069}') || c == '\u{feff}'
}

fn readable(value: &str, maximum: usize) -> (r: bool)
    ensures
        r == is_readable(value@, maximum as int),
{
    let chars: Vec<char> = text::characters(value);
    if chars.len() == 0 || chars.len() > maximum {
        return false;
    }
    if text::space(chars[0]) || text::space(chars[chars.len() - 1]) {
        return false;
    }
    let mut i: usize = 0;
    while i < chars.len()
        invariant
            chars@ == value@,
            i <= chars@.len(),
            forall|k: int| 0 <= k < i ==> !is_deceptive(#[trigger] value@[k]),
        decreases chars@.len() - i,
    {
        if deceptive(chars[i]) {
            proof {
                assert(is_deceptive(value@[i as int]));
            }
            return false;
        }
        i = i + 1;
    }
    true
}

fn validate_identifier(
    issues: &mut Vec<ValidationIssue>,
    field: &str,
    value: &str,
    maximum: usize,
)
    ensures
        issues_of(final(issues)@) == issues_of(old(issues)@) + issue_if(
            !is_identifier(value@, maximum as int),
            field@,
            identifier_message(maximum as int),
        ),
{
    let message: String = text::joined3(
        "must be a lowercase kebab-case identifier of at most ",
        text::decimal_text(maximum as u64).as_str(),
        " bytes",
    );
    note(issues, !identifier_ok(value, maximum), field, message.as_str());
}

fn validate_text(issues: &mut Vec<ValidationIssue>, field: &str, value: &str, maximum: usize)
    ensures
        issues_of(final(issues)@) == issues_of(old(issues)@) + issue_if(
            !is_readable(value@, maximum as int),
            field@,
            text_message(maximum as int),
        ),
{
    let message: String = text::joined3(
        "must be trimmed, nonempty text of at most ",
        text::decimal_text(maximum as u64).as_str(),
        " characters",
    );
    note(issues, !readable(value, maximum), field, message.as_str());
}

fn is_among(texts: &Vec<String>, n: usize, value: &str) -> (r: bool)
    requires
        n <= texts@.len(),
    ensures
        r == among(texts@, n as int, value@),
{
    let mut i: usize = 0;
    while i < n
        invariant
            i <= n <= texts@.len(),
            forall|k: int| 0 <= k < i ==> (#[trigger] texts@[k])@ != value@,
        decreases n - i,
    {
        if text::same(texts[i].as_str(), value) {
            return true;
        }
        i = i + 1;
    }
    false
}

fn validate_category(
    issues: &mut Vec<ValidationIssue>,
    categories: &Vec<String>,
    prefix: &str,
    index: usize,
    k: usize,
)
    requires
        k < categories@.len(),
        prefix@ == entry_field(index as int),
    ensures
        issues_of(final(issues)@) == issues_of(old(issues)@) + category_issues(
            categories@,
            index as int,
            k as int,
        ),
{
    let ghost start = issues_of(issues@);
    let field: String = text::joined4(
        prefix,
        ".categories[",
        text::decimal_text(k as u64).as_str(),
        "]",
    );
    let value: &str = categories[k].as_str();
    validate_identifier(issues, field.as_str(), value, 32);
    let ghost first = issue_if(
        !is_identifier(value@, 32),
        category_field(index as int, k as int),
        identifier_message(32),
    );
    let again: bool = is_among(categories, k, value);
    note(issues, again, field.as_str(), "duplicate category");
    let ghost second = issue_if(
        among(categories@, k as int, value@),
        category_field(index as int, k as int),
        "duplicate category"@,
    );
    proof {
        lemma_extend(start, first, second);
    }
    let unsorted: bool = k > 0 && !text::less(categories[k - 1].as_str(), value);
    let whole: String = text::joined(prefix, ".categories");
    note(issues, unsorted, whole.as_str(), "categories must be uniquely sorted");
    proof {
        lemma_extend(
            start,
            first + second,
            issue_if(
                k > 0 && !text::text_less(categories@[k - 1]@, categories@[k as int]@),
                entry_field(index as int) + ".categories"@,
                "categories must be uniquely sorted"@,
            ),
        );
    }
}

fn validate_categories(
    issues: &mut Vec<ValidationIssue>,
    categories: &Vec<String>,
    prefix: &str,
    index: usize,
)
    requires
        prefix@ == entry_field(index as int),
    ensures
        issues_of(final(issues)@) == issues_of(old(issues)@) + categories_issues(
            categories@,
            index as int,
            categories@.len() as int,
        ),
{
    let ghost start = issues_of(issues@);
    let mut k: usize = 0;
    proof {
        assert(start =~= start + Seq::<Issue>::empty());
    }
    while k < categories.len()
        invariant
            prefix@ == entry_field(index as int),
            start == issues_of(old(issues)@),
            k <= categories@.len(),
            issues_of(issues@) == start + categories_issues(categories@, index as int, k as int),
        decreases categories@.len() - k,
    {
        validate_category(issues, categories, prefix, index, k);
        proof {
            lemma_extend(
                start,
                categories_issues(categories@, index as int, k as int),
                category_issues(categories@, index as int, k as int),
            );
        }
        k = k + 1;
    }
}

fn validate_labels(
    issues: &mut Vec<ValidationIssue>,
    entry: &CatalogEntry,
    prefix: &str,
    index: usize,
)
    requires
        prefix@ == entry_field(index as int),
    ensures
        issues_of(final(issues)@) == issues_of(old(issues)@) + label_issues(*entry, index as int),
{
    let ghost start = issues_of(issues@);
    let ghost field = entry_field(index as int);
    validate_identifier(
        issues,
        text::joined(prefix, ".alias").as_str(),
        entry.alias.as_str(),
        64,
    );
    let ghost a = issue_if(
        !is_identifier(entry.alias@, 64),
        field + ".alias"@,
        identifier_message(64),
    );
    validate_text(issues, text::joined(prefix, ".name").as_str(), entry.name.as_str(), 80);
    let ghost b = issue_if(!is_readable(entry.name@, 80), field + ".name"@, text_message(80));
    proof {
        lemma_extend(start, a, b);
    }
    validate_text(
        issues,
        text::joined(prefix, ".description").as_str(),
        entry.description.as_str(),
        280,
    );
    let ghost c = issue_if(
        !is_readable(entry.description@, 280),
        field + ".description"@,
        text_message(280),
    );
    proof {
        lemma_extend(start, a + b, c);
    }
    note(
        issues,
        text::same(entry.source.owner(), "local"),
        text::joined(prefix, ".source").as_str(),
        "catalog entries require a public GitHub repository identity",
    );
    let ghost d = issue_if(
        entry.source.owned_by() == "local"@,
        field + ".source"@,
        "catalog entries require a public GitHub repository identity"@,
    );
    proof {
        lemma_extend(start, a + b + c, d);
    }
    note(
        issues,
        entry.categories.len() == 0 || entry.categories.len() > 8,
        text::joined(prefix, ".categories").as_str(),
        "must contain between one and eight categories",
    );
    let ghost e = issue_if(
        entry.categories@.len() == 0 || entry.categories@.len() > 8,
        field + ".categories"@,
        "must contain between one and eight categories"@,
    );
    proof {
        lemma_extend(start, a + b + c + d, e);
    }
}

fn is_alias_among(plugins: &Vec<CatalogEntry>, n: usize, alias: &str) -> (r: bool)
    requires
        n <= plugins@.len(),
    ensures
        r == alias_among(plugins@, n as int, alias@),
{
    let mut i: usize = 0;
    while i < n
        invariant
            i <= n <= plugins@.len(),
            forall|k: int| 0 <= k < i ==> (#[trigger] plugins@[k]).alias@ != alias@,
        decreases n - i,
    {
        if text::same(plugins[i].alias.as_str(), alias) {
            return true;
        }
        i = i + 1;
    }
    false
}

fn is_source_among(plugins: &Vec<CatalogEntry>, n: usize, source: &GithubSource) -> (r: bool)
    requires
        n <= plugins@.len(),
    ensures
        r == source_among(plugins@, n as int, *source),
{
    let mut i: usize = 0;
    while i < n
        invariant
            i <= n <= plugins@.len(),
            forall|k: int| 0 <= k < i ==> !(#[trigger] plugins@[k]).source.same(*source),
        decreases n - i,
    {
        if plugins[i].source.is_same(source) {
            return true;
        }
        i = i + 1;
    }
    false
}

fn validate_standing(
    issues: &mut Vec<ValidationIssue>,
    plugins: &Vec<CatalogEntry>,
    prefix: &str,
    index: usize,
)
    requires
        index < plugins@.len(),
        prefix@ == entry_field(index as int),
    ensures
        issues_of(final(issues)@) == issues_of(old(issues)@) + standing_issues(
            plugins@,
            index as int,
        ),
{
    let ghost start = issues_of(issues@);
    let ghost field = entry_field(index as int);
    let entry: &CatalogEntry = &plugins[index];
    note(
        issues,
        is_alias_among(plugins, index, entry.alias.as_str()),
        text::joined(prefix, ".alias").as_str(),
        "duplicate catalog alias",
    );
    let ghost a = issue_if(
        alias_among(plugins@, index as int, entry.alias@),
        field + ".alias"@,
        "duplicate catalog alias"@,
    );
    note(
        issues,
        is_source_among(plugins, index, &entry.source),
        text::joined(prefix, ".source").as_str(),
        "a GitHub source may have only one catalog alias",
    );
    let ghost b = issue_if(
        source_among(plugins@, index as int, entry.source),
        field + ".source"@,
        "a GitHub source may have only one catalog alias"@,
    );
    proof {
        lemma_extend(start, a, b);
    }
    let unsorted: bool = index > 0 && !text::less(
        plugins[index - 1].alias.as_str(),
        entry.alias.as_str(),
    );
    note(issues, unsorted, "plugin", "entries must be uniquely sorted by alias");
    let ghost c = issue_if(
        index > 0 && !text::text_less(plugins@[index - 1].alias@, entry.alias@),
        "plugin"@,
        "entries must be uniquely sorted by alias"@,
    );
    proof {
        lemma_extend(start, a + b, c);
    }
    let forged: bool = entry.tier == CatalogTier::FirstParty && !text::same(
        entry.source.owner(),
        "cameroncooper",
    );
    note(
        issues,
        forged,
        text::joined(prefix, ".tier").as_str(),
        "first-party entries must be owned by github:cameroncooper",
    );
    let ghost d = issue_if(
        entry.tier == CatalogTier::FirstParty && entry.source.owned_by() != "cameroncooper"@,
        field + ".tier"@,
        "first-party entries must be owned by github:cameroncooper"@,
    );
    proof {
        lemma_extend(start, a + b + c, d);
    }
}

fn validate_entry(issues: &mut Vec<ValidationIssue>, plugins: &Vec<CatalogEntry>, index: usize)
    requires
        index < plugins@.len(),
    ensures
        issues_of(final(issues)@) == issues_of(old(issues)@) + entry_issues(plugins@, index as int),
{
    let ghost start = issues_of(issues@);
    let prefix: String = text::joined3("plugin[", text::decimal_text(index as u64).as_str(), "]");
    let entry: &CatalogEntry = &plugins[index];
    validate_labels(issues, entry, prefix.as_str(), index);
    validate_categories(issues, &entry.categories, prefix.as_str(), index);
    validate_standing(issues, plugins, prefix.as_str(), index);
    proof {
        let a = label_issues(*entry, index as int);
        let b = categories_issues(
            entry.categories@,
            index as int,
            entry.categories@.len() as int,
        );
        lemma_extend(start, a, b);
        lemma_extend(start, a + b, standing_issues(plugins@, index as int));
    }
}

impl Catalog {
    /// All that is wrong with a catalog, in the order of its fields.
    pub fn validate(&self) -> (result: Result<(), ValidationErrors>)
        ensures
            match result {
                Ok(_) => catalog_issues(*self).len() == 0,
                Err(errors) => errors@ == catalog_issues(*self) && errors@.len() > 0,
            },
    {
        let mut issues: Vec<ValidationIssue> = Vec::new();
        let ghost start = issues_of(issues@);
        let version: String = text::joined4(
            "unsupported catalog version ",
            text::decimal_text(self.catalog_version as u64).as_str(),
            "; this build supports ",
            text::decimal_text(CATALOG_VERSION as u64).as_str(),
        );
        note(
            &mut issues,
            self.catalog_version != CATALOG_VERSION,
            "catalog_version",
            version.as_str(),
        );
        let ghost a = issues_of(issues@);
        let count: String = text::joined3(
            "catalog exceeds ",
            text::decimal_text(MAX_CATALOG_ENTRIES as u64).as_str(),
            " entries",
        );
        note(
            &mut issues,
            self.plugins.len() > MAX_CATALOG_ENTRIES,
            "plugin",
            count.as_str(),
        );
        let ghost head = issues_of(issues@);
        let mut i: usize = 0;
        proof {
            assert(start =~= Seq::empty());
            assert(start + issue_if(
                self.catalog_version != CATALOG_VERSION,
                "catalog_version"@,
                version@,
            ) =~= issue_if(
                self.catalog_version != CATALOG_VERSION,
                "catalog_version"@,
                version@,
            ));
            assert(head =~= head + Seq::<Issue>::empty());
        }
        while i < self.plugins.len()
            invariant
                i <= self.plugins@.len(),
                issues_of(issues@) == head + entries_issues(self.plugins@, i as int),
            decreases self.plugins@.len() - i,
        {
            validate_entry(&mut issues, &self.plugins, i);
            proof {
                lemma_extend(
                    head,
                    entries_issues(self.plugins@, i as int),
                    entry_issues(self.plugins@, i as int),
                );
            }
            i = i + 1;
        }
        if issues.len() == 0 {
            Ok(())
        } else {
            Err(ValidationErrors(issues))
        }
    }

    /// Refuses a document that is too long to be read.
    pub fn check_length(source: &str) -> (result: Result<(), CatalogError>)
        ensures
            result == (if vstd::utf8::encode_utf8(source@).len() > MAX_CATALOG_BYTES {
                Err::<(), CatalogError>(CatalogError::TooLarge)
            } else {
                Ok(())
            }),
    {
        if source.as_bytes().len() > MAX_CATALOG_BYTES {
            return Err(CatalogError::TooLarge);
        }
        Ok(())
    }

    /// A catalog that was read, if nothing is wrong with it.
    pub fn accept(self) -> (result: Result<Self, CatalogError>)
        ensures
            match result {
                Ok(catalog) => catalog == self && catalog_issues(self).len() == 0,
                Err(CatalogError::Invalid(errors)) => errors@ == catalog_issues(self)
                    && errors@.len() > 0,
                Err(_) => false,
            },
    {
        match self.validate() {
            Ok(_) => Ok(self),
            Err(errors) => Err(CatalogError::Invalid(errors)),
        }
    }
}

// ---------------------------------------------------------------------------
// Finding

/// The first entry with the alias among the first `n`.
pub open spec fn entry_of(plugins: Seq<CatalogEntry>, alias: Seq<char>, n: int) -> Option<int>
    decreases n,
{
    if n <= 0 {
        None
    } else {
        match entry_of(plugins, alias, n - 1) {
            Some(i) => Some(i),
            None => if plugins[n - 1].alias@ == alias {
                Some(n - 1)
            } else {
                None
            },
        }
    }
}

/// The first entry of the repository among the first `n`.
pub open spec fn entry_from(plugins: Seq<CatalogEntry>, source: GithubSource, n: int) -> Option<int>
    decreases n,
{
    if n <= 0 {
        None
    } else {
        match entry_from(plugins, source, n - 1) {
            Some(i) => Some(i),
            None => if plugins[n - 1].source.same(source) {
                Some(n - 1)
            } else {
                None
            },
        }
    }
}

proof fn lemma_entry_of(plugins: Seq<CatalogEntry>, alias: Seq<char>, k: int, n: int)
    requires
        0 <= k <= n,
    ensures
        entry_of(plugins, alias, k) is Some ==> entry_of(plugins, alias, n) == entry_of(
            plugins,
            alias,
            k,
        ),
        match entry_of(plugins, alias, n) {
            Some(i) => 0 <= i < n && plugins[i].alias@ == alias,
            None => forall|i: int| 0 <= i < n ==> (#[trigger] plugins[i]).alias@ != alias,
        },
    decreases n,
{
    if n > 0 {
        if k < n {
            lemma_entry_of(plugins, alias, k, n - 1);
        } else {
            lemma_entry_of(plugins, alias, n - 1, n - 1);
        }
    }
}

proof fn lemma_entry_from(plugins: Seq<CatalogEntry>, source: GithubSource, k: int, n: int)
    requires
        0 <= k <= n,
    ensures
        entry_from(plugins, source, k) is Some ==> entry_from(plugins, source, n) == entry_from(
            plugins,
            source,
            k,
        ),
    decreases n - k,
{
    if k < n {
        lemma_entry_from(plugins, source, k, n - 1);
    }
}

impl Catalog {
    /// The entry that an alias stands for.
    pub open spec fn known(self, alias: Seq<char>) -> Option<CatalogEntry> {
        match entry_of(self.plugins@, alias, self.plugins@.len() as int) {
            Some(i) => Some(self.plugins@[i]),
            None => None,
        }
    }

    /// The entry with exactly the alias.
    pub fn find(&self, alias: &str) -> (entry: Option<&CatalogEntry>)
        ensures
            self.known(alias@) == (match entry {
                Some(e) => Some(*e),
                None => None,
            }),
            entry matches Some(e) ==> e.alias@ == alias@,
    {
        let ghost n = self.plugins@.len() as int;
        let mut i: usize = 0;
        while i < self.plugins.len()
            invariant
                n == self.plugins@.len(),
                i <= n,
                entry_of(self.plugins@, alias@, i as int) is None,
            decreases n - i,
        {
            if text::same(self.plugins[i].alias.as_str(), alias) {
                proof {
                    lemma_entry_of(self.plugins@, alias@, i + 1, n);
                }
                return Some(&self.plugins[i]);
            }
            i = i + 1;
        }
        None
    }

    /// The entry with exactly the alias, unless it is retired.
    pub fn resolve(&self, alias: &str) -> (entry: Option<&CatalogEntry>)
        ensures
            match entry {
                Some(e) => self.known(alias@) == Some(*e) && e.state == CatalogState::Active,
                None => self.known(alias@) matches Some(e) ==> e.state != CatalogState::Active,
            },
    {
        match self.find(alias) {
            Some(entry) => if entry.state == CatalogState::Active {
                Some(entry)
            } else {
                None
            },
            None => None,
        }
    }

    /// The first entry of a repository.
    pub fn find_source(&self, source: &GithubSource) -> (entry: Option<&CatalogEntry>)
        ensures
            match entry_from(self.plugins@, *source, self.plugins@.len() as int) {
                Some(i) => entry matches Some(e) && *e == self.plugins@[i],
                None => entry is None,
            },
    {
        let ghost n = self.plugins@.len() as int;
        let mut i: usize = 0;
        while i < self.plugins.len()
            invariant
                n == self.plugins@.len(),
                i <= n,
                entry_from(self.plugins@, *source, i as int) is None,
            decreases n - i,
        {
            if self.plugins[i].source.is_same(source) {
                proof {
                    lemma_entry_from(self.plugins@, *source, i + 1, n);
                }
                return Some(&self.plugins[i]);
            }
            i = i + 1;
        }
        None
    }
}

// ---------------------------------------------------------------------------
// Replacing a catalog

/// What a newer catalog may not do to an entry.
pub open spec fn succession_issues(newer: Catalog, entry: CatalogEntry) -> Seq<Issue> {
    match newer.known(entry.alias@) {
        None => seq![
            Issue {
                field: "plugin."@ + entry.alias@,
                message: "an accepted alias must remain as an active entry or retired tombstone"@,
            },
        ],
        Some(new) => issue_if(
            !new.source.same(entry.source),
            "plugin."@ + entry.alias@ + ".source"@,
            "an accepted alias may never change GitHub identity"@,
        ) + issue_if(
            entry.state == CatalogState::Retired && new.state != CatalogState::Retired,
            "plugin."@ + entry.alias@ + ".state"@,
            "a retired alias may never be reactivated"@,
        ),
    }
}

/// What a newer catalog may not do to the first `n` entries.
pub open spec fn transition_issues(newer: Catalog, plugins: Seq<CatalogEntry>, n: int) -> Seq<Issue>
    decreases n,
{
    if n <= 0 {
        Seq::empty()
    } else {
        transition_issues(newer, plugins, n - 1) + succession_issues(newer, plugins[n - 1])
    }
}

impl Catalog {
    /// All that keeps this catalog from replacing another one.
    pub fn validate_transition(&self, previous: &Catalog) -> (result: Result<(), ValidationErrors>)
        ensures
            ({
                let issues = transition_issues(
                    *self,
                    previous.plugins@,
                    previous.plugins@.len() as int,
                );
                match result {
                    Ok(_) => issues.len() == 0,
                    Err(errors) => errors@ == issues && errors@.len() > 0,
                }
            }),
    {
        let mut issues: Vec<ValidationIssue> = Vec::new();
        let mut i: usize = 0;
        proof {
            assert(issues_of(issues@) =~= Seq::empty());
        }
        while i < previous.plugins.len()
            invariant
                i <= previous.plugins@.len(),
                issues_of(issues@) == transition_issues(*self, previous.plugins@, i as int),
            decreases previous.plugins@.len() - i,
        {
            let old: &CatalogEntry = &previous.plugins[i];
            let ghost start = issues_of(issues@);
            match self.find(old.alias.as_str()) {
                None => {
                    note(
                        &mut issues,
                        true,
                        text::joined("plugin.", old.alias.as_str()).as_str(),
                        "an accepted alias must remain as an active entry or retired tombstone",
                    );
                },
                Some(new) => {
                    let moved: bool = !new.source.is_same(&old.source);
                    note(
                        &mut issues,
                        moved,
                        text::joined3("plugin.", old.alias.as_str(), ".source").as_str(),
                        "an accepted alias may never change GitHub identity",
                    );
                    let revived: bool = old.state == CatalogState::Retired && new.state
                        != CatalogState::Retired;
                    note(
                        &mut issues,
                        revived,
                        text::joined3("plugin.", old.alias.as_str(), ".state").as_str(),
                        "a retired alias may never be reactivated",
                    );
                    proof {
                        lemma_extend(
                            start,
                            issue_if(
                                !new.source.same(old.source),
                                "plugin."@ + old.alias@ + ".source"@,
                                "an accepted alias may never change GitHub identity"@,
                            ),
                            issue_if(
                                old.state == CatalogState::Retired && new.state
                                    != CatalogState::Retired,
                                "plugin."@ + old.alias@ + ".state"@,
                                "a retired alias may never be reactivated"@,
                            ),
                        );
                    }
                },
            }
            i = i + 1;
        }
        if issues.len() == 0 {
            Ok(())
        } else {
            Err(ValidationErrors(issues))
        }
    }
}

/// A catalog that may replace another one keeps every alias of it for the same
/// repository, and keeps it retired once it is.
pub proof fn aliases_are_permanent(newer: Catalog, older: Catalog, alias: Seq<char>)
    requires
        transition_issues(newer, older.plugins@, older.plugins@.len() as int).len() == 0,
        older.known(alias) is Some,
    ensures
        newer.known(alias) matches Some(new) && new.source.same(older.known(alias)->Some_0.source)
            && (older.known(alias)->Some_0.state == CatalogState::Retired ==> new.state
            == CatalogState::Retired),
{
    let n = older.plugins@.len() as int;
    lemma_entry_of(older.plugins@, alias, n, n);
    let i = entry_of(older.plugins@, alias, n)->Some_0;
    lemma_no_transition_issue(newer, older.plugins@, i, n);
}

proof fn lemma_no_transition_issue(newer: Catalog, plugins: Seq<CatalogEntry>, i: int, n: int)
    requires
        0 <= i < n,
        transition_issues(newer, plugins, n).len() == 0,
    ensures
        succession_issues(newer, plugins[i]).len() == 0,
    decreases n,
{
    if i < n - 1 {
        lemma_no_transition_issue(newer, plugins, i, n - 1);
    }
}

/// The permission to replace carries over: a catalog that may replace a second
/// one that may replace a third keeps the aliases of the third.
pub proof fn permanence_carries_over(
    first: Catalog,
    second: Catalog,
    third: Catalog,
    alias: Seq<char>,
)
    requires
        transition_issues(second, first.plugins@, first.plugins@.len() as int).len() == 0,
        transition_issues(third, second.plugins@, second.plugins@.len() as int).len() == 0,
        first.known(alias) is Some,
    ensures
        third.known(alias) matches Some(new) && new.source.same(first.known(alias)->Some_0.source)
            && (first.known(alias)->Some_0.state == CatalogState::Retired ==> new.state
            == CatalogState::Retired),
{
    aliases_are_permanent(second, first, alias);
    aliases_are_permanent(third, second, alias);
}

/// In a valid catalog an alias stands for one entry, and a repository has one
/// alias.
pub proof fn valid_entries_are_distinct(catalog: Catalog, i: int, j: int)
    requires
        catalog_issues(catalog).len() == 0,
        0 <= i < j < catalog.plugins@.len(),
    ensures
        catalog.plugins@[i].alias@ != catalog.plugins@[j].alias@,
        !catalog.plugins@[i].source.same(catalog.plugins@[j].source),
        text::text_less(catalog.plugins@[i].alias@, catalog.plugins@[j].alias@),
    decreases j - i,
{
    let plugins = catalog.plugins@;
    lemma_no_entry_issue(plugins, j, plugins.len() as int);
    assert(!alias_among(plugins, j, plugins[j].alias@));
    assert(!source_among(plugins, j, plugins[j].source));
    if i < j - 1 {
        valid_entries_are_distinct(catalog, i, j - 1);
        text::lemma_text_less_transitive(
            plugins[i].alias@,
            plugins[j - 1].alias@,
            plugins[j].alias@,
        );
    }
}

proof fn lemma_no_entry_issue(plugins: Seq<CatalogEntry>, i: int, n: int)
    requires
        0 <= i < n,
        entries_issues(plugins, n).len() == 0,
    ensures
        entry_issues(plugins, i).len() == 0,
    decreases n,
{
    if i < n - 1 {
        lemma_no_entry_issue(plugins, i, n - 1);
    }
}

// ---------------------------------------------------------------------------
// Searching

/// A run of characters without white space that cannot be made longer.
pub open spec fn is_word(text: Seq<char>, from: int, to: int) -> bool {
    &&& 0 <= from < to <= text.len()
    &&& forall|i: int| from <= i < to ==> !text::is_space(#[trigger] text[i])
    &&& from > 0 ==> text::is_space(text[from - 1])
    &&& to < text.len() ==> text::is_space(text[to])
}

/// Every word of a text occurs in another one.
pub open spec fn has_words(haystack: Seq<char>, text: Seq<char>) -> bool {
    forall|from: int, to: int| #[trigger]
        is_word(text, from, to) ==> text::occurs(haystack, text.subrange(from, to))
}

/// The first `n` texts with a space between any two.
pub open spec fn spaced(texts: Seq<String>, n: int) -> Seq<char>
    decreases n,
{
    if n <= 0 {
        Seq::empty()
    } else if n == 1 {
        texts[0]@
    } else {
        spaced(texts, n - 1) + " "@ + texts[n - 1]@
    }
}

/// What a query is looked for in.
pub open spec fn haystack(entry: CatalogEntry) -> Seq<char> {
    text::lowered(
        entry.alias@ + " "@ + entry.name@ + " "@ + entry.description@ + " "@
            + entry.source.written() + " "@ + spaced(
            entry.categories@,
            entry.categories@.len() as int,
        ),
    )
}

/// A query as it is looked for.
pub open spec fn folded(query: Seq<char>) -> Seq<char> {
    text::lowered(text::trimmed(query))
}

/// The entry is active, of the wanted category, and has every word.
pub open spec fn answers(
    entry: CatalogEntry,
    needle: Seq<char>,
    category: Option<Seq<char>>,
) -> bool {
    &&& entry.state == CatalogState::Active
    &&& category matches Some(wanted) ==> among(
        entry.categories@,
        entry.categories@.len() as int,
        wanted,
    )
    &&& has_words(haystack(entry), needle)
}

/// The entry is shown before another one: an exact match first, then aliases
/// that begin with the query, then by tier, then by alias.
pub open spec fn ranks_before(needle: Seq<char>, a: CatalogEntry, b: CatalogEntry) -> bool {
    let exact_a = a.alias@ == needle;
    let exact_b = b.alias@ == needle;
    let begins_a = text::begins(a.alias@, needle);
    let begins_b = text::begins(b.alias@, needle);
    if exact_a != exact_b {
        exact_a
    } else if begins_a != begins_b {
        begins_a
    } else if a.tier != b.tier {
        a.tier.standing() > b.tier.standing()
    } else {
        text::text_less(a.alias@, b.alias@)
    }
}

/// Where an entry goes among ranked ones: after all that it does not rank
/// before.
pub open spec fn rank_of(needle: Seq<char>, ranked: Seq<CatalogEntry>, entry: CatalogEntry) -> int
    decreases ranked.len(),
{
    if ranked.len() == 0 {
        0
    } else if ranks_before(needle, entry, ranked.last()) {
        rank_of(needle, ranked.drop_last(), entry)
    } else {
        ranked.len() as int
    }
}

/// The answers among the first `n` entries, ranked.
pub open spec fn ranked_answers(
    plugins: Seq<CatalogEntry>,
    needle: Seq<char>,
    category: Option<Seq<char>>,
    n: int,
) -> Seq<CatalogEntry>
    decreases n,
{
    if n <= 0 {
        Seq::empty()
    } else {
        let before = ranked_answers(plugins, needle, category, n - 1);
        let entry = plugins[n - 1];
        if answers(entry, needle, category) {
            before.insert(rank_of(needle, before, entry), entry)
        } else {
            before
        }
    }
}

/// The entries that references point to.
pub open spec fn pointed(entries: Seq<&CatalogEntry>) -> Seq<CatalogEntry> {
    Seq::new(entries.len(), |i: int| *entries[i])
}

fn spaced_text(texts: &Vec<String>) -> (all: String)
    ensures
        all@ == spaced(texts@, texts@.len() as int),
{
    let mut all: String = String::new();
    let mut i: usize = 0;
    while i < texts.len()
        invariant
            i <= texts@.len(),
            all@ == spaced(texts@, i as int),
        decreases texts@.len() - i,
    {
        if i == 0 {
            all = text::copied(texts[0].as_str());
        } else {
            all = text::joined3(all.as_str(), " ", texts[i].as_str());
        }
        i = i + 1;
    }
    all
}

fn haystack_of(entry: &CatalogEntry) -> (text: String)
    ensures
        text@ == haystack(*entry),
{
    let a: String = text::joined4(entry.alias.as_str(), " ", entry.name.as_str(), " ");
    let source: String = entry.source.text();
    let b: String = text::joined4(
        a.as_str(),
        entry.description.as_str(),
        " ",
        source.as_str(),
    );
    let c: String = text::joined3(b.as_str(), " ", spaced_text(&entry.categories).as_str());
    text::lower_text(c.as_str())
}

/// Every word of the needle occurs in the haystack.
fn contains_words(hay: &Vec<char>, needle: &Vec<char>) -> (r: bool)
    ensures
        r == has_words(hay@, needle@),
{
    let ghost n = needle@.len() as int;
    let mut at: usize = 0;
    while at < needle.len()
        invariant
            n == needle@.len(),
            at <= n,
            at == 0 || at == n || text::is_space(needle@[at - 1]),
            forall|from: int, to: int| #[trigger]
                is_word(needle@, from, to) && from < at ==> text::occurs(
                    hay@,
                    needle@.subrange(from, to),
                ),
        decreases n - at,
    {
        if text::space(needle[at]) {
            proof {
                assert forall|from: int, to: int| #[trigger]
                    is_word(needle@, from, to) && from < at + 1 implies text::occurs(
                    hay@,
                    needle@.subrange(from, to),
                ) by {
                    assert(from != at);
                }
            }
            at = at + 1;
        } else {
            let start: usize = at;
            let mut word: Vec<char> = Vec::new();
            proof {
                assert(needle@.subrange(start as int, start as int) =~= Seq::empty());
            }
            while at < needle.len() && !text::space(needle[at])
                invariant
                    n == needle@.len(),
                    start <= at <= n,
                    word@ == needle@.subrange(start as int, at as int),
                    forall|i: int| start <= i < at ==> !text::is_space(#[trigger] needle@[i]),
                decreases n - at,
            {
                word.push(needle[at]);
                proof {
                    assert(needle@.subrange(start as int, at + 1) =~= needle@.subrange(
                        start as int,
                        at as int,
                    ).push(needle@[at as int]));
                }
                at = at + 1;
            }
            proof {
                assert(is_word(needle@, start as int, at as int));
            }
            if !text::holds_chars(hay, &word) {
                return false;
            }
            proof {
                assert forall|from: int, to: int| #[trigger]
                    is_word(needle@, from, to) && from < at implies text::occurs(
                    hay@,
                    needle@.subrange(from, to),
                ) by {
                    if from > start {
                        assert(!text::is_space(needle@[from - 1]));
                    }
                    if from == start {
                        if to < at {
                            assert(!text::is_space(needle@[to]));
                        }
                        if to > at {
                            assert(!text::is_space(needle@[at as int]));
                        }
                    }
                }
            }
            if at < needle.len() {
                proof {
                    assert forall|from: int, to: int| #[trigger]
                        is_word(needle@, from, to) && from < at + 1 implies text::occurs(
                        hay@,
                        needle@.subrange(from, to),
                    ) by {
                        assert(from != at);
                    }
                }
                at = at + 1;
            }
        }
    }
    true
}

fn is_before(needle: &str, a: &CatalogEntry, b: &CatalogEntry) -> (r: bool)
    ensures
        r == ranks_before(needle@, *a, *b),
{
    let exact_a: bool = text::same(a.alias.as_str(), needle);
    let exact_b: bool = text::same(b.alias.as_str(), needle);
    let begins_a: bool = text::starts_with(a.alias.as_str(), needle);
    let begins_b: bool = text::starts_with(b.alias.as_str(), needle);
    if exact_a != exact_b {
        exact_a
    } else if begins_a != begins_b {
        begins_a
    } else if a.tier != b.tier {
        a.tier.rank() > b.tier.rank()
    } else {
        text::less(a.alias.as_str(), b.alias.as_str())
    }
}

impl Catalog {
    /// The active entries, of a category where one is wanted, that have every
    /// word of the query. An exact alias comes first, then the aliases that
    /// begin with the query, then the higher tiers.
    pub fn search(&self, query: &str, category: Option<&str>) -> (found: Vec<&CatalogEntry>)
        ensures
            pointed(found@) == ranked_answers(
                self.plugins@,
                folded(query@),
                (match category {
                    Some(wanted) => Some(wanted@),
                    None => None,
                }),
                self.plugins@.len() as int,
            ),
    {
        let ghost wanted = match category {
            Some(w) => Some(w@),
            None => None,
        };
        let needle: String = text::lower_text(text::trim(query).as_str());
        let letters: Vec<char> = text::characters(needle.as_str());
        let mut found: Vec<&CatalogEntry> = Vec::new();
        let mut i: usize = 0;
        proof {
            assert(pointed(found@) =~= Seq::empty());
        }
        while i < self.plugins.len()
            invariant
                i <= self.plugins@.len(),
                needle@ == folded(query@),
                letters@ == needle@,
                wanted == (match category {
                    Some(w) => Some(w@),
                    None => None,
                }),
                pointed(found@) == ranked_answers(
                    self.plugins@,
                    needle@,
                    wanted,
                    i as int,
                ),
            decreases self.plugins@.len() - i,
        {
            let entry: &CatalogEntry = &self.plugins[i];
            let fits: bool = match category {
                Some(w) => is_among(&entry.categories, entry.categories.len(), w),
                None => true,
            };
            if entry.state == CatalogState::Active && fits && contains_words(
                &text::characters(haystack_of(entry).as_str()),
                &letters,
            ) {
                let ghost before = pointed(found@);
                let mut at: usize = found.len();
                proof {
                    assert(before.subrange(0, at as int) =~= before);
                }
                while at > 0 && is_before(needle.as_str(), entry, found[at - 1])
                    invariant
                        at <= found@.len(),
                        before == pointed(found@),
                        rank_of(needle@, before, *entry) == rank_of(
                            needle@,
                            before.subrange(0, at as int),
                            *entry,
                        ),
                    decreases at,
                {
                    proof {
                        assert(before.subrange(0, at as int).drop_last() =~= before.subrange(
                            0,
                            at - 1,
                        ));
                    }
                    at = at - 1;
                }
                found.insert(at, entry);
                proof {
                    assert(pointed(found@) =~= before.insert(at as int, *entry));
                }
            }
            i = i + 1;
        }
        found
    }
}

proof fn lemma_rank_of(needle: Seq<char>, ranked: Seq<CatalogEntry>, entry: CatalogEntry)
    ensures
        0 <= rank_of(needle, ranked, entry) <= ranked.len(),
        forall|i: int|
            rank_of(needle, ranked, entry) <= i < ranked.len() ==> ranks_before(
                needle,
                entry,
                #[trigger] ranked[i],
            ),
        rank_of(needle, ranked, entry) > 0 ==> !ranks_before(
            needle,
            entry,
            ranked[rank_of(needle, ranked, entry) - 1],
        ),
    decreases ranked.len(),
{
    if ranked.len() > 0 && ranks_before(needle, entry, ranked.last()) {
        lemma_rank_of(needle, ranked.drop_last(), entry);
        let p = rank_of(needle, ranked, entry);
        assert forall|i: int| p <= i < ranked.len() implies ranks_before(
            needle,
            entry,
            #[trigger] ranked[i],
        ) by {
            if i < ranked.len() - 1 {
                assert(ranked[i] == ranked.drop_last()[i]);
            }
        }
    }
}

proof fn lemma_ranks_order(needle: Seq<char>, a: CatalogEntry, b: CatalogEntry, c: CatalogEntry)
    ensures
        ranks_before(needle, a, b) && !ranks_before(needle, c, b) ==> ranks_before(needle, a, c),
        !ranks_before(needle, b, a) && !ranks_before(needle, c, b) ==> !ranks_before(needle, c, a),
        !(ranks_before(needle, a, b) && ranks_before(needle, b, a)),
{
    text::lemma_text_less_total(a.alias@, b.alias@);
    text::lemma_text_less_total(b.alias@, c.alias@);
    text::lemma_text_less_total(a.alias@, c.alias@);
    text::lemma_text_less_irreflexive(a.alias@);
    text::lemma_text_less_irreflexive(b.alias@);
    if text::text_less(a.alias@, b.alias@) && text::text_less(b.alias@, a.alias@) {
        text::lemma_text_less_transitive(a.alias@, b.alias@, a.alias@);
    }
    if text::text_less(a.alias@, b.alias@) && text::text_less(b.alias@, c.alias@) {
        text::lemma_text_less_transitive(a.alias@, b.alias@, c.alias@);
    }
    if text::text_less(c.alias@, a.alias@) && text::text_less(a.alias@, b.alias@) {
        text::lemma_text_less_transitive(c.alias@, a.alias@, b.alias@);
    }
    if text::text_less(b.alias@, c.alias@) && text::text_less(c.alias@, a.alias@) {
        text::lemma_text_less_transitive(b.alias@, c.alias@, a.alias@);
    }
}

/// A search shows exactly the entries that answer it, and none stands after
/// one that ranks behind it.
pub proof fn searches_are_complete_and_ranked(
    plugins: Seq<CatalogEntry>,
    needle: Seq<char>,
    category: Option<Seq<char>>,
    n: int,
)
    requires
        0 <= n <= plugins.len(),
    ensures
        forall|i: int, j: int|
            #![trigger ranked_answers(plugins, needle, category, n)[i], ranked_answers(
                plugins,
                needle,
                category,
                n,
            )[j]]
            0 <= i < j < ranked_answers(plugins, needle, category, n).len() ==> !ranks_before(
                needle,
                ranked_answers(plugins, needle, category, n)[j],
                ranked_answers(plugins, needle, category, n)[i],
            ),
        forall|e: CatalogEntry| #[trigger]
            ranked_answers(plugins, needle, category, n).contains(e) <==> answers(
                e,
                needle,
                category,
            ) && plugins.subrange(0, n).contains(e),
    decreases n,
{
    if n > 0 {
        searches_are_complete_and_ranked(plugins, needle, category, n - 1);
        let before = ranked_answers(plugins, needle, category, n - 1);
        let after = ranked_answers(plugins, needle, category, n);
        let entry = plugins[n - 1];
        let p = rank_of(needle, before, entry);
        lemma_rank_of(needle, before, entry);
        if answers(entry, needle, category) {
            assert forall|i: int, j: int|
                #![trigger after[i], after[j]]
                0 <= i < j < after.len() implies !ranks_before(needle, after[j], after[i]) by {
                if j < p {
                    assert(after[i] == before[i] && after[j] == before[j]);
                } else if j == p {
                    assert(after[i] == before[i]);
                    if i < p - 1 {
                        assert(!ranks_before(needle, before[p - 1], before[i]));
                        lemma_ranks_order(needle, before[i], before[p - 1], entry);
                    }
                } else if i < p {
                    assert(after[i] == before[i] && after[j] == before[j - 1]);
                } else if i == p {
                    assert(after[j] == before[j - 1]);
                    lemma_ranks_order(needle, entry, before[j - 1], entry);
                } else {
                    assert(after[i] == before[i - 1] && after[j] == before[j - 1]);
                }
            }
        }
        let some = plugins.subrange(0, n - 1);
        let more = plugins.subrange(0, n);
        assert(more =~= some.insert(n - 1, entry));
        assert forall|e: CatalogEntry| #[trigger] after.contains(e) <==> answers(
            e,
            needle,
            category,
        ) && more.contains(e) by {
            text::lemma_insert_contains(some, n - 1, entry, e);
            if answers(entry, needle, category) {
                text::lemma_insert_contains(before, p, entry, e);
            }
            assert(before.contains(e) <==> answers(e, needle, category) && some.contains(e));
        }
    }
}

// ---------------------------------------------------------------------------
// What searches find

/// The characters from `from` to `to` have no white space among them, and none
/// that is no white space beside them.
pub open spec fn stands_alone(query: Seq<char>, from: int, to: int) -> bool {
    &&& 0 <= from < to <= query.len()
    &&& forall|i: int| from <= i < to ==> !text::is_space(#[trigger] query[i])
    &&& from == 0 || text::is_space(query[from - 1])
    &&& to == query.len() || text::is_space(query[to])
}

/// The letters are the same, whatever their case.
pub open spec fn same_letter(a: char, b: char) -> bool {
    ||| a == b
    ||| 'A' <= a <= 'Z' && b as u32 == a as u32 + 32
    ||| 'A' <= b <= 'Z' && a as u32 == b as u32 + 32
}

/// From the given place on, the text has the characters of the query from `from` to
/// `to`, whatever their case.
pub open spec fn reads_at(
    text: Seq<char>,
    at: int,
    query: Seq<char>,
    from: int,
    to: int,
) -> bool {
    &&& 0 <= at <= text.len() - (to - from)
    &&& forall|k: int|
        #![trigger query[from + k]]
        0 <= k < to - from ==> same_letter(text[at + k], query[from + k])
}

/// The text has the characters of the query from `from` to `to` somewhere.
pub open spec fn mentions(text: Seq<char>, query: Seq<char>, from: int, to: int) -> bool {
    exists|at: int| #[trigger] reads_at(text, at, query, from, to)
}

/// The alias, the name, the description, the source or a category of the entry has
/// the characters of the query from `from` to `to`.
pub open spec fn mentioned(entry: CatalogEntry, query: Seq<char>, from: int, to: int) -> bool {
    ||| mentions(entry.alias@, query, from, to)
    ||| mentions(entry.name@, query, from, to)
    ||| mentions(entry.description@, query, from, to)
    ||| mentions(entry.source.written(), query, from, to)
    ||| exists|c: int|
        0 <= c < entry.categories@.len() && mentions(
            (#[trigger] entry.categories@[c])@,
            query,
            from,
            to,
        )
}

/// The entry is active, is of the wanted category, and has every word of the query.
pub open spec fn wanted(
    entry: CatalogEntry,
    query: Seq<char>,
    category: Option<Seq<char>>,
) -> bool {
    &&& entry.state is Active
    &&& category matches Some(name) ==> exists|c: int|
        0 <= c < entry.categories@.len() && (#[trigger] entry.categories@[c])@ == name
    &&& forall|from: int, to: int| #[trigger]
        stands_alone(query, from, to) ==> mentioned(entry, query, from, to)
}

/// The entry goes before another one: the one with the very alias before the others,
/// those whose alias begins so before the others, those of the library's makers
/// before picked ones and these before listed ones, and the rest by their aliases.
pub open spec fn goes_before(needle: Seq<char>, a: CatalogEntry, b: CatalogEntry) -> bool {
    let opens_a = a.alias@.len() >= needle.len() && forall|k: int|
        0 <= k < needle.len() ==> #[trigger] a.alias@[k] == needle[k];
    let opens_b = b.alias@.len() >= needle.len() && forall|k: int|
        0 <= k < needle.len() ==> #[trigger] b.alias@[k] == needle[k];
    ||| a.alias@ == needle && b.alias@ != needle
    ||| (a.alias@ == needle <==> b.alias@ == needle) && {
        ||| opens_a && !opens_b
        ||| opens_a == opens_b && {
            ||| a.tier is FirstParty && b.tier !is FirstParty
            ||| a.tier is Curated && b.tier is Listed
            ||| a.tier == b.tier && text::text_less(a.alias@, b.alias@)
        }
    }
}

/// The entries with the given numbers are those that a search wants, each once, and
/// what is found are these, the ones that go before others in front of them, and in
/// their own order where neither goes before the other.
pub open spec fn finds(
    plugins: Seq<CatalogEntry>,
    query: Seq<char>,
    category: Option<Seq<char>>,
    found: Seq<CatalogEntry>,
    numbers: Seq<int>,
) -> bool {
    &&& numbers.len() == found.len()
    &&& forall|j: int|
        #![trigger numbers[j]]
        0 <= j < numbers.len() ==> 0 <= numbers[j] < plugins.len() && plugins[numbers[j]]
            == found[j]
    &&& forall|i: int|
        #![trigger plugins[i]]
        0 <= i < plugins.len() ==> (numbers.contains(i) <==> wanted(plugins[i], query, category))
    &&& forall|i: int, j: int|
        #![trigger numbers[i], numbers[j]]
        0 <= i < j < numbers.len() ==> numbers[i] != numbers[j] && (goes_before(
            folded(query),
            found[i],
            found[j],
        ) || (!goes_before(folded(query), found[j], found[i]) && numbers[i] < numbers[j]))
}

proof fn lemma_same_letter(a: char, b: char)
    ensures
        same_letter(a, b) <==> text::lower(a) == text::lower(b),
        text::is_space(text::lower(a)) == text::is_space(a),
{
    vstd::utf8::char_u32_cast(a, a as u32);
    vstd::utf8::char_u32_cast(b, b as u32);
}

/// The text has a lower case word somewhere.
spec fn met(text: Seq<char>, word: Seq<char>) -> bool {
    text::occurs(text::lowered(text), word)
}

proof fn lemma_met(text: Seq<char>, word: Seq<char>, query: Seq<char>, from: int, to: int)
    requires
        0 <= from <= to <= query.len(),
        word == text::lowered(query.subrange(from, to)),
    ensures
        met(text, word) <==> mentions(text, query, from, to),
{
    let low = text::lowered(text);
    if met(text, word) {
        let at = choose|at: int|
            0 <= at <= low.len() - word.len() && #[trigger] low.subrange(at, at + word.len())
                == word;
        assert forall|k: int|
            #![trigger query[from + k]]
            0 <= k < to - from implies same_letter(text[at + k], query[from + k]) by {
            assert(low.subrange(at, at + word.len())[k] == word[k]);
            lemma_same_letter(text[at + k], query[from + k]);
        }
        assert(reads_at(text, at, query, from, to));
    }
    if mentions(text, query, from, to) {
        let at = choose|at: int| #[trigger] reads_at(text, at, query, from, to);
        assert forall|k: int| 0 <= k < word.len() implies #[trigger] low.subrange(
            at,
            at + word.len(),
        )[k] == word[k] by {
            lemma_same_letter(text[at + k], query[from + k]);
        }
        assert(low.subrange(at, at + word.len()) =~= word);
    }
}

proof fn lemma_met_spaced(a: Seq<char>, b: Seq<char>, word: Seq<char>)
    requires
        word.len() > 0,
        forall|k: int| 0 <= k < word.len() ==> !text::is_space(#[trigger] word[k]),
    ensures
        met(a + " "@ + b, word) <==> met(a, word) || met(b, word),
{
    reveal_strlit(" ");
    let whole = a + " "@ + b;
    let low = text::lowered(whole);
    let low_a = text::lowered(a);
    let low_b = text::lowered(b);
    let n = word.len() as int;
    if met(whole, word) {
        let at = choose|at: int|
            0 <= at <= low.len() - n && #[trigger] low.subrange(at, at + n) == word;
        if at <= a.len() < at + n {
            let k = a.len() - at;
            assert(low.subrange(at, at + n)[k] == word[k]);
            assert(low[at + k] == ' ');
        } else if at < a.len() {
            assert(low_a.subrange(at, at + n) =~= low.subrange(at, at + n));
        } else {
            let from = at - a.len() - 1;
            assert(low_b.subrange(from, from + n) =~= low.subrange(at, at + n));
        }
    }
    if met(a, word) {
        let at = choose|at: int|
            0 <= at <= low_a.len() - n && #[trigger] low_a.subrange(at, at + n) == word;
        assert(low.subrange(at, at + n) =~= low_a.subrange(at, at + n));
    }
    if met(b, word) {
        let at = choose|at: int|
            0 <= at <= low_b.len() - n && #[trigger] low_b.subrange(at, at + n) == word;
        let on = at + a.len() + 1;
        assert(low.subrange(on, on + n) =~= low_b.subrange(at, at + n));
    }
}

proof fn lemma_met_categories(texts: Seq<String>, n: int, word: Seq<char>)
    requires
        0 <= n <= texts.len(),
        word.len() > 0,
        forall|k: int| 0 <= k < word.len() ==> !text::is_space(#[trigger] word[k]),
    ensures
        met(spaced(texts, n), word) <==> exists|c: int|
            0 <= c < n && met((#[trigger] texts[c])@, word),
    decreases n,
{
    if n == 1 {
        if met(spaced(texts, n), word) {
            assert(met(texts[0]@, word));
        }
    } else if n > 1 {
        lemma_met_categories(texts, n - 1, word);
        lemma_met_spaced(spaced(texts, n - 1), texts[n - 1]@, word);
        if met(spaced(texts, n), word) {
            if met(spaced(texts, n - 1), word) {
                let c = choose|c: int| 0 <= c < n - 1 && met((#[trigger] texts[c])@, word);
                assert(met(texts[c]@, word));
            } else {
                assert(met(texts[n - 1]@, word));
            }
        }
    }
}

proof fn lemma_mentioned(entry: CatalogEntry, query: Seq<char>, from: int, to: int)
    requires
        stands_alone(query, from, to),
    ensures
        text::occurs(haystack(entry), text::lowered(query.subrange(from, to))) <==> mentioned(
            entry,
            query,
            from,
            to,
        ),
{
    let word = text::lowered(query.subrange(from, to));
    assert forall|k: int| 0 <= k < word.len() implies !text::is_space(#[trigger] word[k]) by {
        lemma_same_letter(query[from + k], query[from + k]);
    }
    let categories = entry.categories@;
    let all = spaced(categories, categories.len() as int);
    let one = entry.alias@ + " "@ + entry.name@;
    let two = one + " "@ + entry.description@;
    let three = two + " "@ + entry.source.written();
    lemma_met_spaced(entry.alias@, entry.name@, word);
    lemma_met_spaced(one, entry.description@, word);
    lemma_met_spaced(two, entry.source.written(), word);
    lemma_met_spaced(three, all, word);
    lemma_met_categories(categories, categories.len() as int, word);
    lemma_met(entry.alias@, word, query, from, to);
    lemma_met(entry.name@, word, query, from, to);
    lemma_met(entry.description@, word, query, from, to);
    lemma_met(entry.source.written(), word, query, from, to);
    assert forall|c: int| 0 <= c < categories.len() implies met(
        (#[trigger] categories[c])@,
        word,
    ) == mentions(categories[c]@, query, from, to) by {
        lemma_met(categories[c]@, word, query, from, to);
    }
    assert(text::occurs(haystack(entry), word) == met(three + " "@ + all, word));
}

proof fn lemma_wanted(entry: CatalogEntry, query: Seq<char>, category: Option<Seq<char>>)
    ensures
        answers(entry, folded(query), category) <==> wanted(entry, query, category),
{
    let needle = folded(query);
    let f = text::trimming_takes_white_space_off_both_ends(query);
    let short = text::trimmed(query);
    assert forall|i: int| 0 <= i < needle.len() implies text::is_space(#[trigger] needle[i])
        == text::is_space(query[f + i]) by {
        lemma_same_letter(query[f + i], query[f + i]);
    }
    if answers(entry, needle, category) {
        assert forall|from: int, to: int| #[trigger]
            stands_alone(query, from, to) implies mentioned(entry, query, from, to) by {
            assert(!text::is_space(query[from]) && !text::is_space(query[to - 1]));
            assert(f <= from && to <= f + short.len());
            assert forall|i: int| from - f <= i < to - f implies !text::is_space(
                #[trigger] needle[i],
            ) by {
                assert(!text::is_space(query[f + i]));
            }
            if from - f > 0 {
                assert(text::is_space(needle[from - f - 1]));
            }
            if to - f < needle.len() {
                assert(text::is_space(needle[to - f]));
            }
            assert(is_word(needle, from - f, to - f));
            assert(needle.subrange(from - f, to - f) =~= text::lowered(query.subrange(from, to)));
            lemma_mentioned(entry, query, from, to);
        }
    }
    if wanted(entry, query, category) {
        assert forall|from: int, to: int| #[trigger]
            is_word(needle, from, to) implies text::occurs(
            haystack(entry),
            needle.subrange(from, to),
        ) by {
            assert forall|i: int| from + f <= i < to + f implies !text::is_space(
                #[trigger] query[i],
            ) by {
                assert(!text::is_space(needle[i - f]));
            }
            if from > 0 {
                assert(text::is_space(needle[from - 1]));
                assert(text::is_space(query[from + f - 1]));
            }
            if to < needle.len() {
                assert(text::is_space(needle[to]));
                assert(text::is_space(query[to + f]));
            }
            assert(stands_alone(query, from + f, to + f));
            assert(needle.subrange(from, to) =~= text::lowered(
                query.subrange(from + f, to + f),
            ));
            lemma_mentioned(entry, query, from + f, to + f);
        }
    }
}

proof fn lemma_goes_before(needle: Seq<char>, a: CatalogEntry, b: CatalogEntry)
    ensures
        ranks_before(needle, a, b) == goes_before(needle, a, b),
{
    let n = needle.len() as int;
    if a.alias@.len() >= n {
        assert(text::begins(a.alias@, needle) ==> forall|k: int|
            0 <= k < n ==> #[trigger] a.alias@[k] == a.alias@.subrange(0, n)[k]);
        if forall|k: int| 0 <= k < n ==> #[trigger] a.alias@[k] == needle[k] {
            assert(a.alias@.subrange(0, n) =~= needle);
        }
    }
    if b.alias@.len() >= n {
        assert(text::begins(b.alias@, needle) ==> forall|k: int|
            0 <= k < n ==> #[trigger] b.alias@[k] == b.alias@.subrange(0, n)[k]);
        if forall|k: int| 0 <= k < n ==> #[trigger] b.alias@[k] == needle[k] {
            assert(b.alias@.subrange(0, n) =~= needle);
        }
    }
}

proof fn lemma_found(
    plugins: Seq<CatalogEntry>,
    needle: Seq<char>,
    category: Option<Seq<char>>,
    n: int,
) -> (numbers: Seq<int>)
    requires
        0 <= n <= plugins.len(),
    ensures
        ({
            let found = ranked_answers(plugins, needle, category, n);
            &&& numbers.len() == found.len()
            &&& forall|j: int|
                #![trigger numbers[j]]
                0 <= j < numbers.len() ==> 0 <= numbers[j] < n && plugins[numbers[j]] == found[j]
                    && answers(plugins[numbers[j]], needle, category)
            &&& forall|i: int|
                0 <= i < n && #[trigger] answers(plugins[i], needle, category)
                    ==> numbers.contains(i)
            &&& forall|i: int, j: int|
                #![trigger numbers[i], numbers[j]]
                0 <= i < j < numbers.len() ==> numbers[i] != numbers[j] && !ranks_before(
                    needle,
                    found[j],
                    found[i],
                ) && (ranks_before(needle, found[i], found[j]) || numbers[i] < numbers[j])
        }),
    decreases n,
{
    if n == 0 {
        Seq::empty()
    } else {
        let old_numbers = lemma_found(plugins, needle, category, n - 1);
        let before = ranked_answers(plugins, needle, category, n - 1);
        let after = ranked_answers(plugins, needle, category, n);
        let entry = plugins[n - 1];
        if answers(entry, needle, category) {
            let p = rank_of(needle, before, entry);
            lemma_rank_of(needle, before, entry);
            searches_are_complete_and_ranked(plugins, needle, category, n);
            let numbers = old_numbers.insert(p, n - 1);
            assert forall|j: int|
                #![trigger numbers[j]]
                0 <= j < numbers.len() implies 0 <= numbers[j] < n && plugins[numbers[j]]
                == after[j] && answers(plugins[numbers[j]], needle, category) by {
                if j < p {
                    assert(numbers[j] == old_numbers[j]);
                } else if j > p {
                    assert(numbers[j] == old_numbers[j - 1]);
                }
            }
            assert forall|i: int|
                0 <= i < n && #[trigger] answers(
                    plugins[i],
                    needle,
                    category,
                ) implies numbers.contains(i) by {
                text::lemma_insert_contains(old_numbers, p, n - 1, i);
            }
            assert forall|i: int, j: int|
                #![trigger numbers[i], numbers[j]]
                0 <= i < j < numbers.len() implies numbers[i] != numbers[j] && !ranks_before(
                needle,
                after[j],
                after[i],
            ) && (ranks_before(needle, after[i], after[j]) || numbers[i] < numbers[j]) by {
                assert(!ranks_before(needle, after[j], after[i]));
                if j < p {
                    assert(numbers[i] == old_numbers[i] && numbers[j] == old_numbers[j]);
                } else if j == p {
                    assert(numbers[i] == old_numbers[i]);
                } else if i < p {
                    assert(numbers[i] == old_numbers[i] && numbers[j] == old_numbers[j - 1]);
                } else if i == p {
                    assert(numbers[j] == old_numbers[j - 1]);
                    assert(after[j] == before[j - 1]);
                } else {
                    assert(numbers[i] == old_numbers[i - 1] && numbers[j] == old_numbers[j - 1]);
                }
            }
            numbers
        } else {
            old_numbers
        }
    }
}

/// A search finds the active entries, of the wanted category if one is given, in
/// which every word of the query occurs, whatever the case: in the alias, the name,
/// the description, the source or one of the categories. An entry with the very
/// alias comes first, then those whose alias begins so, then those of the higher
/// tier, and then the rest by their aliases.
pub proof fn searches_find_what_mentions_every_word(
    plugins: Seq<CatalogEntry>,
    query: Seq<char>,
    category: Option<Seq<char>>,
)
    ensures
        exists|numbers: Seq<int>|
            finds(
                plugins,
                query,
                category,
                ranked_answers(plugins, folded(query), category, plugins.len() as int),
                numbers,
            ),
{
    let needle = folded(query);
    let n = plugins.len() as int;
    let found = ranked_answers(plugins, needle, category, n);
    let numbers = lemma_found(plugins, needle, category, n);
    assert forall|i: int|
        #![trigger plugins[i]]
        0 <= i < plugins.len() implies (numbers.contains(i) <==> wanted(
        plugins[i],
        query,
        category,
    )) by {
        lemma_wanted(plugins[i], query, category);
        if numbers.contains(i) {
            let j = choose|j: int| 0 <= j < numbers.len() && numbers[j] == i;
            assert(answers(plugins[numbers[j]], needle, category));
        }
    }
    assert forall|i: int, j: int|
        #![trigger numbers[i], numbers[j]]
        0 <= i < j < numbers.len() implies numbers[i] != numbers[j] && (goes_before(
        needle,
        found[i],
        found[j],
    ) || (!goes_before(needle, found[j], found[i]) && numbers[i] < numbers[j])) by {
        assert(numbers[i] != numbers[j] && !ranks_before(needle, found[j], found[i]) && (
        ranks_before(needle, found[i], found[j]) || numbers[i] < numbers[j]));
        lemma_goes_before(needle, found[i], found[j]);
        lemma_goes_before(needle, found[j], found[i]);
    }
    assert(finds(plugins, query, category, found, numbers));
}

/// White space round a query, and the case of its letters, make no difference: a
/// query is looked for in lower case and without them.
pub proof fn queries_are_trimmed_and_in_lower_case(query: Seq<char>) -> (from: int)
    ensures
        0 <= from <= from + folded(query).len() <= query.len(),
        forall|i: int|
            #![trigger query[i]]
            0 <= i < query.len() && !(from <= i < from + folded(query).len())
                ==> text::is_space(query[i]),
        folded(query).len() > 0 ==> !text::is_space(query[from]) && !text::is_space(
            query[from + folded(query).len() - 1],
        ),
        forall|i: int|
            #![trigger folded(query)[i]]
            0 <= i < folded(query).len() ==> same_letter(folded(query)[i], query[from + i]) && !(
            'A' <= folded(query)[i] <= 'Z'),
{
    let from = text::trimming_takes_white_space_off_both_ends(query);
    assert forall|i: int|
        #![trigger folded(query)[i]]
        0 <= i < folded(query).len() implies same_letter(folded(query)[i], query[from + i]) && !(
    'A' <= folded(query)[i] <= 'Z') by {
        let c = query[from + i];
        vstd::utf8::char_u32_cast(c, c as u32);
    }
    from
}

// ---------------------------------------------------------------------------
// Which catalogs are valid

/// An alias stands for the first entry that has it, and a repository for the first entry
/// that is of it.
pub proof fn the_first_entry_counts(catalog: Catalog, alias: Seq<char>, source: GithubSource)
    ensures
        match catalog.known(alias) {
            Some(entry) => exists|i: int|
                {
                    &&& 0 <= i < catalog.plugins@.len()
                    &&& #[trigger] catalog.plugins@[i] == entry
                    &&& entry.alias@ == alias
                    &&& forall|j: int|
                        0 <= j < i ==> (#[trigger] catalog.plugins@[j]).alias@ != alias
                },
            None => forall|j: int|
                0 <= j < catalog.plugins@.len() ==> (#[trigger] catalog.plugins@[j]).alias@
                    != alias,
        },
        match entry_from(catalog.plugins@, source, catalog.plugins@.len() as int) {
            Some(i) => {
                &&& 0 <= i < catalog.plugins@.len()
                &&& catalog.plugins@[i].source.owned_by() == source.owned_by()
                &&& catalog.plugins@[i].source.called() == source.called()
                &&& forall|j: int|
                    0 <= j < i ==> (#[trigger] catalog.plugins@[j]).source.owned_by()
                        != source.owned_by() || catalog.plugins@[j].source.called()
                        != source.called()
            },
            None => forall|j: int|
                0 <= j < catalog.plugins@.len() ==> (
                #[trigger] catalog.plugins@[j]).source.owned_by() != source.owned_by()
                    || catalog.plugins@[j].source.called() != source.called(),
        },
{
    let n = catalog.plugins@.len() as int;
    lemma_first_alias(catalog.plugins@, alias, n);
    lemma_first_source(catalog.plugins@, source, n);
    if let Some(i) = entry_of(catalog.plugins@, alias, n) {
        assert(catalog.plugins@[i] == catalog.known(alias)->Some_0);
    }
}

proof fn lemma_first_alias(plugins: Seq<CatalogEntry>, alias: Seq<char>, n: int)
    requires
        0 <= n <= plugins.len(),
    ensures
        match entry_of(plugins, alias, n) {
            Some(i) => 0 <= i < n && plugins[i].alias@ == alias && forall|j: int|
                0 <= j < i ==> (#[trigger] plugins[j]).alias@ != alias,
            None => forall|j: int| 0 <= j < n ==> (#[trigger] plugins[j]).alias@ != alias,
        },
    decreases n,
{
    if n > 0 {
        lemma_first_alias(plugins, alias, n - 1);
    }
}

proof fn lemma_first_source(plugins: Seq<CatalogEntry>, source: GithubSource, n: int)
    requires
        0 <= n <= plugins.len(),
    ensures
        match entry_from(plugins, source, n) {
            Some(i) => 0 <= i < n && plugins[i].source.same(source) && forall|j: int|
                0 <= j < i ==> !(#[trigger] plugins[j]).source.same(source),
            None => forall|j: int| 0 <= j < n ==> !(#[trigger] plugins[j]).source.same(source),
        },
    decreases n,
{
    if n > 0 {
        lemma_first_source(plugins, source, n - 1);
    }
}

/// A name of lower-case letters, digits and hyphens: not too long, with a letter in front,
/// no hyphen at the end, and no two hyphens side by side.
pub open spec fn kebab(name: Seq<char>, most: int) -> bool {
    &&& 1 <= name.len() <= most
    &&& 'a' <= name[0] <= 'z'
    &&& forall|i: int|
        0 <= i < name.len() ==> {
            ||| 'a' <= #[trigger] name[i] <= 'z'
            ||| '0' <= name[i] <= '9'
            ||| name[i] == '-' && i + 1 < name.len() && name[i + 1] != '-'
        }
}

/// A text that is not empty and not too long, has no white space at its ends, and no
/// control characters, invisible characters or marks of direction.
pub open spec fn legible(text: Seq<char>, most: int) -> bool {
    &&& 1 <= text.len() <= most
    &&& !text::is_space(text[0]) && !text::is_space(text[text.len() - 1])
    &&& forall|i: int|
        0 <= i < text.len() ==> {
            let c = #[trigger] text[i];
            &&& !text::is_control(c)
            &&& c != '\u{200b}' && c != '\u{200e}' && c != '\u{200f}' && c != '\u{feff}'
            &&& !('\u{202a}' <= c <= '\u{202e}') && !('\u{2066}' <= c <= '\u{2069}')
        }
}

/// The entry is fine by itself and behind the ones before it.
pub open spec fn in_order(plugins: Seq<CatalogEntry>, i: int) -> bool {
    let entry = plugins[i];
    &&& kebab(entry.alias@, 64)
    &&& legible(entry.name@, 80)
    &&& legible(entry.description@, 280)
    &&& entry.source.owned_by() != "local"@
    &&& 1 <= entry.categories@.len() <= 8
    &&& forall|k: int|
        0 <= k < entry.categories@.len() ==> kebab((#[trigger] entry.categories@[k])@, 32)
    &&& forall|k: int, m: int|
        #![trigger entry.categories@[k], entry.categories@[m]]
        0 <= k < m < entry.categories@.len() ==> text::text_less(
            entry.categories@[k]@,
            entry.categories@[m]@,
        )
    &&& entry.tier is FirstParty ==> entry.source.owned_by() == "cameroncooper"@
    &&& forall|j: int|
        0 <= j < i ==> text::text_less((#[trigger] plugins[j]).alias@, entry.alias@) && (
        plugins[j].source.owned_by() != entry.source.owned_by() || plugins[j].source.called()
            != entry.source.called())
}

proof fn lemma_kebab(name: Seq<char>, most: int)
    ensures
        kebab(name, most) <==> is_identifier(name, most),
{
    if is_identifier(name, most) {
        assert forall|i: int| 0 <= i < name.len() implies {
            ||| 'a' <= #[trigger] name[i] <= 'z'
            ||| '0' <= name[i] <= '9'
            ||| name[i] == '-' && i + 1 < name.len() && name[i + 1] != '-'
        } by {
            if name[i] == '-' {
                assert(i < name.len() - 1);
            }
        }
    }
    if kebab(name, most) {
        assert(name.last() == name[name.len() - 1]);
        assert forall|i: int|
            0 <= i < name.len() - 1 && #[trigger] name[i] == '-' implies name[i + 1] != '-' by {}
    }
}

proof fn lemma_legible(text: Seq<char>, most: int)
    ensures
        legible(text, most) <==> is_readable(text, most),
{
    if is_readable(text, most) {
        assert forall|i: int| 0 <= i < text.len() implies {
            let c = #[trigger] text[i];
            &&& !text::is_control(c)
            &&& c != '\u{200b}' && c != '\u{200e}' && c != '\u{200f}' && c != '\u{feff}'
            &&& !('\u{202a}' <= c <= '\u{202e}') && !('\u{2066}' <= c <= '\u{2069}')
        } by {
            assert(!is_deceptive(text[i]));
        }
    }
    if legible(text, most) {
        assert forall|i: int| 0 <= i < text.len() implies !is_deceptive(#[trigger] text[i]) by {}
    }
}

proof fn lemma_categories_fine(categories: Seq<String>, index: int, n: int)
    requires
        0 <= n <= categories.len(),
    ensures
        categories_issues(categories, index, n).len() == 0 <==> (forall|k: int|
            0 <= k < n ==> kebab((#[trigger] categories[k])@, 32)) && (forall|k: int, m: int|
            #![trigger categories[k], categories[m]]
            0 <= k < m < n ==> text::text_less(categories[k]@, categories[m]@)),
    decreases n,
{
    if n > 0 {
        lemma_categories_fine(categories, index, n - 1);
        let last = categories[n - 1]@;
        lemma_kebab(last, 32);
        text::lemma_text_less_irreflexive(last);
        if category_issues(categories, index, n - 1).len() == 0 && categories_issues(
            categories,
            index,
            n - 1,
        ).len() == 0 {
            assert forall|k: int, m: int|
                #![trigger categories[k], categories[m]]
                0 <= k < m < n implies text::text_less(categories[k]@, categories[m]@) by {
                if m == n - 1 && k < n - 2 {
                    assert(text::text_less(categories[k]@, categories[n - 2]@));
                    text::lemma_text_less_transitive(categories[k]@, categories[n - 2]@, last);
                }
            }
        }
        if forall|k: int, m: int|
            #![trigger categories[k], categories[m]]
            0 <= k < m < n ==> text::text_less(categories[k]@, categories[m]@) {
            if n > 1 {
                assert(text::text_less(categories[n - 2]@, categories[n - 1]@));
            }
            assert(!among(categories, n - 1, last)) by {
                if among(categories, n - 1, last) {
                    let k = choose|k: int| 0 <= k < n - 1 && (#[trigger] categories[k])@ == last;
                    assert(text::text_less(categories[k]@, categories[n - 1]@));
                }
            }
        }
    }
}

proof fn lemma_entries_fine(plugins: Seq<CatalogEntry>, n: int)
    requires
        0 <= n <= plugins.len(),
    ensures
        entries_issues(plugins, n).len() == 0 <==> forall|i: int|
            0 <= i < n ==> #[trigger] in_order(plugins, i),
    decreases n,
{
    if n > 0 {
        lemma_entries_fine(plugins, n - 1);
        let k = n - 1;
        let entry = plugins[k];
        lemma_kebab(entry.alias@, 64);
        lemma_legible(entry.name@, 80);
        lemma_legible(entry.description@, 280);
        lemma_categories_fine(entry.categories@, k, entry.categories@.len() as int);
        text::lemma_text_less_irreflexive(entry.alias@);
        if entries_issues(plugins, n).len() == 0 {
            assert(entry_issues(plugins, k).len() == 0);
            assert forall|j: int| 0 <= j < k implies text::text_less(
                (#[trigger] plugins[j]).alias@,
                entry.alias@,
            ) && (plugins[j].source.owned_by() != entry.source.owned_by()
                || plugins[j].source.called() != entry.source.called()) by {
                assert(!source_among(plugins, k, entry.source));
                assert(!plugins[j].source.same(entry.source));
                if j < k - 1 {
                    assert(in_order(plugins, k - 1));
                    assert(text::text_less(plugins[j].alias@, plugins[k - 1].alias@));
                    text::lemma_text_less_transitive(
                        plugins[j].alias@,
                        plugins[k - 1].alias@,
                        entry.alias@,
                    );
                }
            }
            assert(in_order(plugins, k));
        }
        if forall|i: int| 0 <= i < n ==> #[trigger] in_order(plugins, i) {
            assert(in_order(plugins, k));
            assert(!alias_among(plugins, k, entry.alias@));
            assert(!source_among(plugins, k, entry.source));
            if k > 0 {
                assert(text::text_less(plugins[k - 1].alias@, entry.alias@));
            }
        }
    }
}

/// A catalog is valid exactly where it has the supported version and not too many entries,
/// all aliases and categories are in kebab case and in order, names and descriptions are
/// legible, each entry has between one and eight categories and a repository of its own that
/// is public, and those of the first party have its owner.
pub proof fn catalogs_are_valid_where_all_is_in_order(catalog: Catalog)
    ensures
        catalog_issues(catalog).len() == 0 <==> {
            &&& catalog.catalog_version == 1
            &&& catalog.plugins@.len() <= 4096
            &&& forall|i: int|
                0 <= i < catalog.plugins@.len() ==> #[trigger] in_order(catalog.plugins@, i)
        },
{
    lemma_entries_fine(catalog.plugins@, catalog.plugins@.len() as int);
}

/// A catalog may replace another one exactly where it keeps every alias of it, for the same
/// repository, and retired where it was.
pub proof fn catalogs_replace_what_they_keep(newer: Catalog, older: Catalog)
    ensures
        transition_issues(newer, older.plugins@, older.plugins@.len() as int).len() == 0
            <==> forall|i: int|
            0 <= i < older.plugins@.len() ==> {
                let entry = #[trigger] older.plugins@[i];
                &&& newer.known(entry.alias@) matches Some(new)
                &&& new.source.owned_by() == entry.source.owned_by()
                &&& new.source.called() == entry.source.called()
                &&& entry.state is Retired ==> new.state is Retired
            },
{
    lemma_replaces(newer, older.plugins@, older.plugins@.len() as int);
}

proof fn lemma_replaces(newer: Catalog, plugins: Seq<CatalogEntry>, n: int)
    requires
        0 <= n <= plugins.len(),
    ensures
        transition_issues(newer, plugins, n).len() == 0 <==> forall|i: int|
            0 <= i < n ==> {
                let entry = #[trigger] plugins[i];
                &&& newer.known(entry.alias@) matches Some(new)
                &&& new.source.owned_by() == entry.source.owned_by()
                &&& new.source.called() == entry.source.called()
                &&& entry.state is Retired ==> new.state is Retired
            },
    decreases n,
{
    if n > 0 {
        lemma_replaces(newer, plugins, n - 1);
    }
}

} // verus!
