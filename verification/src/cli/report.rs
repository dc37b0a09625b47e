//! What the commands say of packages that are checked, tested, released and
//! installed.
use vstd::prelude::*;

use super::matrix::TestedItem;
use super::session;
use crate::catalog::CatalogEntry;
use crate::github::publish::PublishedRelease;
use crate::github::release::ResolvedRelease;
use crate::source::GithubSource;
use crate::text;

verus! {

/// A package and what it holds.
#[derive(Debug)]
pub struct CheckedFacts {
    pub source: String,
    pub version: String,
    pub items: usize,
    pub profiles: usize,
    pub requests: usize,
    pub digest: String,
}

/// What is said of a package that is in order.
pub open spec fn checked_text(facts: CheckedFacts) -> Seq<Seq<char>> {
    seq![
        "OK  "@ + facts.source@ + " "@ + facts.version@,
        "    "@ + text::decimal(facts.items as int) + " item(s), "@ + text::decimal(
            facts.profiles as int,
        ) + " automatic profile(s), "@ + text::decimal(facts.requests as int)
            + " permission request(s)"@,
        "    "@ + facts.digest@,
    ]
}

pub fn check_lines(facts: &CheckedFacts) -> (lines: Vec<String>)
    ensures
        text::texts(lines@) == checked_text(*facts),
{
    let items = text::decimal_text(facts.items as u64);
    let profiles = text::decimal_text(facts.profiles as u64);
    let requests = text::decimal_text(facts.requests as u64);
    let mut lines: Vec<String> = Vec::new();
    lines.push(text::joined4("OK  ", facts.source.as_str(), " ", facts.version.as_str()));
    let head = text::joined4("    ", items.as_str(), " item(s), ", profiles.as_str());
    lines.push(
        text::joined4(
            head.as_str(),
            " automatic profile(s), ",
            requests.as_str(),
            " permission request(s)",
        ),
    );
    lines.push(text::joined("    ", facts.digest.as_str()));
    proof {
        assert(text::texts(lines@) =~= checked_text(*facts));
    }
    lines
}

// ---------------------------------------------------------------------------
// Tests

/// How often items are rendered, all together.
pub open spec fn cases(items: Seq<TestedItem>) -> nat
    decreases items.len(),
{
    if items.len() == 0 {
        0
    } else {
        cases(items.drop_last()) + items.last().widths@.len()
    }
}

proof fn lemma_cases_part(items: Seq<TestedItem>, n: int)
    requires
        0 <= n <= items.len(),
    ensures
        cases(items.subrange(0, n)) <= cases(items),
    decreases items.len(),
{
    if n == items.len() {
        assert(items.subrange(0, n) =~= items);
    } else {
        assert(items.drop_last().subrange(0, n) =~= items.subrange(0, n));
        lemma_cases_part(items.drop_last(), n);
    }
}

/// How often items are rendered, all together.
pub fn render_cases(items: &Vec<TestedItem>) -> (total: usize)
    requires
        cases(items@) <= usize::MAX,
    ensures
        total == cases(items@),
{
    let mut total: usize = 0;
    let mut i: usize = 0;
    proof {
        assert(items@.subrange(0, 0) =~= Seq::empty());
    }
    while i < items.len()
        invariant
            i <= items@.len(),
            total == cases(items@.subrange(0, i as int)),
            cases(items@) <= usize::MAX,
        decreases items@.len() - i,
    {
        proof {
            let after = items@.subrange(0, i + 1);
            assert(after.drop_last() =~= items@.subrange(0, i as int));
            lemma_cases_part(items@, i + 1);
        }
        total = total + items[i].widths.len();
        i = i + 1;
    }
    proof {
        assert(items@.subrange(0, i as int) =~= items@);
    }
    total
}

/// Numbers, as they are written.
pub open spec fn decimals(numbers: Seq<u32>) -> Seq<Seq<char>> {
    Seq::new(numbers.len(), |i: int| text::decimal(numbers[i] as int))
}

/// What is said of an item that was rendered.
pub open spec fn item_text(item: TestedItem) -> Seq<char> {
    "    "@ + item.id@ + ": "@ + text::listed(decimals(item.widths@), ", "@) + " px"@
}

fn item_line(item: &TestedItem) -> (line: String)
    ensures
        line@ == item_text(*item),
{
    let mut widths: Vec<String> = Vec::new();
    let mut i: usize = 0;
    while i < item.widths.len()
        invariant
            i <= item.widths@.len(),
            widths@.len() == i,
            forall|k: int|
                0 <= k < i ==> #[trigger] widths@[k]@ == text::decimal(item.widths@[k] as int),
        decreases item.widths@.len() - i,
    {
        widths.push(text::decimal_text(item.widths[i] as u64));
        i = i + 1;
    }
    proof {
        assert(text::texts(widths@) =~= decimals(item.widths@));
    }
    let all = text::list(&widths, ", ");
    let head = text::joined4("    ", item.id.as_str(), ": ", all.as_str());
    text::joined(head.as_str(), " px")
}

/// A package that was tested.
#[derive(Debug)]
pub struct TestedFacts {
    pub source: String,
    pub version: String,
    pub items: Vec<TestedItem>,
    pub bars: usize,
}

/// What is said of a package that passed its tests.
pub open spec fn tested_text(facts: TestedFacts) -> Seq<Seq<char>> {
    seq![
        "PASS  "@ + facts.source@ + " "@ + facts.version@,
        "    "@ + text::decimal(facts.items@.len() as int) + " item(s), "@ + text::decimal(
            facts.bars as int,
        ) + " presentation bar(s), "@ + text::decimal(cases(facts.items@) as int)
            + " render case(s)"@,
    ] + Seq::new(facts.items@.len(), |i: int| item_text(facts.items@[i]))
}

pub fn test_lines(facts: &TestedFacts) -> (lines: Vec<String>)
    requires
        cases(facts.items@) <= usize::MAX,
    ensures
        text::texts(lines@) == tested_text(*facts),
{
    let items = text::decimal_text(facts.items.len() as u64);
    let bars = text::decimal_text(facts.bars as u64);
    let total: usize = render_cases(&facts.items);
    let rendered = text::decimal_text(total as u64);
    let mut lines: Vec<String> = Vec::new();
    lines.push(text::joined4("PASS  ", facts.source.as_str(), " ", facts.version.as_str()));
    let head = text::joined4("    ", items.as_str(), " item(s), ", bars.as_str());
    lines.push(
        text::joined4(
            head.as_str(),
            " presentation bar(s), ",
            rendered.as_str(),
            " render case(s)",
        ),
    );
    let ghost first = tested_text(*facts).subrange(0, 2);
    proof {
        assert(text::texts(lines@) =~= first);
    }
    let mut i: usize = 0;
    while i < facts.items.len()
        invariant
            i <= facts.items@.len(),
            first.len() == 2,
            text::texts(lines@) == first + Seq::new(
                i as nat,
                |k: int| item_text(facts.items@[k]),
            ),
        decreases facts.items@.len() - i,
    {
        let ghost so_far = lines@;
        let line = item_line(&facts.items[i]);
        lines.push(line);
        proof {
            assert(text::texts(lines@) =~= text::texts(so_far).push(line@));
            assert(text::texts(lines@) =~= first + Seq::new(
                (i + 1) as nat,
                |k: int| item_text(facts.items@[k]),
            ));
        }
        i = i + 1;
    }
    proof {
        assert(text::texts(lines@) =~= tested_text(*facts));
    }
    lines
}

// ---------------------------------------------------------------------------
// Releases

/// What is said of a package that may be released.
pub fn ready_line(source: &GithubSource, version: &str, digest: &str) -> (line: String)
    ensures
        line@ == "Release-ready "@ + source.written() + " "@ + version@ + " "@ + digest@,
{
    let identity = source.text();
    let head = text::joined4("Release-ready ", identity.as_str(), " ", version);
    text::joined3(head.as_str(), " ", digest)
}

/// What is said of a release that was published.
pub fn published_line(source: &GithubSource, release: &PublishedRelease) -> (line: String)
    ensures
        line@ == "Published "@ + source.written() + " "@ + release.tag@ + " release_id="@
            + text::decimal(release.release_id as int) + " asset_id="@ + text::decimal(
            release.asset_id as int,
        ) + " asset="@ + release.asset_name@ + " bytes="@ + text::decimal(release.asset_size as int)
            + " "@ + release.asset_digest@,
{
    let identity = source.text();
    let release_id = text::decimal_text(release.release_id);
    let asset_id = text::decimal_text(release.asset_id);
    let bytes = text::decimal_text(release.asset_size);
    let head = text::joined4("Published ", identity.as_str(), " ", release.tag.as_str());
    let ids = text::joined4(" release_id=", release_id.as_str(), " asset_id=", asset_id.as_str());
    let asset = text::joined4(" asset=", release.asset_name.as_str(), " bytes=", bytes.as_str());
    let end = text::joined(" ", release.asset_digest.as_str());
    let line = text::joined4(head.as_str(), ids.as_str(), asset.as_str(), end.as_str());
    proof {
        assert(line@ =~= "Published "@ + source.written() + " "@ + release.tag@ + " release_id="@
            + text::decimal(release.release_id as int) + " asset_id="@ + text::decimal(
            release.asset_id as int,
        ) + " asset="@ + release.asset_name@ + " bytes="@ + text::decimal(release.asset_size as int)
            + " "@ + release.asset_digest@);
    }
    line
}

/// What is said of an alias that names a source.
pub fn alias_line(entry: &CatalogEntry) -> (line: String)
    ensures
        line@ == "Catalog alias `"@ + entry.alias@ + "` resolves to "@ + entry.source.written()
            + " ("@ + entry.tier.label() + ")"@,
{
    let identity = entry.source.text();
    let head = text::joined4(
        "Catalog alias `",
        entry.alias.as_str(),
        "` resolves to ",
        identity.as_str(),
    );
    text::joined4(head.as_str(), " (", entry.tier.as_str(), ")")
}

fn answer(value: bool) -> (word: &'static str)
    ensures
        word@ == session::either(value, "true"@, "false"@),
{
    if value {
        "true"
    } else {
        "false"
    }
}

/// What is said of the release that a plugin was installed from.
pub fn release_line(release: &ResolvedRelease, attested: bool) -> (line: String)
    ensures
        line@ == "release: "@ + release.tag@ + " asset="@ + release.asset_name@ + " digest="@
            + release.asset_digest@ + " immutable="@ + session::either(
            release.immutable,
            "true"@,
            "false"@,
        ) + " attested="@ + session::either(attested, "true"@, "false"@),
{
    let head = text::joined4(
        "release: ",
        release.tag.as_str(),
        " asset=",
        release.asset_name.as_str(),
    );
    let middle = text::joined4(
        " digest=",
        release.asset_digest.as_str(),
        " immutable=",
        answer(release.immutable),
    );
    let end = text::joined(" attested=", answer(attested));
    let line = text::joined3(head.as_str(), middle.as_str(), end.as_str());
    proof {
        assert(line@ =~= "release: "@ + release.tag@ + " asset="@ + release.asset_name@
            + " digest="@ + release.asset_digest@ + " immutable="@ + session::either(
            release.immutable,
            "true"@,
            "false"@,
        ) + " attested="@ + session::either(attested, "true"@, "false"@));
    }
    line
}

} // verus!
