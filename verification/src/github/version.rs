//! Semantic versions of releases.
use vstd::prelude::*;

use crate::text;

verus! {

/// A semantic version.
#[derive(Debug, PartialEq, Eq)]
pub struct Version {
    pub major: u64,
    pub minor: u64,
    pub patch: u64,
    /// What follows a hyphen; empty where there is none.
    pub pre: String,
    /// What follows a plus sign; empty where there is none.
    pub build: String,
}

/// [`Version`], field by field.
#[verifier::ext_equal]
pub struct VersionView {
    pub major: u64,
    pub minor: u64,
    pub patch: u64,
    pub pre: Seq<char>,
    pub build: Seq<char>,
}

impl View for Version {
    type V = VersionView;

    open spec fn view(&self) -> VersionView {
        VersionView {
            major: self.major,
            minor: self.minor,
            patch: self.patch,
            pre: self.pre@,
            build: self.build@,
        }
    }
}

impl Clone for Version {
    fn clone(&self) -> (copy: Self)
        ensures
            copy == *self,
    {
        Version {
            major: self.major,
            minor: self.minor,
            patch: self.patch,
            pre: self.pre.clone(),
            build: self.build.clone(),
        }
    }
}

/// The three numbers, with nothing behind them.
pub open spec fn numbered(major: u64, minor: u64, patch: u64) -> VersionView {
    VersionView { major, minor, patch, pre: Seq::empty(), build: Seq::empty() }
}

/// An optional part behind its mark.
pub open spec fn marked(mark: Seq<char>, part: Seq<char>) -> Seq<char> {
    if part.len() == 0 {
        Seq::empty()
    } else {
        mark + part
    }
}

impl VersionView {
    /// Neither a pre-release nor a build.
    pub open spec fn plain(self) -> bool {
        self.pre.len() == 0 && self.build.len() == 0
    }

    /// How the version is written.
    pub open spec fn written(self) -> Seq<char> {
        text::decimal(self.major as int) + "."@ + text::decimal(self.minor as int) + "."@
            + text::decimal(self.patch as int) + marked("-"@, self.pre) + marked("+"@, self.build)
    }
}

fn marked_text(mark: &str, part: &str) -> (text: String)
    ensures
        text@ == marked(mark@, part@),
{
    if part.is_empty() {
        proof {
            assert(part@.len() == 0);
        }
        String::new()
    } else {
        text::joined(mark, part)
    }
}

impl Version {
    pub fn new(major: u64, minor: u64, patch: u64) -> (version: Self)
        ensures
            version@ == numbered(major, minor, patch),
    {
        Version { major, minor, patch, pre: String::new(), build: String::new() }
    }

    /// Neither a pre-release nor a build.
    pub fn is_plain(&self) -> (plain: bool)
        ensures
            plain == self@.plain(),
    {
        self.pre.as_str().is_empty() && self.build.as_str().is_empty()
    }

    pub fn is_same(&self, other: &Self) -> (same: bool)
        ensures
            same == (self@ == other@),
    {
        self.major == other.major && self.minor == other.minor && self.patch == other.patch
            && text::same(self.pre.as_str(), other.pre.as_str()) && text::same(
            self.build.as_str(),
            other.build.as_str(),
        )
    }

    /// How the version is written.
    pub fn text(&self) -> (text: String)
        ensures
            text@ == self@.written(),
    {
        let major = text::decimal_text(self.major);
        let minor = text::decimal_text(self.minor);
        let patch = text::decimal_text(self.patch);
        let head = text::joined4(major.as_str(), ".", minor.as_str(), ".");
        let pre = marked_text("-", self.pre.as_str());
        let build = marked_text("+", self.build.as_str());
        let whole = text::joined4(head.as_str(), patch.as_str(), pre.as_str(), build.as_str());
        proof {
            assert(whole@ =~= self@.written());
        }
        whole
    }
}

/// What `semver::Version::parse` makes of a text: the version, or what it says
/// is wrong with the text.
pub uninterp spec fn version_of(text: Seq<char>) -> Result<VersionView, Seq<char>>;

/// A parsed version, by its view.
pub open spec fn parsed_view(parsed: Result<Version, String>) -> Result<VersionView, Seq<char>> {
    match parsed {
        Ok(version) => Ok(version@),
        Err(message) => Err(message@),
    }
}

/// `semver::Version::parse`, with the fields of the version and the message of
/// the error as plain values. A text is accepted only as it is written, and
/// three numbers joined by full stops are always accepted.
#[verifier::external_body]
pub(crate) fn parse_version(text: &str) -> (parsed: Result<Version, String>)
    ensures
        parsed_view(parsed) == version_of(text@),
        parsed is Ok ==> parsed->Ok_0@.written() == text@,
        forall|major: u64, minor: u64, patch: u64|
            text@ == #[trigger] numbered(major, minor, patch).written() ==> parsed is Ok
                && parsed->Ok_0@ == numbered(major, minor, patch),
{
    match semver::Version::parse(text) {
        Ok(version) => Ok(
            Version {
                major: version.major,
                minor: version.minor,
                patch: version.patch,
                pre: version.pre.as_str().to_owned(),
                build: version.build.as_str().to_owned(),
            },
        ),
        Err(error) => Err(error.to_string()),
    }
}

/// A version is three numbers with full stops between them, and what follows a
/// hyphen and a plus sign where anything does.
pub proof fn versions_are_three_numbers(version: VersionView)
    ensures
        version.written() == text::decimal(version.major as int) + seq!['.'] + text::decimal(
            version.minor as int,
        ) + seq!['.'] + text::decimal(version.patch as int) + (if version.pre.len() > 0 {
            seq!['-'] + version.pre
        } else {
            Seq::empty()
        }) + (if version.build.len() > 0 {
            seq!['+'] + version.build
        } else {
            Seq::empty()
        }),
        version.plain() <==> version.written() == text::decimal(version.major as int) + seq!['.']
            + text::decimal(version.minor as int) + seq!['.'] + text::decimal(version.patch as int),
{
    reveal_strlit(".");
    reveal_strlit("-");
    reveal_strlit("+");
    assert("."@ =~= seq!['.']);
    assert("-"@ =~= seq!['-']);
    assert("+"@ =~= seq!['+']);
    let numbers = text::decimal(version.major as int) + seq!['.'] + text::decimal(
        version.minor as int,
    ) + seq!['.'] + text::decimal(version.patch as int);
    if version.plain() {
        assert(numbers + Seq::<char>::empty() + Seq::<char>::empty() =~= numbers);
    } else {
        assert(version.written().len() > numbers.len());
    }
}

} // verus!
