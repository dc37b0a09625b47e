//! What the description of a crate and the output of Cargo say.
use vstd::prelude::*;

use super::args;
use super::scaffold;
use super::target;
use crate::github::version;
use crate::github::version::{Version, VersionView};
use crate::text;

verus! {

/// A text that was looked for, by its view.
pub open spec fn found_view(found: Result<Option<String>, String>) -> Result<
    Option<Seq<char>>,
    Seq<char>,
> {
    match found {
        Ok(Some(text)) => Ok(Some(text@)),
        Ok(None) => Ok(None),
        Err(message) => Err(message@),
    }
}

// ---------------------------------------------------------------------------
// The description of a crate

/// The text that stands under a key of a table in what `toml::from_str` reads
/// from a document, if there is one, or what it says is wrong with the document.
pub uninterp spec fn text_at(
    document: Seq<char>,
    table: Seq<char>,
    key: Seq<char>,
) -> Result<Option<Seq<char>>, Seq<char>>;

/// `toml::from_str` into a `toml::Value`, then `get` of the table, `get` of the
/// key in it and `as_str` of what is there, or the message of the error.
#[verifier::external_body]
fn crate_text(document: &str, table: &str, key: &str) -> (found: Result<Option<String>, String>)
    ensures
        found_view(found) == text_at(document@, table@, key@),
{
    let value: toml::Value = toml::from_str(document).map_err(|error| error.to_string())?;
    let entry = value.get(table).and_then(|table| table.get(key));
    Ok(entry.and_then(|entry| entry.as_str()).map(|text| text.to_owned()))
}

/// What the description of a crate says in a field that it must have.
pub open spec fn field_told(
    found: Result<Option<Seq<char>>, Seq<char>>,
    field: Seq<char>,
) -> Result<Seq<char>, Seq<char>> {
    match found {
        Err(cause) => Err(cause),
        Ok(None) => Err("Cargo.toml package."@ + field + " is required"@),
        Ok(Some(text)) => Ok(text),
    }
}

/// [`crate_field`], once the field has been looked for.
pub fn tell_field(found: Result<Option<String>, String>, field: &str) -> (result: Result<
    String,
    String,
>)
    ensures
        args::outcome(result) == field_told(found_view(found), field@),
{
    match found {
        Err(cause) => Err(cause),
        Ok(None) => Err(text::joined3("Cargo.toml package.", field, " is required")),
        Ok(Some(text)) => Ok(text),
    }
}

/// A field of the package that the description of a crate is of.
pub fn crate_field(document: &str, field: &str) -> (result: Result<String, String>)
    ensures
        args::outcome(result) == field_told(text_at(document@, "package"@, field@), field@),
{
    let found = crate_text(document, "package", field);
    tell_field(found, field)
}

/// The version that the description of a crate declares.
pub open spec fn version_declared(found: Result<Option<Seq<char>>, Seq<char>>) -> Result<
    VersionView,
    Seq<char>,
> {
    match field_told(found, "version"@) {
        Err(message) => Err(message),
        Ok(written) => target::version_told(
            version::version_of(written),
            "Cargo.toml package.version is not semantic"@,
        ),
    }
}

/// [`declared_version`], once the field has been looked for.
pub fn tell_version(found: Result<Option<String>, String>) -> (result: Result<Version, String>)
    ensures
        args::outcome(result) == version_declared(found_view(found)),
        result is Ok ==> found_view(found) == Ok::<Option<Seq<char>>, Seq<char>>(
            Some(result->Ok_0@.written()),
        ),
{
    match tell_field(found, "version") {
        Err(message) => Err(message),
        Ok(written) => target::crate_version(written.as_str()),
    }
}

/// The version that the description of a crate declares.
pub fn declared_version(document: &str) -> (result: Result<Version, String>)
    ensures
        args::outcome(result) == version_declared(text_at(document@, "package"@, "version"@)),
        result is Ok ==> text_at(document@, "package"@, "version"@) == Ok::<
            Option<Seq<char>>,
            Seq<char>,
        >(Some(result->Ok_0@.written())),
{
    let found = crate_text(document, "package", "version");
    tell_version(found)
}

/// The file that a build makes of the crate that is described.
pub open spec fn file_told(found: Result<Option<Seq<char>>, Seq<char>>) -> Result<
    Seq<char>,
    Seq<char>,
> {
    match field_told(found, "name"@) {
        Err(message) => Err(message),
        Ok(name) => Ok(scaffold::library_name(name) + ".wasm"@),
    }
}

/// [`component_file`], once the field has been looked for.
pub fn tell_file(found: Result<Option<String>, String>) -> (result: Result<String, String>)
    ensures
        args::outcome(result) == file_told(found_view(found)),
{
    match tell_field(found, "name") {
        Err(message) => Err(message),
        Ok(name) => Ok(scaffold::built_file(name.as_str())),
    }
}

/// The file that a build makes of the crate that is described.
pub fn component_file(document: &str) -> (result: Result<String, String>)
    ensures
        args::outcome(result) == file_told(text_at(document@, "package"@, "name"@)),
{
    let found = crate_text(document, "package", "name");
    tell_file(found)
}

// ---------------------------------------------------------------------------
// The output of Cargo

/// The text that stands under a key in what `serde_json::from_slice` reads from
/// some bytes, if there is one, or what it says is wrong with the bytes.
pub uninterp spec fn json_text_at(bytes: Seq<u8>, key: Seq<char>) -> Result<
    Option<Seq<char>>,
    Seq<char>,
>;

/// `serde_json::from_slice` into a `serde_json::Value`, then `get` of the key and
/// `as_str` of what is there, or the message of the error.
#[verifier::external_body]
fn json_text(bytes: &[u8], key: &str) -> (found: Result<Option<String>, String>)
    ensures
        found_view(found) == json_text_at(bytes@, key@),
{
    let read: Result<serde_json::Value, serde_json::Error> = serde_json::from_slice(bytes);
    let value = read.map_err(|error| error.to_string())?;
    Ok(value.get(key).and_then(|entry| entry.as_str()).map(|text| text.to_owned()))
}

/// Where Cargo puts what it builds.
pub open spec fn directory_told(found: Result<Option<Seq<char>>, Seq<char>>) -> Result<
    Seq<char>,
    Seq<char>,
> {
    match found {
        Err(cause) => Err(cause),
        Ok(None) => Err("cargo metadata omitted target_directory"@),
        Ok(Some(directory)) => Ok(directory),
    }
}

/// [`target_directory`], once the field has been looked for.
pub fn tell_directory(found: Result<Option<String>, String>) -> (result: Result<String, String>)
    ensures
        args::outcome(result) == directory_told(found_view(found)),
{
    match found {
        Err(cause) => Err(cause),
        Ok(None) => Err(text::copied("cargo metadata omitted target_directory")),
        Ok(Some(directory)) => Ok(directory),
    }
}

/// Where Cargo puts what it builds, by its own metadata.
pub fn target_directory(metadata: &[u8]) -> (result: Result<String, String>)
    ensures
        args::outcome(result) == directory_told(json_text_at(metadata@, "target_directory"@)),
{
    let found = json_text(metadata, "target_directory");
    tell_directory(found)
}

} // verus!
