//! JSON settings files: what a file's text stands for, what a
//! read-modify-write starts from, and the errors of these steps. Reading,
//! locking and the atomic replace of files are done by the caller.

use crate::json::{parse_json, parsed_json, Json};
use crate::text::{blank, chars_of, concat, is_blank};
use vstd::prelude::*;

verus! {

/// Failures of the settings store.
#[derive(Debug, Clone)]
pub enum SettingsError {
    /// An I/O error, with its text.
    Io(String),
    /// A JSON error, with its text.
    Json(String),
    /// The lock file named here is held by someone else.
    LockFailed(String),
    /// There is no settings directory.
    NoSettingsDir,
}

/// The text of an error.
pub open spec fn settings_message(e: SettingsError) -> Seq<char> {
    match e {
        SettingsError::Io(m) => "io error: "@ + m@,
        SettingsError::Json(m) => "json error: "@ + m@,
        SettingsError::LockFailed(p) => "could not acquire file lock on "@ + p@,
        SettingsError::NoSettingsDir => "settings dir not found"@,
    }
}

impl SettingsError {
    /// The text of the error.
    pub fn message(&self) -> (r: String)
        ensures
            r@ == settings_message(*self),
    {
        match self {
            SettingsError::Io(m) => concat("io error: ", m.as_str()),
            SettingsError::Json(m) => concat("json error: ", m.as_str()),
            SettingsError::LockFailed(p) => concat("could not acquire file lock on ", p.as_str()),
            SettingsError::NoSettingsDir => "settings dir not found".to_owned(),
        }
    }
}

/// What the text of a JSON settings file stands for: nothing when it is
/// blank, else the document it reads as.
pub fn json_document(buf: &str) -> (r: Result<Option<Json>, SettingsError>)
    ensures
        blank(buf@) ==> r == Ok::<Option<Json>, SettingsError>(None),
        !blank(buf@) ==> match parsed_json(buf@) {
            Ok(j) => r == Ok::<Option<Json>, SettingsError>(Some(j)),
            Err(e) => r matches Err(SettingsError::Json(m)) && m@ == e,
        },
{
    let cs = chars_of(buf);
    if is_blank(&cs, 0, cs.len()) {
        assert(cs@.subrange(0, cs@.len() as int) =~= buf@);
        return Ok(None);
    }
    assert(cs@.subrange(0, cs@.len() as int) =~= buf@);
    match parse_json(buf) {
        Ok(j) => Ok(Some(j)),
        Err(e) => Err(SettingsError::Json(e)),
    }
}

/// The tree a read-modify-write starts from: `default` when the file is
/// missing or blank, else the document the file holds.
pub fn modify_base(existing: Option<String>, default: Json) -> (r: Result<Json, SettingsError>)
    ensures
        match existing {
            None => r == Ok::<Json, SettingsError>(default),
            Some(buf) => if blank(buf@) {
                r == Ok::<Json, SettingsError>(default)
            } else {
                match parsed_json(buf@) {
                    Ok(j) => r == Ok::<Json, SettingsError>(j),
                    Err(e) => r matches Err(SettingsError::Json(m)) && m@ == e,
                }
            },
        },
{
    match existing {
        None => Ok(default),
        Some(buf) => match json_document(buf.as_str()) {
            Ok(Some(j)) => Ok(j),
            Ok(None) => Ok(default),
            Err(e) => Err(e),
        },
    }
}

/// The extension of the temporary file an atomic write goes through: the
/// file's extension followed by `.tmp`, or `tmp` for a file without one.
pub fn tmp_extension(ext: Option<&str>) -> (r: String)
    ensures
        match ext {
            Some(e) => r@ == e@ + ".tmp"@,
            None => r@ == "tmp"@,
        },
{
    match ext {
        Some(e) => concat(e, ".tmp"),
        None => "tmp".to_owned(),
    }
}

} // verus!
