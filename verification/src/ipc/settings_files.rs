//! The settings files the shell reads and writes: a strict allow-list of
//! file names, which keeps paths from escaping the settings directory.

use super::IpcError;
use crate::cli::{ends_with, has_suffix};
use crate::json::{parse_json, parsed_json, Json};
use crate::path_utils::{is_plain_base, joined, settings_file};
use crate::text::{concat, str_eq};
use vstd::prelude::*;

verus! {

/// The settings files that may be read or written.
pub open spec fn settings_file_allowed(n: Seq<char>) -> bool {
    ||| n == "user_settings.json"@
    ||| n == "system_settings.json"@
    ||| n == "mcp_settings.json"@
    ||| n == "widget_settings.json"@
    ||| n == ".env"@
    ||| n == ".condarc"@
}

/// Accepts a file name on the allow-list; any other name is an
/// invalid-argument error naming it.
pub fn check_settings_file(file_name: &str) -> (r: Result<(), IpcError>)
    ensures
        settings_file_allowed(file_name@) ==> r is Ok,
        !settings_file_allowed(file_name@) ==> (r matches Err(IpcError::InvalidArgument(m)) && m@
            == "file_name not in allow-list: "@ + file_name@),
{
    if str_eq(file_name, "user_settings.json") || str_eq(file_name, "system_settings.json")
        || str_eq(file_name, "mcp_settings.json") || str_eq(file_name, "widget_settings.json")
        || str_eq(file_name, ".env") || str_eq(file_name, ".condarc") {
        Ok(())
    } else {
        Err(IpcError::InvalidArgument(concat("file_name not in allow-list: ", file_name)))
    }
}

/// The allow-list, in order.
pub fn list_settings_files() -> (r: Vec<String>)
    ensures
        r@.len() == 6,
        r@[0]@ == "user_settings.json"@,
        r@[1]@ == "system_settings.json"@,
        r@[2]@ == "mcp_settings.json"@,
        r@[3]@ == "widget_settings.json"@,
        r@[4]@ == ".env"@,
        r@[5]@ == ".condarc"@,
{
    let mut v: Vec<String> = Vec::new();
    v.push("user_settings.json".to_owned());
    v.push("system_settings.json".to_owned());
    v.push("mcp_settings.json".to_owned());
    v.push("widget_settings.json".to_owned());
    v.push(".env".to_owned());
    v.push(".condarc".to_owned());
    v
}

/// Arguments of the JSON read command.
pub struct ReadJsonArgs {
    pub file_name: String,
}

/// Arguments of the text read command.
pub struct ReadTextArgs {
    pub file_name: String,
}

/// Arguments of the text write command.
pub struct WriteTextArgs {
    pub file_name: String,
    pub content: String,
}

/// The path of the settings file `file_name`: refused unless the name is
/// on the allow-list; an internal error when there is no settings
/// directory.
pub fn resolve(file_name: &str, settings_dir: Option<String>) -> (r: Result<String, IpcError>)
    ensures
        !settings_file_allowed(file_name@) ==> (r matches Err(IpcError::InvalidArgument(m)) && m@
            == "file_name not in allow-list: "@ + file_name@),
        settings_file_allowed(file_name@) ==> (r is Ok <==> settings_dir is Some),
        settings_file_allowed(file_name@) && settings_dir is None ==> (r matches Err(IpcError::Internal(m))
            && m@ == "no settings directory"@),
        match settings_dir {
            Some(d) => settings_file_allowed(file_name@) && is_plain_base(d@) ==> (r matches Ok(p) && joined(
                d@,
                file_name@,
                p@,
            )),
            None => true,
        },
{
    proof {
        reveal_strlit("user_settings.json");
        reveal_strlit("system_settings.json");
        reveal_strlit("mcp_settings.json");
        reveal_strlit("widget_settings.json");
        reveal_strlit(".env");
        reveal_strlit(".condarc");
    }
    match check_settings_file(file_name) {
        Err(e) => Err(e),
        Ok(()) => match settings_file(settings_dir, file_name) {
            Some(p) => Ok(p),
            None => Err(IpcError::Internal("no settings directory".to_owned())),
        },
    }
}

/// Whether a settings file holds a JSON document (its name ends in
/// `.json`) rather than plain text.
pub fn reads_as_json(file: &str) -> (r: bool)
    ensures
        r == has_suffix(file@, ".json"@),
{
    ends_with(file, ".json")
}

/// Arguments of writing a JSON settings file.
pub struct WriteJsonArgs {
    pub file_name: String,
    pub content: Json,
}

/// What a settings write stores: a document, or plain text.
#[derive(Debug)]
pub enum SettingsContent {
    Document(Json),
    Text(String),
}

/// What writing `content` to the settings file `file` stores: for a
/// `.json` file the document the content reads as (the error names the
/// JSON error otherwise), for any other file the text itself.
pub fn settings_content(file: &str, content: String) -> (r: Result<SettingsContent, String>)
    ensures
        has_suffix(file@, ".json"@) ==> match parsed_json(content@) {
            Ok(j) => r == Ok::<SettingsContent, String>(SettingsContent::Document(j)),
            Err(e) => r matches Err(m) && m@ == "content is not valid JSON: "@ + e,
        },
        !has_suffix(file@, ".json"@) ==> r == Ok::<SettingsContent, String>(SettingsContent::Text(content)),
{
    if reads_as_json(file) {
        match parse_json(content.as_str()) {
            Ok(j) => Ok(SettingsContent::Document(j)),
            Err(e) => Err(concat("content is not valid JSON: ", e.as_str())),
        }
    } else {
        Ok(SettingsContent::Text(content))
    }
}

} // verus!
