//! The credential vault kept in `user_settings.json`: its default tree,
//! updates to it, and the files the vault editor may open.

use super::IpcError;
use crate::json::{appended, find_entry, find_key, json_get, lemma_find_key, member_set, set_member, updated_at, Json};
use crate::path_utils::{is_plain_base, joined, settings_file};
use crate::text::{concat, str_eq};
use vstd::prelude::*;

verus! {

/// The tree a missing `user_settings.json` stands for:
/// `{"credentials": {}, "preferences": {}, "defaults": {}}`.
pub fn default_tree() -> (r: Json)
    ensures
        is_default_tree(r),
{
    let mut es: Vec<(String, Json)> = Vec::new();
    es.push(("credentials".to_owned(), Json::Object(Vec::new())));
    es.push(("preferences".to_owned(), Json::Object(Vec::new())));
    es.push(("defaults".to_owned(), Json::Object(Vec::new())));
    Json::Object(es)
}

/// The path of `user_settings.json`, given the settings directory; an
/// internal error when there is none.
pub fn settings_path(settings_dir: Option<String>) -> (r: Result<String, IpcError>)
    ensures
        r is Ok <==> settings_dir is Some,
        settings_dir is None ==> (r matches Err(IpcError::Internal(m)) && m@ == "no settings directory"@),
        match settings_dir {
            Some(d) => is_plain_base(d@) ==> (r matches Ok(p) && joined(d@, "user_settings.json"@, p@)),
            None => true,
        },
{
    proof {
        reveal_strlit("user_settings.json");
    }
    match settings_file(settings_dir, "user_settings.json") {
        Some(p) => Ok(p),
        None => Err(IpcError::Internal("no settings directory".to_owned())),
    }
}

/// `r` is the default tree.
pub open spec fn is_default_tree(r: Json) -> bool {
    r matches Json::Object(es) && es@.len() == 3 && es@[0].0@ == "credentials"@ && es@[1].0@
        == "preferences"@ && es@[2].0@ == "defaults"@ && (forall|i: int|
        0 <= i < 3 ==> ((#[trigger] es@[i]).1 matches Json::Object(m) && m@.len() == 0))
}

/// What the vault reads as: the stored tree, or the default tree when
/// nothing is stored.
pub fn user_credentials(stored: Option<Json>) -> (r: Json)
    ensures
        match stored {
            Some(t) => r == t,
            None => is_default_tree(r),
        },
{
    match stored {
        Some(t) => t,
        None => default_tree(),
    }
}

/// The tree with its `credentials` member set to `credentials`; a tree
/// that is not an object is left as it is.
pub fn with_credentials(tree: Json, credentials: Json) -> (r: Json)
    ensures
        match tree {
            Json::Object(es) => r matches Json::Object(out) && member_set(es@, out@, "credentials"@, credentials),
            _ => r == tree,
        },
        tree is Object ==> json_get(r, "credentials"@) == Some(credentials),
{
    match tree {
        Json::Object(es) => {
            let mut es = es;
            set_member(&mut es, "credentials".to_owned(), credentials);
            Json::Object(es)
        },
        other => other,
    }
}

/// The tree with `key` set to the string `value` inside its `credentials`
/// object, which is created empty first when missing. A tree that is not
/// an object, or whose `credentials` member is not an object, is left as
/// it is.
pub fn with_credential_key(tree: Json, key: String, value: String) -> (r: Json)
    ensures
        match tree {
            Json::Object(es) => match find_key(es@, "credentials"@) {
                Some(i) => match es@[i].1 {
                    Json::Object(cm) => r matches Json::Object(out) && updated_at(es@, out@, i, "credentials"@)
                        && (out@[i].1 matches Json::Object(cm2) && member_set(cm@, cm2@, key@, Json::Str(value))),
                    _ => r == tree,
                },
                None => r matches Json::Object(out) && appended(es@, out@, "credentials"@)
                    && (out@[es@.len() as int].1 matches Json::Object(c) && c@.len() == 1 && c@[0].0 == key
                    && c@[0].1 == Json::Str(value)),
            },
            _ => r == tree,
        },
{
    match tree {
        Json::Object(es) => {
            match find_entry(&es, "credentials") {
                Some(i) => {
                    let is_object = match &es[i].1 {
                        Json::Object(_) => true,
                        _ => false,
                    };
                    if !is_object {
                        return Json::Object(es);
                    }
                    let mut es = es;
                    let ghost before = es@;
                    let (k, c) = es.remove(i);
                    match c {
                        Json::Object(cm) => {
                            let mut cm = cm;
                            set_member(&mut cm, key, Json::Str(value));
                            es.insert(i, (k, Json::Object(cm)));
                            assert(es@ =~= before.update(i as int, es@[i as int]));
                            proof {
                                lemma_find_key(before, "credentials"@);
                            }
                            assert(updated_at(before, es@, i as int, "credentials"@));
                            Json::Object(es)
                        },
                        _ => Json::Object(es),
                    }
                },
                None => {
                    let mut es = es;
                    let ghost before = es@;
                    let mut c: Vec<(String, Json)> = Vec::new();
                    c.push((key, Json::Str(value)));
                    es.push(("credentials".to_owned(), Json::Object(c)));
                    assert(appended(before, es@, "credentials"@));
                    Json::Object(es)
                },
            }
        },
        other => other,
    }
}

/// The files the vault editor may open.
pub open spec fn vault_file_allowed(n: Seq<char>) -> bool {
    ||| n == "user_settings.json"@
    ||| n == "system_settings.json"@
    ||| n == "mcp_settings.json"@
    ||| n == ".env"@
    ||| n == ".condarc"@
}

/// The content a missing vault file is created with.
pub open spec fn vault_default(n: Seq<char>) -> Seq<char> {
    if n == "user_settings.json"@ {
        "{\"credentials\": {}, \"preferences\": {}, \"defaults\": {}}"@
    } else if n == ".env"@ {
        "# environment variables\n"@
    } else if n == ".condarc"@ {
        "channels:\n  - conda-forge\n  - defaults\n"@
    } else {
        "{}"@
    }
}

/// Checks a file name against the vault allow-list and gives the content
/// to create it with when it does not exist yet.
pub fn vault_file_default(file_name: &str) -> (r: Result<String, IpcError>)
    ensures
        vault_file_allowed(file_name@) ==> (r matches Ok(c) && c@ == vault_default(file_name@)),
        !vault_file_allowed(file_name@) ==> (r matches Err(IpcError::InvalidArgument(m)) && m@
            == "file_name not in allow-list: "@ + file_name@),
{
    proof {
        reveal_strlit("user_settings.json");
        reveal_strlit("system_settings.json");
        reveal_strlit("mcp_settings.json");
        reveal_strlit(".env");
        reveal_strlit(".condarc");
    }
    if str_eq(file_name, "user_settings.json") {
        Ok("{\"credentials\": {}, \"preferences\": {}, \"defaults\": {}}".to_owned())
    } else if str_eq(file_name, "system_settings.json") || str_eq(file_name, "mcp_settings.json") {
        assert(file_name@.len() == 20 || file_name@.len() == 17);
        Ok("{}".to_owned())
    } else if str_eq(file_name, ".env") {
        Ok("# environment variables\n".to_owned())
    } else if str_eq(file_name, ".condarc") {
        Ok("channels:\n  - conda-forge\n  - defaults\n".to_owned())
    } else {
        Err(IpcError::InvalidArgument(concat("file_name not in allow-list: ", file_name)))
    }
}

} // verus!
