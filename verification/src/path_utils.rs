//! Where the shell keeps its files: the data directory name (set once,
//! else taken from the environment, else `.tauri-shell`), the settings
//! directory under the home directory, and files inside it. The caller
//! reads the home directory and the environment.

use vstd::prelude::*;

verus! {

/// The configured data directory name: empty until set, then fixed.
#[derive(Debug)]
pub struct DataDirName {
    name: Option<String>,
}

impl View for DataDirName {
    type V = Option<Seq<char>>;

    closed spec fn view(&self) -> Option<Seq<char>> {
        match self.name {
            Some(n) => Some(n@),
            None => None,
        }
    }
}

impl DataDirName {
    /// Nothing configured yet.
    pub fn new() -> (r: Self)
        ensures
            r@ is None,
    {
        DataDirName { name: None }
    }

    /// The configured name, if any.
    pub fn get(&self) -> (r: Option<String>)
        ensures
            match r {
                Some(n) => self@ == Some(n@),
                None => self@ is None,
            },
    {
        match &self.name {
            Some(n) => Some(n.clone()),
            None => None,
        }
    }
}

/// Configures the data directory name. Only the first call counts; later
/// calls leave the configured name as it is.
pub fn set_data_dir_name(slot: &mut DataDirName, name: String)
    ensures
        old(slot)@ is None ==> final(slot)@ == Some(name@),
        old(slot)@ is Some ==> final(slot)@ == old(slot)@,
{
    if slot.name.is_none() {
        slot.name = Some(name);
    }
}

/// The data directory name in force: the configured one, else the value
/// of the environment variable, else `.tauri-shell`.
pub open spec fn dir_name_of(configured: Option<Seq<char>>, env_value: Option<Seq<char>>) -> Seq<char> {
    match configured {
        Some(n) => n,
        None => match env_value {
            Some(v) => v,
            None => ".tauri-shell"@,
        },
    }
}

/// The data directory name in force, given the configured name and the
/// value of `TAURI_SHELL_DATA_DIR_NAME` (when set).
pub fn data_dir_name(slot: &DataDirName, env_value: Option<String>) -> (r: String)
    ensures
        r@ == dir_name_of(slot@, match env_value {
            Some(v) => Some(v@),
            None => None,
        }),
{
    match slot.get() {
        Some(n) => n,
        None => match env_value {
            Some(v) => v,
            None => ".tauri-shell".to_owned(),
        },
    }
}

/// Whether `part` is a relative path component on every platform: not
/// empty, not starting with a separator (`/` or `\`), and without a
/// drive prefix (a colon as its second character).
pub open spec fn is_relative_component(part: Seq<char>) -> bool {
    &&& part.len() > 0
    &&& part[0] != '/'
    &&& part[0] != '\\'
    &&& !(part.len() >= 2 && part[1] == ':')
}

/// Whether `base` is a path that a relative part is simply appended to on
/// every platform: not empty, not starting with `\` (Windows verbatim and
/// device prefixes do), and not a bare drive such as `C:`.
pub open spec fn is_plain_base(base: Seq<char>) -> bool {
    &&& base.len() > 0
    &&& base[0] != '\\'
    &&& !(base.len() == 2 && base[1] == ':')
}

/// `p` is `part` joined onto `base`: the base, then one separator, then the
/// part. No separator is added after a base that ends in `/`; after one
/// that ends in `\` there is none (Windows) or a `/` (elsewhere); else
/// the separator is `/` or `\`, as the platform has it.
pub open spec fn joined(base: Seq<char>, part: Seq<char>, p: Seq<char>) -> bool {
    if base.last() == '/' {
        p == base + part
    } else if base.last() == '\\' {
        p == base + part || p == base + seq!['/'] + part
    } else {
        p == base + seq!['/'] + part || p == base + seq!['\\'] + part
    }
}

/// `part` joined onto the path `base` by `std::path::Path::join`, as
/// text. Where the part is relative and the base plain (see
/// `is_relative_component`, `is_plain_base`), `PathBuf::push` appends the
/// part after one separator, the platform's, unless the base already ends
/// in one; on other inputs (absolute parts, prefixes, verbatim paths)
/// nothing is stated.
#[verifier::external_body]
fn path_join(base: &str, part: &str) -> (r: String)
    ensures
        is_plain_base(base@) && is_relative_component(part@) ==> joined(base@, part@, r@),
{
    std::path::Path::new(base).join(part).to_string_lossy().into_owned()
}

/// The settings directory: `dir_name` inside the home directory, when
/// there is one.
pub fn settings_dir(home: Option<String>, dir_name: &str) -> (r: Option<String>)
    ensures
        r is Some <==> home is Some,
        match home {
            Some(h) => is_plain_base(h@) && is_relative_component(dir_name@) ==> (r matches Some(p) && joined(
                h@,
                dir_name@,
                p@,
            )),
            None => true,
        },
{
    match home {
        Some(h) => Some(path_join(h.as_str(), dir_name)),
        None => None,
    }
}

/// The file `name` inside the settings directory, when there is one.
pub fn settings_file(settings_dir: Option<String>, name: &str) -> (r: Option<String>)
    ensures
        r is Some <==> settings_dir is Some,
        match settings_dir {
            Some(d) => is_plain_base(d@) && is_relative_component(name@) ==> (r matches Some(p) && joined(
                d@,
                name@,
                p@,
            )),
            None => true,
        },
{
    match settings_dir {
        Some(d) => Some(path_join(d.as_str(), name)),
        None => None,
    }
}

} // verus!
