//! Where the launcher keeps its files: Windows paths built by joining
//! components onto a directory.

use vstd::prelude::*;
use crate::text::{chars_of, concat2, concat3};

verus! {

/// A path separator.
pub open spec fn is_sep(c: char) -> bool {
    c == '\\' || c == '/'
}

/// A bare drive such as `C:`, to which a component is joined without a
/// separator.
pub open spec fn is_bare_drive(p: Seq<char>) -> bool {
    p.len() == 2 && (('A' <= p[0] <= 'Z') || ('a' <= p[0] <= 'z')) && p[1] == ':'
}

/// `dir` joined with the relative component `name`: a backslash goes between
/// them unless `dir` is empty, already ends in a separator, or is a bare
/// drive.
pub open spec fn join_spec(dir: Seq<char>, name: Seq<char>) -> Seq<char> {
    if dir.len() == 0 || is_sep(dir.last()) || is_bare_drive(dir) {
        dir + name
    } else {
        dir + seq!['\\'] + name
    }
}

pub fn join_path(dir: &str, name: &str) -> (r: String)
    ensures
        r@ == join_spec(dir@, name@),
{
    let d = chars_of(dir);
    let n = d.len();
    let bare_drive = n == 2 && (('A' <= d[0] && d[0] <= 'Z') || ('a' <= d[0] && d[0] <= 'z'))
        && d[1] == ':';
    if n == 0 || d[n - 1] == '\\' || d[n - 1] == '/' || bare_drive {
        concat2(dir, name)
    } else {
        proof {
            reveal_strlit("\\");
        }
        let r = concat3(dir, "\\", name);
        assert(r@ =~= dir@ + seq!['\\'] + name@);
        r
    }
}

/// The launcher's data directory: `multiroblox` under the roaming
/// application-data directory (`.` when that is not set).
pub open spec fn app_data_dir_spec(appdata: Option<Seq<char>>) -> Seq<char> {
    join_spec(
        match appdata {
            Some(a) => a,
            None => "."@,
        },
        "multiroblox"@,
    )
}

pub fn app_data_dir(appdata: Option<&str>) -> (r: String)
    ensures
        r@ == app_data_dir_spec(match appdata {
            Some(a) => Some(a@),
            None => None,
        }),
{
    match appdata {
        Some(a) => join_path(a, "multiroblox"),
        None => join_path(".", "multiroblox"),
    }
}

/// The settings file in the data directory.
pub fn settings_path(app_dir: &str) -> (r: String)
    ensures
        r@ == join_spec(app_dir@, "settings.json"@),
{
    join_path(app_dir, "settings.json")
}

/// The saved-accounts file in the data directory.
pub fn accounts_path(app_dir: &str) -> (r: String)
    ensures
        r@ == join_spec(app_dir@, "accounts.json"@),
{
    join_path(app_dir, "accounts.json")
}

/// The packages file in the data directory.
pub fn packages_path(app_dir: &str) -> (r: String)
    ensures
        r@ == join_spec(app_dir@, "packages.json"@),
{
    join_path(app_dir, "packages.json")
}

/// The generated-account history file in the data directory.
pub fn genhistory_path(app_dir: &str) -> (r: String)
    ensures
        r@ == join_spec(app_dir@, "genhistory.json"@),
{
    join_path(app_dir, "genhistory.json")
}

/// The `Local State` key store of values saved with Electron's `safeStorage`.
pub fn local_state_path(app_dir: &str) -> (r: String)
    ensures
        r@ == join_spec(app_dir@, "Local State"@),
{
    join_path(app_dir, "Local State")
}

} // verus!
