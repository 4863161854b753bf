//! The store locator: where the store file and its backups live. The
//! canonical store path is resolved under the platform's per-user
//! configuration directory, subpath `dotl/dotl_tasks.json`; backup
//! files sit beside the store under a name that embeds the moment of
//! their creation at second precision.
use vstd::prelude::*;

use vstd::string::{StrSliceExecFns, StringExecFns};

use crate::errors::LocatorError;
use crate::text::push_char;

verus! {

#[verifier::external_type_specification]
#[verifier::external_body]
pub struct ExBaseDirectories(xdg::BaseDirectories);

/// Relies on `xdg::BaseDirectories::with_prefix`: reads the XDG
/// environment and prepends the given prefix to every lookup. What it
/// yields depends on the environment, so nothing is claimed of it.
#[verifier::external_body]
fn xdg_with_prefix(prefix: &str) -> (r: xdg::BaseDirectories) {
    xdg::BaseDirectories::with_prefix(prefix)
}

/// Relies on `xdg::BaseDirectories::place_config_file`: resolves
/// `name` under the per-user configuration home, creating leading
/// directories. On success the returned path is the configuration
/// home joined with the prefix and `name`, so it ends with `name`; a
/// missing configuration home surfaces as a not-found error, any
/// other failure comes from creating the directories.
#[verifier::external_body]
fn xdg_place_config_file(dirs: &xdg::BaseDirectories, name: &str) -> (r: Result<
    String,
    LocatorError,
>)
    ensures
        match r {
            Ok(p) => p@.len() >= name@.len() && p@.subrange(
                p@.len() - name@.len(),
                p@.len() as int,
            ) == name@,
            Err(_) => true,
        },
{
    match dirs.place_config_file(name) {
        Ok(path) => Ok(path.to_string_lossy().into_owned()),
        Err(e) => {
            if e.kind() == std::io::ErrorKind::NotFound {
                Err(LocatorError::DirectoryUnavailable)
            } else {
                Err(LocatorError::DirectoryCreationFailed)
            }
        },
    }
}

/// Relies on `chrono::Local::now` and its `%Y%m%d%H%M%S` formatting:
/// the current local moment as a compact timestamp at second
/// precision. The year takes at least four digits, every other field
/// exactly two. The value depends on the clock, so only the length is
/// claimed.
#[verifier::external_body]
fn local_stamp_text() -> (r: String)
    ensures
        r@.len() >= 14,
{
    chrono::Local::now().format("%Y%m%d%H%M%S").to_string()
}

/// The canonical path of the store file: subpath `dotl/dotl_tasks.json`
/// under the per-user configuration directory, whose leading
/// directories are created on the way. Fails when the platform gives
/// no configuration home (`DirectoryUnavailable`) or the directories
/// cannot be created (`DirectoryCreationFailed`).
pub fn get_task_file_path() -> (r: Result<String, LocatorError>)
    ensures
        match r {
            Ok(p) => p@.len() >= 15 && p@.subrange(p@.len() - 15, p@.len() as int)
                == "dotl_tasks.json"@,
            Err(e) => e == LocatorError::DirectoryUnavailable || e
                == LocatorError::DirectoryCreationFailed,
        },
{
    let dirs = xdg_with_prefix("dotl");
    let r = xdg_place_config_file(&dirs, "dotl_tasks.json");
    proof {
        reveal_strlit("dotl_tasks.json");
    }
    match r {
        Ok(p) => Ok(p),
        Err(LocatorError::DirectoryUnavailable) => Err(LocatorError::DirectoryUnavailable),
        Err(LocatorError::DirectoryCreationFailed) => Err(LocatorError::DirectoryCreationFailed),
    }
}

/// The file name of a backup taken at the moment `stamp` renders:
/// `dotl_tasks_backup<stamp>.json`.
pub open spec fn spec_backup_name(stamp: Seq<char>) -> Seq<char> {
    "dotl_tasks_backup"@ + stamp + ".json"@
}

/// Renders the backup file name for a timestamp text.
pub fn backup_file_name(stamp: &str) -> (r: String)
    ensures
        r@ == spec_backup_name(stamp@),
{
    let mut out = String::from_str("dotl_tasks_backup");
    out.append(stamp);
    out.append(".json");
    out
}

/// The path beside `path` whose file name is `name`: everything up to
/// and including the last separator, then `name`; a path without a
/// separator is replaced whole.
pub open spec fn spec_sibling(path: Seq<char>, name: Seq<char>) -> Seq<char>
    decreases path.len(),
{
    if path.len() == 0 {
        name
    } else if path.last() == '/' {
        path + name
    } else {
        spec_sibling(path.drop_last(), name)
    }
}

/// Replaces the file name of `path` with `name`, in the same
/// directory.
pub fn sibling_path(path: &str, name: &str) -> (r: String)
    ensures
        r@ == spec_sibling(path@, name@),
{
    let n: usize = path.unicode_len();
    let mut j: usize = n;
    proof {
        assert(path@.take(n as int) =~= path@);
    }
    loop
        invariant
            j <= n,
            n == path@.len(),
            spec_sibling(path@, name@) == spec_sibling(path@.take(j as int), name@),
        ensures
            j <= n,
            n == path@.len(),
            spec_sibling(path@, name@) == spec_sibling(path@.take(j as int), name@),
            j == 0 || path@[j - 1] == '/',
        decreases j,
    {
        if j == 0 {
            break;
        }
        if path.get_char(j - 1) == '/' {
            break;
        }
        proof {
            assert(path@.take(j as int).last() == path@[j - 1]);
            assert(path@.take(j as int).drop_last() =~= path@.take(j - 1));
        }
        j = j - 1;
    }
    let mut out = String::new();
    let mut k: usize = 0;
    while k < j
        invariant
            k <= j <= n,
            n == path@.len(),
            out@ == path@.take(k as int),
        decreases j - k,
    {
        push_char(&mut out, path.get_char(k));
        assert(out@ =~= path@.take(k + 1));
        k = k + 1;
    }
    out.append(name);
    proof {
        if j > 0 {
            assert(path@.take(j as int).last() == path@[j - 1]);
        }
        assert(path@.take(0) =~= Seq::<char>::empty());
        assert(out@ =~= spec_sibling(path@.take(j as int), name@));
    }
    out
}


/// The full path of a fresh backup of the store at `store_path`: a
/// timestamped backup name in the store's own directory.
pub fn backup_target(store_path: &str) -> (r: String)
    ensures
        exists|t: Seq<char>|
            t.len() >= 14 && r@ == spec_sibling(store_path@, spec_backup_name(t)),
{
    let stamp = local_stamp_text();
    let name = backup_file_name(stamp.as_str());
    let r = sibling_path(store_path, name.as_str());
    proof {
        assert(stamp@.len() >= 14 && r@ == spec_sibling(store_path@, spec_backup_name(stamp@)));
    }
    r
}

} // verus!
