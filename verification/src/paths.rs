//! Where the store file lies.

use vstd::prelude::*;
use vstd::string::{StrSliceExecFns, StringExecFns};

verus! {

/// A path with one more part behind it: the parts are set apart by one `/`,
/// which a base that is empty or ends in `/` does not need.
pub open spec fn joined(base: Seq<char>, tail: Seq<char>) -> Seq<char> {
    if base.len() > 0 && base.last() != '/' {
        base + seq!['/'] + tail
    } else {
        base + tail
    }
}

/// The store file below the user's data directory.
pub open spec fn path_in_data_dir(dir: Seq<char>) -> Seq<char> {
    joined(joined(dir, "tmux-notify"@), "notifications.db"@)
}

/// The store file below the user's home directory.
pub open spec fn path_in_home_dir(dir: Seq<char>) -> Seq<char> {
    joined(dir, ".local/share/tmux-notify/notifications.db"@)
}

/// What is said when neither directory is known.
pub open spec fn no_directory() -> Seq<char> {
    "Could not determine home directory. Set HOME or use --db-path"@
}

/// The store file for a user with these directories: below the data directory
/// where there is one, else below the home directory, else nowhere.
pub open spec fn default_db_path(
    data_dir: Option<Seq<char>>,
    home_dir: Option<Seq<char>>,
) -> Result<Seq<char>, Seq<char>> {
    match data_dir {
        Some(dir) => Ok(path_in_data_dir(dir)),
        None => match home_dir {
            Some(dir) => Ok(path_in_home_dir(dir)),
            None => Err(no_directory()),
        },
    }
}

/// A path or a complaint, as mathematical values.
pub open spec fn outcome_text(outcome: Result<String, String>) -> Result<Seq<char>, Seq<char>> {
    match outcome {
        Ok(path) => Ok(path@),
        Err(complaint) => Err(complaint@),
    }
}

/// Calls `dirs::data_dir`, which names the user's data directory from the
/// platform's conventions and the environment, or none. Nothing is claimed of
/// the answer. A directory whose name is not UTF-8 comes back with U+FFFD in
/// place of the bytes that are not.
#[verifier::external_body]
fn user_data_dir() -> Option<String> {
    dirs::data_dir().map(|dir| dir.to_string_lossy().into_owned())
}

/// Calls `dirs::home_dir`, which names the user's home directory from the
/// environment or the user database, or none. Nothing is claimed of the
/// answer. A directory whose name is not UTF-8 comes back with U+FFFD in place
/// of the bytes that are not.
#[verifier::external_body]
fn user_home_dir() -> Option<String> {
    dirs::home_dir().map(|dir| dir.to_string_lossy().into_owned())
}

/// The path with one more part behind it.
pub fn join(base: String, tail: &str) -> (path: String)
    ensures
        path@ == joined(base@, tail@),
{
    let n = base.as_str().unicode_len();
    let bare = n > 0 && base.as_str().get_char(n - 1) != '/';
    let mut path = base;
    if bare {
        proof {
            reveal_strlit("/");
            assert("/"@ =~= seq!['/']);
        }
        path.append("/");
    }
    path.append(tail);
    path
}

/// The store file for a user with these directories.
pub fn default_db_path_from(
    data_dir: Option<String>,
    home_dir: Option<String>,
) -> (path: Result<String, String>)
    ensures
        outcome_text(path) == default_db_path(
            match data_dir {
                Some(dir) => Some(dir@),
                None => None,
            },
            match home_dir {
                Some(dir) => Some(dir@),
                None => None,
            },
        ),
{
    match data_dir {
        Some(dir) => Ok(join(join(dir, "tmux-notify"), "notifications.db")),
        None => match home_dir {
            Some(dir) => Ok(join(dir, ".local/share/tmux-notify/notifications.db")),
            None => Err(
                String::from_str("Could not determine home directory. Set HOME or use --db-path"),
            ),
        },
    }
}

/// The store file of the user who runs the program. The home directory is
/// looked up only where there is no data directory.
pub fn get_default_db_path() -> (path: Result<String, String>)
    ensures
        exists|data_dir: Option<Seq<char>>, home_dir: Option<Seq<char>>|
            outcome_text(path) == #[trigger] default_db_path(data_dir, home_dir),
{
    match user_data_dir() {
        Some(dir) => {
            let path = default_db_path_from(Some(dir), None);
            assert(outcome_text(path) == default_db_path(Some(dir@), None));
            path
        },
        None => {
            let home = user_home_dir();
            let path = default_db_path_from(None, home);
            assert(outcome_text(path) == default_db_path(
                None,
                match home {
                    Some(dir) => Some(dir@),
                    None => None,
                },
            ));
            path
        },
    }
}

/// The store file that a command works on: the one that the caller names, else
/// the user's own.
pub fn resolve_db_path(custom_path: Option<String>) -> (path: Result<String, String>)
    ensures
        match custom_path {
            Some(custom) => path == Ok::<String, String>(custom),
            None => exists|data_dir: Option<Seq<char>>, home_dir: Option<Seq<char>>|
                outcome_text(path) == #[trigger] default_db_path(data_dir, home_dir),
        },
{
    match custom_path {
        Some(custom) => Ok(custom),
        None => get_default_db_path(),
    }
}

} // verus!
