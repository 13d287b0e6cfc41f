//! Where this user's files live, on every platform herdr runs on.
//!
//! Config and annotations both need a home directory to fall back on when the
//! XDG variables are unset. Unix sets `HOME`; Windows generally does not, so
//! asking for `HOME` alone would leave a Windows user with no config file and
//! no annotations, silently.
//!
//! `HOME` comes first so a Unix user's export always wins, then Windows' own
//! `USERPROFILE`, then the `HOMEDRIVE`/`HOMEPATH` pair that older Windows
//! setups still provide.

use vstd::prelude::*;
use vstd::string::*;

use crate::text::text_view;

verus! {

/// What a variable holds. An empty one counts as unset.
pub open spec fn non_empty(v: Option<String>) -> Option<Seq<char>> {
    match v {
        Some(s) => if s@.len() == 0 {
            None
        } else {
            Some(s@)
        },
        None => None,
    }
}

/// The home directory that the four variables name.
pub open spec fn home_dir(
    home: Option<Seq<char>>,
    profile: Option<Seq<char>>,
    drive: Option<Seq<char>>,
    path: Option<Seq<char>>,
) -> Option<Seq<char>> {
    match (home, profile, drive, path) {
        (Some(h), _, _, _) => Some(h),
        (None, Some(p), _, _) => Some(p),
        (None, None, Some(d), Some(p)) => Some(d + p),
        _ => None,
    }
}

fn kept(v: Option<String>) -> (r: Option<String>)
    ensures
        text_view(r) == non_empty(v),
{
    match v {
        Some(s) => if s.is_empty() {
            None
        } else {
            Some(s)
        },
        None => None,
    }
}

/// This user's home directory, given `HOME`, `USERPROFILE`, `HOMEDRIVE` and
/// `HOMEPATH`, or `None` if the environment names none.
///
/// An empty variable counts as unset: `HOME=` would otherwise put the config
/// file at the filesystem root. Older Windows splits the home directory across
/// two variables; neither half is usable alone.
pub fn dir(
    home: Option<String>,
    profile: Option<String>,
    drive: Option<String>,
    path: Option<String>,
) -> (r: Option<String>)
    ensures
        text_view(r) == home_dir(
            non_empty(home),
            non_empty(profile),
            non_empty(drive),
            non_empty(path),
        ),
{
    if let Some(h) = kept(home) {
        return Some(h);
    }
    if let Some(p) = kept(profile) {
        return Some(p);
    }
    match (kept(drive), kept(path)) {
        (Some(d), Some(p)) => Some(d.concat(p.as_str())),
        _ => None,
    }
}

/// `HOME` is taken where it is set, whatever else is; then the profile; and the
/// drive with its path only where both are set and neither of the others is.
pub proof fn the_home_directory_is_the_first_that_is_set(
    home: Option<Seq<char>>,
    profile: Option<Seq<char>>,
    drive: Option<Seq<char>>,
    path: Option<Seq<char>>,
)
    ensures
        home is Some ==> home_dir(home, profile, drive, path) == home,
        home is None && profile is Some ==> home_dir(home, profile, drive, path) == profile,
        home is None && profile is None && drive is Some && path is Some ==> home_dir(
            home,
            profile,
            drive,
            path,
        ) == Some(drive->0 + path->0),
        home is None && profile is None && (drive is None || path is None) ==> home_dir(
            home,
            profile,
            drive,
            path,
        ) is None,
        forall|v: Option<String>| #[trigger]
            non_empty(v) is Some <==> (v matches Some(s) && s@.len() > 0),
{
}

} // verus!
