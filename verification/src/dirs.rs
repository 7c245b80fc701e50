//! Home-directory lookup used by the `cargo truce` commands.
//!
//! Lookup order:
//! - Unix: `$HOME`.
//! - Windows: `%USERPROFILE%` first, falling back to `%HOME%` (some
//!   MSYS / Git Bash setups export `HOME` instead of `USERPROFILE`).
//!
//! The environment itself is read by the caller; these functions
//! decide from what it found.

use vstd::prelude::*;

verus! {

/// Which home directory the lookup settles on, given the values of
/// `USERPROFILE` and `HOME` (`None` when unset) and whether the host
/// is Windows.
pub fn home_dir_from<P>(userprofile: Option<P>, home: Option<P>, windows: bool) -> (r: Option<P>)
    ensures
        windows && userprofile is Some ==> r == userprofile,
        windows && userprofile is None ==> r == home,
        !windows ==> r == home,
{
    if windows {
        match userprofile {
            Some(p) => Some(p),
            None => home,
        }
    } else {
        home
    }
}

/// Why no home directory could be determined.
#[derive(Debug, PartialEq, Eq, Structural, Clone, Copy)]
pub enum HomeDirError {
    /// Windows, with neither `USERPROFILE` nor `HOME` set.
    NeitherUserprofileNorHome,
    /// Unix, with `HOME` unset.
    HomeUnset,
}

impl HomeDirError {
    /// The one-line diagnostic for this error.
    pub fn message(&self) -> (m: &'static str)
        ensures
            *self == HomeDirError::NeitherUserprofileNorHome ==> m@ == "can't determine home directory: neither USERPROFILE nor HOME is set"@,
            *self == HomeDirError::HomeUnset ==> m@ == "can't determine home directory: HOME is not set"@,
    {
        match self {
            HomeDirError::NeitherUserprofileNorHome => "can't determine home directory: neither USERPROFILE nor HOME is set",
            HomeDirError::HomeUnset => "can't determine home directory: HOME is not set",
        }
    }
}

/// Hard-required form of the lookup: the home directory found, or the
/// error that names the variables the host consults.
pub fn require_home_dir<P>(home: Option<P>, windows: bool) -> (r: Result<P, HomeDirError>)
    ensures
        home is Some ==> r == Ok::<P, HomeDirError>(home->0),
        home is None && windows ==> r == Err::<P, HomeDirError>(HomeDirError::NeitherUserprofileNorHome),
        home is None && !windows ==> r == Err::<P, HomeDirError>(HomeDirError::HomeUnset),
{
    match home {
        Some(p) => Ok(p),
        None => {
            if windows {
                Err(HomeDirError::NeitherUserprofileNorHome)
            } else {
                Err(HomeDirError::HomeUnset)
            }
        },
    }
}

} // verus!
