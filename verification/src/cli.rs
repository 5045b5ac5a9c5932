//! The decisions of the command-line front end.
//!
//! The surrounding binary reads the arguments, runs the chosen command and
//! talks to the interactive selector; which command an argument names, and
//! whether a plain run should first offer profile selection, are decided
//! here.

use vstd::prelude::*;

verus! {

/// What a run of the tool does.
#[derive(Debug, PartialEq, Eq, Structural)]
pub enum CommandKind {
    /// List the available profiles.
    ShowProfiles,
    /// Show the resolved configuration and the active profile.
    ShowProfile,
    /// Activate a profile by name.
    SetProfile,
    /// Activate a profile document by path.
    SetProfilePath,
    /// Apply the resolved configuration, then hand over to git.
    RunGit,
}

/// The command a first argument names; anything else, or no argument at
/// all, passes through to git.
pub open spec fn command_of(arg: Option<Seq<char>>) -> CommandKind {
    match arg {
        Some(a) => {
            if a == "show-profiles"@ {
                CommandKind::ShowProfiles
            } else if a == "show-profile"@ {
                CommandKind::ShowProfile
            } else if a == "set-profile"@ {
                CommandKind::SetProfile
            } else if a == "set-profile-path"@ {
                CommandKind::SetProfilePath
            } else {
                CommandKind::RunGit
            }
        },
        None => CommandKind::RunGit,
    }
}

/// Decide which command the first argument names.
pub fn command_kind(arg: Option<&String>) -> (r: CommandKind)
    ensures
        r == command_of(
            match arg {
                Some(a) => Some(a@),
                None => None,
            },
        ),
{
    match arg {
        Some(a) => {
            if *a == String::from_str("show-profiles") {
                CommandKind::ShowProfiles
            } else if *a == String::from_str("show-profile") {
                CommandKind::ShowProfile
            } else if *a == String::from_str("set-profile") {
                CommandKind::SetProfile
            } else if *a == String::from_str("set-profile-path") {
                CommandKind::SetProfilePath
            } else {
                CommandKind::RunGit
            }
        },
        None => CommandKind::RunGit,
    }
}

/// Whether a plain run should offer interactive profile selection before
/// applying: only when the resolved configuration asks for both interactive
/// use and selection on first use, the working directory is a repository
/// root whose `.git/.gitconf` does not exist yet, and at least one profile
/// is available.
pub fn should_offer_first_use(
    interactive: bool,
    select_on_first_use: bool,
    has_git_dir: bool,
    gitconf_exists: bool,
    profiles_available: usize,
) -> (r: bool)
    ensures
        r == (interactive && select_on_first_use && has_git_dir && !gitconf_exists
            && profiles_available > 0),
{
    interactive && select_on_first_use && has_git_dir && !gitconf_exists && profiles_available > 0
}

} // verus!
