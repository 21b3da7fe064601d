//! What the library knows of git: the default target and git's errors.
use vstd::prelude::*;

verus! {

/// The target branch of a stack when none is given.
pub const DEFAULT_BRANCH_TARGET: &'static str = "main";

/// An I/O error of the standard library, carried through unchanged.
#[verifier::external_type_specification]
#[verifier::external_body]
pub struct ExIoError(std::io::Error);

/// A failed UTF-8 conversion of the standard library, carried through unchanged.
#[verifier::external_type_specification]
#[verifier::external_body]
pub struct ExFromUtf8Error(std::string::FromUtf8Error);

/// Why a git command failed.
#[derive(Debug)]
pub enum GitRepoError {
    /// The command (first) exited unsuccessfully with this error output (second).
    GitCommandError(String, String),
    /// The command, run in the foreground, exited unsuccessfully.
    ForegroundGitError(String),
    /// The command's output was not UTF-8.
    CommandUtfError(std::string::FromUtf8Error),
    /// HEAD is not on any branch.
    NotOnBranch,
    /// The command could not be run.
    IoError(std::io::Error),
}

/// The current branch as `git branch --show-current` reports it (its
/// trimmed output): none when the output is empty, that is, when HEAD is
/// detached.
pub fn current_branch_from_output(output: String) -> (res: Option<String>)
    ensures
        output@.len() == 0 ==> res is None,
        output@.len() != 0 ==> res == Some(output),
{
    if output.as_str().is_empty() {
        None
    } else {
        Some(output)
    }
}

} // verus!
