//! `stack delete`: forgetting a stack (its branches are untouched).
use vstd::prelude::*;
use crate::commands::CliError;

verus! {

/// The arguments of `stack delete`.
#[derive(Debug)]
pub struct Args {
    /// The name of the stack to delete
    pub name: String,
}

impl Args {
    /// Deleting a stack that does not exist is an error.
    pub fn check_exists(&self, exists: bool) -> (res: Result<(), CliError>)
        ensures
            exists ==> res is Ok,
            !exists ==> (res matches Err(CliError::StackNotFound(n)) && n == self.name),
    {
        if exists {
            Ok(())
        } else {
            Err(CliError::StackNotFound(self.name.clone()))
        }
    }
}

} // verus!
