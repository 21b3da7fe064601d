//! `stack remove`: taking a layer out of a stack (its branch is untouched).
use vstd::prelude::*;
use crate::commands::CliError;
use crate::metadata::{LayerMetadata, StackMetadata, has_branch, is_first_position};

verus! {

/// The arguments of `stack remove`.
#[derive(Debug)]
pub struct Args {
    /// Name of the stack to manipulate
    pub name: String,
    /// Name of the branch to remove from the stack
    pub branch: String,
}

impl Args {
    /// Removes the layer on the given branch from the stack, or reports
    /// that the stack has no such layer.
    pub fn apply(&self, stack: &mut StackMetadata) -> (res: Result<LayerMetadata, CliError>)
        ensures
            final(stack).target == old(stack).target,
            final(stack).version == old(stack).version,
            !has_branch(old(stack)@.layers, self.branch@) ==> (res matches Err(CliError::LayerNotFound(b))
                && b == self.branch && final(stack)@ == old(stack)@),
            has_branch(old(stack)@.layers, self.branch@) ==> exists|i: int|
                #[trigger] is_first_position(old(stack)@.layers, self.branch@, i) && (res matches Ok(l)
                    && l@ == old(stack)@.layers[i] && final(stack)@.layers == old(stack)@.layers.remove(i)),
    {
        match stack.remove_layer(&self.branch) {
            Some(l) => Ok(l),
            None => Err(CliError::LayerNotFound(self.branch.clone())),
        }
    }
}

} // verus!
