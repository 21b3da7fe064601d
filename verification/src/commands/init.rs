//! `stack init`: a new stack with the current branch as its bottom layer.
use vstd::prelude::*;
use crate::commands::CliError;
use crate::git::DEFAULT_BRANCH_TARGET;
use crate::metadata::{LayerView, StackMetadata, StackView};

verus! {

/// The arguments of `stack init`.
#[derive(Debug)]
pub struct Args {
    /// The target branch for the stack. Defaults to `main`
    pub target: Option<String>,
    /// The name of the new stack. Defaults to the current branch name.
    pub name: Option<String>,
    /// Overwrite the stack if it already exists
    pub force: bool,
    /// The git reference for the base of the new stack. Defaults to the current HEAD.
    pub base: Option<String>,
}

/// What a new stack is made of.
#[derive(Debug)]
pub struct InitPlan {
    /// The branch the stack targets.
    pub target: String,
    /// The stack's name.
    pub name: String,
    /// The branch that becomes the bottom layer.
    pub branch: String,
}

/// The target of a new stack: the given one, else `main`.
pub open spec fn target_spec(target: Option<String>) -> Seq<char> {
    match target {
        Some(t) => t@,
        None => DEFAULT_BRANCH_TARGET@,
    }
}

impl Args {
    /// Decides the target, the name and the bottom branch of the new stack
    /// from the arguments and the branch checked out (`None` when HEAD is
    /// detached): a stack cannot target its own bottom branch.
    pub fn plan(&self, current_branch: Option<String>) -> (res: Result<InitPlan, CliError>)
        ensures
            match current_branch {
                None => res matches Err(CliError::NotOnBranch),
                Some(b) => if b@ == target_spec(self.target) {
                    res matches Err(CliError::TargetBranchMatchesCurrent)
                } else {
                    res matches Ok(p) && p.target@ == target_spec(self.target) && p.branch == b
                        && p.name@ == (match self.name {
                        Some(n) => n@,
                        None => b@,
                    })
                },
            },
    {
        let target = match &self.target {
            Some(t) => t.clone(),
            None => DEFAULT_BRANCH_TARGET.to_owned(),
        };
        let branch = match current_branch {
            Some(b) => b,
            None => return Err(CliError::NotOnBranch),
        };
        if branch == target {
            return Err(CliError::TargetBranchMatchesCurrent);
        }
        let name = match &self.name {
            Some(n) => n.clone(),
            None => branch.clone(),
        };
        Ok(InitPlan { target, name, branch })
    }
}

/// An existing stack of that name is only replaced when forced.
pub fn refuse_existing(name: &String, exists: bool, force: bool) -> (res: Result<(), CliError>)
    ensures
        exists && !force ==> (res matches Err(CliError::StackExists(n)) && n == *name),
        !(exists && !force) ==> res is Ok,
{
    if exists && !force {
        Err(CliError::StackExists(name.clone()))
    } else {
        Ok(())
    }
}

/// The description of the new stack: its target, and one layer on the
/// bottom branch based at the given base (else at HEAD).
pub fn build(plan: &InitPlan, base: Option<String>, head: String) -> (res: StackMetadata)
    ensures
        res@ == (StackView {
            version: 1,
            target: plan.target@,
            layers: seq![LayerView { branch: plan.branch@, base_oid: match base { Some(b) => b@, None => head@ } }],
        }),
{
    let base = match base {
        Some(b) => b,
        None => head,
    };
    let mut metadata = StackMetadata::new(plan.target.clone());
    let added = metadata.add_layer(&plan.branch, &base);
    proof {
        assert(!crate::metadata::has_branch(Seq::<LayerView>::empty(), plan.branch@));
        assert(added is Ok);
        assert(metadata@.layers =~= seq![LayerView { branch: plan.branch@, base_oid: base@ }]);
    }
    metadata
}

} // verus!
