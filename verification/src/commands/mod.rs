//! The commands of the stack tool: the decisions each one takes.
pub mod consistency;
pub mod restack;
pub mod delete;
pub mod init;
pub mod insert;
pub mod list;
pub mod movement;
pub mod remove;
pub mod status;

use vstd::prelude::*;
use crate::git::GitRepoError;
use crate::metadata::{AddLayerError, Stack, STACK_METADATA_PATH};
use vstd::string::StrSliceExecFns;

verus! {

/// Why a command failed.
#[derive(Debug)]
pub enum CliError {
    NotOnBranch,
    NoStack,
    UnsupportedSubcommand,
    TargetBranchMatchesCurrent,
    StackExists(String),
    StackNotFound(String),
    LayerNotFound(String),
    BaseUndeterminable { branch: String, candidate: String },
    IoError(std::io::Error),
    AddLayerError(AddLayerError),
    GitRepoError(GitRepoError),
    RestackError(crate::commands::restack::Error),
}

/// A path with a segment appended: an absolute segment replaces the path, a
/// relative one follows it after a `/` (unless the path is empty or already
/// ends with one).
pub open spec fn join_spec(base: Seq<char>, segment: Seq<char>) -> Seq<char> {
    if segment.len() > 0 && segment[0] == '/' {
        segment
    } else if base.len() == 0 {
        segment
    } else if base.last() == '/' {
        base + segment
    } else {
        base + "/"@ + segment
    }
}

/// Appends a segment to a path.
pub fn join_path(base: &String, segment: &str) -> (res: String)
    ensures
        res@ == join_spec(base@, segment@),
{
    proof {
        reveal_strlit("/");
    }
    let n = segment.unicode_len();
    if n > 0 && segment.get_char(0) == '/' {
        return segment.to_owned();
    }
    let m = base.as_str().unicode_len();
    if m == 0 {
        return segment.to_owned();
    }
    let mut res = base.clone();
    if base.as_str().get_char(m - 1) != '/' {
        res.append("/");
    }
    res.append(segment);
    res
}

/// The git folder of a repository: its git directory as git reports it,
/// taken relative to the top of the working tree.
pub fn repo_git_folder(repo_path: &String, git_dir: &String) -> (res: String)
    ensures
        res@ == join_spec(repo_path@, git_dir@),
{
    join_path(repo_path, git_dir.as_str())
}

/// The folder `<git folder>/stack/<sub>` that holds the tool's state.
pub fn get_stack_metadata_path(git_folder: &String, sub: &str) -> (res: String)
    ensures
        res@ == join_spec(join_spec(git_folder@, STACK_METADATA_PATH@), sub@),
{
    let datadir = join_path(git_folder, STACK_METADATA_PATH);
    join_path(&datadir, sub)
}

/// Where a command runs: the working directory and the repository's git folder.
#[derive(Debug)]
pub struct Ctx {
    pub cwd: String,
    pub git_folder: String,
}

/// The name of the folder of stack descriptions inside the tool's folder.
pub const STACKS_FOLDER: &'static str = "stacks";

impl Ctx {
    /// The folder of the stack descriptions: `<git folder>/stack/stacks`.
    pub fn stack_folder(&self) -> (res: String)
        ensures
            res@ == join_spec(join_spec(self.git_folder@, STACK_METADATA_PATH@), STACKS_FOLDER@),
    {
        get_stack_metadata_path(&self.git_folder, STACKS_FOLDER)
    }

    /// The tool's folder: `<git folder>/stack`.
    pub fn stack_datadir(&self) -> (res: String)
        ensures
            res@ == join_spec(self.git_folder@, STACK_METADATA_PATH@),
    {
        join_path(&self.git_folder, STACK_METADATA_PATH)
    }
}

/// The description file of a stack: `<name>.json` in the stacks folder.
pub fn stack_file(ctx: &Ctx, name: &String) -> (res: String)
    ensures
        res@ == join_spec(join_spec(join_spec(ctx.git_folder@, STACK_METADATA_PATH@), STACKS_FOLDER@), name@ + crate::commands::list::JSON_SUFFIX@),
{
    let folder = ctx.stack_folder();
    let mut file = name.clone();
    file.append(crate::commands::list::JSON_SUFFIX);
    join_path(&folder, file.as_str())
}

/// Stack `s` has a layer on `branch`.
pub open spec fn stack_holds(s: Stack, branch: Seq<char>) -> bool {
    crate::metadata::has_branch(s.metadata@.layers, branch)
}

/// The stack that the current branch belongs to: the first of `stacks`
/// that has a layer on `branch`.
pub fn stack_for_branch(stacks: &Vec<Stack>, branch: &String) -> (res: Option<usize>)
    ensures
        match res {
            Some(i) => i < stacks.len() && stack_holds(stacks@[i as int], branch@) && forall|j: int|
                0 <= j < i ==> !stack_holds(#[trigger] stacks@[j], branch@),
            None => forall|j: int| 0 <= j < stacks.len() ==> !stack_holds(#[trigger] stacks@[j], branch@),
        },
{
    let mut i: usize = 0;
    while i < stacks.len()
        invariant
            i <= stacks.len(),
            forall|j: int| 0 <= j < i ==> !stack_holds(#[trigger] stacks@[j], branch@),
        decreases stacks.len() - i,
    {
        if stacks[i].metadata.get_position(branch).is_some() {
            return Some(i);
        }
        i += 1;
    }
    None
}

} // verus!
