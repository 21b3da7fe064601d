//! `stack insert`: adding an existing branch to a stack as a new layer.
use vstd::prelude::*;
use crate::commands::CliError;
use crate::metadata::{LayerView, StackMetadata, has_branch, is_first_position};

verus! {

/// The arguments of `stack insert`.
#[derive(Debug)]
pub struct Args {
    /// The name of the stack to insert the new layer into.
    pub name: String,
    /// The name of the branch to insert into the stack
    pub branch: Option<String>,
    /// The position at which to insert the new layer (0 = bottom). If
    /// omitted, the new layer is added to the top of the stack.
    pub at: Option<usize>,
    /// The name of the layer that this layer should be inserted before.
    pub before: Option<String>,
    /// The name of the layer that this layer should be inserted after.
    pub after: Option<String>,
    /// The base of the new layer (the commit it was forked from). If
    /// omitted, it is inferred as the merge-base of the branch and the layer
    /// directly below the insertion point (or the stack target at the bottom).
    pub from: Option<String>,
}

/// The description of "the stack target" as a base candidate.
pub const TARGET_DESCRIPTION: &'static str = "the stack target";

/// A branch name in single quotes.
pub open spec fn quoted_spec(s: Seq<char>) -> Seq<char> {
    "'"@ + s + "'"@
}

/// A branch name in single quotes.
pub fn quoted(s: &String) -> (res: String)
    ensures
        res@ == quoted_spec(s@),
{
    let mut res = "'".to_owned();
    res.append(s.as_str());
    res.append("'");
    res
}

impl Args {
    /// The branch to insert: the given one, else the branch checked out
    /// (`current`, `None` when HEAD is detached).
    pub fn layer_branch(&self, current: Option<String>) -> (res: Result<String, CliError>)
        ensures
            match self.branch {
                Some(b) => res == Ok::<String, CliError>(b),
                None => match current {
                    Some(c) => res == Ok::<String, CliError>(c),
                    None => res matches Err(CliError::NotOnBranch),
                },
            },
    {
        match &self.branch {
            Some(b) => Ok(b.clone()),
            None => match current {
                Some(c) => Ok(c),
                None => Err(CliError::NotOnBranch),
            },
        }
    }

    /// Where the new layer goes (`None` = top of the stack): `--at` as
    /// given, just below the `--before` layer's position, or just above the
    /// `--after` layer; a named layer that is not in the stack is an error.
    pub fn position(&self, stack: &StackMetadata) -> (res: Result<Option<usize>, CliError>)
        ensures
            match (self.at, self.before, self.after) {
                (Some(at), _, _) => res == Ok::<Option<usize>, CliError>(Some(at)),
                (None, Some(before), _) => if has_branch(stack@.layers, before@) {
                    res matches Ok(Some(p)) && is_first_position(stack@.layers, before@, p as int)
                } else {
                    res matches Err(CliError::LayerNotFound(l)) && l == before
                },
                (None, None, Some(after)) => if has_branch(stack@.layers, after@) {
                    res matches Ok(Some(p)) && p >= 1 && is_first_position(stack@.layers, after@, p - 1)
                } else {
                    res matches Err(CliError::LayerNotFound(l)) && l == after
                },
                (None, None, None) => res == Ok::<Option<usize>, CliError>(None),
            },
    {
        if let Some(at) = self.at {
            Ok(Some(at))
        } else if let Some(before) = &self.before {
            match stack.get_position(before) {
                Some(p) => Ok(Some(p)),
                None => Err(CliError::LayerNotFound(before.clone())),
            }
        } else if let Some(after) = &self.after {
            match stack.get_position(after) {
                Some(p) => {
                    let n = stack.layers.len();
                    assert(stack@.layers.len() == n);
                    Ok(Some(p + 1))
                },
                None => Err(CliError::LayerNotFound(after.clone())),
            }
        } else {
            Ok(None)
        }
    }
}

/// The ref whose merge-base with the new branch is the new layer's base,
/// and how to name it: the target at the bottom, else the layer directly
/// below the insertion point (the top layer when the position lies beyond
/// the top).
pub open spec fn candidate_spec(target: Seq<char>, layers: Seq<LayerView>, position: Option<usize>) -> (Seq<char>, Seq<char>) {
    let pos = match position {
        Some(p) => p as int,
        None => layers.len() as int,
    };
    if pos == 0 || layers.len() == 0 {
        (target, TARGET_DESCRIPTION@)
    } else {
        let below = if pos - 1 < layers.len() { layers[pos - 1] } else { layers.last() };
        (below.branch, quoted_spec(below.branch))
    }
}

/// A new layer's base is inferred from the layer directly below its
/// position: for a stack with at least one layer and any position other than
/// the bottom (no position meaning the top), the candidate is the branch of
/// layer `min(position, size) - 1`, named in quotes. The stack target is the
/// candidate only at the bottom or when the stack has no layer.
pub proof fn lemma_candidate_is_layer_below(target: Seq<char>, layers: Seq<LayerView>, position: Option<usize>)
    ensures
        layers.len() > 0 && position != Some(0usize) ==> ({
            let pos = match position { Some(p) => p as int, None => layers.len() as int };
            let k = if pos < layers.len() { pos - 1 } else { layers.len() - 1 };
            candidate_spec(target, layers, position) == (layers[k].branch, "'"@ + layers[k].branch + "'"@)
        }),
        candidate_spec(target, layers, position).0 == target ==> position == Some(0usize) || layers.len() == 0
            || has_branch(layers, target),
        position == Some(0usize) || layers.len() == 0 ==> candidate_spec(target, layers, position)
            == (target, TARGET_DESCRIPTION@),
{
    let pos = match position { Some(p) => p as int, None => layers.len() as int };
    if layers.len() > 0 && position != Some(0usize) {
        let k = if pos < layers.len() { pos - 1 } else { layers.len() - 1 };
        assert(0 <= k < layers.len());
        if candidate_spec(target, layers, position).0 == target {
            assert(layers[k].branch == target);
        }
    }
}

/// The candidate the base of a new layer is inferred from.
pub fn base_candidate(stack: &StackMetadata, position: Option<usize>) -> (res: (String, String))
    ensures
        (res.0@, res.1@) == candidate_spec(stack@.target, stack@.layers, position),
        position == Some(0usize) || stack@.layers.len() == 0 ==> res.0@ == stack@.target
            && res.1@ == TARGET_DESCRIPTION@,
        position != Some(0usize) && stack@.layers.len() > 0 ==> ({
            let pos = match position { Some(p) => p as int, None => stack@.layers.len() as int };
            let k = if pos < stack@.layers.len() { pos - 1 } else { stack@.layers.len() - 1 };
            &&& res.0@ == stack@.layers[k].branch
            &&& res.1@ == "'"@ + stack@.layers[k].branch + "'"@
        }),
{
    let pos = match position {
        Some(p) => p,
        None => stack.layers.len(),
    };
    if pos == 0 || stack.layers.len() == 0 {
        return (stack.target.clone(), TARGET_DESCRIPTION.to_owned());
    }
    let index = if pos - 1 < stack.layers.len() { pos - 1 } else { stack.layers.len() - 1 };
    let below = &stack.layers[index];
    (below.branch.clone(), quoted(&below.branch))
}

/// The inferred base: the merge-base found with the candidate, or an error
/// naming the candidate when the branch shares no ancestor with it.
pub fn inferred_base(branch: &String, candidate_description: &String, merge_base: Option<String>) -> (res: Result<String, CliError>)
    ensures
        match merge_base {
            Some(b) => res == Ok::<String, CliError>(b),
            None => res matches Err(CliError::BaseUndeterminable { branch: b, candidate: c })
                && b == *branch && c == *candidate_description,
        },
{
    match merge_base {
        Some(b) => Ok(b),
        None => Err(CliError::BaseUndeterminable { branch: branch.clone(), candidate: candidate_description.clone() }),
    }
}

/// The base of the new layer: the commit `--from` resolved to when it was
/// given (`resolved_from`), else the merge-base found with the candidate
/// (`merge_base`, `None` when there is none), which is then required.
pub fn choose_base(
    resolved_from: Option<String>,
    branch: &String,
    candidate_description: &String,
    merge_base: Option<String>,
) -> (res: Result<String, CliError>)
    ensures
        match resolved_from {
            Some(r) => res == Ok::<String, CliError>(r),
            None => match merge_base {
                Some(b) => res == Ok::<String, CliError>(b),
                None => res matches Err(CliError::BaseUndeterminable { branch: b, candidate: c })
                    && b == *branch && c == *candidate_description,
            },
        },
{
    match resolved_from {
        Some(r) => Ok(r),
        None => inferred_base(branch, candidate_description, merge_base),
    }
}

/// Adds the layer at its position (or on top).
pub fn insert_layer(stack: &mut StackMetadata, branch: &String, base: &String, position: Option<usize>) -> (res: Result<(), CliError>)
    ensures
        final(stack).target == old(stack).target,
        final(stack).version == old(stack).version,
        ({
            let pos = match position { Some(p) => p as int, None => old(stack)@.layers.len() as int };
            &&& has_branch(old(stack)@.layers, branch@) ==> (res matches Err(CliError::AddLayerError(crate::metadata::AddLayerError::LayerExists(b))) && b@ == branch@ && final(stack)@ == old(stack)@)
            &&& !has_branch(old(stack)@.layers, branch@) && pos > old(stack)@.layers.len() ==> (res matches Err(CliError::AddLayerError(crate::metadata::AddLayerError::PositionOutOfBounds { position: p, size: s })) && p == pos && s == old(stack)@.layers.len() && final(stack)@ == old(stack)@)
            &&& !has_branch(old(stack)@.layers, branch@) && pos <= old(stack)@.layers.len() ==> (res is Ok && final(stack)@.layers == old(stack)@.layers.insert(pos, LayerView { branch: branch@, base_oid: base@ }))
        }),
{
    let added = match position {
        Some(p) => stack.add_layer_at(branch, base, p),
        None => {
            let ghost before = stack@.layers;
            let r = stack.add_layer(branch, base);
            proof {
                assert(before.insert(before.len() as int, LayerView { branch: branch@, base_oid: base@ }) =~= before.push(LayerView { branch: branch@, base_oid: base@ }));
            }
            r
        },
    };
    match added {
        Ok(()) => Ok(()),
        Err(e) => Err(CliError::AddLayerError(e)),
    }
}

/// `--before L` puts the new layer directly below `L`, and `--after L`
/// directly above it: inserting at the position `position` chose, the new
/// layer and `L` end up next to each other in that order.
pub proof fn lemma_before_after_neighbours(layers: Seq<LayerView>, named: Seq<char>, p: int, layer: LayerView)
    requires
        is_first_position(layers, named, p),
    ensures
        layers.insert(p, layer)[p] == layer,
        layers.insert(p, layer)[p + 1].branch == named,
        layers.insert(p + 1, layer)[p].branch == named,
        layers.insert(p + 1, layer)[p + 1] == layer,
{
}

} // verus!
