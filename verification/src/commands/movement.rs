//! `stack up`/`down`/`top`/`bottom`: which layer to check out next.
use vstd::prelude::*;
use crate::commands::CliError;
use crate::metadata::{LayerView, StackMetadata, branches_unique, has_branch, is_first_position};

verus! {

/// A move within the stack.
#[derive(Debug, PartialEq, Eq)]
pub enum Move {
    /// To the layer above the current one (no-op at the top).
    Up,
    /// To the layer below the current one (no-op at the bottom).
    Down,
    /// To the top layer.
    Top,
    /// To the bottom layer.
    Bottom,
}

/// The position of the layer on `branch` (meaningful when the stack has one).
pub open spec fn position_spec(layers: Seq<LayerView>, branch: Seq<char>) -> int {
    choose|p: int| is_first_position(layers, branch, p)
}

/// Where a move from the layer on `current` leads: `Err` when the stack
/// has no layer to move from or to, `Ok(None)` to stay, `Ok(Some(b))` to
/// check out branch `b`. The bottom layer is layer 0.
pub open spec fn move_spec(layers: Seq<LayerView>, current: Seq<char>, mv: Move) -> Result<Option<Seq<char>>, ()> {
    match mv {
        Move::Top => if layers.len() == 0 { Err(()) } else { Ok(Some(layers.last().branch)) },
        Move::Bottom => if layers.len() == 0 { Err(()) } else { Ok(Some(layers[0].branch)) },
        Move::Up => if !has_branch(layers, current) {
            Err(())
        } else {
            let p = position_spec(layers, current);
            if p + 1 == layers.len() { Ok(None) } else { Ok(Some(layers[p + 1].branch)) }
        },
        Move::Down => if !has_branch(layers, current) {
            Err(())
        } else {
            let p = position_spec(layers, current);
            if p == 0 { Ok(None) } else { Ok(Some(layers[p - 1].branch)) }
        },
    }
}

/// The view of a move's outcome; every failure is `NoStack`.
pub open spec fn outcome_view(res: Result<Option<String>, CliError>) -> Result<Option<Seq<char>>, ()> {
    match res {
        Ok(Some(b)) => Ok(Some(b@)),
        Ok(None) => Ok(None),
        Err(_) => Err(()),
    }
}

/// The branch to check out for a move up (or down) from the layer on
/// `current` (`Ok(None)`: stay where you are).
fn step_from(stack: &StackMetadata, current: &String, upward: bool) -> (res: Result<Option<String>, CliError>)
    ensures
        outcome_view(res) == move_spec(stack@.layers, current@, if upward { Move::Up } else { Move::Down }),
        res is Err ==> res matches Err(CliError::NoStack),
        forall|p: int| #[trigger] is_first_position(stack@.layers, current@, p) ==> {
            &&& upward && p + 1 < stack@.layers.len() ==> (res matches Ok(Some(b)) && b@ == stack@.layers[p + 1].branch)
            &&& upward && p + 1 == stack@.layers.len() ==> (res matches Ok(None))
            &&& !upward && p > 0 ==> (res matches Ok(Some(b)) && b@ == stack@.layers[p - 1].branch)
            &&& !upward && p == 0 ==> (res matches Ok(None))
        },
{
    let n = stack.layers.len();
    assert(stack@.layers.len() == n);
    match stack.get_position(current) {
        None => Err(CliError::NoStack),
        Some(p) => {
            proof {
                crate::metadata::lemma_first_position_unique(stack@.layers, current@, p as int, position_spec(stack@.layers, current@));
                assert forall|q: int| #[trigger] is_first_position(stack@.layers, current@, q) implies q == p by {
                    crate::metadata::lemma_first_position_unique(stack@.layers, current@, p as int, q);
                }
            }
            if upward {
                if p + 1 == n {
                    Ok(None)
                } else {
                    assert(stack@.layers[p + 1] == stack.layers@[p + 1]@);
                    Ok(Some(stack.layers[p + 1].branch.clone()))
                }
            } else {
                if p == 0 {
                    Ok(None)
                } else {
                    assert(stack@.layers[p - 1] == stack.layers@[p - 1]@);
                    Ok(Some(stack.layers[p - 1].branch.clone()))
                }
            }
        },
    }
}

/// The layer to check out for `stack up`: the one above the current layer
/// (`Ok(None)` at the top, where nothing moves).
pub fn up(stack: &StackMetadata, current: &String) -> (res: Result<Option<String>, CliError>)
    ensures
        outcome_view(res) == move_spec(stack@.layers, current@, Move::Up),
        res is Err ==> res matches Err(CliError::NoStack),
        forall|p: int| #[trigger] is_first_position(stack@.layers, current@, p) ==> {
            &&& p + 1 < stack@.layers.len() ==> (res matches Ok(Some(b)) && b@ == stack@.layers[p + 1].branch)
            &&& p + 1 == stack@.layers.len() ==> (res matches Ok(None))
        },
{
    step_from(stack, current, true)
}

/// The layer to check out for `stack down`: the one below the current
/// layer (`Ok(None)` at the bottom, where nothing moves).
pub fn down(stack: &StackMetadata, current: &String) -> (res: Result<Option<String>, CliError>)
    ensures
        outcome_view(res) == move_spec(stack@.layers, current@, Move::Down),
        res is Err ==> res matches Err(CliError::NoStack),
        forall|p: int| #[trigger] is_first_position(stack@.layers, current@, p) ==> {
            &&& p > 0 ==> (res matches Ok(Some(b)) && b@ == stack@.layers[p - 1].branch)
            &&& p == 0 ==> (res matches Ok(None))
        },
{
    step_from(stack, current, false)
}

/// The layer to check out for `stack top`: the top layer.
pub fn top(stack: &StackMetadata) -> (res: Result<String, CliError>)
    ensures
        stack@.layers.len() == 0 ==> res matches Err(CliError::NoStack),
        stack@.layers.len() > 0 ==> (res matches Ok(b) && b@ == stack@.layers.last().branch),
{
    let n = stack.layers.len();
    if n == 0 {
        Err(CliError::NoStack)
    } else {
        assert(stack@.layers.last() == stack.layers@[n - 1]@);
        Ok(stack.layers[n - 1].branch.clone())
    }
}

/// The layer to check out for `stack bottom`: the bottom layer.
pub fn bottom(stack: &StackMetadata) -> (res: Result<String, CliError>)
    ensures
        stack@.layers.len() == 0 ==> res matches Err(CliError::NoStack),
        stack@.layers.len() > 0 ==> (res matches Ok(b) && b@ == stack@.layers[0].branch),
{
    if stack.layers.len() == 0 {
        Err(CliError::NoStack)
    } else {
        assert(stack@.layers[0] == stack.layers@[0]@);
        Ok(stack.layers[0].branch.clone())
    }
}

/// In a stack whose branches are unique, the first position of a layer's
/// branch is that layer's index.
proof fn lemma_position_of_index(layers: Seq<LayerView>, i: int)
    requires
        branches_unique(layers),
        0 <= i < layers.len(),
    ensures
        has_branch(layers, layers[i].branch),
        is_first_position(layers, layers[i].branch, i),
        position_spec(layers, layers[i].branch) == i,
{
    assert(is_first_position(layers, layers[i].branch, i));
    let p = position_spec(layers, layers[i].branch);
    crate::metadata::lemma_first_position_unique(layers, layers[i].branch, p, i);
}

/// Moving up and then down, or down and then up, comes back to the layer
/// you started from (in a stack whose branches are unique).
pub proof fn lemma_up_down_return(layers: Seq<LayerView>, current: Seq<char>)
    requires
        branches_unique(layers),
    ensures
        move_spec(layers, current, Move::Up) matches Ok(Some(b)) ==> move_spec(layers, b, Move::Down)
            == Ok::<Option<Seq<char>>, ()>(Some(current)),
        move_spec(layers, current, Move::Down) matches Ok(Some(b)) ==> move_spec(layers, b, Move::Up)
            == Ok::<Option<Seq<char>>, ()>(Some(current)),
{
    if has_branch(layers, current) {
        let i = choose|i: int| 0 <= i < layers.len() && #[trigger] layers[i].branch == current;
        lemma_position_of_index(layers, i);
        if i + 1 < layers.len() {
            lemma_position_of_index(layers, i + 1);
        }
        if i > 0 {
            lemma_position_of_index(layers, i - 1);
        }
    }
}

/// In a stack whose branches are unique, `up` from any layer below the top
/// leads to the layer directly above it, and `down` from any layer above the
/// bottom to the layer directly below it; only the top layer stays put on
/// `up`, and only the bottom layer on `down`.
pub proof fn lemma_step_neighbours(layers: Seq<LayerView>, p: int)
    requires
        branches_unique(layers),
        0 <= p < layers.len(),
    ensures
        p + 1 < layers.len() ==> move_spec(layers, layers[p].branch, Move::Up)
            == Ok::<Option<Seq<char>>, ()>(Some(layers[p + 1].branch)),
        p + 1 == layers.len() ==> move_spec(layers, layers[p].branch, Move::Up)
            == Ok::<Option<Seq<char>>, ()>(None),
        p > 0 ==> move_spec(layers, layers[p].branch, Move::Down)
            == Ok::<Option<Seq<char>>, ()>(Some(layers[p - 1].branch)),
        p == 0 ==> move_spec(layers, layers[p].branch, Move::Down) == Ok::<Option<Seq<char>>, ()>(None),
{
    lemma_position_of_index(layers, p);
}

/// `top` and `bottom` always lead to a layer of a non-empty stack, and
/// `up` never moves past the top nor `down` past the bottom: at the top
/// layer `up` stays, at the bottom layer `down` stays.
pub proof fn lemma_ends_stay(layers: Seq<LayerView>)
    requires
        branches_unique(layers),
        layers.len() > 0,
    ensures
        move_spec(layers, layers.last().branch, Move::Up) == Ok::<Option<Seq<char>>, ()>(None),
        move_spec(layers, layers[0].branch, Move::Down) == Ok::<Option<Seq<char>>, ()>(None),
        move_spec(layers, layers[0].branch, Move::Top) == Ok::<Option<Seq<char>>, ()>(Some(layers.last().branch)),
        move_spec(layers, layers.last().branch, Move::Bottom) == Ok::<Option<Seq<char>>, ()>(Some(layers[0].branch)),
{
    lemma_position_of_index(layers, layers.len() - 1);
    lemma_position_of_index(layers, 0);
}

} // verus!
