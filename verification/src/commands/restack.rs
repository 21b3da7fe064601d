//! Restack and advance: the guards that run before anything is touched,
//! the layer-by-layer replay engine, the final metadata, and undo.
use vstd::prelude::*;
use crate::commands::consistency::LayerCheck;
use crate::metadata::{
    LayerMetadata, LayerView, Stack, StackMetadata, layers_view, clone_option_string,
};

verus! {

/// Why a restack or advance stopped.
#[derive(Debug)]
pub enum Error {
    FailedToWriteUndoSnapshot,
    FailedToWriteState,
    UndoSnapshotNotFound,
    NoInFlightOperation { op: String },
    OperationInFlight { op: String },
    ConflictsNotResolved { branch: String },
    InconsistentLayer { branch: String, base: String },
    EmptyLayer { branch: String, base: String },
    RestackConflict { branch: String, op: String, details: String },
    TargetBehindBottom { target: String, target_oid: String, branch: String, bottom_tip: String },
    /// Layers that would survive an advance are out of date, broken or
    /// missing; these are their branches, bottom-up.
    StackNotUpToDate { layers: Vec<String> },
}

/// Snapshot kept by the last completed restack.
pub const RESTACK_SNAPSHOT_FILE: &'static str = "undo_snapshot.json";

/// Snapshot kept by the last completed advance.
pub const ADVANCE_SNAPSHOT_FILE: &'static str = "advance_undo_snapshot.json";

/// The single in-flight operation state file.
pub const STATE_FILE: &'static str = "restack_state.json";

/// The name of the advance operation.
pub const ADVANCE_OP: &'static str = "advance";

/// The name of the restack operation.
pub const RESTACK_OP: &'static str = "restack";

/// The snapshot file that belongs to an operation: advance has its own,
/// every other operation uses the restack snapshot.
pub open spec fn snapshot_file_spec(op: Seq<char>) -> Seq<char> {
    if op == ADVANCE_OP@ {
        ADVANCE_SNAPSHOT_FILE@
    } else {
        RESTACK_SNAPSHOT_FILE@
    }
}

/// Snapshot file names. Restack and advance keep separate snapshots so
/// that each `--undo` reverts its own operation.
pub fn snapshot_file_for(op: &str) -> (file: &'static str)
    ensures
        file@ == snapshot_file_spec(op@),
{
    let op = op.to_owned();
    let advance = ADVANCE_OP.to_owned();
    if op == advance {
        ADVANCE_SNAPSHOT_FILE
    } else {
        RESTACK_SNAPSHOT_FILE
    }
}


/// A layer that still needs to be re-applied onto its new base.
#[derive(Debug)]
pub struct PendingLayer {
    pub branch: String,
    /// The layer's base when the operation started.
    pub old_base: String,
    /// The layer's tip when the operation started.
    pub old_tip: String,
}

/// The mathematical value of a pending layer.
pub struct PendingView {
    pub branch: Seq<char>,
    pub old_base: Seq<char>,
    pub old_tip: Seq<char>,
}

impl View for PendingLayer {
    type V = PendingView;

    open spec fn view(&self) -> PendingView {
        PendingView { branch: self.branch@, old_base: self.old_base@, old_tip: self.old_tip@ }
    }
}

impl Clone for PendingLayer {
    fn clone(&self) -> (res: Self)
        ensures
            res == *self,
    {
        PendingLayer {
            branch: self.branch.clone(),
            old_base: self.old_base.clone(),
            old_tip: self.old_tip.clone(),
        }
    }
}

/// The views of a sequence of pending layers.
pub open spec fn pending_view(p: Seq<PendingLayer>) -> Seq<PendingView> {
    p.map_values(|l: PendingLayer| l@)
}

/// The views of a sequence of strings.
pub open spec fn strings_view(s: Seq<String>) -> Seq<Seq<char>> {
    s.map_values(|x: String| x@)
}

/// The pre-operation state that `--undo` restores.
#[derive(Debug)]
pub struct UndoSnapshot {
    /// The name of the stack
    pub stack_name: String,
    /// Each layer's branch with the commit it pointed at
    pub previous_refs: Vec<(String, String)>,
    /// The branch that was checked out before the operation (if any)
    pub checked_out: Option<String>,
    /// The stack metadata before the operation
    pub metadata: StackMetadata,
}

/// The views of (branch, commit) pairs.
pub open spec fn refs_view(r: Seq<(String, String)>) -> Seq<(Seq<char>, Seq<char>)> {
    r.map_values(|p: (String, String)| (p.0@, p.1@))
}

/// Each layer's branch paired with the matching tip.
pub open spec fn zip_refs(layers: Seq<LayerView>, tips: Seq<Seq<char>>) -> Seq<(Seq<char>, Seq<char>)> {
    Seq::new(layers.len(), |i: int| (layers[i].branch, tips[i]))
}

impl UndoSnapshot {
    /// Captures a stack, the branch checked out, and the current tip of
    /// every layer (`tips[i]` is the tip of layer `i`).
    pub fn new(stack: &Stack, checked_out: &Option<String>, tips: &Vec<String>) -> (res: Self)
        requires
            tips.len() == stack.metadata.layers.len(),
        ensures
            captures(res, *stack, *checked_out, strings_view(tips@)),
    {
        let layers = &stack.metadata.layers;
        let mut previous_refs: Vec<(String, String)> = Vec::new();
        let mut i: usize = 0;
        while i < layers.len()
            invariant
                i <= layers.len(),
                layers == stack.metadata.layers,
                tips.len() == layers.len(),
                refs_view(previous_refs@) == zip_refs(stack.metadata@.layers, strings_view(tips@)).take(i as int),
            decreases layers.len() - i,
        {
            let ghost before = previous_refs@;
            let pair = (layers[i].branch.clone(), tips[i].clone());
            previous_refs.push(pair);
            proof {
                let z = zip_refs(stack.metadata@.layers, strings_view(tips@));
                assert(stack.metadata@.layers[i as int] == layers@[i as int]@);
                assert(strings_view(tips@)[i as int] == tips@[i as int]@);
                assert(refs_view(previous_refs@) =~= refs_view(before).push((pair.0@, pair.1@)));
                assert(z.take(i + 1) =~= z.take(i as int).push(z[i as int]));
            }
            i += 1;
        }
        assert(refs_view(previous_refs@) =~= zip_refs(stack.metadata@.layers, strings_view(tips@)));
        UndoSnapshot {
            stack_name: stack.name.clone(),
            previous_refs,
            checked_out: clone_option_string(checked_out),
            metadata: stack.metadata.clone(),
        }
    }
}

/// Each layer paired with its tip.
pub open spec fn with_tips(layers: Seq<LayerView>, tips: Seq<Seq<char>>) -> Seq<(LayerView, Seq<char>)> {
    Seq::new(layers.len(), |i: int| (layers[i], tips[i]))
}

/// The layers (with their tips) that take part in an operation: every layer
/// except those on the dropped branch, in order.
pub open spec fn kept_spec(
    layers: Seq<LayerView>,
    tips: Seq<Seq<char>>,
    dropped: Option<Seq<char>>,
) -> Seq<(LayerView, Seq<char>)> {
    with_tips(layers, tips).filter(|p: (LayerView, Seq<char>)| dropped != Some(p.0.branch))
}

/// The view of an optional string.
pub open spec fn opt_view(s: Option<String>) -> Option<Seq<char>> {
    match s {
        Some(v) => Some(v@),
        None => None,
    }
}

/// The layers that an operation re-applies, each with its tip (`tips[i]` is
/// the tip of `layers[i]`): for advance, the dropped bottom layer is left
/// out so that the new bottom lands directly on the target.
pub fn kept_layers(layers: &Vec<LayerMetadata>, dropped: &Option<String>, tips: &Vec<String>) -> (res: (
    Vec<LayerMetadata>,
    Vec<String>,
))
    requires
        tips.len() == layers.len(),
    ensures
        res.0.len() == res.1.len(),
        layers_view(res.0@) == kept_spec(layers_view(layers@), strings_view(tips@), opt_view(*dropped)).map_values(
            |p: (LayerView, Seq<char>)| p.0,
        ),
        strings_view(res.1@) == kept_spec(layers_view(layers@), strings_view(tips@), opt_view(*dropped)).map_values(
            |p: (LayerView, Seq<char>)| p.1,
        ),
{
    let ghost pred = |p: (LayerView, Seq<char>)| opt_view(*dropped) != Some(p.0.branch);
    let ghost all = with_tips(layers_view(layers@), strings_view(tips@));
    let mut kept: Vec<LayerMetadata> = Vec::new();
    let mut kept_tips: Vec<String> = Vec::new();
    let mut i: usize = 0;
    while i < layers.len()
        invariant
            i <= layers.len(),
            tips.len() == layers.len(),
            all == with_tips(layers_view(layers@), strings_view(tips@)),
            pred == (|p: (LayerView, Seq<char>)| opt_view(*dropped) != Some(p.0.branch)),
            kept.len() == kept_tips.len(),
            layers_view(kept@) == all.take(i as int).filter(pred).map_values(|p: (LayerView, Seq<char>)| p.0),
            strings_view(kept_tips@) == all.take(i as int).filter(pred).map_values(|p: (LayerView, Seq<char>)| p.1),
        decreases layers.len() - i,
    {
        let keep = match dropped {
            Some(d) => !(layers[i].branch == *d),
            None => true,
        };
        let ghost before = kept@;
        let ghost before_tips = kept_tips@;
        if keep {
            kept.push(layers[i].clone());
            kept_tips.push(tips[i].clone());
        }
        proof {
            assert(all.take(i + 1).drop_last() =~= all.take(i as int));
            assert(all[i as int] == (layers@[i as int]@, tips@[i as int]@));
            assert(all.take(i + 1).last() == all[i as int]);
            reveal(Seq::filter);
            match dropped {
                Some(d) => {
                    assert(opt_view(*dropped) == Some(d@));
                },
                None => {},
            }
            assert(keep == pred(all[i as int]));
            let f = all.take(i as int).filter(pred);
            if keep {
                assert(all.take(i + 1).filter(pred) == f.push(all[i as int]));
                assert(layers_view(kept@) =~= layers_view(before).push(layers@[i as int]@));
                assert(strings_view(kept_tips@) =~= strings_view(before_tips).push(tips@[i as int]@));
                assert(f.push(all[i as int]).map_values(|p: (LayerView, Seq<char>)| p.0)
                    =~= f.map_values(|p: (LayerView, Seq<char>)| p.0).push(all[i as int].0));
                assert(f.push(all[i as int]).map_values(|p: (LayerView, Seq<char>)| p.1)
                    =~= f.map_values(|p: (LayerView, Seq<char>)| p.1).push(all[i as int].1));
            } else {
                assert(all.take(i + 1).filter(pred) == f);
            }
        }
        i += 1;
    }
    proof {
        assert(all.take(layers.len() as int) =~= all);
    }
    (kept, kept_tips)
}

/// Advance leaves the dropped layer's branch alone: no layer that the
/// operation re-applies is on that branch.
pub proof fn lemma_dropped_branch_untouched(layers: Seq<LayerView>, tips: Seq<Seq<char>>, dropped: Seq<char>)
    requires
        layers.len() == tips.len(),
    ensures
        forall|i: int|
            0 <= i < kept_spec(layers, tips, Some(dropped)).len() ==> (#[trigger] kept_spec(
                layers,
                tips,
                Some(dropped),
            )[i]).0.branch != dropped,
{
    let pred = |p: (LayerView, Seq<char>)| Some(dropped) != Some(p.0.branch);
    let all = with_tips(layers, tips);
    assert forall|i: int| 0 <= i < kept_spec(layers, tips, Some(dropped)).len() implies (#[trigger] kept_spec(
        layers,
        tips,
        Some(dropped),
    )[i]).0.branch != dropped by {
        all.lemma_filter_pred(pred, i);
    }
}

/// Layer `i` of the plan passed both guards: it has commits of its own
/// (base differs from tip) and the answer for it says that its base is an
/// ancestor of its tip.
pub open spec fn layer_passes(kept: Seq<LayerView>, tips: Seq<Seq<char>>, answers: Seq<bool>, i: int) -> bool {
    &&& kept[i].base_oid != tips[i]
    &&& i < answers.len()
    &&& answers[i]
}

/// The guards stop at layer `k`: every layer below it passed, and it did not.
pub open spec fn stops_at(kept: Seq<LayerView>, tips: Seq<Seq<char>>, answers: Seq<bool>, k: int) -> bool {
    &&& 0 <= k < kept.len()
    &&& forall|i: int| 0 <= i < k ==> #[trigger] layer_passes(kept, tips, answers, i)
    &&& !layer_passes(kept, tips, answers, k)
}

/// The pending layers planned from layers and their tips, bottom-up.
pub open spec fn planned(kept: Seq<LayerView>, tips: Seq<Seq<char>>) -> Seq<PendingView> {
    Seq::new(kept.len(), |i: int| PendingView { branch: kept[i].branch, old_base: kept[i].base_oid, old_tip: tips[i] })
}

/// The next step of planning an operation.
#[derive(Debug)]
pub enum Plan {
    /// Ask whether `base` is an ancestor of `tip`, append the answer, and plan again.
    Ask { base: String, tip: String },
    /// A guard failed; nothing may be changed.
    Refuse(Error),
    /// Every layer passed its guards; these layers are to be re-applied, bottom-up.
    Ready(Vec<PendingLayer>),
}

/// Checks every layer before anything is changed, bottom-up: a layer whose
/// base is its own tip has nothing to re-apply (re-pointing it would drop its
/// work), and a layer whose base is not an ancestor of its tip would replay
/// other layers' commits. `tips[i]` is the tip of `kept[i]`; `answers[i]`
/// says whether the base of `kept[i]` is an ancestor of `tips[i]`, for the
/// layers asked about so far.
pub fn plan_pending(kept: &Vec<LayerMetadata>, tips: &Vec<String>, answers: &Vec<bool>) -> (res: Plan)
    requires
        tips.len() == kept.len(),
        answers.len() <= kept.len(),
    ensures
        ({
            let k = layers_view(kept@);
            let t = strings_view(tips@);
            let a = answers@;
            &&& (forall|i: int| 0 <= i < k.len() ==> #[trigger] layer_passes(k, t, a, i)) <==> res is Ready
            &&& res matches Plan::Ready(p) ==> pending_view(p@) == planned(k, t)
            &&& res matches Plan::Ask { base, tip } ==> exists|j: int|
                #[trigger] stops_at(k, t, a, j) && j == a.len() && k[j].base_oid != t[j]
                    && base@ == k[j].base_oid && tip@ == t[j]
            &&& res matches Plan::Refuse(e) ==> exists|j: int|
                #[trigger] stops_at(k, t, a, j) && (if k[j].base_oid == t[j] {
                    e matches Error::EmptyLayer { branch, base } && branch@ == k[j].branch
                        && base@ == k[j].base_oid
                } else {
                    j < a.len() && (e matches Error::InconsistentLayer { branch, base }
                        && branch@ == k[j].branch && base@ == k[j].base_oid)
                })
        }),
{
    let ghost k = layers_view(kept@);
    let ghost t = strings_view(tips@);
    let ghost a = answers@;
    let mut pending: Vec<PendingLayer> = Vec::new();
    let mut i: usize = 0;
    while i < kept.len()
        invariant
            i <= kept.len(),
            tips.len() == kept.len(),
            answers.len() <= kept.len(),
            k == layers_view(kept@),
            t == strings_view(tips@),
            a == answers@,
            forall|j: int| 0 <= j < i ==> #[trigger] layer_passes(k, t, a, j),
            pending_view(pending@) == planned(k, t).take(i as int),
        decreases kept.len() - i,
    {
        let layer = &kept[i];
        assert(k[i as int] == kept@[i as int]@);
        assert(t[i as int] == tips@[i as int]@);
        if layer.base_oid == tips[i] {
            assert(stops_at(k, t, a, i as int));
            return Plan::Refuse(Error::EmptyLayer { branch: layer.branch.clone(), base: layer.base_oid.clone() });
        }
        if i >= answers.len() {
            if i > 0 {
                assert(layer_passes(k, t, a, i - 1));
            }
            assert(i == a.len());
            assert(stops_at(k, t, a, i as int));
            return Plan::Ask { base: layer.base_oid.clone(), tip: tips[i].clone() };
        }
        if !answers[i] {
            assert(stops_at(k, t, a, i as int));
            return Plan::Refuse(Error::InconsistentLayer { branch: layer.branch.clone(), base: layer.base_oid.clone() });
        }
        let ghost before = pending@;
        let entry = PendingLayer { branch: layer.branch.clone(), old_base: layer.base_oid.clone(), old_tip: tips[i].clone() };
        pending.push(entry);
        assert(pending_view(pending@) =~= pending_view(before).push(entry@));
        assert(planned(k, t).take(i + 1) =~= planned(k, t).take(i as int).push(planned(k, t)[i as int]));
        assert(pending_view(pending@) =~= planned(k, t).take(i + 1));
        i += 1;
    }
    assert(pending_view(pending@) =~= planned(k, t));
    Plan::Ready(pending)
}

/// The in-flight restack/advance operation, persisted after every step so
/// it can be resumed (`--continue`) or rolled back (`--undo`).
#[derive(Debug)]
pub struct OpState {
    /// The operation kind: "restack" or "advance".
    pub op: String,
    /// The stack target's OID when the operation started.
    pub target_oid: String,
    /// The base the next pending layer must be re-applied onto.
    pub new_base_for_next: String,
    /// Layers left to process, bottom-up. After a conflict, the failed
    /// layer is at the front.
    pub pending: Vec<PendingLayer>,
    /// For advance: the bottom layer to remove from the final metadata.
    pub dropped: Option<String>,
    /// The pre-operation snapshot, used by `--undo`.
    pub undo: UndoSnapshot,
}

impl OpState {
    /// A fresh operation: nothing processed yet, so the first layer is to be
    /// re-applied onto the target.
    pub fn new(
        op: &str,
        target_oid: String,
        pending: Vec<PendingLayer>,
        dropped: Option<String>,
        undo: UndoSnapshot,
    ) -> (res: Self)
        ensures
            res.op@ == op@,
            res.target_oid == target_oid,
            res.new_base_for_next == target_oid,
            res.pending == pending,
            res.dropped == dropped,
            res.undo == undo,
    {
        OpState {
            op: op.to_owned(),
            new_base_for_next: target_oid.clone(),
            target_oid,
            pending,
            dropped,
            undo,
        }
    }
}

/// Where the engine stands: which answer it waits for.
#[derive(Debug)]
pub enum Phase {
    /// Waiting to learn whether the front layer's tip is contained in the new base.
    AwaitContained,
    /// Waiting for the replay of the front layer's commits onto the new base.
    AwaitReplay,
    /// Waiting for the front layer's branch to be re-pointed at `oid`.
    AwaitPointed { oid: String },
    /// Waiting for the front layer's branch tip (just pointed at `oid`) to be read back.
    AwaitTip { oid: String },
    /// Waiting for the operation state to be persisted.
    AwaitSaved,
    /// Resuming: waiting to learn whether a cherry-pick is still in progress.
    ContinueCheckPick,
    /// Resuming: waiting to learn whether conflicts remain unresolved.
    ContinueCheckUnmerged,
    /// Resuming: waiting for the interrupted cherry-pick to be completed.
    ContinueAwaitPick,
    /// Resuming: waiting for the front layer's branch to be pointed at the completed pick.
    ContinueAwaitPointed { head: String },
    /// Finished or failed; nothing more to do.
    Done,
}

/// What the engine asks its driver to do next.
#[derive(Debug)]
pub enum Action {
    /// Answer with `Event::Contained`: is `tip` an ancestor of `base`?
    CheckContained { tip: String, base: String },
    /// Detach HEAD at `onto` and cherry-pick `from..to`; answer with
    /// `Event::Replayed` (the new HEAD) or `Event::ReplayFailed`.
    Replay { onto: String, from: String, to: String },
    /// Point `branch` at `oid`, then answer `Event::Pointed`.
    PointBranch { branch: String, oid: String },
    /// Read the tip of `branch`; answer `Event::TipRead`.
    ReadTip { branch: String },
    /// Persist the engine's operation state; answer `Event::Saved`.
    Save,
    /// Is a cherry-pick in progress? Answer `Event::PickInProgress`.
    CheckPickInProgress,
    /// Are there unmerged paths? Answer `Event::Unmerged`.
    CheckUnmerged,
    /// Complete the cherry-pick in progress; answer `Event::Picked` (the new
    /// HEAD) or `Event::PickFailed`.
    ContinuePick,
    /// Every pending layer is done: write the final metadata.
    Finalize,
    /// Stop with this error; the persisted state allows `--continue`.
    Fail(Error),
}

/// The answer to the engine's last action.
#[derive(Debug)]
pub enum Event {
    Contained(bool),
    Replayed(String),
    ReplayFailed(String),
    Pointed,
    TipRead(String),
    Saved,
    PickInProgress(bool),
    Unmerged(bool),
    Picked(String),
    PickFailed(String),
}

/// The engine that re-applies the pending layers one by one, bottom-up.
#[derive(Debug)]
pub struct Processor {
    pub state: OpState,
    pub phase: Phase,
}

/// The event answers the action that put the engine in this phase.
pub open spec fn accepts(phase: Phase, event: Event) -> bool {
    match phase {
        Phase::AwaitContained => event is Contained,
        Phase::AwaitReplay => event is Replayed || event is ReplayFailed,
        Phase::AwaitPointed { .. } => event is Pointed,
        Phase::AwaitTip { .. } => event is TipRead,
        Phase::AwaitSaved => event is Saved,
        Phase::ContinueCheckPick => event is PickInProgress,
        Phase::ContinueCheckUnmerged => event is Unmerged,
        Phase::ContinueAwaitPick => event is Picked || event is PickFailed,
        Phase::ContinueAwaitPointed { .. } => event is Pointed,
        Phase::Done => false,
    }
}

/// Phases in which the engine works on the front pending layer.
pub open spec fn needs_front(phase: Phase) -> bool {
    match phase {
        Phase::AwaitContained | Phase::AwaitReplay | Phase::AwaitPointed { .. } | Phase::AwaitTip { .. }
        | Phase::ContinueCheckUnmerged | Phase::ContinueAwaitPick
        | Phase::ContinueAwaitPointed { .. } => true,
        _ => false,
    }
}

/// How the engine treats the front pending layer, given the base it must
/// now sit on: a layer without commits of its own is simply re-pointed at
/// the new base; a layer whose base did not move keeps its tip; otherwise
/// the engine first asks whether the layer's work is already contained in
/// the new base.
pub open spec fn decide(s: OpState) -> (Phase, Action) {
    if s.pending@.len() == 0 {
        (Phase::Done, Action::Finalize)
    } else {
        let next = s.pending@[0];
        if next.old_tip@ == next.old_base@ {
            (Phase::AwaitPointed { oid: s.new_base_for_next }, Action::PointBranch { branch: next.branch, oid: s.new_base_for_next })
        } else if s.new_base_for_next@ == next.old_base@ {
            (Phase::AwaitPointed { oid: next.old_tip }, Action::PointBranch { branch: next.branch, oid: next.old_tip })
        } else {
            (Phase::AwaitContained, Action::CheckContained { tip: next.old_tip, base: s.new_base_for_next })
        }
    }
}

/// The engine's transition: the phase it moves to and the action it asks for.
pub open spec fn transition(p: Processor, e: Event) -> (Phase, Action) {
    let s = p.state;
    let next = s.pending@[0];
    match (p.phase, e) {
        (Phase::AwaitContained, Event::Contained(true)) =>
            (Phase::AwaitPointed { oid: s.new_base_for_next }, Action::PointBranch { branch: next.branch, oid: s.new_base_for_next }),
        (Phase::AwaitContained, Event::Contained(false)) =>
            (Phase::AwaitReplay, Action::Replay { onto: s.new_base_for_next, from: next.old_base, to: next.old_tip }),
        (Phase::AwaitReplay, Event::Replayed(head)) =>
            (Phase::AwaitPointed { oid: head }, Action::PointBranch { branch: next.branch, oid: head }),
        (Phase::AwaitReplay, Event::ReplayFailed(details)) =>
            (Phase::Done, Action::Fail(Error::RestackConflict { branch: next.branch, op: s.op, details })),
        (Phase::AwaitPointed { oid }, Event::Pointed) => (Phase::AwaitTip { oid }, Action::ReadTip { branch: next.branch }),
        (Phase::AwaitTip { .. }, Event::TipRead(_)) => (Phase::AwaitSaved, Action::Save),
        (Phase::AwaitSaved, Event::Saved) => decide(s),
        (Phase::ContinueCheckPick, Event::PickInProgress(false)) => decide(s),
        (Phase::ContinueCheckPick, Event::PickInProgress(true)) =>
            if s.pending@.len() == 0 {
                (Phase::Done, Action::Fail(Error::NoInFlightOperation { op: s.op }))
            } else {
                (Phase::ContinueCheckUnmerged, Action::CheckUnmerged)
            },
        (Phase::ContinueCheckUnmerged, Event::Unmerged(true)) =>
            (Phase::Done, Action::Fail(Error::ConflictsNotResolved { branch: next.branch })),
        (Phase::ContinueCheckUnmerged, Event::Unmerged(false)) => (Phase::ContinueAwaitPick, Action::ContinuePick),
        (Phase::ContinueAwaitPick, Event::PickFailed(details)) =>
            (Phase::Done, Action::Fail(Error::RestackConflict { branch: next.branch, op: s.op, details })),
        (Phase::ContinueAwaitPick, Event::Picked(head)) =>
            (Phase::ContinueAwaitPointed { head }, Action::PointBranch { branch: next.branch, oid: head }),
        (Phase::ContinueAwaitPointed { head }, Event::Pointed) => (Phase::AwaitSaved, Action::Save),
        _ => (p.phase, Action::Finalize),
    }
}

/// The new base that a transition records for the next layer, when it
/// completes the front layer (which then leaves `pending`).
pub open spec fn completed_with(p: Processor, e: Event) -> Option<String> {
    match (p.phase, e) {
        (Phase::AwaitTip { .. }, Event::TipRead(tip)) => Some(tip),
        (Phase::ContinueAwaitPointed { head }, Event::Pointed) => Some(head),
        _ => None,
    }
}

/// The state after a transition: unchanged, or advanced past the front
/// layer with the given new base.
pub open spec fn state_after(s: OpState, done: Option<String>, t: OpState) -> bool {
    match done {
        None => t == s,
        Some(b) => {
            &&& t.new_base_for_next == b
            &&& t.pending@ == s.pending@.remove(0)
            &&& t.op == s.op
            &&& t.target_oid == s.target_oid
            &&& t.dropped == s.dropped
            &&& t.undo == s.undo
        },
    }
}

/// A processor is well formed when every phase that works on the front
/// layer has one.
pub open spec fn processor_wf(p: Processor) -> bool {
    needs_front(p.phase) ==> p.state.pending@.len() > 0
}

impl Processor {
    /// Starts a new operation: the state is persisted first, then the
    /// pending layers are processed.
    pub fn begin(state: OpState) -> (res: (Processor, Action))
        ensures
            res.0.state == state,
            res.0.phase == Phase::AwaitSaved,
            res.1 == Action::Save,
            processor_wf(res.0),
    {
        (Processor { state, phase: Phase::AwaitSaved }, Action::Save)
    }

    /// Resumes the in-flight operation of kind `expected_op` loaded from
    /// disk (`None` when there is none).
    pub fn resume(expected_op: &str, loaded: Option<OpState>) -> (res: Result<(Processor, Action), Error>)
        ensures
            match loaded {
                None => res matches Err(Error::NoInFlightOperation { op }) && op@ == expected_op@,
                Some(s) => if s.op@ != expected_op@ {
                    res == Err::<(Processor, Action), Error>(Error::OperationInFlight { op: s.op })
                } else {
                    res == Ok::<(Processor, Action), Error>((Processor { state: s, phase: Phase::ContinueCheckPick }, Action::CheckPickInProgress))
                },
            },
            res matches Ok(r) ==> processor_wf(r.0),
    {
        match loaded {
            None => Err(Error::NoInFlightOperation { op: expected_op.to_owned() }),
            Some(s) => {
                let expected = expected_op.to_owned();
                if s.op != expected {
                    Err(Error::OperationInFlight { op: s.op })
                } else {
                    Ok((Processor { state: s, phase: Phase::ContinueCheckPick }, Action::CheckPickInProgress))
                }
            },
        }
    }

    fn decide_exec(&mut self) -> (action: Action)
        ensures
            (final(self).phase, action) == decide(old(self).state),
            final(self).state == old(self).state,
            processor_wf(*final(self)),
    {
        if self.state.pending.len() == 0 {
            self.phase = Phase::Done;
            return Action::Finalize;
        }
        let next = &self.state.pending[0];
        if next.old_tip == next.old_base {
            let action = Action::PointBranch { branch: next.branch.clone(), oid: self.state.new_base_for_next.clone() };
            self.phase = Phase::AwaitPointed { oid: self.state.new_base_for_next.clone() };
            action
        } else if self.state.new_base_for_next == next.old_base {
            let action = Action::PointBranch { branch: next.branch.clone(), oid: next.old_tip.clone() };
            self.phase = Phase::AwaitPointed { oid: next.old_tip.clone() };
            action
        } else {
            let action = Action::CheckContained { tip: next.old_tip.clone(), base: self.state.new_base_for_next.clone() };
            self.phase = Phase::AwaitContained;
            action
        }
    }

    /// Advances the engine with the answer to its last action.
    pub fn step(&mut self, event: Event) -> (action: Action)
        requires
            processor_wf(*old(self)),
            accepts(old(self).phase, event),
        ensures
            (final(self).phase, action) == transition(*old(self), event),
            state_after(old(self).state, completed_with(*old(self), event), final(self).state),
            processor_wf(*final(self)),
    {
        let mut phase = Phase::Done;
        std::mem::swap(&mut phase, &mut self.phase);
        match phase {
            Phase::AwaitContained => {
                let next = &self.state.pending[0];
                match event {
                    Event::Contained(true) => {
                        self.phase = Phase::AwaitPointed { oid: self.state.new_base_for_next.clone() };
                        Action::PointBranch { branch: next.branch.clone(), oid: self.state.new_base_for_next.clone() }
                    },
                    _ => {
                        self.phase = Phase::AwaitReplay;
                        Action::Replay { onto: self.state.new_base_for_next.clone(), from: next.old_base.clone(), to: next.old_tip.clone() }
                    },
                }
            },
            Phase::AwaitReplay => {
                let branch = self.state.pending[0].branch.clone();
                match event {
                    Event::Replayed(head) => {
                        self.phase = Phase::AwaitPointed { oid: head.clone() };
                        Action::PointBranch { branch, oid: head }
                    },
                    Event::ReplayFailed(details) => {
                        Action::Fail(Error::RestackConflict { branch, op: self.state.op.clone(), details })
                    },
                    _ => Action::Finalize,
                }
            },
            Phase::AwaitPointed { oid } => {
                self.phase = Phase::AwaitTip { oid };
                Action::ReadTip { branch: self.state.pending[0].branch.clone() }
            },
            Phase::AwaitTip { .. } => {
                match event {
                    Event::TipRead(tip) => {
                        self.state.new_base_for_next = tip;
                        self.state.pending.remove(0);
                        self.phase = Phase::AwaitSaved;
                        Action::Save
                    },
                    _ => Action::Finalize,
                }
            },
            Phase::AwaitSaved => self.decide_exec(),
            Phase::ContinueCheckPick => {
                match event {
                    Event::PickInProgress(true) => {
                        if self.state.pending.len() == 0 {
                            Action::Fail(Error::NoInFlightOperation { op: self.state.op.clone() })
                        } else {
                            self.phase = Phase::ContinueCheckUnmerged;
                            Action::CheckUnmerged
                        }
                    },
                    _ => self.decide_exec(),
                }
            },
            Phase::ContinueCheckUnmerged => {
                match event {
                    Event::Unmerged(true) => {
                        Action::Fail(Error::ConflictsNotResolved { branch: self.state.pending[0].branch.clone() })
                    },
                    _ => {
                        self.phase = Phase::ContinueAwaitPick;
                        Action::ContinuePick
                    },
                }
            },
            Phase::ContinueAwaitPick => {
                let branch = self.state.pending[0].branch.clone();
                match event {
                    Event::Picked(head) => {
                        let oid = head.clone();
                        self.phase = Phase::ContinueAwaitPointed { head };
                        Action::PointBranch { branch, oid }
                    },
                    Event::PickFailed(details) => {
                        Action::Fail(Error::RestackConflict { branch, op: self.state.op.clone(), details })
                    },
                    _ => Action::Finalize,
                }
            },
            Phase::ContinueAwaitPointed { head } => {
                self.state.new_base_for_next = head;
                self.state.pending.remove(0);
                self.phase = Phase::AwaitSaved;
                Action::Save
            },
            Phase::Done => Action::Finalize,
        }
    }
}

/// How far along the current layer the engine is; later phases rank lower.
pub open spec fn phase_rank(phase: Phase) -> nat {
    match phase {
        Phase::AwaitSaved => 9,
        Phase::ContinueCheckPick => 8,
        Phase::ContinueCheckUnmerged => 7,
        Phase::ContinueAwaitPick => 6,
        Phase::AwaitContained => 5,
        Phase::AwaitReplay => 4,
        Phase::AwaitPointed { .. } => 3,
        Phase::AwaitTip { .. } => 2,
        Phase::ContinueAwaitPointed { .. } => 1,
        Phase::Done => 0,
    }
}

/// The work left to the engine.
pub open spec fn work_left(p: Processor) -> nat {
    p.state.pending@.len() * 10 + phase_rank(p.phase)
}

/// Every run of the engine ends: each transition strictly decreases the work
/// left, whatever the answers.
pub proof fn lemma_engine_terminates(p: Processor, e: Event, q: Processor)
    requires
        processor_wf(p),
        accepts(p.phase, e),
        q.phase == transition(p, e).0,
        state_after(p.state, completed_with(p, e), q.state),
    ensures
        work_left(q) < work_left(p),
{
    if completed_with(p, e) is Some {
        assert(q.state.pending@.len() == p.state.pending@.len() - 1);
    }
}

/// A layer that fails to re-apply (or whose conflicts are not resolved yet)
/// stops the engine with nothing changed: the failed layer stays at the
/// front of the pending layers of the last persisted state, so
/// `--continue` resumes exactly there.
pub proof fn lemma_failure_keeps_front_layer(p: Processor, e: Event)
    requires
        processor_wf(p),
        accepts(p.phase, e),
        transition(p, e).1 is Fail,
    ensures
        completed_with(p, e) is None,
        transition(p, e).0 == Phase::Done,
        transition(p, e).1 matches Action::Fail(Error::RestackConflict { branch, op, details }) ==> branch
            == p.state.pending@[0].branch && op == p.state.op,
        transition(p, e).1 matches Action::Fail(Error::ConflictsNotResolved { branch }) ==> branch
            == p.state.pending@[0].branch,
{
}

/// The state is persisted exactly when a layer has been completed, and the
/// layer then leaves the pending layers with its new tip recorded as the
/// base of the layer above it.
pub proof fn lemma_save_after_each_layer(p: Processor, e: Event)
    requires
        processor_wf(p),
        accepts(p.phase, e),
    ensures
        transition(p, e).1 is Save <==> completed_with(p, e) is Some,
        completed_with(p, e) matches Some(b) ==> (e matches Event::TipRead(tip) && b == tip)
            || (p.phase matches Phase::ContinueAwaitPointed { head } && b == head),
{
}

/// Only the front layer's branch is ever re-pointed, and only at the new
/// base (no commits of its own, or all of them already contained in the
/// new base), at its old tip (its base did not move), or at the result of
/// re-applying its commits.
pub proof fn lemma_points_front_layer(p: Processor, e: Event)
    requires
        processor_wf(p),
        accepts(p.phase, e),
    ensures
        p.phase != Phase::AwaitSaved && p.phase != Phase::ContinueCheckPick ==> (transition(
            p,
            e,
        ).1 matches Action::PointBranch { branch, oid } ==> branch == p.state.pending@[0].branch
            && ((e == Event::Contained(true) && oid == p.state.new_base_for_next) || e
            == Event::Replayed(oid) || e == Event::Picked(oid))),
        p.phase == Phase::AwaitSaved || p.phase == Phase::ContinueCheckPick ==> (transition(
            p,
            e,
        ).1 is PointBranch ==> transition(p, e).1 == decide(p.state).1),
        decide(p.state).1 matches Action::PointBranch { branch, oid } ==> {
            let next = p.state.pending@[0];
            &&& branch == next.branch
            &&& (next.old_tip@ == next.old_base@ && oid == p.state.new_base_for_next) || (
            next.old_tip@ != next.old_base@ && p.state.new_base_for_next@ == next.old_base@ && oid
                == next.old_tip)
        },
{
}

/// The engine asks for the final metadata only once no layer is pending,
/// and then stops.
pub proof fn lemma_finalize_only_when_done(p: Processor, e: Event, q: Processor)
    requires
        processor_wf(p),
        accepts(p.phase, e),
        q.phase == transition(p, e).0,
        state_after(p.state, completed_with(p, e), q.state),
        transition(p, e).1 is Finalize,
    ensures
        q.state.pending@.len() == 0,
        q.phase == Phase::Done,
{
}

/// Every pending layer has commits of its own and sits exactly on the tip of
/// the pending layer below it (the first one on the base it is to be
/// re-applied onto): the stack is already up to date.
pub open spec fn plan_up_to_date(s: OpState) -> bool {
    forall|k: int|
        0 <= k < s.pending@.len() ==> {
            &&& (#[trigger] s.pending@[k]).old_tip@ != s.pending@[k].old_base@
            &&& s.pending@[k].old_base@ == if k == 0 {
                s.new_base_for_next@
            } else {
                s.pending@[k - 1].old_tip@
            }
        }
}

/// The layers of a stack that already sits on the target, each layer on the
/// tip of the one below, give an up-to-date plan.
pub proof fn lemma_up_to_date_plan(kept: Seq<LayerView>, tips: Seq<Seq<char>>, target_oid: String, pending: Seq<PendingLayer>)
    requires
        tips.len() == kept.len(),
        pending_view(pending) == planned(kept, tips),
        forall|i: int| 0 <= i < kept.len() ==> #[trigger] kept[i].base_oid != tips[i],
        forall|i: int|
            0 <= i < kept.len() ==> #[trigger] kept[i].base_oid == if i == 0 {
                target_oid@
            } else {
                tips[i - 1]
            },
    ensures
        forall|s: OpState| s.new_base_for_next == target_oid && s.pending@ == pending ==> plan_up_to_date(s),
{
    assert forall|s: OpState| s.new_base_for_next == target_oid && s.pending@ == pending implies plan_up_to_date(s) by {
        assert forall|k: int| 0 <= k < s.pending@.len() implies {
            &&& (#[trigger] s.pending@[k]).old_tip@ != s.pending@[k].old_base@
            &&& s.pending@[k].old_base@ == if k == 0 {
                s.new_base_for_next@
            } else {
                s.pending@[k - 1].old_tip@
            }
        } by {
            assert(pending_view(pending).len() == pending.len());
            assert(k < kept.len());
            assert(pending_view(pending)[k] == pending[k]@);
            assert(planned(kept, tips)[k] == PendingView { branch: kept[k].branch, old_base: kept[k].base_oid, old_tip: tips[k] });
            assert(kept[k].base_oid != tips[k]);
            if k > 0 {
                assert(pending_view(pending)[k - 1] == pending[k - 1]@);
                assert(planned(kept, tips)[k - 1].old_tip == tips[k - 1]);
            }
        }
    }
}

/// One transition of the engine: the answer fits the phase, and the next
/// engine is the one `step` produces.
pub open spec fn step_rel(p: Processor, e: Event, q: Processor) -> bool {
    &&& processor_wf(p)
    &&& accepts(p.phase, e)
    &&& q.phase == transition(p, e).0
    &&& state_after(p.state, completed_with(p, e), q.state)
    &&& processor_wf(q)
}

/// A run of the engine: `ps[i + 1]` follows `ps[i]` on the answer `es[i]`.
pub open spec fn valid_run(ps: Seq<Processor>, es: Seq<Event>) -> bool {
    &&& ps.len() == es.len() + 1
    &&& forall|i: int| 0 <= i < es.len() ==> #[trigger] step_rel(ps[i], es[i], ps[i + 1])
}

/// The driver reads a branch's tip back as it has just been written.
pub open spec fn reads_back(p: Processor, e: Event) -> bool {
    p.phase matches Phase::AwaitTip { oid } ==> (e matches Event::TipRead(t) && t@ == oid@)
}

/// The engine works through an up-to-date plan, re-pointing each layer at
/// its own tip.
pub open spec fn up_to_date_inv(p: Processor) -> bool {
    &&& plan_up_to_date(p.state)
    &&& (p.phase is AwaitSaved) || (p.phase is AwaitPointed) || (p.phase is AwaitTip) || (p.phase is Done)
    &&& (p.phase matches Phase::AwaitPointed { oid } ==> p.state.pending@.len() > 0
        && oid@ == p.state.pending@[0].old_tip@)
    &&& (p.phase matches Phase::AwaitTip { oid } ==> p.state.pending@.len() > 0
        && oid@ == p.state.pending@[0].old_tip@)
}

/// One step on an up-to-date plan: the engine only re-points the front
/// layer's branch at its own tip, reads it back, persists its progress, or
/// finalizes; it never checks containment, replays, or fails, and the plan
/// stays up to date.
pub proof fn lemma_up_to_date_keeps_tips(p: Processor, e: Event, q: Processor)
    requires
        step_rel(p, e, q),
        up_to_date_inv(p),
        reads_back(p, e),
    ensures
        (transition(p, e).1 is PointBranch) ==> transition(p, e).1 == (Action::PointBranch {
            branch: p.state.pending@[0].branch,
            oid: p.state.pending@[0].old_tip,
        }),
        !(transition(p, e).1 is CheckContained),
        !(transition(p, e).1 is Replay),
        !(transition(p, e).1 is Fail),
        up_to_date_inv(q),
{
    if p.state.pending@.len() > 0 {
        assert(p.state.pending@[0].old_tip@ != p.state.pending@[0].old_base@);
    }
    if p.phase is AwaitTip {
        let s = p.state;
        let t = q.state;
        assert forall|k: int| 0 <= k < t.pending@.len() implies {
            &&& (#[trigger] t.pending@[k]).old_tip@ != t.pending@[k].old_base@
            &&& t.pending@[k].old_base@ == if k == 0 {
                t.new_base_for_next@
            } else {
                t.pending@[k - 1].old_tip@
            }
        } by {
            assert(t.pending@[k] == s.pending@[k + 1]);
            if k > 0 {
                assert(t.pending@[k - 1] == s.pending@[k]);
            }
        }
    }
}

/// Restacking an up-to-date stack replays nothing and keeps every branch's
/// tip: along any run that starts on an up-to-date plan (as a new operation
/// starts, persisting its state first) and in which every tip is read back
/// as written, the engine never checks containment, replays or fails, and
/// every branch it re-points is pointed at its own tip.
pub proof fn lemma_up_to_date_run(ps: Seq<Processor>, es: Seq<Event>)
    requires
        valid_run(ps, es),
        up_to_date_inv(ps[0]),
        forall|i: int| 0 <= i < es.len() ==> #[trigger] reads_back(ps[i], es[i]),
    ensures
        forall|i: int| 0 <= i < ps.len() ==> #[trigger] up_to_date_inv(ps[i]),
        forall|i: int|
            0 <= i < es.len() ==> {
                let a = #[trigger] transition(ps[i], es[i]).1;
                &&& !(a is CheckContained) && !(a is Replay) && !(a is Fail)
                &&& (a is PointBranch) ==> a == (Action::PointBranch {
                    branch: ps[i].state.pending@[0].branch,
                    oid: ps[i].state.pending@[0].old_tip,
                })
            },
    decreases es.len(),
{
    if es.len() > 0 {
        let n = es.len() - 1;
        let ps2 = ps.take(n + 1);
        let es2 = es.take(n);
        assert forall|i: int| 0 <= i < es2.len() implies #[trigger] step_rel(ps2[i], es2[i], ps2[i + 1]) by {
            assert(step_rel(ps[i], es[i], ps[i + 1]));
        }
        assert forall|i: int| 0 <= i < es2.len() implies #[trigger] reads_back(ps2[i], es2[i]) by {
            assert(reads_back(ps[i], es[i]));
        }
        lemma_up_to_date_run(ps2, es2);
        assert(up_to_date_inv(ps2[n]));
        assert(step_rel(ps[n], es[n], ps[n + 1]));
        assert(reads_back(ps[n], es[n]));
        lemma_up_to_date_keeps_tips(ps[n], es[n], ps[n + 1]);
        assert forall|i: int| 0 <= i < ps.len() implies #[trigger] up_to_date_inv(ps[i]) by {
            if i <= n {
                assert(up_to_date_inv(ps2[i]));
            }
        }
        assert forall|i: int| 0 <= i < es.len() implies {
            let a = #[trigger] transition(ps[i], es[i]).1;
            &&& !(a is CheckContained) && !(a is Replay) && !(a is Fail)
            &&& (a is PointBranch) ==> a == (Action::PointBranch {
                branch: ps[i].state.pending@[0].branch,
                oid: ps[i].state.pending@[0].old_tip,
            })
        } by {
            if i < n {
                assert(ps2[i] == ps[i] && es2[i] == es[i]);
                let a2 = transition(ps2[i], es2[i]).1;
                assert(!(a2 is CheckContained) && !(a2 is Replay) && !(a2 is Fail));
            }
        }
    }
}

/// Every engine along a run carries the operation kind, the target, the
/// dropped layer and the undo snapshot it started with.
pub proof fn lemma_run_keeps_snapshot(ps: Seq<Processor>, es: Seq<Event>)
    requires
        valid_run(ps, es),
    ensures
        forall|i: int|
            0 <= i < ps.len() ==> {
                &&& (#[trigger] ps[i]).state.undo == ps[0].state.undo
                &&& ps[i].state.op == ps[0].state.op
                &&& ps[i].state.target_oid == ps[0].state.target_oid
                &&& ps[i].state.dropped == ps[0].state.dropped
            },
    decreases es.len(),
{
    if es.len() > 0 {
        let n = es.len() - 1;
        let ps2 = ps.take(n + 1);
        let es2 = es.take(n);
        assert forall|i: int| 0 <= i < es2.len() implies #[trigger] step_rel(ps2[i], es2[i], ps2[i + 1]) by {
            assert(step_rel(ps[i], es[i], ps[i + 1]));
        }
        lemma_run_keeps_snapshot(ps2, es2);
        assert(step_rel(ps[n], es[n], ps[n + 1]));
        assert forall|i: int| 0 <= i < ps.len() implies {
            &&& (#[trigger] ps[i]).state.undo == ps[0].state.undo
            &&& ps[i].state.op == ps[0].state.op
            &&& ps[i].state.target_oid == ps[0].state.target_oid
            &&& ps[i].state.dropped == ps[0].state.dropped
        } by {
            if i <= n {
                assert(ps2[i] == ps[i]);
            } else {
                assert(ps2[n] == ps[n]);
            }
        }
    }
}

/// `--undo` end to end: a restack or advance starts by capturing the stack,
/// the branch checked out and every layer's tip; wherever its run stops
/// (completed, or at a conflict), the engine still carries that snapshot
/// under the same operation kind, so `choose_undo` for that kind picks it
/// (from the in-flight state, or from the snapshot that finalizing keeps),
/// and restoring it with `apply_undo` gives back the description, every
/// layer's tip and the checkout from before the operation.
pub proof fn lemma_undo_round_trip(
    before: Stack,
    checked_out: Option<String>,
    tips: Seq<Seq<char>>,
    ps: Seq<Processor>,
    es: Seq<Event>,
    restored: Stack,
    refs: Seq<(String, String)>,
    checkout: Option<String>,
)
    requires
        valid_run(ps, es),
        captures(ps[0].state.undo, before, checked_out, tips),
        restored.metadata == ps.last().state.undo.metadata,
        refs == ps.last().state.undo.previous_refs@,
        checkout == ps.last().state.undo.checked_out,
    ensures
        ps.last().state.op == ps[0].state.op,
        restored.metadata@ == before.metadata@,
        refs_view(refs) == zip_refs(before.metadata@.layers, tips),
        checkout == checked_out,
{
    lemma_run_keeps_snapshot(ps, es);
    assert(ps.last() == ps[ps.len() - 1]);
    lemma_undo_restores(before, checked_out, tips, ps[0].state.undo, restored, restored, refs, checkout);
}

/// Filtering with a condition that every element meets keeps everything.
proof fn lemma_filter_keeps_all<A>(s: Seq<A>, pred: spec_fn(A) -> bool)
    requires
        forall|i: int| 0 <= i < s.len() ==> pred(#[trigger] s[i]),
    ensures
        s.filter(pred) == s,
    decreases s.len(),
{
    reveal(Seq::filter);
    if s.len() > 0 {
        lemma_filter_keeps_all(s.drop_last(), pred);
        assert(s.drop_last().push(s.last()) =~= s);
    }
}

/// Restack re-applies every layer: with nothing dropped, the kept layers are
/// all the layers with their tips.
pub proof fn lemma_restack_keeps_all(layers: Seq<LayerView>, tips: Seq<Seq<char>>)
    ensures
        kept_spec(layers, tips, None) == with_tips(layers, tips),
{
    lemma_filter_keeps_all(with_tips(layers, tips), |p: (LayerView, Seq<char>)| None::<Seq<char>> != Some(p.0.branch));
}

/// A second restack right after a completed one changes nothing. The
/// completed restack left every layer on the new tip of the layer below it
/// (the target for the bottom one). With no ref moved since (same target,
/// same tips) and no layer's tip equal to its base, the second restack keeps
/// every layer, its plan is up to date from the start (so, by
/// `lemma_up_to_date_run`, nothing is replayed and every branch keeps its
/// tip), and the metadata it writes is the metadata already there.
pub proof fn lemma_restack_again(
    before: Seq<LayerView>,
    target_oid: String,
    tips: Seq<String>,
    pending: Seq<PendingLayer>,
    p: Processor,
)
    requires
        tips.len() == before.len(),
        forall|i: int|
            0 <= i < before.len() ==> (#[trigger] rebased(before, target_oid@, strings_view(tips))[i]).base_oid
                != tips[i]@,
        pending_view(pending) == planned(rebased(before, target_oid@, strings_view(tips)), strings_view(tips)),
        p.phase == Phase::AwaitSaved,
        p.state.new_base_for_next == target_oid,
        p.state.pending@ == pending,
    ensures
        kept_spec(rebased(before, target_oid@, strings_view(tips)), strings_view(tips), None) == with_tips(
            rebased(before, target_oid@, strings_view(tips)),
            strings_view(tips),
        ),
        up_to_date_inv(p),
        rebased(rebased(before, target_oid@, strings_view(tips)), target_oid@, strings_view(tips)) == rebased(
            before,
            target_oid@,
            strings_view(tips),
        ),
{
    let t = strings_view(tips);
    let after = rebased(before, target_oid@, t);
    lemma_restack_keeps_all(after, t);
    assert forall|i: int| 0 <= i < after.len() implies #[trigger] after[i].base_oid != t[i] by {
        assert(t[i] == tips[i]@);
    }
    assert forall|i: int| 0 <= i < after.len() implies #[trigger] after[i].base_oid == if i == 0 {
        target_oid@
    } else {
        t[i - 1]
    } by {}
    lemma_up_to_date_plan(after, t, target_oid, pending);
    assert(rebased(after, target_oid@, t) =~= after);
}

/// The engine's decisions do not depend on which operation it runs: two
/// engines in the same phase with the same pending layers and the same next
/// base move alike on the same answer, and ask for the same actions, except
/// that an error names its own operation.
pub proof fn lemma_engine_ignores_kind(p: Processor, q: Processor, e: Event)
    requires
        p.phase == q.phase,
        p.state.pending@ == q.state.pending@,
        p.state.new_base_for_next == q.state.new_base_for_next,
    ensures
        transition(p, e).0 == transition(q, e).0,
        !(transition(p, e).1 is Fail) ==> transition(p, e).1 == transition(q, e).1,
        completed_with(p, e) == completed_with(q, e),
{
}

/// `advance` does what `remove` of the bottom layer followed by `restack`
/// does (for a stack whose branches are unique): both re-apply the same
/// layers with the same tips, starting from the same target, so their
/// engines run alike (`lemma_runs_alike`) and re-point the same branches at
/// the same commits, neither touching the bottom layer's branch; and both
/// write the same final description (`lemma_advance_same_metadata`).
pub proof fn lemma_advance_is_remove_then_restack(layers: Seq<LayerView>, tips: Seq<Seq<char>>)
    requires
        crate::metadata::branches_unique(layers),
        layers.len() > 0,
        tips.len() == layers.len(),
    ensures
        kept_spec(layers, tips, Some(layers[0].branch)) == kept_spec(layers.remove(0), tips.remove(0), None),
        forall|i: int| #[trigger] crate::metadata::is_first_position(layers, layers[0].branch, i) ==> i == 0,
{
    let d = layers[0].branch;
    let all = with_tips(layers, tips);
    let rest = with_tips(layers.remove(0), tips.remove(0));
    let pred = |p: (LayerView, Seq<char>)| Some(d) != Some(p.0.branch);
    assert(all =~= seq![all[0]] + rest);
    Seq::filter_distributes_over_add(seq![all[0]], rest, pred);
    reveal(Seq::filter);
    let single = seq![all[0]];
    assert(single.drop_last() =~= Seq::<(LayerView, Seq<char>)>::empty());
    assert(Seq::<(LayerView, Seq<char>)>::empty().filter(pred) =~= Seq::<(LayerView, Seq<char>)>::empty());
    assert(all[0].0 == layers[0]);
    assert(!pred(all[0]));
    assert(single.last() == all[0]);
    assert(single.filter(pred) =~= Seq::<(LayerView, Seq<char>)>::empty());
    assert forall|i: int| 0 <= i < rest.len() implies pred(#[trigger] rest[i]) by {
        assert(rest[i].0 == layers[i + 1]);
        assert(layers[i + 1].branch != layers[0].branch);
    }
    lemma_filter_keeps_all(rest, pred);
    lemma_restack_keeps_all(layers.remove(0), tips.remove(0));
    assert(Seq::<(LayerView, Seq<char>)>::empty() + rest =~= rest);
    assert forall|i: int| #[trigger] crate::metadata::is_first_position(layers, d, i) implies i == 0 by {
        crate::metadata::lemma_first_position_unique(layers, d, i, 0);
    }
}

/// Two runs of the engine that start in the same phase with the same pending
/// layers and the same next base, and get the same answers, stay alike: at
/// every step they are in the same phase with the same pending layers and
/// next base, and ask for the same actions (errors aside, which name their
/// own operation). So they re-point the same branches at the same commits.
pub proof fn lemma_runs_alike(a: Seq<Processor>, b: Seq<Processor>, es: Seq<Event>)
    requires
        valid_run(a, es),
        valid_run(b, es),
        a[0].phase == b[0].phase,
        a[0].state.pending@ == b[0].state.pending@,
        a[0].state.new_base_for_next == b[0].state.new_base_for_next,
    ensures
        forall|i: int|
            0 <= i < a.len() ==> {
                &&& (#[trigger] a[i]).phase == b[i].phase
                &&& a[i].state.pending@ == b[i].state.pending@
                &&& a[i].state.new_base_for_next == b[i].state.new_base_for_next
            },
        forall|i: int|
            0 <= i < es.len() && !(transition(a[i], es[i]).1 is Fail) ==> #[trigger] transition(a[i], es[i]).1
                == transition(b[i], es[i]).1,
    decreases es.len(),
{
    if es.len() > 0 {
        let n = es.len() - 1;
        let a2 = a.take(n + 1);
        let b2 = b.take(n + 1);
        let es2 = es.take(n);
        assert forall|i: int| 0 <= i < es2.len() implies #[trigger] step_rel(a2[i], es2[i], a2[i + 1]) by {
            assert(step_rel(a[i], es[i], a[i + 1]));
        }
        assert forall|i: int| 0 <= i < es2.len() implies #[trigger] step_rel(b2[i], es2[i], b2[i + 1]) by {
            assert(step_rel(b[i], es[i], b[i + 1]));
        }
        lemma_runs_alike(a2, b2, es2);
        assert(a2[n] == a[n] && b2[n] == b[n]);
        assert(step_rel(a[n], es[n], a[n + 1]));
        assert(step_rel(b[n], es[n], b[n + 1]));
        lemma_engine_ignores_kind(a[n], b[n], es[n]);
        assert forall|i: int| 0 <= i < a.len() implies {
            &&& (#[trigger] a[i]).phase == b[i].phase
            &&& a[i].state.pending@ == b[i].state.pending@
            &&& a[i].state.new_base_for_next == b[i].state.new_base_for_next
        } by {
            if i <= n {
                assert(a2[i] == a[i] && b2[i] == b[i]);
            }
        }
        assert forall|i: int|
            0 <= i < es.len() && !(transition(a[i], es[i]).1 is Fail) implies #[trigger] transition(a[i], es[i]).1
                == transition(b[i], es[i]).1 by {
            if i < n {
                assert(a2[i] == a[i] && b2[i] == b[i] && es2[i] == es[i]);
            } else {
                lemma_engine_ignores_kind(a[i], b[i], es[i]);
            }
        }
    }
}

/// `advance` and "`remove` the bottom layer, then `restack`" write the same
/// final description, for a stack whose branches are unique: `drop_layer`
/// (advance) and `remove::Args::apply` (remove) both take out exactly the
/// bottom layer, whose branch is then no longer in the stack, and the same
/// new bases are recorded on what remains.
pub proof fn lemma_advance_same_metadata(
    layers: Seq<LayerView>,
    advanced: Seq<LayerView>,
    removed: Seq<LayerView>,
    target_oid: Seq<char>,
    tips: Seq<Seq<char>>,
)
    requires
        crate::metadata::branches_unique(layers),
        layers.len() > 0,
        exists|i: int|
            #[trigger] crate::metadata::is_first_position(layers, layers[0].branch, i) && advanced
                == layers.remove(i),
        exists|i: int|
            #[trigger] crate::metadata::is_first_position(layers, layers[0].branch, i) && removed
                == layers.remove(i),
    ensures
        advanced == layers.remove(0),
        removed == layers.remove(0),
        !crate::metadata::has_branch(advanced, layers[0].branch),
        rebased(advanced, target_oid, tips) == rebased(removed, target_oid, tips),
{
    let d = layers[0].branch;
    let i = choose|i: int| #[trigger] crate::metadata::is_first_position(layers, d, i) && advanced == layers.remove(i);
    let j = choose|j: int| #[trigger] crate::metadata::is_first_position(layers, d, j) && removed == layers.remove(j);
    crate::metadata::lemma_first_position_unique(layers, d, i, 0);
    crate::metadata::lemma_first_position_unique(layers, d, j, 0);
    crate::metadata::lemma_remove_keeps_unique(layers, 0);
}

/// A layer's commits are re-applied only when that is needed: the layer has
/// commits of its own, its base moved, and its tip is not already
/// contained in the new base. The replay range is exactly the layer's own
/// commits `old_base..old_tip`, onto the new base.
pub proof fn lemma_replay_only_when_needed(p: Processor, e: Event)
    requires
        processor_wf(p),
        accepts(p.phase, e),
        transition(p, e).1 is Replay,
    ensures
        ({
            let next = p.state.pending@[0];
            &&& p.phase == Phase::AwaitContained
            &&& e == Event::Contained(false)
            &&& transition(p, e).1 == Action::Replay {
                onto: p.state.new_base_for_next,
                from: next.old_base,
                to: next.old_tip,
            }
        }),
        decide(p.state).1 is CheckContained ==> ({
            let next = p.state.pending@[0];
            &&& next.old_tip@ != next.old_base@
            &&& p.state.new_base_for_next@ != next.old_base@
        }),
{
}

/// The arguments of `stack restack`.
#[derive(Debug)]
pub struct RestackArgs {
    /// Continues the restack operation from where it left off
    pub continue_: bool,
    /// Undoes the last restack operation
    pub undo: bool,
}

/// The arguments of `stack advance`.
#[derive(Debug)]
pub struct AdvanceArgs {
    /// Continues the advance operation from where it left off
    pub continue_: bool,
    /// Undoes the last advance operation
    pub undo: bool,
    /// Advance even if the target is behind the bottom layer's work
    pub force: bool,
}

/// What a restack or advance invocation asks for.
#[derive(Debug)]
pub enum Mode {
    /// Resume the operation in flight.
    Continue,
    /// Restore the state before the last operation.
    Undo,
    /// Start a new operation.
    Start,
}

/// `--continue` takes precedence over `--undo`; without either, a new
/// operation starts.
pub open spec fn mode_spec(continue_: bool, undo: bool) -> Mode {
    if continue_ {
        Mode::Continue
    } else if undo {
        Mode::Undo
    } else {
        Mode::Start
    }
}

/// `--continue` resumes the operation in flight, whether or not `--undo` is
/// also given; `--undo` alone rolls the last operation back; with neither, a
/// new operation starts.
pub proof fn lemma_mode_flags(continue_: bool, undo: bool)
    ensures
        continue_ ==> mode_spec(continue_, undo) == Mode::Continue,
        !continue_ && undo ==> mode_spec(continue_, undo) == Mode::Undo,
        !continue_ && !undo ==> mode_spec(continue_, undo) == Mode::Start,
{
}

impl RestackArgs {
    /// What this invocation asks for.
    pub fn mode(&self) -> (m: Mode)
        ensures
            m == mode_spec(self.continue_, self.undo),
            self.continue_ ==> m == Mode::Continue,
            !self.continue_ && self.undo ==> m == Mode::Undo,
            !self.continue_ && !self.undo ==> m == Mode::Start,
    {
        if self.continue_ {
            Mode::Continue
        } else if self.undo {
            Mode::Undo
        } else {
            Mode::Start
        }
    }
}

impl AdvanceArgs {
    /// What this invocation asks for.
    pub fn mode(&self) -> (m: Mode)
        ensures
            m == mode_spec(self.continue_, self.undo),
            self.continue_ ==> m == Mode::Continue,
            !self.continue_ && self.undo ==> m == Mode::Undo,
            !self.continue_ && !self.undo ==> m == Mode::Start,
    {
        if self.continue_ {
            Mode::Continue
        } else if self.undo {
            Mode::Undo
        } else {
            Mode::Start
        }
    }
}

/// Only one operation can be in flight: a new one is refused while the
/// state of another is on disk.
pub fn refuse_if_in_flight(in_flight: Option<OpState>) -> (res: Result<(), Error>)
    ensures
        match in_flight {
            Some(s) => res == Err::<(), Error>(Error::OperationInFlight { op: s.op }),
            None => res is Ok,
        },
{
    match in_flight {
        Some(s) => Err(Error::OperationInFlight { op: s.op }),
        None => Ok(()),
    }
}

/// The outcome of the advance guard.
#[derive(Debug)]
pub enum AdvanceGuard {
    /// The bottom layer may be dropped.
    Proceed,
    /// Answer whether `ancestor` is an ancestor of `descendant`, then ask again.
    AskAncestor { ancestor: String, descendant: String },
    /// The target lacks the bottom layer's work.
    Refuse(Error),
}

/// The guard of `advance`: unless forced, advancing is refused when the
/// target is strictly behind the bottom layer's tip (the target is an
/// ancestor of that tip and differs from it), because the bottom layer's
/// work is then not in the target yet. `target_is_ancestor` is the answer
/// to the question the guard asks, once it has been asked.
pub fn advance_guard(
    force: bool,
    target: &String,
    target_oid: &String,
    bottom: &String,
    bottom_tip: &String,
    target_is_ancestor: Option<bool>,
) -> (res: AdvanceGuard)
    ensures
        force || target_oid@ == bottom_tip@ ==> res == AdvanceGuard::Proceed,
        !force && target_oid@ != bottom_tip@ ==> match target_is_ancestor {
            None => res == AdvanceGuard::AskAncestor { ancestor: *target_oid, descendant: *bottom_tip },
            Some(false) => res == AdvanceGuard::Proceed,
            Some(true) => res == AdvanceGuard::Refuse(
                Error::TargetBehindBottom {
                    target: *target,
                    target_oid: *target_oid,
                    branch: *bottom,
                    bottom_tip: *bottom_tip,
                },
            ),
        },
{
    if force || *target_oid == *bottom_tip {
        return AdvanceGuard::Proceed;
    }
    match target_is_ancestor {
        None => AdvanceGuard::AskAncestor { ancestor: target_oid.clone(), descendant: bottom_tip.clone() },
        Some(false) => AdvanceGuard::Proceed,
        Some(true) => AdvanceGuard::Refuse(
            Error::TargetBehindBottom {
                target: target.clone(),
                target_oid: target_oid.clone(),
                branch: bottom.clone(),
                bottom_tip: bottom_tip.clone(),
            },
        ),
    }
}

/// The branches of the layers above the bottom one whose check found an
/// issue, bottom-up: the layers that would survive an advance but are out of
/// date, broken or missing.
pub open spec fn flagged(checks: Seq<LayerCheck>) -> Seq<Seq<char>>
    decreases checks.len(),
{
    if checks.len() <= 1 {
        Seq::empty()
    } else {
        let rest = flagged(checks.drop_last());
        if checks.last().issue is Some {
            rest.push(checks.last().branch@)
        } else {
            rest
        }
    }
}

/// Some layer above the bottom one has an issue.
pub open spec fn survivor_has_issue(checks: Seq<LayerCheck>) -> bool {
    exists|i: int| 1 <= i < checks.len() && (#[trigger] checks[i]).issue is Some
}

/// The second guard of `advance`: given the checks of every layer of the
/// stack, bottom-up (as `stack status` makes them), advancing is refused
/// exactly when a layer that would survive (any but the bottom one, which is
/// dropped) has an issue; the error names those layers. Nothing is changed
/// either way.
pub fn advance_up_to_date(checks: &Vec<LayerCheck>) -> (res: Result<(), Error>)
    ensures
        res is Ok <==> !survivor_has_issue(checks@),
        res matches Err(e) ==> (e matches Error::StackNotUpToDate { layers } && strings_view(layers@)
            == flagged(checks@) && layers@.len() > 0),
{
    let mut layers: Vec<String> = Vec::new();
    let mut i: usize = 1;
    if checks.len() <= 1 {
        assert(!survivor_has_issue(checks@));
        return Ok(());
    }
    assert(checks@.take(1).len() == 1);
    while i < checks.len()
        invariant
            1 <= i <= checks.len(),
            strings_view(layers@) == flagged(checks@.take(i as int)),
            layers@.len() > 0 <==> exists|j: int| 1 <= j < i && (#[trigger] checks@[j]).issue is Some,
        decreases checks.len() - i,
    {
        let ghost before = layers@;
        proof {
            assert(checks@.take(i + 1).drop_last() =~= checks@.take(i as int));
            assert(checks@.take(i + 1).last() == checks@[i as int]);
        }
        if checks[i].issue.is_some() {
            layers.push(checks[i].branch.clone());
            assert(strings_view(layers@) =~= strings_view(before).push(checks@[i as int].branch@));
        }
        i += 1;
    }
    assert(checks@.take(checks.len() as int) =~= checks@);
    if layers.len() == 0 {
        Ok(())
    } else {
        Err(Error::StackNotUpToDate { layers })
    }
}

/// Removes the dropped layer (advance) from the stack description; restack
/// drops nothing.
pub fn drop_layer(metadata: &mut StackMetadata, dropped: &Option<String>)
    ensures
        final(metadata).version == old(metadata).version,
        final(metadata).target == old(metadata).target,
        match *dropped {
            None => final(metadata)@ == old(metadata)@,
            Some(d) => if crate::metadata::has_branch(old(metadata)@.layers, d@) {
                exists|i: int|
                    #[trigger] crate::metadata::is_first_position(old(metadata)@.layers, d@, i)
                        && final(metadata)@.layers == old(metadata)@.layers.remove(i)
            } else {
                final(metadata)@ == old(metadata)@
            },
        },
{
    match dropped {
        Some(d) => {
            let _ = metadata.remove_layer(d);
        },
        None => {},
    }
}

/// The layers as finalized: each keeps its branch and now sits on the new
/// tip of the layer below it (`tips[i]` is the new tip of layer `i`), the
/// bottom one on the target.
pub open spec fn rebased(layers: Seq<LayerView>, target_oid: Seq<char>, tips: Seq<Seq<char>>) -> Seq<LayerView> {
    Seq::new(
        layers.len(),
        |i: int| LayerView { branch: layers[i].branch, base_oid: if i == 0 { target_oid } else { tips[i - 1] } },
    )
}

/// Records in the stack description that every layer now sits on the new
/// tip of the layer below it (the target for the bottom layer).
pub fn rebase_layers(metadata: &mut StackMetadata, target_oid: &String, tips: &Vec<String>)
    requires
        tips.len() == old(metadata).layers.len(),
    ensures
        final(metadata).version == old(metadata).version,
        final(metadata).target == old(metadata).target,
        final(metadata)@.layers == rebased(old(metadata)@.layers, target_oid@, strings_view(tips@)),
{
    let ghost goal = rebased(old(metadata)@.layers, target_oid@, strings_view(tips@));
    let ghost orig = old(metadata)@.layers;
    let mut layers: Vec<LayerMetadata> = Vec::new();
    std::mem::swap(&mut layers, &mut metadata.layers);
    let mut out: Vec<LayerMetadata> = Vec::new();
    let mut i: usize = 0;
    while i < layers.len()
        invariant
            i <= layers.len(),
            layers_view(layers@) == orig,
            tips.len() == layers.len(),
            goal == rebased(orig, target_oid@, strings_view(tips@)),
            layers_view(out@) == goal.take(i as int),
        decreases layers.len() - i,
    {
        let base = if i == 0 { target_oid.clone() } else { tips[i - 1].clone() };
        let ghost before = out@;
        let layer = LayerMetadata { branch: layers[i].branch.clone(), base_oid: base };
        out.push(layer);
        proof {
            assert(orig[i as int] == layers@[i as int]@);
            if i > 0 {
                assert(strings_view(tips@)[i - 1] == tips@[i - 1]@);
            }
            assert(layers_view(out@) =~= layers_view(before).push(layer@));
            assert(goal.take(i + 1) =~= goal.take(i as int).push(goal[i as int]));
        }
        i += 1;
    }
    assert(layers_view(out@) =~= goal);
    metadata.layers = out;
}

/// Where `--undo` takes its snapshot from: the operation of this kind still
/// in flight (its snapshot is the fresher one), else the snapshot kept by
/// the last completed operation of this kind. The flag says whether the
/// in-flight state is to be cleared.
pub fn choose_undo(expected_op: &str, in_flight: Option<OpState>, saved: Option<UndoSnapshot>) -> (res: Result<
    (UndoSnapshot, bool),
    Error,
>)
    ensures
        match (in_flight, saved) {
            (Some(s), _) if s.op@ == expected_op@ => res == Ok::<(UndoSnapshot, bool), Error>((s.undo, true)),
            (_, Some(u)) => res == Ok::<(UndoSnapshot, bool), Error>((u, false)),
            _ => res == Err::<(UndoSnapshot, bool), Error>(Error::UndoSnapshotNotFound),
        },
{
    let expected = expected_op.to_owned();
    match in_flight {
        Some(s) if s.op == expected => Ok((s.undo, true)),
        _ => match saved {
            Some(u) => Ok((u, false)),
            None => Err(Error::UndoSnapshotNotFound),
        },
    }
}

/// The snapshot records the stack, the checked-out branch, and the tip of
/// every layer.
pub open spec fn captures(snapshot: UndoSnapshot, stack: Stack, checked_out: Option<String>, tips: Seq<Seq<char>>) -> bool {
    &&& snapshot.stack_name@ == stack.name@
    &&& snapshot.checked_out == checked_out
    &&& snapshot.metadata@ == stack.metadata@
    &&& refs_view(snapshot.previous_refs@) == zip_refs(stack.metadata@.layers, tips)
}

/// What restoring a snapshot does: the stack gets the snapshot's
/// description back, and the driver is told which refs to reset and which
/// branch to check out.
pub fn apply_undo(stack: &mut Stack, snapshot: UndoSnapshot) -> (res: (Vec<(String, String)>, Option<String>))
    ensures
        final(stack).name == old(stack).name,
        final(stack).metadata == snapshot.metadata,
        res.0 == snapshot.previous_refs,
        res.1 == snapshot.checked_out,
{
    stack.set_metadata(snapshot.metadata);
    (snapshot.previous_refs, snapshot.checked_out)
}

/// A snapshot of a stack whose branches are unique names every branch once
/// among the refs it restores, as a map from branch to commit would.
pub proof fn lemma_snapshot_refs_unique(
    snapshot: UndoSnapshot,
    stack: Stack,
    checked_out: Option<String>,
    tips: Seq<Seq<char>>,
)
    requires
        captures(snapshot, stack, checked_out, tips),
        crate::metadata::branches_unique(stack.metadata@.layers),
    ensures
        forall|i: int, j: int|
            0 <= i < snapshot.previous_refs@.len() && 0 <= j < snapshot.previous_refs@.len() && i != j
                ==> (#[trigger] refs_view(snapshot.previous_refs@)[i]).0 != (#[trigger] refs_view(
                snapshot.previous_refs@,
            )[j]).0,
{
    let r = refs_view(snapshot.previous_refs@);
    let layers = stack.metadata@.layers;
    assert forall|i: int, j: int|
        0 <= i < snapshot.previous_refs@.len() && 0 <= j < snapshot.previous_refs@.len() && i != j
            implies (#[trigger] r[i]).0 != (#[trigger] r[j]).0 by {
        assert(r.len() == snapshot.previous_refs@.len());
        assert(r[i] == zip_refs(layers, tips)[i]);
        assert(r[j] == zip_refs(layers, tips)[j]);
        assert(layers[i].branch != layers[j].branch);
    }
}

/// Undo restores exactly what the snapshot captured: whatever the stack
/// became during the operation, restoring the snapshot taken before it gives
/// back the description from before it, resets every layer's branch to its
/// tip from before it, and checks the branch that was checked out then out again.
pub proof fn lemma_undo_restores(
    before: Stack,
    checked_out: Option<String>,
    tips: Seq<Seq<char>>,
    snapshot: UndoSnapshot,
    after: Stack,
    restored: Stack,
    refs: Seq<(String, String)>,
    checkout: Option<String>,
)
    requires
        captures(snapshot, before, checked_out, tips),
        restored.name == after.name,
        restored.metadata == snapshot.metadata,
        refs == snapshot.previous_refs@,
        checkout == snapshot.checked_out,
    ensures
        restored.metadata@ == before.metadata@,
        refs_view(refs) == zip_refs(before.metadata@.layers, tips),
        checkout == checked_out,
{
}

/// The branch of the bottom layer, the one `advance` drops.
pub fn bottom_branch(metadata: &StackMetadata) -> (res: Option<String>)
    ensures
        metadata@.layers.len() == 0 ==> res is None,
        metadata@.layers.len() > 0 ==> (res matches Some(b) && b@ == metadata@.layers[0].branch),
{
    if metadata.layers.len() == 0 {
        None
    } else {
        assert(metadata@.layers[0] == metadata.layers@[0]@);
        Some(metadata.layers[0].branch.clone())
    }
}

/// Advance drops exactly the bottom layer: it is the first layer on its
/// branch, so it is the one removed; the other layers keep their order and
/// the new bottom sits on the target.
pub proof fn lemma_advance_drops_bottom(layers: Seq<LayerView>, target_oid: Seq<char>, tips: Seq<Seq<char>>)
    requires
        crate::metadata::branches_unique(layers),
        layers.len() > 0,
        tips.len() + 1 == layers.len(),
    ensures
        forall|i: int| #[trigger] crate::metadata::is_first_position(layers, layers[0].branch, i) ==> i == 0,
        !crate::metadata::has_branch(layers.remove(0), layers[0].branch),
        rebased(layers.remove(0), target_oid, tips) == Seq::new(
            (layers.len() - 1) as nat,
            |i: int| LayerView { branch: layers[i + 1].branch, base_oid: if i == 0 { target_oid } else { tips[i - 1] } },
        ),
{
    assert forall|i: int| #[trigger] crate::metadata::is_first_position(layers, layers[0].branch, i) implies i == 0 by {
        crate::metadata::lemma_first_position_unique(layers, layers[0].branch, i, 0);
    }
    crate::metadata::lemma_remove_keeps_unique(layers, 0);
    assert(rebased(layers.remove(0), target_oid, tips) =~= Seq::new(
        (layers.len() - 1) as nat,
        |i: int| LayerView { branch: layers[i + 1].branch, base_oid: if i == 0 { target_oid } else { tips[i - 1] } },
    ));
}

/// The message printed when an operation completes.
pub open spec fn completion_spec(stack_name: Seq<char>, dropped: Option<Seq<char>>) -> Seq<char> {
    match dropped {
        Some(d) => "Advanced stack '"@ + stack_name + "' (dropped layer '"@ + d + "')"@,
        None => "Restacked stack '"@ + stack_name + "'"@,
    }
}

/// The message printed when an operation completes.
pub fn completion_message(state: &OpState) -> (res: String)
    ensures
        res@ == completion_spec(state.undo.stack_name@, opt_view(state.dropped)),
{
    match &state.dropped {
        Some(d) => {
            let mut res = "Advanced stack '".to_owned();
            res.append(state.undo.stack_name.as_str());
            res.append("' (dropped layer '");
            res.append(d.as_str());
            res.append("')");
            res
        },
        None => {
            let mut res = "Restacked stack '".to_owned();
            res.append(state.undo.stack_name.as_str());
            res.append("'");
            res
        },
    }
}

/// Each command keeps its own snapshot: the restack and advance snapshot
/// files differ, so `restack --undo` and `advance --undo` never read each
/// other's snapshot.
pub proof fn lemma_snapshot_files_distinct()
    ensures
        snapshot_file_spec(ADVANCE_OP@) != snapshot_file_spec(RESTACK_OP@),
        snapshot_file_spec(ADVANCE_OP@) == ADVANCE_SNAPSHOT_FILE@,
        snapshot_file_spec(RESTACK_OP@) == RESTACK_SNAPSHOT_FILE@,
{
    reveal_strlit("advance");
    reveal_strlit("restack");
    reveal_strlit("advance_undo_snapshot.json");
    reveal_strlit("undo_snapshot.json");
    assert(ADVANCE_OP@[0] != RESTACK_OP@[0]);
    assert(ADVANCE_SNAPSHOT_FILE@[0] != RESTACK_SNAPSHOT_FILE@[0]);
}

} // verus!
