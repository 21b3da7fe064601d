use std::collections::{HashMap, HashSet};

use stack::commands::restack::{
    advance_guard, advance_up_to_date, apply_undo, bottom_branch, choose_undo, completion_message, drop_layer,
    kept_layers, plan_pending, rebase_layers, refuse_if_in_flight, snapshot_file_for, Action,
    AdvanceArgs, AdvanceGuard, Error, Event, Mode, OpState, PendingLayer, Phase, Plan, Processor,
    RestackArgs, UndoSnapshot, ADVANCE_SNAPSHOT_FILE, RESTACK_SNAPSHOT_FILE,
};
use stack::commands::consistency::{LayerCheck, LayerIssue};
use stack::metadata::{Stack, StackMetadata};

fn s(x: &str) -> String {
    x.to_string()
}

/// A tiny repository: where each branch points, which commits are
/// ancestors of which, and which replays conflict.
struct Repo {
    refs: HashMap<String, String>,
    ancestors: HashSet<(String, String)>,
    conflicts: HashSet<String>,
    picks: usize,
    replays: Vec<(String, String, String)>,
    saves: usize,
}

impl Repo {
    fn is_ancestor(&self, a: &str, d: &str) -> bool {
        a == d || self.ancestors.contains(&(s(a), s(d)))
    }
}

fn run(repo: &mut Repo, mut p: Processor, mut action: Action) -> Result<OpState, Error> {
    loop {
        action = match action {
            Action::CheckContained { tip, base } => {
                let c = repo.is_ancestor(&tip, &base);
                p.step(Event::Contained(c))
            }
            Action::Replay { onto, from, to } => {
                repo.replays.push((onto.clone(), from.clone(), to.clone()));
                if repo.conflicts.contains(&to) {
                    p.step(Event::ReplayFailed(s("conflict")))
                } else {
                    repo.picks += 1;
                    p.step(Event::Replayed(format!("new{}", repo.picks)))
                }
            }
            Action::PointBranch { branch, oid } => {
                repo.refs.insert(branch, oid);
                p.step(Event::Pointed)
            }
            Action::ReadTip { branch } => {
                let tip = repo.refs[&branch].clone();
                p.step(Event::TipRead(tip))
            }
            Action::Save => {
                repo.saves += 1;
                p.step(Event::Saved)
            }
            Action::CheckPickInProgress => p.step(Event::PickInProgress(true)),
            Action::CheckUnmerged => p.step(Event::Unmerged(false)),
            Action::ContinuePick => {
                repo.picks += 1;
                p.step(Event::Picked(format!("new{}", repo.picks)))
            }
            Action::Finalize => return Ok(p.state),
            Action::Fail(e) => return Err(e),
        };
    }
}

fn stack3() -> Stack {
    let mut m = StackMetadata::new(s("main"));
    m.add_layer(&s("part1"), &s("T0")).unwrap();
    m.add_layer(&s("part2"), &s("A")).unwrap();
    m.add_layer(&s("part3"), &s("B")).unwrap();
    Stack { name: s("part1"), metadata: m }
}

fn repo3() -> Repo {
    let mut refs = HashMap::new();
    refs.insert(s("main"), s("T1"));
    refs.insert(s("part1"), s("A"));
    refs.insert(s("part2"), s("B"));
    refs.insert(s("part3"), s("C"));
    let mut ancestors = HashSet::new();
    for (a, d) in [("T0", "A"), ("T0", "B"), ("T0", "C"), ("A", "B"), ("A", "C"), ("B", "C"), ("T0", "T1")] {
        ancestors.insert((s(a), s(d)));
    }
    Repo { refs, ancestors, conflicts: HashSet::new(), picks: 0, replays: vec![], saves: 0 }
}

fn start(repo: &Repo, stack: &Stack, op: &str, dropped: Option<String>) -> Result<(Processor, Action), Error> {
    let tips: Vec<String> = stack.metadata.layers.iter().map(|l| repo.refs[&l.branch].clone()).collect();
    let undo = UndoSnapshot::new(stack, &Some(s("part2")), &tips);
    let (kept, kept_tips) = kept_layers(&stack.metadata.layers, &dropped, &tips);
    let mut answers = vec![];
    let pending = loop {
        match plan_pending(&kept, &kept_tips, &answers) {
            Plan::Ready(p) => break p,
            Plan::Refuse(e) => return Err(e),
            Plan::Ask { base, tip } => answers.push(repo.is_ancestor(&base, &tip)),
        }
    };
    let target_oid = repo.refs["main"].clone();
    let state = OpState::new(op, target_oid, pending, dropped, undo);
    Ok(Processor::begin(state))
}

fn finalize(repo: &Repo, stack: &mut Stack, state: &OpState) {
    drop_layer(&mut stack.metadata, &state.dropped);
    let tips: Vec<String> = stack.metadata.layers.iter().map(|l| repo.refs[&l.branch].clone()).collect();
    rebase_layers(&mut stack.metadata, &state.target_oid, &tips);
}

#[test]
fn restack_replays_every_layer_onto_the_moved_target() {
    let mut repo = repo3();
    let mut st = stack3();
    let (p, a) = start(&repo, &st, "restack", None).unwrap();
    let state = run(&mut repo, p, a).unwrap();
    assert!(state.pending.is_empty());
    assert_eq!(repo.replays[0], (s("T1"), s("T0"), s("A")));
    assert_eq!(repo.replays[1], (s("new1"), s("A"), s("B")));
    assert_eq!(repo.replays[2], (s("new2"), s("B"), s("C")));
    assert_eq!(repo.refs["part3"], "new3");
    assert_eq!(repo.saves, 4);
    finalize(&repo, &mut st, &state);
    let bases: Vec<&str> = st.metadata.layers.iter().map(|l| l.base_oid.as_str()).collect();
    assert_eq!(bases, vec!["T1", "new1", "new2"]);
    assert_eq!(completion_message(&state), "Restacked stack 'part1'");
}

#[test]
fn restack_of_up_to_date_stack_keeps_tips() {
    let mut repo = repo3();
    repo.refs.insert(s("main"), s("T0"));
    let st = stack3();
    let (p, a) = start(&repo, &st, "restack", None).unwrap();
    run(&mut repo, p, a).unwrap();
    assert!(repo.replays.is_empty());
    assert_eq!(repo.refs["part1"], "A");
    assert_eq!(repo.refs["part2"], "B");
    assert_eq!(repo.refs["part3"], "C");
}

#[test]
fn layer_already_in_new_base_is_fast_forwarded() {
    let mut repo = repo3();
    repo.ancestors.insert((s("A"), s("T1")));
    let st = stack3();
    let (p, a) = start(&repo, &st, "restack", None).unwrap();
    run(&mut repo, p, a).unwrap();
    assert_eq!(repo.refs["part1"], "T1");
    assert_eq!(repo.replays[0], (s("T1"), s("A"), s("B")));
}

#[test]
fn conflict_stops_with_layer_at_front_and_continue_resumes() {
    let mut repo = repo3();
    repo.conflicts.insert(s("B"));
    let st = stack3();
    let (p, a) = start(&repo, &st, "restack", None).unwrap();
    let mut proc_state = None;
    // Run by hand to keep the processor after the failure.
    let mut p = p;
    let mut action = a;
    loop {
        action = match action {
            Action::Fail(Error::RestackConflict { branch, op, details }) => {
                assert_eq!(branch, "part2");
                assert_eq!(op, "restack");
                assert_eq!(details, "conflict");
                proc_state = Some(p.state);
                break;
            }
            Action::Save => p.step(Event::Saved),
            Action::CheckContained { tip, base } => {
                let c = repo.is_ancestor(&tip, &base);
                p.step(Event::Contained(c))
            }
            Action::Replay { to, .. } => {
                if repo.conflicts.contains(&to) {
                    p.step(Event::ReplayFailed(s("conflict")))
                } else {
                    p.step(Event::Replayed(s("new1")))
                }
            }
            Action::PointBranch { branch, oid } => {
                repo.refs.insert(branch, oid);
                p.step(Event::Pointed)
            }
            Action::ReadTip { branch } => {
                let t = repo.refs[&branch].clone();
                p.step(Event::TipRead(t))
            }
            other => panic!("unexpected {:?}", other),
        };
    }
    let state = proc_state.unwrap();
    assert_eq!(state.pending[0].branch, "part2");
    assert_eq!(state.new_base_for_next, "new1");
    assert_eq!(state.pending.len(), 2);

    // Wrong operation kind is refused.
    let other = Processor::resume("advance", Some(copy_state(&state)));
    assert!(matches!(other, Err(Error::OperationInFlight { op }) if op == "restack"));
    assert!(matches!(Processor::resume("restack", None), Err(Error::NoInFlightOperation { op }) if op == "restack"));

    let (p, a) = Processor::resume("restack", Some(state)).unwrap();
    assert!(matches!(a, Action::CheckPickInProgress));
    let mut repo2 = repo3();
    let done = run(&mut repo2, p, a).unwrap();
    assert!(done.pending.is_empty());
    assert_eq!(repo2.refs["part2"], "new1");
}

fn copy_state(s: &OpState) -> OpState {
    OpState {
        op: s.op.clone(),
        target_oid: s.target_oid.clone(),
        new_base_for_next: s.new_base_for_next.clone(),
        pending: s.pending.iter().map(|p| p.clone()).collect(),
        dropped: s.dropped.clone(),
        undo: UndoSnapshot {
            stack_name: s.undo.stack_name.clone(),
            previous_refs: s.undo.previous_refs.clone(),
            checked_out: s.undo.checked_out.clone(),
            metadata: s.undo.metadata.clone(),
        },
    }
}

#[test]
fn continue_with_unresolved_conflicts_is_refused() {
    let st = stack3();
    let pending = vec![PendingLayer { branch: s("part2"), old_base: s("A"), old_tip: s("B") }];
    let undo = UndoSnapshot::new(&st, &None, &vec![s("A"), s("B"), s("C")]);
    let state = OpState::new("restack", s("T1"), pending, None, undo);
    let (mut p, a) = Processor::resume("restack", Some(state)).unwrap();
    assert!(matches!(a, Action::CheckPickInProgress));
    assert!(matches!(p.step(Event::PickInProgress(true)), Action::CheckUnmerged));
    match p.step(Event::Unmerged(true)) {
        Action::Fail(Error::ConflictsNotResolved { branch }) => assert_eq!(branch, "part2"),
        other => panic!("unexpected {:?}", other),
    }
    assert!(matches!(p.phase, Phase::Done));
}

#[test]
fn continue_pick_failure_reports_conflict() {
    let st = stack3();
    let pending = vec![PendingLayer { branch: s("part2"), old_base: s("A"), old_tip: s("B") }];
    let undo = UndoSnapshot::new(&st, &None, &vec![s("A"), s("B"), s("C")]);
    let state = OpState::new("advance", s("T1"), pending, Some(s("part1")), undo);
    let (mut p, _) = Processor::resume("advance", Some(state)).unwrap();
    p.step(Event::PickInProgress(true));
    assert!(matches!(p.step(Event::Unmerged(false)), Action::ContinuePick));
    match p.step(Event::PickFailed(s("still empty"))) {
        Action::Fail(Error::RestackConflict { branch, op, details }) => {
            assert_eq!((branch, op, details), (s("part2"), s("advance"), s("still empty")));
        }
        other => panic!("unexpected {:?}", other),
    }
}

#[test]
fn continue_without_pick_and_no_pending_finalizes() {
    let st = stack3();
    let undo = UndoSnapshot::new(&st, &None, &vec![s("A"), s("B"), s("C")]);
    let state = OpState::new("restack", s("T1"), vec![], None, undo);
    let (mut p, _) = Processor::resume("restack", Some(state)).unwrap();
    assert!(matches!(p.step(Event::PickInProgress(false)), Action::Finalize));
    let undo = UndoSnapshot::new(&st, &None, &vec![s("A"), s("B"), s("C")]);
    let state = OpState::new("restack", s("T1"), vec![], None, undo);
    let (mut p, _) = Processor::resume("restack", Some(state)).unwrap();
    assert!(matches!(p.step(Event::PickInProgress(true)), Action::Fail(Error::NoInFlightOperation { .. })));
}

#[test]
fn guards_refuse_empty_and_inconsistent_layers() {
    let mut repo = repo3();
    repo.refs.insert(s("part2"), s("A"));
    let st = stack3();
    match start(&repo, &st, "restack", None) {
        Err(Error::EmptyLayer { branch, base }) => assert_eq!((branch, base), (s("part2"), s("A"))),
        other => panic!("unexpected {:?}", other.map(|_| ())),
    }
    let mut repo = repo3();
    repo.ancestors.remove(&(s("A"), s("B")));
    match start(&repo, &st, "restack", None) {
        Err(Error::InconsistentLayer { branch, base }) => assert_eq!((branch, base), (s("part2"), s("A"))),
        other => panic!("unexpected {:?}", other.map(|_| ())),
    }
}

#[test]
fn advance_drops_bottom_and_retargets() {
    let mut repo = repo3();
    repo.ancestors.insert((s("A"), s("T1")));
    let mut st = stack3();
    let bottom = bottom_branch(&st.metadata).unwrap();
    assert_eq!(bottom, "part1");
    let (p, a) = start(&repo, &st, "advance", Some(bottom)).unwrap();
    let state = run(&mut repo, p, a).unwrap();
    assert_eq!(repo.refs["part1"], "A");
    assert_eq!(repo.replays[0], (s("T1"), s("A"), s("B")));
    finalize(&repo, &mut st, &state);
    let branches: Vec<&str> = st.metadata.layers.iter().map(|l| l.branch.as_str()).collect();
    assert_eq!(branches, vec!["part2", "part3"]);
    assert_eq!(st.metadata.layers[0].base_oid, "T1");
    assert_eq!(completion_message(&state), "Advanced stack 'part1' (dropped layer 'part1')");
}

#[test]
fn advance_guard_refuses_target_behind_bottom() {
    let (t, toid, b, btip) = (s("main"), s("T"), s("part1"), s("A"));
    assert!(matches!(advance_guard(false, &t, &toid, &b, &btip, None), AdvanceGuard::AskAncestor { .. }));
    match advance_guard(false, &t, &toid, &b, &btip, Some(true)) {
        AdvanceGuard::Refuse(Error::TargetBehindBottom { target, target_oid, branch, bottom_tip }) => {
            assert_eq!((target, target_oid, branch, bottom_tip), (s("main"), s("T"), s("part1"), s("A")));
        }
        other => panic!("unexpected {:?}", other),
    }
    assert!(matches!(advance_guard(false, &t, &toid, &b, &btip, Some(false)), AdvanceGuard::Proceed));
    assert!(matches!(advance_guard(true, &t, &toid, &b, &btip, None), AdvanceGuard::Proceed));
    assert!(matches!(advance_guard(false, &t, &btip, &b, &btip, None), AdvanceGuard::Proceed));
}

#[test]
fn modes_and_in_flight_refusal() {
    assert!(matches!(RestackArgs { continue_: true, undo: true }.mode(), Mode::Continue));
    assert!(matches!(RestackArgs { continue_: false, undo: true }.mode(), Mode::Undo));
    assert!(matches!(RestackArgs { continue_: false, undo: false }.mode(), Mode::Start));
    assert!(matches!(AdvanceArgs { continue_: false, undo: false, force: true }.mode(), Mode::Start));
    assert!(refuse_if_in_flight(None).is_ok());
    let st = stack3();
    let undo = UndoSnapshot::new(&st, &None, &vec![s("A"), s("B"), s("C")]);
    let state = OpState::new("advance", s("T1"), vec![], None, undo);
    assert!(matches!(refuse_if_in_flight(Some(state)), Err(Error::OperationInFlight { op }) if op == "advance"));
}

#[test]
fn snapshot_files_are_per_operation() {
    assert_eq!(snapshot_file_for("advance"), ADVANCE_SNAPSHOT_FILE);
    assert_eq!(snapshot_file_for("restack"), RESTACK_SNAPSHOT_FILE);
    assert_eq!(snapshot_file_for("other"), "undo_snapshot.json");
    assert_eq!(ADVANCE_SNAPSHOT_FILE, "advance_undo_snapshot.json");
}

#[test]
fn undo_restores_snapshot() {
    let st = stack3();
    let snap = UndoSnapshot::new(&st, &Some(s("part2")), &vec![s("A"), s("B"), s("C")]);
    assert_eq!(snap.previous_refs, vec![(s("part1"), s("A")), (s("part2"), s("B")), (s("part3"), s("C"))]);
    let mut after = Stack { name: s("part1"), metadata: StackMetadata::new(s("main")) };
    let (refs, checkout) = apply_undo(&mut after, snap);
    assert_eq!(refs.len(), 3);
    assert_eq!(refs[1], (s("part2"), s("B")));
    assert_eq!(checkout, Some(s("part2")));
    assert_eq!(after.metadata.layers.len(), 3);
    assert_eq!(after.metadata.layers[0].base_oid, "T0");
}

#[test]
fn undo_prefers_in_flight_snapshot() {
    let st = stack3();
    let inflight = UndoSnapshot::new(&st, &Some(s("x")), &vec![s("A"), s("B"), s("C")]);
    let saved = UndoSnapshot::new(&st, &Some(s("y")), &vec![s("A"), s("B"), s("C")]);
    let state = OpState::new("restack", s("T1"), vec![], None, inflight);
    let (u, had) = choose_undo("restack", Some(state), Some(saved)).unwrap();
    assert!(had);
    assert_eq!(u.checked_out, Some(s("x")));
    let saved = UndoSnapshot::new(&st, &Some(s("y")), &vec![s("A"), s("B"), s("C")]);
    let inflight = UndoSnapshot::new(&st, &Some(s("x")), &vec![s("A"), s("B"), s("C")]);
    let state = OpState::new("advance", s("T1"), vec![], None, inflight);
    let (u, had) = choose_undo("restack", Some(state), Some(saved)).unwrap();
    assert!(!had);
    assert_eq!(u.checked_out, Some(s("y")));
    assert!(matches!(choose_undo("restack", None, None), Err(Error::UndoSnapshotNotFound)));
}

#[test]
fn advance_refuses_out_of_date_survivors() {
    let ok = |b: &str| LayerCheck { branch: s(b), issue: None };
    // The bottom layer's own issue does not matter: it is dropped.
    let checks = vec![
        LayerCheck { branch: s("part1"), issue: Some(LayerIssue::BranchNotFound) },
        ok("part2"),
        ok("part3"),
    ];
    assert!(advance_up_to_date(&checks).is_ok());
    let checks = vec![
        ok("part1"),
        LayerCheck { branch: s("part2"), issue: Some(LayerIssue::BehindBelow { commits: 2 }) },
        ok("part3"),
        LayerCheck { branch: s("part4"), issue: Some(LayerIssue::BranchNotFound) },
    ];
    match advance_up_to_date(&checks) {
        Err(Error::StackNotUpToDate { layers }) => assert_eq!(layers, vec![s("part2"), s("part4")]),
        other => panic!("unexpected {:?}", other),
    }
    assert!(advance_up_to_date(&vec![]).is_ok());
    assert!(advance_up_to_date(&vec![ok("only")]).is_ok());
}

#[test]
fn advance_matches_remove_then_restack() {
    // Run A: advance.
    let mut repo_a = repo3();
    let mut st_a = stack3();
    let bottom = bottom_branch(&st_a.metadata).unwrap();
    let (p, a) = start(&repo_a, &st_a, "advance", Some(bottom)).unwrap();
    let state_a = run(&mut repo_a, p, a).unwrap();
    finalize(&repo_a, &mut st_a, &state_a);

    // Run B: remove the bottom layer, then restack.
    let mut repo_b = repo3();
    let mut st_b = stack3();
    let removal = stack::commands::remove::Args { name: s("part1"), branch: s("part1") };
    removal.apply(&mut st_b.metadata).unwrap();
    let (p, a) = start(&repo_b, &st_b, "restack", None).unwrap();
    let state_b = run(&mut repo_b, p, a).unwrap();
    finalize(&repo_b, &mut st_b, &state_b);

    assert_eq!(repo_a.refs, repo_b.refs);
    let view = |st: &Stack| -> Vec<(String, String)> {
        st.metadata.layers.iter().map(|l| (l.branch.clone(), l.base_oid.clone())).collect()
    };
    assert_eq!(view(&st_a), view(&st_b));
    assert_eq!(st_a.metadata.target, st_b.metadata.target);
}

#[test]
fn second_restack_changes_nothing() {
    let mut repo = repo3();
    let mut st = stack3();
    let (p, a) = start(&repo, &st, "restack", None).unwrap();
    let state = run(&mut repo, p, a).unwrap();
    finalize(&repo, &mut st, &state);
    let refs_before = repo.refs.clone();
    let bases_before: Vec<String> = st.metadata.layers.iter().map(|l| l.base_oid.clone()).collect();
    // The replayed commits descend from their new bases.
    for (anc, desc) in [("T1", "new1"), ("new1", "new2"), ("new2", "new3")] {
        repo.ancestors.insert((s(anc), s(desc)));
    }
    repo.replays.clear();
    let (p, a) = start(&repo, &st, "restack", None).unwrap();
    let state = run(&mut repo, p, a).unwrap();
    finalize(&repo, &mut st, &state);
    assert!(repo.replays.is_empty());
    assert_eq!(repo.refs, refs_before);
    let bases_after: Vec<String> = st.metadata.layers.iter().map(|l| l.base_oid.clone()).collect();
    assert_eq!(bases_after, bases_before);
}
