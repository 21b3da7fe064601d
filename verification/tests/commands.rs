use stack::commands::movement::{bottom, down, top, up};
use stack::commands::consistency::{LayerCheck, LayerIssue};
use stack::commands::{
    delete, get_stack_metadata_path, init, insert, join_path, list, remove, repo_git_folder, stack_file,
    stack_for_branch, status, CliError, Ctx,
};
use stack::metadata::{AddLayerError, Stack, StackMetadata};

fn s(x: &str) -> String {
    x.to_string()
}

fn sample() -> StackMetadata {
    let mut m = StackMetadata::new(s("main"));
    m.add_layer(&s("part1"), &s("b1")).unwrap();
    m.add_layer(&s("part2"), &s("b2")).unwrap();
    m.add_layer(&s("part3"), &s("b3")).unwrap();
    m
}

fn init_args(target: Option<&str>, name: Option<&str>) -> init::Args {
    init::Args { target: target.map(s), name: name.map(s), force: false, base: None }
}

#[test]
fn init_defaults_target_and_name() {
    let plan = init_args(None, None).plan(Some(s("part1"))).unwrap();
    assert_eq!(plan.target, "main");
    assert_eq!(plan.name, "part1");
    assert_eq!(plan.branch, "part1");
    let plan = init_args(Some("dev"), Some("mystack")).plan(Some(s("part1"))).unwrap();
    assert_eq!(plan.target, "dev");
    assert_eq!(plan.name, "mystack");
}

#[test]
fn init_refuses_target_equal_to_current_branch() {
    assert!(matches!(init_args(None, None).plan(Some(s("main"))), Err(CliError::TargetBranchMatchesCurrent)));
    assert!(matches!(init_args(Some("dev"), None).plan(Some(s("dev"))), Err(CliError::TargetBranchMatchesCurrent)));
}

#[test]
fn init_requires_a_branch() {
    assert!(matches!(init_args(None, None).plan(None), Err(CliError::NotOnBranch)));
}

#[test]
fn init_refuses_existing_stack_unless_forced() {
    match init::refuse_existing(&s("part1"), true, false) {
        Err(CliError::StackExists(n)) => assert_eq!(n, "part1"),
        other => panic!("unexpected {:?}", other),
    }
    assert!(init::refuse_existing(&s("part1"), true, true).is_ok());
    assert!(init::refuse_existing(&s("part1"), false, false).is_ok());
}

#[test]
fn init_builds_one_layer_stack() {
    let plan = init_args(None, None).plan(Some(s("part1"))).unwrap();
    let m = init::build(&plan, None, s("headsha"));
    assert_eq!(m.version, 1);
    assert_eq!(m.target, "main");
    assert_eq!(m.layers.len(), 1);
    assert_eq!(m.layers[0].branch, "part1");
    assert_eq!(m.layers[0].base_oid, "headsha");
    let m = init::build(&plan, Some(s("given")), s("headsha"));
    assert_eq!(m.layers[0].base_oid, "given");
}

fn insert_args() -> insert::Args {
    insert::Args { name: s("part1"), branch: None, at: None, before: None, after: None, from: None }
}

#[test]
fn insert_branch_defaults_to_current() {
    let mut a = insert_args();
    assert_eq!(a.layer_branch(Some(s("cur"))).unwrap(), "cur");
    assert!(matches!(a.layer_branch(None), Err(CliError::NotOnBranch)));
    a.branch = Some(s("given"));
    assert_eq!(a.layer_branch(None).unwrap(), "given");
}

#[test]
fn insert_position_from_at_before_after() {
    let m = sample();
    let mut a = insert_args();
    assert_eq!(a.position(&m).unwrap(), None);
    a.at = Some(2);
    assert_eq!(a.position(&m).unwrap(), Some(2));
    a.at = None;
    a.before = Some(s("part2"));
    assert_eq!(a.position(&m).unwrap(), Some(1));
    a.before = None;
    a.after = Some(s("part2"));
    assert_eq!(a.position(&m).unwrap(), Some(2));
    a.after = Some(s("missing"));
    match a.position(&m) {
        Err(CliError::LayerNotFound(l)) => assert_eq!(l, "missing"),
        other => panic!("unexpected {:?}", other),
    }
}

#[test]
fn insert_base_candidate_is_layer_below_or_target() {
    let m = sample();
    assert_eq!(insert::base_candidate(&m, Some(0)), (s("main"), s("the stack target")));
    assert_eq!(insert::base_candidate(&m, Some(2)), (s("part2"), s("'part2'")));
    assert_eq!(insert::base_candidate(&m, None), (s("part3"), s("'part3'")));
    assert_eq!(insert::base_candidate(&m, Some(9)), (s("part3"), s("'part3'")));
    let empty = StackMetadata::new(s("main"));
    assert_eq!(insert::base_candidate(&empty, None), (s("main"), s("the stack target")));
    assert_eq!(insert::base_candidate(&empty, Some(3)), (s("main"), s("the stack target")));
}

#[test]
fn insert_base_undeterminable_without_merge_base() {
    assert_eq!(insert::inferred_base(&s("b"), &s("'part2'"), Some(s("sha"))).unwrap(), "sha");
    match insert::inferred_base(&s("b"), &s("'part2'"), None) {
        Err(CliError::BaseUndeterminable { branch, candidate }) => {
            assert_eq!(branch, "b");
            assert_eq!(candidate, "'part2'");
        }
        other => panic!("unexpected {:?}", other),
    }
}

#[test]
fn insert_from_wins_over_inferred_base() {
    assert_eq!(insert::choose_base(Some(s("fromsha")), &s("b"), &s("'x'"), None).unwrap(), "fromsha");
    assert_eq!(insert::choose_base(Some(s("fromsha")), &s("b"), &s("'x'"), Some(s("mb"))).unwrap(), "fromsha");
    assert_eq!(insert::choose_base(None, &s("b"), &s("'x'"), Some(s("mb"))).unwrap(), "mb");
    assert!(matches!(
        insert::choose_base(None, &s("b"), &s("'x'"), None),
        Err(CliError::BaseUndeterminable { .. })
    ));
}

#[test]
fn insert_layer_at_position_or_top() {
    let mut m = sample();
    insert::insert_layer(&mut m, &s("x"), &s("bx"), Some(1)).unwrap();
    assert_eq!(m.layers[1].branch, "x");
    insert::insert_layer(&mut m, &s("y"), &s("by"), None).unwrap();
    assert_eq!(m.layers[4].branch, "y");
    assert!(matches!(
        insert::insert_layer(&mut m, &s("x"), &s("bx"), None),
        Err(CliError::AddLayerError(AddLayerError::LayerExists(_)))
    ));
    assert!(matches!(
        insert::insert_layer(&mut m, &s("z"), &s("bz"), Some(10)),
        Err(CliError::AddLayerError(AddLayerError::PositionOutOfBounds { position: 10, size: 5 }))
    ));
    assert_eq!(insert::quoted(&s("ab")), "'ab'");
}

#[test]
fn remove_command_removes_or_reports() {
    let mut m = sample();
    let a = remove::Args { name: s("part1"), branch: s("part2") };
    let l = a.apply(&mut m).unwrap();
    assert_eq!(l.branch, "part2");
    assert_eq!(m.layers.len(), 2);
    match a.apply(&mut m) {
        Err(CliError::LayerNotFound(b)) => assert_eq!(b, "part2"),
        other => panic!("unexpected {:?}", other),
    }
}

#[test]
fn delete_requires_existing_stack() {
    let a = delete::Args { name: s("gone") };
    assert!(a.check_exists(true).is_ok());
    match a.check_exists(false) {
        Err(CliError::StackNotFound(n)) => assert_eq!(n, "gone"),
        other => panic!("unexpected {:?}", other),
    }
}

#[test]
fn list_strips_json_and_reports_empty() {
    assert_eq!(list::stack_name("part1.json"), "part1");
    assert_eq!(list::stack_name("notes.txt"), "notes.txt");
    assert_eq!(list::stack_name(".json"), "");
    assert_eq!(list::listing(&vec![]), vec![s("No stacks available")]);
    assert_eq!(
        list::listing(&vec![Some(s("a.json")), None, Some(s("b"))]),
        vec![s("Available stacks:"), s(" - a"), s(" - b")]
    );
    assert_eq!(list::listing(&vec![None]), vec![s("Available stacks:")]);
}

fn clean(m: &StackMetadata) -> Vec<LayerCheck> {
    m.layers.iter().map(|l| LayerCheck { branch: l.branch.clone(), issue: None }).collect()
}

#[test]
fn status_marks_current_layer() {
    let st = Stack { name: s("part1"), metadata: sample() };
    let checks = clean(&st.metadata);
    assert!(status::checks_can_render(&checks));
    assert_eq!(
        status::render(&st, &s("part2"), &checks),
        vec![s("Current stack: part1 (target: main)"), s(""), s("  part1"), s("* part2"), s("  part3")]
    );
    assert_eq!(
        status::render(&st, &s("other"), &checks),
        vec![s("Current stack: part1 (target: main)"), s(""), s("  part1"), s("  part2"), s("  part3")]
    );
}

#[test]
fn status_annotates_issues_and_summarises() {
    let st = Stack { name: s("part1"), metadata: sample() };
    let mut checks = clean(&st.metadata);
    checks[1].issue = Some(LayerIssue::BehindBelow { commits: 1 });
    assert_eq!(
        status::render(&st, &s("part2"), &checks),
        vec![
            s("Current stack: part1 (target: main)"),
            s(""),
            s("  part1"),
            s("* part2  1 commit(s) behind — needs restack"),
            s("  part3  needs restack (layers below changed)"),
            s(""),
            s("Stack needs to be restacked"),
        ]
    );
    let mut checks = clean(&st.metadata);
    checks[2].issue = Some(LayerIssue::EmptyLayer { base: s("0123456789") });
    checks[0].issue = Some(LayerIssue::BranchNotFound);
    assert_eq!(
        status::render(&st, &s("part3"), &checks),
        vec![
            s("Current stack: part1 (target: main)"),
            s(""),
            s("  part1  ! branch not found"),
            s("  part2"),
            s("* part3  ! empty: no commits over base 0123456"),
            s(""),
            s("Stack needs to be restacked"),
        ]
    );
}

#[test]
fn status_refuses_undescribable_ids() {
    let st = sample();
    let mut checks = clean(&st);
    // 'é' takes two bytes: the seventh byte splits it.
    checks[0].issue = Some(LayerIssue::EmptyLayer { base: s("abcdefé1") });
    assert!(!status::checks_can_render(&checks));
}

#[test]
fn paths_join_like_the_filesystem() {
    assert_eq!(join_path(&s("/repo"), ".git"), "/repo/.git");
    assert_eq!(join_path(&s("/repo/"), ".git"), "/repo/.git");
    assert_eq!(join_path(&s("/repo"), "/abs/git"), "/abs/git");
    assert_eq!(join_path(&s(""), "x"), "x");
    assert_eq!(repo_git_folder(&s("/work/r"), &s(".git")), "/work/r/.git");
    let ctx = Ctx { cwd: s("/work/r"), git_folder: s("/work/r/.git") };
    assert_eq!(ctx.stack_folder(), "/work/r/.git/stack/stacks");
    assert_eq!(ctx.stack_datadir(), "/work/r/.git/stack");
    assert_eq!(stack_file(&ctx, &s("part1")), "/work/r/.git/stack/stacks/part1.json");
    assert_eq!(get_stack_metadata_path(&s("g"), "stacks"), "g/stack/stacks");
}

#[test]
fn movement_follows_bottom_to_top_order() {
    let m = sample();
    assert_eq!(up(&m, &s("part2")).unwrap(), Some(s("part3")));
    assert_eq!(down(&m, &s("part2")).unwrap(), Some(s("part1")));
    assert_eq!(up(&m, &s("part3")).unwrap(), None);
    assert_eq!(down(&m, &s("part1")).unwrap(), None);
    assert_eq!(top(&m).unwrap(), s("part3"));
    assert_eq!(bottom(&m).unwrap(), s("part1"));
    assert!(matches!(up(&m, &s("zzz")), Err(CliError::NoStack)));
    assert!(matches!(down(&m, &s("zzz")), Err(CliError::NoStack)));
    let empty = StackMetadata::new(s("main"));
    assert!(matches!(top(&empty), Err(CliError::NoStack)));
    assert!(matches!(bottom(&empty), Err(CliError::NoStack)));
}

#[test]
fn up_then_down_returns() {
    let m = sample();
    let above = up(&m, &s("part1")).unwrap().unwrap();
    assert_eq!(down(&m, &above).unwrap(), Some(s("part1")));
    let below = down(&m, &s("part3")).unwrap().unwrap();
    assert_eq!(up(&m, &below).unwrap(), Some(s("part3")));
}

#[test]
fn stack_for_branch_finds_first_holder() {
    let a = Stack { name: s("a"), metadata: sample() };
    let mut other = StackMetadata::new(s("main"));
    other.add_layer(&s("feature"), &s("f")).unwrap();
    let b = Stack { name: s("b"), metadata: other };
    let stacks = vec![b, a];
    assert_eq!(stack_for_branch(&stacks, &s("part2")), Some(1));
    assert_eq!(stack_for_branch(&stacks, &s("feature")), Some(0));
    assert_eq!(stack_for_branch(&stacks, &s("nope")), None);
}
