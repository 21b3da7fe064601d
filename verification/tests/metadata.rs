use stack::metadata::{AddLayerError, LayerMetadata, Stack, StackMetadata};

fn s(x: &str) -> String {
    x.to_string()
}

fn branches(m: &StackMetadata) -> Vec<String> {
    m.layers.iter().map(|l| l.branch.clone()).collect()
}

fn sample() -> StackMetadata {
    let mut m = StackMetadata::new(s("main"));
    m.add_layer(&s("part1"), &s("b1")).unwrap();
    m.add_layer(&s("part2"), &s("b2")).unwrap();
    m.add_layer(&s("part3"), &s("b3")).unwrap();
    m
}

#[test]
fn new_stack_has_version_target_and_no_layers() {
    let m = StackMetadata::new(s("main"));
    assert_eq!(m.version, 1);
    assert_eq!(m.target, "main");
    assert!(m.layers.is_empty());
    assert_eq!(m.size(), 0);
}

#[test]
fn add_layer_appends_on_top() {
    let m = sample();
    assert_eq!(branches(&m), vec!["part1", "part2", "part3"]);
    assert_eq!(m.layers[2].base_oid, "b3");
    assert_eq!(m.size(), 3);
}

#[test]
fn add_layer_refuses_duplicate_branch() {
    let mut m = sample();
    match m.add_layer(&s("part2"), &s("x")) {
        Err(AddLayerError::LayerExists(b)) => assert_eq!(b, "part2"),
        other => panic!("unexpected {:?}", other),
    }
    assert_eq!(branches(&m), vec!["part1", "part2", "part3"]);
}

#[test]
fn add_layer_at_inserts_and_shifts() {
    let mut m = sample();
    m.add_layer_at(&s("mid"), &s("bm"), 1).unwrap();
    assert_eq!(branches(&m), vec!["part1", "mid", "part2", "part3"]);
    assert_eq!(m.get_position(&s("mid")), Some(1));
    m.add_layer_at(&s("bottom"), &s("bb"), 0).unwrap();
    assert_eq!(m.get_position(&s("bottom")), Some(0));
    m.add_layer_at(&s("top"), &s("bt"), 5).unwrap();
    assert_eq!(m.get_position(&s("top")), Some(5));
}

#[test]
fn add_layer_at_refuses_position_beyond_top() {
    let mut m = sample();
    match m.add_layer_at(&s("x"), &s("bx"), 4) {
        Err(AddLayerError::PositionOutOfBounds { position, size }) => {
            assert_eq!(position, 4);
            assert_eq!(size, 3);
        }
        other => panic!("unexpected {:?}", other),
    }
    assert_eq!(m.size(), 3);
}

#[test]
fn get_position_finds_layers() {
    let m = sample();
    assert_eq!(m.get_position(&s("part1")), Some(0));
    assert_eq!(m.get_position(&s("part3")), Some(2));
    assert_eq!(m.get_position(&s("nope")), None);
}

#[test]
fn remove_layer_returns_it_and_keeps_order() {
    let mut m = sample();
    let removed = m.remove_layer(&s("part2")).unwrap();
    assert_eq!(removed.branch, "part2");
    assert_eq!(removed.base_oid, "b2");
    assert_eq!(branches(&m), vec!["part1", "part3"]);
    assert!(m.remove_layer(&s("part2")).is_none());
}

#[test]
fn remove_undoes_insert() {
    let mut m = sample();
    m.add_layer_at(&s("new"), &s("bn"), 2).unwrap();
    m.remove_layer(&s("new")).unwrap();
    assert_eq!(branches(&m), vec!["part1", "part2", "part3"]);
}

#[test]
fn clone_keeps_everything() {
    let m = sample();
    let c = m.clone();
    assert_eq!(c.version, m.version);
    assert_eq!(c.target, m.target);
    assert_eq!(branches(&c), branches(&m));
    let l = LayerMetadata { branch: s("a"), base_oid: s("b") };
    let lc = l.clone();
    assert_eq!(lc.branch, "a");
    assert_eq!(lc.base_oid, "b");
}

#[test]
fn stack_accessors() {
    let mut st = Stack { name: s("part1"), metadata: sample() };
    assert_eq!(st.name(), "part1");
    assert_eq!(st.metadata().size(), 3);
    st.set_metadata(StackMetadata::new(s("dev")));
    assert_eq!(st.metadata.target, "dev");
    assert_eq!(st.name, "part1");
}

#[test]
fn decimal_renders_numbers() {
    assert_eq!(stack::text::decimal(0), "0");
    assert_eq!(stack::text::decimal(7), "7");
    assert_eq!(stack::text::decimal(10), "10");
    assert_eq!(stack::text::decimal(1234), "1234");
    assert_eq!(stack::text::decimal(u64::MAX), "18446744073709551615");
}

#[test]
fn current_branch_from_output_detached_is_none() {
    assert_eq!(stack::git::current_branch_from_output(s("")), None);
    assert_eq!(stack::git::current_branch_from_output(s("part1")), Some(s("part1")));
    assert_eq!(stack::git::DEFAULT_BRANCH_TARGET, "main");
}
