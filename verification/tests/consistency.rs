use stack::commands::consistency::{
    assess_layer, evaluate, short_oid, Assessment, Evaluation, Facts, LayerIssue, Question,
};
use stack::metadata::LayerMetadata;

fn s(x: &str) -> String {
    x.to_string()
}

#[test]
fn short_oid_truncates_to_seven() {
    assert_eq!(short_oid("0123456789abcdef"), "0123456");
    assert_eq!(short_oid("0123456"), "0123456");
    assert_eq!(short_oid("abc"), "abc");
    assert_eq!(short_oid(""), "");
}

#[test]
fn describe_each_issue() {
    assert_eq!(LayerIssue::BranchNotFound.describe(), "branch not found");
    assert_eq!(
        LayerIssue::BaseNotAncestor { base: s("aaaaaaaaaa"), tip: s("bbbbbbbbbb") }.describe(),
        "inconsistent: base aaaaaaa is not an ancestor of tip bbbbbbb"
    );
    assert_eq!(
        LayerIssue::EmptyLayer { base: s("cccccccccc") }.describe(),
        "empty: no commits over base ccccccc"
    );
    assert_eq!(LayerIssue::BehindBelow { commits: 3 }.describe(), "3 commit(s) behind");
    assert_eq!(LayerIssue::BelowChanged { removed: 2 }.describe(), "2 commit(s) deleted below");
    assert_eq!(LayerIssue::BelowChanged { removed: 0 }.describe(), "base below changed");
}

fn facts(a: Option<bool>, b: Option<bool>, c: Option<u64>) -> Facts {
    Facts { base_in_tip: a, base_in_below: b, count: c }
}

#[test]
fn assess_asks_then_judges() {
    let (base, tip, below) = (s("base"), s("tip"), s("below"));
    match assess_layer(false, &base, &tip, &below, &Facts::unknown()) {
        Assessment::Ask { question, from, to } => {
            assert_eq!(question, Question::BaseInTip);
            assert_eq!((from, to), (s("base"), s("tip")));
        }
        other => panic!("unexpected {:?}", other),
    }
    match assess_layer(false, &base, &tip, &below, &facts(Some(false), None, None)) {
        Assessment::Verdict(Some(LayerIssue::BaseNotAncestor { base: b, tip: t })) => {
            assert_eq!((b, t), (s("base"), s("tip")))
        }
        other => panic!("unexpected {:?}", other),
    }
    match assess_layer(false, &base, &tip, &below, &facts(Some(true), None, None)) {
        Assessment::Ask { question, from, to } => {
            assert_eq!(question, Question::BaseInBelow);
            assert_eq!((from, to), (s("base"), s("below")));
        }
        other => panic!("unexpected {:?}", other),
    }
    match assess_layer(false, &base, &tip, &below, &facts(Some(true), Some(true), None)) {
        Assessment::Ask { question, from, to } => {
            assert_eq!(question, Question::Count);
            assert_eq!((from, to), (s("base"), s("below")));
        }
        other => panic!("unexpected {:?}", other),
    }
    match assess_layer(false, &base, &tip, &below, &facts(Some(true), Some(false), None)) {
        Assessment::Ask { question, from, to } => {
            assert_eq!(question, Question::Count);
            assert_eq!((from, to), (s("below"), s("base")));
        }
        other => panic!("unexpected {:?}", other),
    }
    assert!(matches!(
        assess_layer(false, &base, &tip, &below, &facts(Some(true), Some(true), Some(4))),
        Assessment::Verdict(Some(LayerIssue::BehindBelow { commits: 4 }))
    ));
    assert!(matches!(
        assess_layer(true, &base, &tip, &below, &facts(Some(true), Some(true), Some(4))),
        Assessment::Verdict(None)
    ));
    assert!(matches!(
        assess_layer(false, &base, &tip, &below, &facts(Some(true), Some(false), Some(1))),
        Assessment::Verdict(Some(LayerIssue::BelowChanged { removed: 1 }))
    ));
}

#[test]
fn assess_empty_and_up_to_date() {
    assert!(matches!(
        assess_layer(false, &s("x"), &s("x"), &s("y"), &facts(Some(true), None, None)),
        Assessment::Verdict(Some(LayerIssue::EmptyLayer { .. }))
    ));
    assert!(matches!(
        assess_layer(false, &s("x"), &s("t"), &s("x"), &facts(Some(true), None, None)),
        Assessment::Verdict(None)
    ));
}

fn layer(b: &str, base: &str) -> LayerMetadata {
    LayerMetadata { branch: s(b), base_oid: s(base) }
}

#[test]
fn evaluate_walks_layers_bottom_up() {
    // target T; part1 based on T (tip A), part2 based on A (tip B): up to date.
    let layers = vec![layer("part1", "T"), layer("part2", "A"), layer("part3", "Z")];
    let tips = vec![Some(s("A")), Some(s("B")), None];
    let mut fs: Vec<Facts> = vec![Facts::unknown(), Facts::unknown(), Facts::unknown()];
    let mut asked = 0;
    loop {
        match evaluate(&layers, &s("T"), &tips, &fs) {
            Evaluation::Ask { layer, question, .. } => {
                asked += 1;
                assert_eq!(question, Question::BaseInTip);
                fs[layer].base_in_tip = Some(true);
            }
            Evaluation::Done(checks) => {
                assert_eq!(checks.len(), 3);
                assert_eq!(checks[0].branch, "part1");
                assert_eq!(checks[0].issue, None);
                assert_eq!(checks[1].issue, None);
                assert_eq!(checks[2].issue, Some(LayerIssue::BranchNotFound));
                break;
            }
        }
    }
    assert_eq!(asked, 2);
}

#[test]
fn evaluate_bottom_behind_target_is_fine_but_upper_is_not() {
    // part1 based on old target T0 while target is now T; part2 based on old tip A0.
    let layers = vec![layer("part1", "T0"), layer("part2", "A0")];
    let tips = vec![Some(s("A")), Some(s("B"))];
    let fs = vec![facts(Some(true), Some(true), Some(2)), facts(Some(true), Some(true), Some(1))];
    match evaluate(&layers, &s("T"), &tips, &fs) {
        Evaluation::Done(checks) => {
            assert_eq!(checks[0].issue, None);
            assert_eq!(checks[1].issue, Some(LayerIssue::BehindBelow { commits: 1 }));
        }
        other => panic!("unexpected {:?}", other),
    }
}
