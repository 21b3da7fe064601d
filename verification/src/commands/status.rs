//! `stack status`: the current stack, the current layer marked, and what
//! each layer's check found.
use vstd::prelude::*;
use crate::commands::consistency::{LayerCheck, LayerIssue};
use crate::metadata::{LayerView, Stack, is_first_position};
use crate::commands::list::lines_view;

verus! {

/// The marker in front of layer `i`: `*` for the layer of the current branch.
pub open spec fn marker_spec(layers: Seq<LayerView>, current: Seq<char>, i: int) -> Seq<char> {
    if is_first_position(layers, current, i) {
        "*"@
    } else {
        " "@
    }
}

/// The issue means the layer has to be re-applied: it is behind the layer
/// below it, or the history below it changed.
pub open spec fn needs_restack(issue: Option<LayerIssue>) -> bool {
    match issue {
        Some(LayerIssue::BehindBelow { .. }) | Some(LayerIssue::BelowChanged { .. }) => true,
        _ => false,
    }
}

/// Some layer below layer `i` has to be re-applied.
pub open spec fn restack_below(checks: Seq<LayerCheck>, i: int) -> bool {
    exists|j: int| 0 <= j < i && needs_restack((#[trigger] checks[j]).issue)
}

/// Some layer has an issue.
pub open spec fn any_issue(checks: Seq<LayerCheck>) -> bool {
    exists|j: int| 0 <= j < checks.len() && (#[trigger] checks[j]).issue is Some
}

/// What follows a layer's branch: an out-of-date layer says why it needs a
/// restack, a broken one is flagged with `!`, and an up-to-date layer above
/// an out-of-date one needs a restack because the layers below it change.
pub open spec fn annotation_spec(checks: Seq<LayerCheck>, i: int) -> Seq<char> {
    match checks[i].issue {
        Some(issue) => if needs_restack(checks[i].issue) {
            "  "@ + issue.describe_spec() + " — needs restack"@
        } else {
            "  ! "@ + issue.describe_spec()
        },
        None => if restack_below(checks, i) {
            "  needs restack (layers below changed)"@
        } else {
            Seq::empty()
        },
    }
}

/// The first line of `stack status`: the stack's name and its target.
pub open spec fn header_spec(name: Seq<char>, target: Seq<char>) -> Seq<char> {
    "Current stack: "@ + name + " (target: "@ + target + ")"@
}

/// The lines `stack status` prints: the stack's name and target, a blank line, every
/// layer bottom-up with the current one marked and its check's finding, and,
/// when some layer has an issue, a blank line and a summary.
pub open spec fn status_spec(
    name: Seq<char>,
    target: Seq<char>,
    layers: Seq<LayerView>,
    current: Seq<char>,
    checks: Seq<LayerCheck>,
) -> Seq<Seq<char>> {
    let body = seq![header_spec(name, target), ""@] + Seq::new(
        layers.len(),
        |i: int| marker_spec(layers, current, i) + " "@ + layers[i].branch + annotation_spec(checks, i),
    );
    if any_issue(checks) {
        body + seq![""@, "Stack needs to be restacked"@]
    } else {
        body
    }
}

/// Every issue found can be described.
pub open spec fn checks_displayable(checks: Seq<LayerCheck>) -> bool {
    forall|i: int| 0 <= i < checks.len() ==> match (#[trigger] checks[i]).issue {
        Some(issue) => issue.displayable(),
        None => true,
    }
}

/// Whether every issue found can be described (`render` needs it).
pub fn checks_can_render(checks: &Vec<LayerCheck>) -> (res: bool)
    ensures
        res == checks_displayable(checks@),
{
    let mut i: usize = 0;
    while i < checks.len()
        invariant
            i <= checks.len(),
            forall|j: int| 0 <= j < i ==> match (#[trigger] checks@[j]).issue {
                Some(issue) => issue.displayable(),
                None => true,
            },
        decreases checks.len() - i,
    {
        let ok = match &checks[i].issue {
            Some(issue) => issue.can_describe(),
            None => true,
        };
        if !ok {
            return false;
        }
        i += 1;
    }
    true
}

/// The issue is one of those that leave a layer out of date: its base is
/// behind the layer below, or the history below it changed.
pub open spec fn out_of_date_issue(issue: Option<LayerIssue>) -> bool {
    issue is Some && (issue.unwrap() is BehindBelow || issue.unwrap() is BelowChanged)
}

/// The issue is one of those that mean the layer's metadata is broken: its
/// branch is missing, its base is not an ancestor of its tip, or it has no
/// commit of its own.
pub open spec fn broken_issue(issue: Option<LayerIssue>) -> bool {
    issue is Some && (issue.unwrap() is BranchNotFound || issue.unwrap() is BaseNotAncestor
        || issue.unwrap() is EmptyLayer)
}

/// What `stack status` prints after layer `i`'s branch, by what its check
/// found: a layer behind the layer below it, or whose history below changed,
/// says why and that it needs a restack; only a missing branch, a base that is
/// not an ancestor of the tip, or an empty layer is flagged with `!`; a clean
/// layer above an out-of-date one needs a restack because the layers below it
/// change; any other clean layer has nothing after its branch.
pub proof fn lemma_annotation_by_issue(checks: Seq<LayerCheck>, i: int)
    requires
        0 <= i < checks.len(),
    ensures
        out_of_date_issue(checks[i].issue) ==> annotation_spec(checks, i)
            == "  "@ + checks[i].issue.unwrap().describe_spec() + " — needs restack"@,
        broken_issue(checks[i].issue) ==> annotation_spec(checks, i)
            == "  ! "@ + checks[i].issue.unwrap().describe_spec(),
        checks[i].issue is None && (exists|j: int| 0 <= j < i && out_of_date_issue((#[trigger] checks[j]).issue))
            ==> annotation_spec(checks, i) == "  needs restack (layers below changed)"@,
        checks[i].issue is None && !(exists|j: int| 0 <= j < i && out_of_date_issue((#[trigger] checks[j]).issue))
            ==> annotation_spec(checks, i) == Seq::<char>::empty(),
{
    assert forall|j: int| 0 <= j < i implies needs_restack((#[trigger] checks[j]).issue)
        == out_of_date_issue(checks[j].issue) by {}
    if checks[i].issue is None {
        if exists|j: int| 0 <= j < i && out_of_date_issue((#[trigger] checks[j]).issue) {
            let j = choose|j: int| 0 <= j < i && out_of_date_issue((#[trigger] checks[j]).issue);
            assert(needs_restack(checks[j].issue));
        }
        if restack_below(checks, i) {
            let j = choose|j: int| 0 <= j < i && needs_restack((#[trigger] checks[j]).issue);
            assert(out_of_date_issue(checks[j].issue));
        }
    }
}

/// The line of layer `i` in what `stack status` prints: its marker, its
/// branch, and what its check found, as `lemma_annotation_by_issue` states.
pub proof fn lemma_status_layer_line(
    name: Seq<char>,
    target: Seq<char>,
    layers: Seq<LayerView>,
    current: Seq<char>,
    checks: Seq<LayerCheck>,
    i: int,
)
    requires
        checks.len() == layers.len(),
        0 <= i < layers.len(),
    ensures
        status_spec(name, target, layers, current, checks)[i + 2]
            == marker_spec(layers, current, i) + " "@ + layers[i].branch + annotation_spec(checks, i),
{
}

/// The lines `stack status` prints for a stack, the current branch, and the
/// checks of its layers (`checks[i]` for layer `i`).
pub fn render(stack: &Stack, current_branch: &String, checks: &Vec<LayerCheck>) -> (res: Vec<String>)
    requires
        checks.len() == stack.metadata.layers.len(),
        checks_displayable(checks@),
    ensures
        lines_view(res@) == status_spec(stack.name@, stack.metadata@.target, stack.metadata@.layers, current_branch@, checks@),
        lines_view(res@)[0] == "Current stack: "@ + stack.name@ + " (target: "@ + stack.metadata@.target + ")"@,
        lines_view(res@)[1] == ""@,
        (exists|j: int| 0 <= j < checks@.len() && (#[trigger] checks@[j]).issue is Some) ==> {
            &&& res@.len() == checks@.len() + 4
            &&& lines_view(res@)[checks@.len() as int + 2] == ""@
            &&& lines_view(res@)[checks@.len() as int + 3] == "Stack needs to be restacked"@
        },
        !(exists|j: int| 0 <= j < checks@.len() && (#[trigger] checks@[j]).issue is Some) ==> res@.len()
            == checks@.len() + 2,
        forall|i: int| 0 <= i < checks@.len() ==> ({
            let line = lines_view(res@)[i + 2];
            let head = (if is_first_position(stack.metadata@.layers, current_branch@, i) { "*"@ } else { " "@ })
                + " "@ + stack.metadata@.layers[i].branch;
            let issue = (#[trigger] checks@[i]).issue;
            &&& out_of_date_issue(issue) ==> line == head + "  "@ + issue.unwrap().describe_spec() + " — needs restack"@
            &&& broken_issue(issue) ==> line == head + "  ! "@ + issue.unwrap().describe_spec()
            &&& issue is None && (exists|j: int| 0 <= j < i && out_of_date_issue((#[trigger] checks@[j]).issue))
                ==> line == head + "  needs restack (layers below changed)"@
            &&& issue is None && !(exists|j: int| 0 <= j < i && out_of_date_issue((#[trigger] checks@[j]).issue))
                ==> line == head
        }),
{
    let ghost layers = stack.metadata@.layers;
    let ghost body = seq![header_spec(stack.name@, stack.metadata@.target), ""@] + Seq::new(
        layers.len(),
        |i: int| marker_spec(layers, current_branch@, i) + " "@ + layers[i].branch + annotation_spec(checks@, i),
    );
    let mut lines: Vec<String> = Vec::new();
    let mut head = "Current stack: ".to_owned();
    head.append(stack.name.as_str());
    head.append(" (target: ");
    head.append(stack.metadata.target.as_str());
    head.append(")");
    lines.push(head);
    lines.push("".to_owned());
    let position = stack.metadata.get_position(current_branch);
    let mut below_needs = false;
    let mut issue_seen = false;
    let mut i: usize = 0;
    assert(lines_view(lines@) =~= body.take(2));
    while i < stack.metadata.layers.len()
        invariant
            i <= stack.metadata.layers.len(),
            checks.len() == stack.metadata.layers.len(),
            checks_displayable(checks@),
            layers == stack.metadata@.layers,
            body == seq![header_spec(stack.name@, stack.metadata@.target), ""@] + Seq::new(
                layers.len(),
                |i: int| marker_spec(layers, current_branch@, i) + " "@ + layers[i].branch + annotation_spec(checks@, i),
            ),
            match position {
                Some(p) => is_first_position(layers, current_branch@, p as int),
                None => !crate::metadata::has_branch(layers, current_branch@),
            },
            below_needs == restack_below(checks@, i as int),
            issue_seen == exists|j: int| 0 <= j < i && (#[trigger] checks@[j]).issue is Some,
            lines_view(lines@) == body.take(i + 2),
        decreases stack.metadata.layers.len() - i,
    {
        let marked = match position {
            Some(p) => p == i,
            None => false,
        };
        proof {
            match position {
                Some(p) => {
                    if is_first_position(layers, current_branch@, i as int) {
                        crate::metadata::lemma_first_position_unique(layers, current_branch@, p as int, i as int);
                    }
                },
                None => {},
            }
            assert(marked == is_first_position(layers, current_branch@, i as int));
        }
        let mut line = if marked { "*".to_owned() } else { " ".to_owned() };
        line.append(" ");
        line.append(stack.metadata.layers[i].branch.as_str());
        let ghost with_branch = line@;
        let check = &checks[i];
        assert(match check.issue { Some(issue) => issue.displayable(), None => true });
        let needs = match &check.issue {
            Some(LayerIssue::BehindBelow { .. }) => true,
            Some(LayerIssue::BelowChanged { .. }) => true,
            _ => false,
        };
        assert(needs == needs_restack(check.issue));
        match &check.issue {
            Some(issue) => {
                let text = issue.describe();
                if needs {
                    line.append("  ");
                    line.append(text.as_str());
                    line.append(" — needs restack");
                } else {
                    line.append("  ! ");
                    line.append(text.as_str());
                }
            },
            None => {
                if below_needs {
                    line.append("  needs restack (layers below changed)");
                }
            },
        }
        proof {
            assert(line@ =~= with_branch + annotation_spec(checks@, i as int));
        }
        let ghost before = lines@;
        lines.push(line);
        proof {
            assert(layers[i as int] == stack.metadata.layers@[i as int]@);
            assert(lines_view(lines@) =~= lines_view(before).push(line@));
            assert(body.take(i + 3) =~= body.take(i + 2).push(body[i + 2]));
            assert(restack_below(checks@, i + 1) == (below_needs || needs)) by {
                if needs {
                    assert(needs_restack(checks@[i as int].issue));
                }
                if restack_below(checks@, i + 1) && !below_needs {
                    let j = choose|j: int| 0 <= j < i + 1 && needs_restack((#[trigger] checks@[j]).issue);
                    assert(j == i);
                }
            }
        }
        below_needs = below_needs || needs;
        issue_seen = issue_seen || check.issue.is_some();
        i += 1;
    }
    assert(body.take(i + 2) =~= body);
    assert(issue_seen == any_issue(checks@));
    if issue_seen {
        lines.push("".to_owned());
        lines.push("Stack needs to be restacked".to_owned());
        assert(lines_view(lines@) =~= body + seq![""@, "Stack needs to be restacked"@]);
    }
    proof {
        assert forall|i: int| 0 <= i < checks@.len() implies ({
            let line = lines_view(lines@)[i + 2];
            let head = marker_spec(layers, current_branch@, i) + " "@ + layers[i].branch;
            let issue = (#[trigger] checks@[i]).issue;
            &&& out_of_date_issue(issue) ==> line == head + "  "@ + issue.unwrap().describe_spec() + " — needs restack"@
            &&& broken_issue(issue) ==> line == head + "  ! "@ + issue.unwrap().describe_spec()
            &&& issue is None && (exists|j: int| 0 <= j < i && out_of_date_issue((#[trigger] checks@[j]).issue))
                ==> line == head + "  needs restack (layers below changed)"@
            &&& issue is None && !(exists|j: int| 0 <= j < i && out_of_date_issue((#[trigger] checks@[j]).issue))
                ==> line == head
        }) by {
            lemma_status_layer_line(stack.name@, stack.metadata@.target, layers, current_branch@, checks@, i);
            lemma_annotation_by_issue(checks@, i);
            let head = marker_spec(layers, current_branch@, i) + " "@ + layers[i].branch;
            assert(head + Seq::<char>::empty() =~= head);
        }
    }
    lines
}

} // verus!
