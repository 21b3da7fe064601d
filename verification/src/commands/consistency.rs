//! The per-layer consistency checks behind `stack status`.
use vstd::prelude::*;
use vstd::utf8::{encode_utf8, decode_utf8, is_char_boundary};
use vstd::string::StringSliceAdditionalSpecFns;
use crate::metadata::{LayerMetadata, LayerView, layers_view};
use crate::commands::restack::{rebased, strings_view};
use crate::text::{decimal, decimal_spec};

verus! {

/// A single consistency problem found in a layer.
#[derive(Debug, PartialEq, Eq)]
pub enum LayerIssue {
    /// The layer's branch could not be resolved.
    BranchNotFound,
    /// The recorded base is not an ancestor of the branch's tip — the replay
    /// range would include other layers' commits.
    BaseNotAncestor { base: String, tip: String },
    /// The layer has no commits of its own (base == tip).
    EmptyLayer { base: String },
    /// The layer's base is behind the current tip of the layer below it.
    BehindBelow { commits: u64 },
    /// The layer's base is not on top of the current tip of the layer below
    /// it (history below the layer was rewritten, or commits removed).
    BelowChanged { removed: u64 },
}

/// An object ID can be shortened for display: it has at most seven bytes,
/// or its seventh byte ends a character.
pub open spec fn oid_displayable(oid: Seq<char>) -> bool {
    encode_utf8(oid).len() <= 7 || is_char_boundary(encode_utf8(oid), 7)
}

/// The first seven bytes of an object ID (the whole ID when it is shorter).
pub open spec fn short_oid_spec(oid: Seq<char>) -> Seq<char> {
    if encode_utf8(oid).len() > 7 {
        decode_utf8(encode_utf8(oid).subrange(0, 7))
    } else {
        oid
    }
}

/// Whether an object ID can be shortened for display (the others would
/// split a character).
pub fn oid_can_shorten(oid: &str) -> (res: bool)
    ensures
        res == oid_displayable(oid@),
{
    oid.as_bytes().len() <= 7 || oid.is_char_boundary(7)
}

/// Truncates an OID for display (falls back to the full OID if too short).
pub fn short_oid(oid: &str) -> (res: &str)
    requires
        oid_displayable(oid@),
    ensures
        res@ == short_oid_spec(oid@),
{
    if oid.as_bytes().len() > 7 {
        let (head, _) = oid.split_at(7);
        proof {
            vstd::utf8::encode_utf8_decode_utf8(head@);
            assert(head.spec_bytes() == encode_utf8(head@));
        }
        head
    } else {
        oid
    }
}

/// For an ASCII object ID (as git prints them), the short form is its first
/// seven characters.
pub proof fn lemma_short_oid_ascii(oid: Seq<char>)
    requires
        vstd::utf8::is_ascii_chars(oid),
    ensures
        oid_displayable(oid),
        short_oid_spec(oid) == (if oid.len() > 7 { oid.subrange(0, 7) } else { oid }),
{
    vstd::utf8::is_ascii_chars_encode_utf8(oid);
    vstd::utf8::encode_utf8_valid_utf8(oid);
    if encode_utf8(oid).len() > 7 {
        let b = encode_utf8(oid);
        vstd::utf8::is_char_boundary_iff_is_leading_byte(b, 7);
        vstd::utf8::is_ascii_chars_nat_bound(oid);
        assert((oid[7] as nat) < 128);
        assert(b[7] == oid[7] as u8);
        assert(vstd::utf8::is_leading_byte_width_1(b[7]));
    }
    if oid.len() > 7 {
        let head = oid.subrange(0, 7);
        assert(vstd::utf8::is_ascii_chars(head)) by {
            assert forall|i: int| 0 <= i < head.len() implies #[trigger] head[i] == oid[i] by {}
        }
        vstd::utf8::is_ascii_chars_encode_utf8(head);
        vstd::utf8::encode_utf8_decode_utf8(head);
        assert(encode_utf8(oid).subrange(0, 7) =~= encode_utf8(head));
    }
}

impl LayerIssue {
    /// Every object ID named in the issue can be shortened for display.
    pub open spec fn displayable(&self) -> bool {
        match self {
            LayerIssue::BaseNotAncestor { base, tip } => oid_displayable(base@) && oid_displayable(tip@),
            LayerIssue::EmptyLayer { base } => oid_displayable(base@),
            _ => true,
        }
    }

    /// The text that `describe` gives.
    pub open spec fn describe_spec(&self) -> Seq<char> {
        match self {
            LayerIssue::BranchNotFound => "branch not found"@,
            LayerIssue::BaseNotAncestor { base, tip } => "inconsistent: base "@ + short_oid_spec(base@)
                + " is not an ancestor of tip "@ + short_oid_spec(tip@),
            LayerIssue::EmptyLayer { base } => "empty: no commits over base "@ + short_oid_spec(base@),
            LayerIssue::BehindBelow { commits } => decimal_spec(*commits as nat) + " commit(s) behind"@,
            LayerIssue::BelowChanged { removed } => if *removed > 0 {
                decimal_spec(*removed as nat) + " commit(s) deleted below"@
            } else {
                "base below changed"@
            },
        }
    }

    /// Whether every object ID named in the issue can be shortened for display.
    pub fn can_describe(&self) -> (res: bool)
        ensures
            res == self.displayable(),
    {
        match self {
            LayerIssue::BaseNotAncestor { base, tip } => oid_can_shorten(base.as_str()) && oid_can_shorten(tip.as_str()),
            LayerIssue::EmptyLayer { base } => oid_can_shorten(base.as_str()),
            _ => true,
        }
    }

    /// A short human-readable description of the problem.
    pub fn describe(&self) -> (res: String)
        requires
            self.displayable(),
        ensures
            res@ == self.describe_spec(),
    {
        match self {
            LayerIssue::BranchNotFound => "branch not found".to_owned(),
            LayerIssue::BaseNotAncestor { base, tip } => {
                let mut res = "inconsistent: base ".to_owned();
                res.append(short_oid(base.as_str()));
                res.append(" is not an ancestor of tip ");
                res.append(short_oid(tip.as_str()));
                res
            },
            LayerIssue::EmptyLayer { base } => {
                let mut res = "empty: no commits over base ".to_owned();
                res.append(short_oid(base.as_str()));
                res
            },
            LayerIssue::BehindBelow { commits } => {
                let mut res = decimal(*commits);
                res.append(" commit(s) behind");
                res
            },
            LayerIssue::BelowChanged { removed } => {
                if *removed > 0 {
                    let mut res = decimal(*removed);
                    res.append(" commit(s) deleted below");
                    res
                } else {
                    "base below changed".to_owned()
                }
            },
        }
    }
}

/// The consistency result for one layer; a `None` issue means the layer is
/// up to date.
#[derive(Debug)]
pub struct LayerCheck {
    pub branch: String,
    pub issue: Option<LayerIssue>,
}

/// A question about the repository that a check needs answered.
#[derive(Debug, PartialEq, Eq)]
pub enum Question {
    /// Is `from` (the layer's base) an ancestor of `to` (its tip)?
    BaseInTip,
    /// Is `from` (the layer's base) an ancestor of `to` (the tip below it)?
    BaseInBelow,
    /// How many commits are in `from..to`?
    Count,
}

/// What is known so far about one layer.
#[derive(Debug)]
pub struct Facts {
    pub base_in_tip: Option<bool>,
    pub base_in_below: Option<bool>,
    pub count: Option<u64>,
}

impl Facts {
    /// Nothing known yet.
    pub fn unknown() -> (res: Facts)
        ensures
            res == (Facts { base_in_tip: None, base_in_below: None, count: None }),
    {
        Facts { base_in_tip: None, base_in_below: None, count: None }
    }
}

/// The next step of checking a layer.
#[derive(Debug)]
pub enum Assessment {
    /// Answer `question` about `from` and `to`, record it, and assess again.
    Ask { question: Question, from: String, to: String },
    /// The check is complete.
    Verdict(Option<LayerIssue>),
}

/// How one layer is judged, given its base, its tip, the current tip of
/// the layer below it, and the answers known so far: a base that is not an
/// ancestor of the tip is inconsistent; a base equal to the tip leaves the
/// layer empty; a base equal to the tip below is up to date; a base behind
/// the tip below is that many commits behind (except for the bottom layer,
/// for which that is the normal state after its work landed in the target);
/// any other base means the history below changed.
pub open spec fn assess_spec(bottom: bool, base: String, tip: String, below: String, f: Facts) -> Assessment {
    match f.base_in_tip {
        None => Assessment::Ask { question: Question::BaseInTip, from: base, to: tip },
        Some(false) => Assessment::Verdict(Some(LayerIssue::BaseNotAncestor { base, tip })),
        Some(true) => if base@ == tip@ {
            Assessment::Verdict(Some(LayerIssue::EmptyLayer { base }))
        } else if base@ == below@ {
            Assessment::Verdict(None)
        } else {
            match f.base_in_below {
                None => Assessment::Ask { question: Question::BaseInBelow, from: base, to: below },
                Some(behind) => match f.count {
                    None => if behind {
                        Assessment::Ask { question: Question::Count, from: base, to: below }
                    } else {
                        Assessment::Ask { question: Question::Count, from: below, to: base }
                    },
                    Some(n) => if behind {
                        if bottom {
                            Assessment::Verdict(None)
                        } else {
                            Assessment::Verdict(Some(LayerIssue::BehindBelow { commits: n }))
                        }
                    } else {
                        Assessment::Verdict(Some(LayerIssue::BelowChanged { removed: n }))
                    },
                },
            }
        },
    }
}

/// Judges one layer from what is known so far.
pub fn assess_layer(bottom: bool, base: &String, tip: &String, below: &String, f: &Facts) -> (res: Assessment)
    ensures
        res == assess_spec(bottom, *base, *tip, *below, *f),
        f.base_in_tip is None ==> res == (Assessment::Ask { question: Question::BaseInTip, from: *base, to: *tip }),
        f.base_in_tip == Some(false) ==> res == Assessment::Verdict(Some(LayerIssue::BaseNotAncestor { base: *base, tip: *tip })),
        f.base_in_tip == Some(true) && base@ == tip@ ==> res == Assessment::Verdict(Some(LayerIssue::EmptyLayer { base: *base })),
        f.base_in_tip == Some(true) && base@ != tip@ && base@ == below@ ==> res == Assessment::Verdict(None),
        f.base_in_tip == Some(true) && base@ != tip@ && base@ != below@ ==> {
            &&& f.base_in_below is None ==> res == (Assessment::Ask { question: Question::BaseInBelow, from: *base, to: *below })
            &&& f.base_in_below == Some(true) && f.count is None ==> res == (Assessment::Ask { question: Question::Count, from: *base, to: *below })
            &&& f.base_in_below == Some(false) && f.count is None ==> res == (Assessment::Ask { question: Question::Count, from: *below, to: *base })
            &&& f.base_in_below == Some(true) && f.count is Some && bottom ==> res == Assessment::Verdict(None)
            &&& f.base_in_below == Some(true) && f.count is Some && !bottom ==> res
                == Assessment::Verdict(Some(LayerIssue::BehindBelow { commits: f.count.unwrap() }))
            &&& f.base_in_below == Some(false) && f.count is Some ==> res
                == Assessment::Verdict(Some(LayerIssue::BelowChanged { removed: f.count.unwrap() }))
        },
{
    match f.base_in_tip {
        None => Assessment::Ask { question: Question::BaseInTip, from: base.clone(), to: tip.clone() },
        Some(false) => Assessment::Verdict(Some(LayerIssue::BaseNotAncestor { base: base.clone(), tip: tip.clone() })),
        Some(true) => if *base == *tip {
            Assessment::Verdict(Some(LayerIssue::EmptyLayer { base: base.clone() }))
        } else if *base == *below {
            Assessment::Verdict(None)
        } else {
            match f.base_in_below {
                None => Assessment::Ask { question: Question::BaseInBelow, from: base.clone(), to: below.clone() },
                Some(behind) => match f.count {
                    None => if behind {
                        Assessment::Ask { question: Question::Count, from: base.clone(), to: below.clone() }
                    } else {
                        Assessment::Ask { question: Question::Count, from: below.clone(), to: base.clone() }
                    },
                    Some(n) => if behind {
                        if bottom {
                            Assessment::Verdict(None)
                        } else {
                            Assessment::Verdict(Some(LayerIssue::BehindBelow { commits: n }))
                        }
                    } else {
                        Assessment::Verdict(Some(LayerIssue::BelowChanged { removed: n }))
                    },
                },
            }
        },
    }
}

/// How a layer is judged, by what is known of it: a base that is not an
/// ancestor of the tip is inconsistent, one equal to the tip leaves the layer
/// empty, one equal to the tip below is up to date; otherwise a base that is
/// an ancestor of the tip below is that many commits behind it (up to date for
/// the bottom layer), and any other base means the history below changed by
/// that many commits. Until each answer is known, the next question is asked:
/// whether the base is in the tip, then in the tip below, then how many
/// commits lie between the two, counted towards the later one.
pub proof fn lemma_assess_by_facts(bottom: bool, base: String, tip: String, below: String, f: Facts)
    ensures
        f.base_in_tip is None ==> assess_spec(bottom, base, tip, below, f) == (Assessment::Ask { question: Question::BaseInTip, from: base, to: tip }),
        f.base_in_tip == Some(false) ==> assess_spec(bottom, base, tip, below, f) == Assessment::Verdict(Some(LayerIssue::BaseNotAncestor { base: base, tip: tip })),
        f.base_in_tip == Some(true) && base@ == tip@ ==> assess_spec(bottom, base, tip, below, f) == Assessment::Verdict(Some(LayerIssue::EmptyLayer { base: base })),
        f.base_in_tip == Some(true) && base@ != tip@ && base@ == below@ ==> assess_spec(bottom, base, tip, below, f) == Assessment::Verdict(None),
        f.base_in_tip == Some(true) && base@ != tip@ && base@ != below@ ==> {
            &&& f.base_in_below is None ==> assess_spec(bottom, base, tip, below, f) == (Assessment::Ask { question: Question::BaseInBelow, from: base, to: below })
            &&& f.base_in_below == Some(true) && f.count is None ==> assess_spec(bottom, base, tip, below, f) == (Assessment::Ask { question: Question::Count, from: base, to: below })
            &&& f.base_in_below == Some(false) && f.count is None ==> assess_spec(bottom, base, tip, below, f) == (Assessment::Ask { question: Question::Count, from: below, to: base })
            &&& f.base_in_below == Some(true) && f.count is Some && bottom ==> assess_spec(bottom, base, tip, below, f) == Assessment::Verdict(None)
            &&& f.base_in_below == Some(true) && f.count is Some && !bottom ==> assess_spec(bottom, base, tip, below, f)
                == Assessment::Verdict(Some(LayerIssue::BehindBelow { commits: f.count.unwrap() }))
            &&& f.base_in_below == Some(false) && f.count is Some ==> assess_spec(bottom, base, tip, below, f)
                == Assessment::Verdict(Some(LayerIssue::BelowChanged { removed: f.count.unwrap() }))
        },
{
}

/// A check never asks a question whose answer it already has, so a driver
/// that records every answer reaches the verdict of a layer after at most
/// three questions.
pub proof fn lemma_questions_are_new(bottom: bool, base: String, tip: String, below: String, f: Facts)
    ensures
        assess_spec(bottom, base, tip, below, f) matches Assessment::Ask { question, from, to } ==> match question {
            Question::BaseInTip => f.base_in_tip is None,
            Question::BaseInBelow => f.base_in_tip == Some(true) && f.base_in_below is None,
            Question::Count => f.base_in_tip == Some(true) && f.base_in_below is Some && f.count is None,
        },
{
}

/// The tip that layer `i` is compared against: the tip of the nearest layer
/// below it whose branch was found, or the target's tip.
pub open spec fn below_spec(target_tip: String, tips: Seq<Option<String>>, i: int) -> String
    decreases i,
{
    if i <= 0 {
        target_tip
    } else {
        match tips[i - 1] {
            Some(t) => t,
            None => below_spec(target_tip, tips, i - 1),
        }
    }
}

/// How layer `i` of a stack is judged: a layer whose branch was not found
/// has that issue; any other is assessed against the tip below it.
pub open spec fn layer_outcome(
    layers: Seq<LayerMetadata>,
    target_tip: String,
    tips: Seq<Option<String>>,
    facts: Seq<Facts>,
    i: int,
) -> Assessment {
    match tips[i] {
        None => Assessment::Verdict(Some(LayerIssue::BranchNotFound)),
        Some(t) => assess_spec(i == 0, layers[i].base_oid, t, below_spec(target_tip, tips, i), facts[i]),
    }
}

/// The next step of checking a whole stack.
#[derive(Debug)]
pub enum Evaluation {
    /// Answer `question` about `from` and `to` for layer `layer`, record it
    /// in that layer's facts, and evaluate again.
    Ask { layer: usize, question: Question, from: String, to: String },
    /// One check per layer, bottom-up.
    Done(Vec<LayerCheck>),
}

/// Evaluates every layer bottom-up, performing the same checks that
/// `stack status` uses to decide whether the stack is up to date. `tips[i]`
/// is the tip of layer `i` (`None` when its branch cannot be resolved) and
/// `facts[i]` what is known about it so far.
pub fn evaluate(layers: &Vec<LayerMetadata>, target_tip: &String, tips: &Vec<Option<String>>, facts: &Vec<Facts>) -> (res: Evaluation)
    requires
        tips.len() == layers.len(),
        facts.len() == layers.len(),
    ensures
        (forall|i: int| 0 <= i < layers.len() ==> #[trigger] layer_outcome(layers@, *target_tip, tips@, facts@, i) is Verdict) <==> res is Done,
        res matches Evaluation::Done(checks) ==> {
            &&& checks@.len() == layers.len()
            &&& forall|i: int| 0 <= i < layers.len() ==> #[trigger] checks@[i] == (LayerCheck {
                branch: layers@[i].branch,
                issue: layer_outcome(layers@, *target_tip, tips@, facts@, i)->Verdict_0,
            })
        },
        res matches Evaluation::Ask { layer, question, from, to } ==> {
            &&& layer < layers.len()
            &&& forall|i: int| 0 <= i < layer ==> #[trigger] layer_outcome(layers@, *target_tip, tips@, facts@, i) is Verdict
            &&& layer_outcome(layers@, *target_tip, tips@, facts@, layer as int) == (Assessment::Ask { question, from, to })
        },
{
    let mut checks: Vec<LayerCheck> = Vec::new();
    let mut below = target_tip.clone();
    let mut i: usize = 0;
    while i < layers.len()
        invariant
            i <= layers.len(),
            tips.len() == layers.len(),
            facts.len() == layers.len(),
            below == below_spec(*target_tip, tips@, i as int),
            checks@.len() == i,
            forall|j: int| 0 <= j < i ==> #[trigger] layer_outcome(layers@, *target_tip, tips@, facts@, j) is Verdict,
            forall|j: int| 0 <= j < i ==> #[trigger] checks@[j] == (LayerCheck {
                branch: layers@[j].branch,
                issue: layer_outcome(layers@, *target_tip, tips@, facts@, j)->Verdict_0,
            }),
        decreases layers.len() - i,
    {
        let layer = &layers[i];
        match &tips[i] {
            None => {
                checks.push(LayerCheck { branch: layer.branch.clone(), issue: Some(LayerIssue::BranchNotFound) });
            },
            Some(tip) => {
                match assess_layer(i == 0, &layer.base_oid, tip, &below, &facts[i]) {
                    Assessment::Ask { question, from, to } => {
                        return Evaluation::Ask { layer: i, question, from, to };
                    },
                    Assessment::Verdict(issue) => {
                        checks.push(LayerCheck { branch: layer.branch.clone(), issue });
                        below = tip.clone();
                    },
                }
            },
        }
        i += 1;
    }
    Evaluation::Done(checks)
}

/// A completed restack leaves the stack up to date: once every layer sits on
/// the new tip of the layer below it (the target for the bottom one), every
/// layer whose branch is found, that still has commits of its own, and
/// whose base is an ancestor of its tip is judged up to date.
pub proof fn lemma_restacked_is_up_to_date(
    after: Seq<LayerMetadata>,
    before: Seq<LayerView>,
    target_tip: String,
    tips: Seq<String>,
    facts: Seq<Facts>,
    i: int,
)
    requires
        tips.len() == before.len(),
        facts.len() == before.len(),
        layers_view(after) == rebased(before, target_tip@, strings_view(tips)),
        0 <= i < before.len(),
        after.len() == before.len(),
        facts[i].base_in_tip == Some(true),
        after[i].base_oid@ != tips[i]@,
    ensures
        layer_outcome(after, target_tip, tips.map_values(|t: String| Some(t)), facts, i) == Assessment::Verdict(None),
{
    let opt = tips.map_values(|t: String| Some(t));
    assert(layers_view(after).len() == after.len());
    assert(rebased(before, target_tip@, strings_view(tips)).len() == before.len());
    assert(after.len() == before.len());
    assert(layers_view(after)[i] == after[i]@);
    assert(opt[i] == Some(tips[i]));
    if i > 0 {
        assert(opt[i - 1] == Some(tips[i - 1]));
        assert(strings_view(tips)[i - 1] == tips[i - 1]@);
    }
}

} // verus!
