use vstd::prelude::*;
use crate::text::{decimal_spec, decimal_string, push_str, owned, join_spec};

verus! {

/// The delivery phase that the runtime implements.
pub const CURRENT_IMPLEMENTED_PHASE: u8 = 15;

/// The label of the next planned phase.
pub const NEXT_PHASE_LABEL: &'static str = "none";

/// Number of steps in the implementation sequence.
pub const BUILD_ORDER_STAGE_COUNT: usize = 23;

/// One step of the implementation sequence.
#[derive(Clone, Copy, Debug, PartialEq, Eq)]
pub struct BuildOrderStage {
    pub step: u8,
    pub slug: &'static str,
    pub description: &'static str,
}

impl BuildOrderStage {
    pub fn new(step: u8, slug: &'static str, description: &'static str) -> (s: Self)
        ensures
            s.step == step && s.slug == slug && s.description == description,
    {
        BuildOrderStage { step, slug, description }
    }
}

/// How a delivery phase maps onto the implementation sequence.
#[derive(Clone, Copy, Debug, PartialEq, Eq)]
pub struct PhaseBuildHandoff {
    pub phase_label: &'static str,
    pub covered_step_range: Option<(u8, u8)>,
    pub emphasized_steps: &'static [u8],
    pub role: &'static str,
}

/// The decimal texts of the steps.
pub open spec fn step_texts(steps: Seq<u8>) -> Seq<Seq<char>> {
    Seq::new(steps.len(), |i: int| decimal_spec(steps[i] as nat))
}

/// `label=start-end` (or `label=step` for a single step, `label=doc` for none), followed by
/// `+a/b/c` when steps are emphasized.
pub open spec fn handoff_token_spec(label: Seq<char>, range: Option<(u8, u8)>, steps: Seq<u8>) -> Seq<char> {
    let range_text = match range {
        Some((start, end)) => if start == end {
            decimal_spec(start as nat)
        } else {
            decimal_spec(start as nat) + "-"@ + decimal_spec(end as nat)
        },
        None => "doc"@,
    };
    let emphasis = if steps.len() > 0 {
        "+"@ + join_spec(step_texts(steps), "/"@)
    } else {
        Seq::empty()
    };
    label + "="@ + range_text + emphasis
}

/// A handoff as plain values: its phase label, covered step range, emphasized steps and role.
pub open spec fn handoff_view(h: PhaseBuildHandoff) -> (Seq<char>, Option<(u8, u8)>, Seq<u8>, Seq<char>) {
    (h.phase_label@, h.covered_step_range, h.emphasized_steps@, h.role@)
}

/// The documented handoffs, in order: which delivery phase delivered which steps.
pub open spec fn documented_handoffs() -> Seq<(Seq<char>, Option<(u8, u8)>, Seq<u8>, Seq<char>)> {
    seq![
        ("phases01-10"@, Some((1u8, 20u8)), Seq::<u8>::empty(), "correctness-to-backend implementation"@),
        ("phase11"@, None, seq![5u8, 8u8, 19u8], "seam hardening over already-shipped mesh/update steps"@),
        ("phase12"@, Some((21u8, 21u8)), Seq::<u8>::empty(), "asset residency ownership"@),
        ("phase09"@, Some((22u8, 22u8)), Seq::<u8>::empty(), "threaded worker scratch reuse policy"@),
        ("phase13"@, Some((23u8, 23u8)), Seq::<u8>::empty(), "default numbers and bounded-churn controls"@),
    ]
}

impl PhaseBuildHandoff {
    pub fn new(
        phase_label: &'static str,
        covered_step_range: Option<(u8, u8)>,
        emphasized_steps: &'static [u8],
        role: &'static str,
    ) -> (h: Self)
        ensures
            h.phase_label == phase_label && h.covered_step_range == covered_step_range
                && h.emphasized_steps == emphasized_steps && h.role == role,
    {
        PhaseBuildHandoff { phase_label, covered_step_range, emphasized_steps, role }
    }

    /// The summary token of this handoff.
    pub open spec fn summary_token_spec(self) -> Seq<char> {
        handoff_token_spec(self.phase_label@, self.covered_step_range, self.emphasized_steps@)
    }

    pub fn summary_token(&self) -> (token: String)
        ensures
            token@ == self.summary_token_spec(),
    {
        let mut token = owned(self.phase_label);
        push_str(&mut token, "=");
        match self.covered_step_range {
            Some((start, end)) => {
                let start_text = decimal_string(start as usize);
                push_str(&mut token, start_text.as_str());
                if start != end {
                    push_str(&mut token, "-");
                    let end_text = decimal_string(end as usize);
                    push_str(&mut token, end_text.as_str());
                }
            },
            None => {
                push_str(&mut token, "doc");
            },
        }
        let ghost before_emphasis = token@;
        let steps = self.emphasized_steps;
        if steps.len() > 0 {
            push_str(&mut token, "+");
            let mut i: usize = 0;
            while i < steps.len()
                invariant
                    i <= steps@.len(),
                    steps@.len() > 0,
                    token@ == before_emphasis + "+"@ + join_spec(step_texts(steps@).take(i as int), "/"@),
                decreases steps@.len() - i,
            {
                let ghost prev = token@;
                if i > 0 {
                    push_str(&mut token, "/");
                }
                let text = decimal_string(steps[i] as usize);
                push_str(&mut token, text.as_str());
                proof {
                    let parts = step_texts(steps@).take(i + 1);
                    assert(parts.drop_last() =~= step_texts(steps@).take(i as int));
                    assert(parts.last() == decimal_spec(steps@[i as int] as nat));
                    if i == 0 {
                        assert(step_texts(steps@).take(0) =~= Seq::<Seq<char>>::empty());
                        assert(join_spec(parts, "/"@) == parts[0]);
                    }
                    assert(token@ =~= before_emphasis + "+"@ + join_spec(parts, "/"@));
                }
                i += 1;
            }
            proof {
                assert(step_texts(steps@).take(steps@.len() as int) =~= step_texts(steps@));
            }
        }
        proof {
            assert(token@ =~= self.summary_token_spec());
        }
        token
    }
}

/// The implementation sequence, step by step.
pub fn build_order_stages() -> (stages: Vec<BuildOrderStage>)
    ensures
        stages@.len() == BUILD_ORDER_STAGE_COUNT,
        forall|i: int| 0 <= i < stages@.len() ==> (#[trigger] stages@[i]).step == i + 1,
{
    let mut stages: Vec<BuildOrderStage> = Vec::new();
    stages.push(BuildOrderStage::new(1, "face-basis-neighbors", "face basis + chunk key + neighbor mapping"));
    stages.push(BuildOrderStage::new(2, "projection", "default modified / spherified cube projection"));
    stages.push(BuildOrderStage::new(3, "face-samples", "cube-face sample coordinates"));
    stages.push(BuildOrderStage::new(4, "terrain-field", "3D noise displacement on sphere"));
    stages.push(BuildOrderStage::new(5, "ring-normals", "border ring + normal generation"));
    stages.push(BuildOrderStage::new(6, "base-mesh", "base chunk mesh generation"));
    stages.push(BuildOrderStage::new(7, "same-lod-validation", "same-LOD neighbor validation across face edges"));
    stages.push(BuildOrderStage::new(8, "stitch-indices", "stitch index buffers"));
    stages.push(BuildOrderStage::new(9, "metadata-tree", "metadata tree + bounds + angular radius + surface class"));
    stages.push(BuildOrderStage::new(10, "horizon-culling", "horizon culling"));
    stages.push(BuildOrderStage::new(11, "frustum-culling", "frustum culling"));
    stages.push(BuildOrderStage::new(12, "lod-selection", "projected-error LOD selection"));
    stages.push(BuildOrderStage::new(13, "active-set-separation", "render/physics active-set separation"));
    stages.push(BuildOrderStage::new(14, "cold-render", "cold server-side render commit path"));
    stages.push(BuildOrderStage::new(15, "warm-render", "warm pooled render path"));
    stages.push(BuildOrderStage::new(16, "packing-helpers", "Rust byte-region packing helpers"));
    stages.push(BuildOrderStage::new(17, "staging-buffers", "reusable Godot packed staging buffers"));
    stages.push(BuildOrderStage::new(18, "in-place-staging", "in-place staging fills via resize() + as_mut_slice()"));
    stages.push(BuildOrderStage::new(19, "byte-region-updates", "byte-region vertex / attribute / index updates"));
    stages.push(BuildOrderStage::new(20, "physics-commit", "server-side physics commit path"));
    stages.push(BuildOrderStage::new(21, "asset-multimesh", "chunk-group asset multimesh path"));
    stages.push(BuildOrderStage::new(22, "worker-scratch", "worker scratch reuse"));
    stages.push(BuildOrderStage::new(
        23,
        "budgeting-polish",
        "commit budgeting / upload budgeting / pool watermarks / hysteresis / caching polish",
    ));
    stages
}

/// The steps run 1, 2, 3, ... without gaps.
pub fn stages_are_contiguous(stages: &Vec<BuildOrderStage>) -> (b: bool)
    ensures
        b == forall|i: int| 0 <= i < stages@.len() ==> (#[trigger] stages@[i]).step == i + 1,
{
    let mut i: usize = 0;
    while i < stages.len()
        invariant
            i <= stages@.len(),
            forall|j: int| 0 <= j < i ==> (#[trigger] stages@[j]).step == j + 1,
        decreases stages@.len() - i,
    {
        if i >= 255 || stages[i].step as usize != i + 1 {
            assert(stages@[i as int].step != i + 1);
            return false;
        }
        i += 1;
    }
    true
}

/// The implementation sequence runs without gaps.
pub fn build_order_is_contiguous() -> (b: bool)
    ensures
        b,
{
    let stages = build_order_stages();
    stages_are_contiguous(&stages)
}

pub fn build_order_stage_count() -> (n: usize)
    ensures
        n == BUILD_ORDER_STAGE_COUNT,
{
    build_order_stages().len()
}

/// Which phases delivered which steps.
pub fn build_order_handoffs() -> (handoffs: Vec<PhaseBuildHandoff>)
    ensures
        handoffs@.len() == 5,
        forall|i: int| 0 <= i < 5 ==> handoff_view(#[trigger] handoffs@[i]) == documented_handoffs()[i],
{
    let none: &'static [u8] = &[];
    let phase11_emphasis: &'static [u8] = &[5, 8, 19];
    let mut handoffs: Vec<PhaseBuildHandoff> = Vec::new();
    handoffs.push(PhaseBuildHandoff::new("phases01-10", Some((1, 20)), none, "correctness-to-backend implementation"));
    handoffs.push(PhaseBuildHandoff::new(
        "phase11",
        None,
        phase11_emphasis,
        "seam hardening over already-shipped mesh/update steps",
    ));
    handoffs.push(PhaseBuildHandoff::new("phase12", Some((21, 21)), none, "asset residency ownership"));
    handoffs.push(PhaseBuildHandoff::new("phase09", Some((22, 22)), none, "threaded worker scratch reuse policy"));
    handoffs.push(PhaseBuildHandoff::new("phase13", Some((23, 23)), none, "default numbers and bounded-churn controls"));
    handoffs
}

/// `phase=<current> steps=1-<count> handoff=<tokens joined by ','> next=<label>`.
pub open spec fn build_order_summary_spec(handoffs: Seq<(Seq<char>, Option<(u8, u8)>, Seq<u8>, Seq<char>)>) -> Seq<char> {
    "phase="@ + decimal_spec(CURRENT_IMPLEMENTED_PHASE as nat) + " steps=1-"@
        + decimal_spec(BUILD_ORDER_STAGE_COUNT as nat) + " handoff="@
        + join_spec(Seq::new(handoffs.len(), |i: int| handoff_token_spec(handoffs[i].0, handoffs[i].1, handoffs[i].2)), ","@)
        + " next="@ + NEXT_PHASE_LABEL@
}

/// The build-order summary line of the runtime log: the documented handoffs in order.
pub fn build_order_summary() -> (summary: String)
    ensures
        summary@ == build_order_summary_spec(documented_handoffs()),
{
    let handoffs = build_order_handoffs();
    let ghost tokens = Seq::new(handoffs@.len(), |i: int| handoffs@[i].summary_token_spec());
    let mut summary = owned("phase=");
    let phase_text = decimal_string(CURRENT_IMPLEMENTED_PHASE as usize);
    push_str(&mut summary, phase_text.as_str());
    push_str(&mut summary, " steps=1-");
    let count_text = decimal_string(build_order_stage_count());
    push_str(&mut summary, count_text.as_str());
    push_str(&mut summary, " handoff=");
    let ghost before = summary@;
    let mut i: usize = 0;
    while i < handoffs.len()
        invariant
            i <= handoffs@.len(),
            tokens == Seq::new(handoffs@.len(), |i: int| handoffs@[i].summary_token_spec()),
            summary@ == before + join_spec(tokens.take(i as int), ","@),
        decreases handoffs@.len() - i,
    {
        if i > 0 {
            push_str(&mut summary, ",");
        }
        let token = handoffs[i].summary_token();
        push_str(&mut summary, token.as_str());
        proof {
            let parts = tokens.take(i + 1);
            assert(parts.drop_last() =~= tokens.take(i as int));
            if i == 0 {
                assert(tokens.take(0) =~= Seq::<Seq<char>>::empty());
            }
            assert(summary@ =~= before + join_spec(parts, ","@));
        }
        i += 1;
    }
    push_str(&mut summary, " next=");
    push_str(&mut summary, NEXT_PHASE_LABEL);
    proof {
        assert(tokens.take(handoffs@.len() as int) =~= tokens);
        let docs = documented_handoffs();
        assert(tokens =~= Seq::new(docs.len(), |i: int| handoff_token_spec(docs[i].0, docs[i].1, docs[i].2))) by {
            assert forall|i: int| 0 <= i < 5 implies #[trigger] tokens[i]
                == handoff_token_spec(docs[i].0, docs[i].1, docs[i].2) by {
                assert(handoff_view(handoffs@[i]) == docs[i]);
            }
        }
        assert(summary@ =~= build_order_summary_spec(docs));
    }
    summary
}

} // verus!
