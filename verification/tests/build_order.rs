use world2::build_order::{
    build_order_handoffs, build_order_is_contiguous, build_order_stage_count, build_order_stages,
    build_order_summary, BuildOrderStage, PhaseBuildHandoff, NEXT_PHASE_LABEL,
};

#[test]
fn phase14_build_order_sequence_is_contiguous_and_complete() {
    let stages = build_order_stages();

    assert!(build_order_is_contiguous());
    assert_eq!(build_order_stage_count(), 23);
    assert_eq!(stages.first().map(|stage| stage.step), Some(1));
    assert_eq!(
        stages.first().map(|stage| stage.slug),
        Some("face-basis-neighbors")
    );
    assert_eq!(stages.last().map(|stage| stage.step), Some(23));
    assert_eq!(
        stages.last().map(|stage| stage.slug),
        Some("budgeting-polish")
    );
    assert!(stages.iter().all(|stage| !stage.description.is_empty()));
}

#[test]
fn build_order_handoff_summary_matches_documented_phase_continuity() {
    let handoffs = build_order_handoffs();
    let summary = build_order_summary();

    assert_eq!(handoffs[0].covered_step_range, Some((1, 20)));
    assert_eq!(handoffs[1].emphasized_steps, [5, 8, 19]);
    assert_eq!(handoffs[2].covered_step_range, Some((21, 21)));
    assert_eq!(handoffs[3].covered_step_range, Some((22, 22)));
    assert_eq!(handoffs[4].covered_step_range, Some((23, 23)));
    assert!(summary.contains("phase=15"));
    assert!(summary.contains("phases01-10=1-20"));
    assert!(summary.contains("phase11=doc+5/8/19"));
    assert!(summary.contains("phase12=21"));
    assert!(summary.contains("phase09=22"));
    assert!(summary.contains("phase13=23"));
    assert!(summary.contains(NEXT_PHASE_LABEL));
}

#[test]
fn build_order_summary_is_the_full_line() {
    assert_eq!(
        build_order_summary(),
        "phase=15 steps=1-23 handoff=phases01-10=1-20,phase11=doc+5/8/19,phase12=21,phase09=22,phase13=23 next=none"
    );
}

#[test]
fn summary_tokens_cover_ranges_points_and_emphasis() {
    let range = PhaseBuildHandoff::new("a", Some((3, 9)), &[], "r");
    assert_eq!(range.summary_token(), "a=3-9");
    let point = PhaseBuildHandoff::new("b", Some((4, 4)), &[12], "r");
    assert_eq!(point.summary_token(), "b=4+12");
    let doc = PhaseBuildHandoff::new("c", None, &[], "r");
    assert_eq!(doc.summary_token(), "c=doc");
}

#[test]
fn gaps_in_the_stage_sequence_are_detected() {
    let stages = vec![
        BuildOrderStage::new(1, "a", "first"),
        BuildOrderStage::new(3, "b", "third"),
    ];
    assert!(!world2::build_order::stages_are_contiguous(&stages));
    assert!(world2::build_order::stages_are_contiguous(&build_order_stages()));
}
