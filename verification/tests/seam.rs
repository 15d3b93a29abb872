use world2::seam::SeamDebugSnapshot;
use world2::surface::SurfaceClassKey;

#[test]
fn seam_summaries_list_used_masks_and_edges() {
    let mut snapshot = SeamDebugSnapshot::default();
    assert_eq!(snapshot.active_stitch_mask_summary(), "none");
    assert_eq!(snapshot.pooled_stitch_mask_summary(), "none");
    assert_eq!(snapshot.active_stitched_edge_summary(), "neg_u:0|pos_u:0|neg_v:0|pos_v:0");

    snapshot.record_active_mask(0);
    snapshot.record_active_mask(0);
    snapshot.record_active_mask(2);
    snapshot.record_active_mask(0b0101);
    snapshot.record_pooled_mask(3);

    assert_eq!(snapshot.active_stitch_mask_summary(), "0:2|2:1|5:1");
    assert_eq!(snapshot.pooled_stitch_mask_summary(), "3:1");
    assert_eq!(snapshot.active_stitched_edge_summary(), "neg_u:1|pos_u:1|neg_v:1|pos_v:0");
    assert_eq!(snapshot.active_chunks_with_surface_class, 4);
    assert_eq!(snapshot.active_stitched_chunks, 2);
    assert_eq!(snapshot.pooled_render_entries, 1);
}

#[test]
fn out_of_range_masks_are_counted_but_not_binned() {
    let mut snapshot = SeamDebugSnapshot::default();
    snapshot.record_active_mask(16);
    assert_eq!(snapshot.active_chunks_with_surface_class, 1);
    assert_eq!(snapshot.active_stitch_mask_summary(), "none");
    assert_eq!(snapshot.active_stitched_chunks, 0);
}

#[test]
fn active_chunks_take_the_resident_class_and_report_mismatches() {
    let class = |mask: u8| SurfaceClassKey::canonical_chunk(mask, 0, 0x1B, 12, 24, 4).unwrap();
    let mut snapshot = SeamDebugSnapshot::default();
    snapshot.record_active_chunk(Some(&class(1)), Some(&class(2)));
    snapshot.record_active_chunk(None, Some(&class(2)));
    snapshot.record_active_chunk(Some(&class(0)), Some(&class(0)));
    snapshot.record_active_chunk(None, None);
    assert_eq!(snapshot.pending_surface_class_mismatch_chunks, 1);
    assert_eq!(snapshot.active_chunks_missing_surface_class, 1);
    assert_eq!(snapshot.active_chunks_with_surface_class, 3);
    assert_eq!(snapshot.active_stitch_mask_summary(), "0:1|1:1|2:1");
}
