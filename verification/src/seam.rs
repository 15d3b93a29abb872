use vstd::prelude::*;
use crate::chunk::{Edge, edge_ordinal_spec};
use crate::mesh_topology::{stitch_mask_bit, has_edge, stitch_bit_spec, STITCH_VARIANT_COUNT, BASE_STITCH_MASK};
use crate::text::{decimal_spec, decimal_string, push_str, owned, join_spec};
use crate::surface::SurfaceClassKey;

verus! {

/// Counters describing which stitch variants the active and pooled render surfaces use.
#[derive(Clone, Debug, PartialEq, Eq)]
pub struct SeamDebugSnapshot {
    pub active_render_chunks: usize,
    pub active_chunks_with_surface_class: usize,
    pub active_chunks_missing_surface_class: usize,
    pub active_stitched_chunks: usize,
    pub pending_surface_class_mismatch_chunks: usize,
    pub active_stitch_mask_counts: [usize; 16],
    pub active_stitched_edge_counts: [usize; 4],
    pub pooled_render_entries: usize,
    pub pooled_stitch_mask_counts: [usize; 16],
}

impl Default for SeamDebugSnapshot {
    fn default() -> (s: Self)
        ensures
            s.active_render_chunks == 0,
            s.active_chunks_with_surface_class == 0,
            s.active_chunks_missing_surface_class == 0,
            s.active_stitched_chunks == 0,
            s.pending_surface_class_mismatch_chunks == 0,
            s.active_stitch_mask_counts@ == Seq::new(16, |i: int| 0usize),
            s.active_stitched_edge_counts@ == Seq::new(4, |i: int| 0usize),
            s.pooled_render_entries == 0,
            s.pooled_stitch_mask_counts@ == Seq::new(16, |i: int| 0usize),
    {
        let s = SeamDebugSnapshot {
            active_render_chunks: 0,
            active_chunks_with_surface_class: 0,
            active_chunks_missing_surface_class: 0,
            active_stitched_chunks: 0,
            pending_surface_class_mismatch_chunks: 0,
            active_stitch_mask_counts: [0; 16],
            active_stitched_edge_counts: [0; 4],
            pooled_render_entries: 0,
            pooled_stitch_mask_counts: [0; 16],
        };
        assert(s.active_stitch_mask_counts@ =~= Seq::new(16, |i: int| 0usize));
        assert(s.active_stitched_edge_counts@ =~= Seq::new(4, |i: int| 0usize));
        assert(s.pooled_stitch_mask_counts@ =~= Seq::new(16, |i: int| 0usize));
        s
    }
}

/// `counts` after recording one more surface with `mask`: masks outside the table are ignored.
pub open spec fn counted(counts: Seq<usize>, mask: u8) -> Seq<usize> {
    if (mask as int) < 16 {
        counts.update(mask as int, (counts[mask as int] + 1) as usize)
    } else {
        counts
    }
}

/// Per-edge stitched counts after recording one more chunk with `mask`.
pub open spec fn edges_counted(edges: Seq<usize>, mask: u8) -> Seq<usize> {
    Seq::new(4, |i: int| if has_edge(mask, Edge::ALL@[i]) { (edges[i] + 1) as usize } else { edges[i] })
}

/// Records a surface with `stitch_mask` in a per-mask count table; returns whether the mask
/// names one of the table's variants.
fn record_mask(stitch_mask: u8, counts: &mut [usize; 16]) -> (recorded: bool)
    requires
        (stitch_mask as int) < 16 ==> old(counts)@[stitch_mask as int] < usize::MAX,
    ensures
        recorded == ((stitch_mask as int) < 16),
        final(counts)@ == counted(old(counts)@, stitch_mask),
{
    let mask_index = stitch_mask as usize;
    if mask_index >= STITCH_VARIANT_COUNT {
        return false;
    }
    counts[mask_index] = counts[mask_index] + 1;
    assert(counts@ =~= counted(old(counts)@, stitch_mask));
    true
}

/// Records the stitched edges of a stitched chunk.
fn record_stitched_edges(stitch_mask: u8, stitched_chunks: &mut usize, edges: &mut [usize; 4])
    requires
        *old(stitched_chunks) < usize::MAX,
        forall|i: int| 0 <= i < 4 ==> #[trigger] old(edges)@[i] < usize::MAX,
    ensures
        *final(stitched_chunks) == *old(stitched_chunks) + 1,
        final(edges)@ == edges_counted(old(edges)@, stitch_mask),
{
    *stitched_chunks = *stitched_chunks + 1;
    let mut index: usize = 0;
    while index < 4
        invariant
            index <= 4,
            edges@.len() == 4,
            forall|i: int| 0 <= i < 4 ==> #[trigger] old(edges)@[i] < usize::MAX,
            forall|i: int| 0 <= i < index ==> #[trigger] edges@[i] == edges_counted(old(edges)@, stitch_mask)[i],
            forall|i: int| index <= i < 4 ==> #[trigger] edges@[i] == old(edges)@[i],
        decreases 4 - index,
    {
        let edge = Edge::ALL[index];
        if stitch_mask & stitch_mask_bit(edge) != 0 {
            edges[index] = edges[index] + 1;
        }
        index += 1;
    }
    assert(edges@ =~= edges_counted(old(edges)@, stitch_mask));
}

/// The summary entries "mask:count" of the masks below `n` that have a nonzero count.
pub open spec fn mask_parts(counts: Seq<usize>, n: nat) -> Seq<Seq<char>>
    decreases n,
{
    if n == 0 {
        seq![]
    } else {
        let m = (n - 1) as nat;
        mask_parts(counts, m) + if counts[m as int] > 0 {
            seq![decimal_spec(m) + ":"@ + decimal_spec(counts[m as int] as nat)]
        } else {
            seq![]
        }
    }
}

/// A per-mask count table as text: "mask:count" for each used mask joined by "|", or "none".
pub open spec fn mask_summary_spec(counts: Seq<usize>) -> Seq<char> {
    if mask_parts(counts, 16).len() == 0 {
        "none"@
    } else {
        join_spec(mask_parts(counts, 16), "|"@)
    }
}

fn stitch_mask_summary(counts: &[usize; 16]) -> (s: String)
    ensures
        s@ == mask_summary_spec(counts@),
{
    let mut out = String::new();
    let mut any = false;
    let mut mask: usize = 0;
    while mask < 16
        invariant
            mask <= 16,
            any == (mask_parts(counts@, mask as nat).len() > 0),
            any ==> out@ == join_spec(mask_parts(counts@, mask as nat), "|"@),
        decreases 16 - mask,
    {
        let count = counts[mask];
        if count > 0 {
            let ghost before = out@;
            if any {
                push_str(&mut out, "|");
            } else {
                out = String::new();
            }
            let mask_text = decimal_string(mask);
            push_str(&mut out, mask_text.as_str());
            push_str(&mut out, ":");
            let count_text = decimal_string(count);
            push_str(&mut out, count_text.as_str());
            proof {
                let parts = mask_parts(counts@, (mask + 1) as nat);
                let entry = decimal_spec(mask as nat) + ":"@ + decimal_spec(count as nat);
                assert(parts == mask_parts(counts@, mask as nat).push(entry));
                assert(parts.drop_last() == mask_parts(counts@, mask as nat));
                if any {
                    assert(out@ =~= before + "|"@ + entry);
                } else {
                    assert(parts.len() == 1);
                    assert(out@ =~= entry);
                }
            }
            any = true;
        } else {
            assert(mask_parts(counts@, (mask + 1) as nat) =~= mask_parts(counts@, mask as nat));
        }
        mask += 1;
    }
    if any {
        out
    } else {
        owned("none")
    }
}

impl SeamDebugSnapshot {
    pub fn active_stitch_mask_summary(&self) -> (s: String)
        ensures
            s@ == mask_summary_spec(self.active_stitch_mask_counts@),
    {
        stitch_mask_summary(&self.active_stitch_mask_counts)
    }

    pub fn pooled_stitch_mask_summary(&self) -> (s: String)
        ensures
            s@ == mask_summary_spec(self.pooled_stitch_mask_counts@),
    {
        stitch_mask_summary(&self.pooled_stitch_mask_counts)
    }

    /// The entry "label:count" of each edge, in `Edge::ALL` order.
    pub open spec fn edge_entries(self) -> Seq<Seq<char>> {
        Seq::new(4, |i: int| Edge::ALL@[i].label_spec() + ":"@ + decimal_spec(self.active_stitched_edge_counts@[i] as nat))
    }

    /// The per-edge stitched counts as text: "neg_u:a|pos_u:b|neg_v:c|pos_v:d".
    pub open spec fn edge_summary_spec(self) -> Seq<char> {
        join_spec(self.edge_entries(), "|"@)
    }

    pub fn active_stitched_edge_summary(&self) -> (s: String)
        ensures
            s@ == self.edge_summary_spec(),
    {
        let mut out = String::new();
        let mut index: usize = 0;
        while index < 4
            invariant
                index <= 4,
                out@ == join_spec(self.edge_entries().take(index as int), "|"@),
            decreases 4 - index,
        {
            let edge = Edge::ALL[index];
            let ghost before = out@;
            if index > 0 {
                push_str(&mut out, "|");
            }
            push_str(&mut out, edge.label());
            push_str(&mut out, ":");
            let count_text = decimal_string(self.active_stitched_edge_counts[index]);
            push_str(&mut out, count_text.as_str());
            proof {
                let entries = self.edge_entries();
                let tail = entries[index as int];
                assert(entries.take((index + 1) as int).drop_last() =~= entries.take(index as int));
                assert(entries.take((index + 1) as int).last() == tail);
                if index > 0 {
                    assert(out@ =~= before + "|"@ + tail);
                } else {
                    assert(out@ =~= tail);
                    assert(entries.take(1)[0] == tail);
                }
            }
            index += 1;
        }
        assert(self.edge_entries().take(4) =~= self.edge_entries());
        out
    }

    /// Records an active chunk whose render surface uses `stitch_mask`.
    pub fn record_active_mask(&mut self, stitch_mask: u8)
        requires
            old(self).active_chunks_with_surface_class < usize::MAX,
            (stitch_mask as int) < 16 ==> old(self).active_stitch_mask_counts@[stitch_mask as int] < usize::MAX,
            old(self).active_stitched_chunks < usize::MAX,
            forall|i: int| 0 <= i < 4 ==> #[trigger] old(self).active_stitched_edge_counts@[i] < usize::MAX,
        ensures
            final(self).active_chunks_with_surface_class == old(self).active_chunks_with_surface_class + 1,
            final(self).active_stitch_mask_counts@ == counted(old(self).active_stitch_mask_counts@, stitch_mask),
            final(self).active_stitched_chunks == old(self).active_stitched_chunks
                + if (stitch_mask as int) < 16 && stitch_mask != BASE_STITCH_MASK { 1int } else { 0int },
            final(self).active_stitched_edge_counts@ == if (stitch_mask as int) < 16 && stitch_mask != BASE_STITCH_MASK {
                edges_counted(old(self).active_stitched_edge_counts@, stitch_mask)
            } else {
                old(self).active_stitched_edge_counts@
            },
            final(self).active_render_chunks == old(self).active_render_chunks,
            final(self).active_chunks_missing_surface_class == old(self).active_chunks_missing_surface_class,
            final(self).pending_surface_class_mismatch_chunks == old(self).pending_surface_class_mismatch_chunks,
            final(self).pooled_render_entries == old(self).pooled_render_entries,
            final(self).pooled_stitch_mask_counts == old(self).pooled_stitch_mask_counts,
    {
        self.active_chunks_with_surface_class += 1;
        let recorded = record_mask(stitch_mask, &mut self.active_stitch_mask_counts);
        if !recorded || stitch_mask == BASE_STITCH_MASK {
            return;
        }
        record_stitched_edges(stitch_mask, &mut self.active_stitched_chunks, &mut self.active_stitched_edge_counts);
    }

    /// Records a pooled render surface that uses `stitch_mask`.
    pub fn record_pooled_mask(&mut self, stitch_mask: u8)
        requires
            old(self).pooled_render_entries < usize::MAX,
            (stitch_mask as int) < 16 ==> old(self).pooled_stitch_mask_counts@[stitch_mask as int] < usize::MAX,
        ensures
            final(self).pooled_render_entries == old(self).pooled_render_entries + 1,
            final(self).pooled_stitch_mask_counts@ == counted(old(self).pooled_stitch_mask_counts@, stitch_mask),
            final(self).active_render_chunks == old(self).active_render_chunks,
            final(self).active_chunks_with_surface_class == old(self).active_chunks_with_surface_class,
            final(self).active_chunks_missing_surface_class == old(self).active_chunks_missing_surface_class,
            final(self).active_stitched_chunks == old(self).active_stitched_chunks,
            final(self).pending_surface_class_mismatch_chunks == old(self).pending_surface_class_mismatch_chunks,
            final(self).active_stitch_mask_counts == old(self).active_stitch_mask_counts,
            final(self).active_stitched_edge_counts == old(self).active_stitched_edge_counts,
    {
        self.pooled_render_entries += 1;
        record_mask(stitch_mask, &mut self.pooled_stitch_mask_counts);
    }

    /// Records one active chunk: a render-resident surface class that differs from the resident
    /// payload's is a pending mismatch; the chunk's mask is that of its resident class, else its
    /// payload's; a chunk with neither counts as missing a surface class.
    pub fn record_active_chunk(
        &mut self,
        active_surface_class: Option<&SurfaceClassKey>,
        payload_surface_class: Option<&SurfaceClassKey>,
    )
        requires
            old(self).pending_surface_class_mismatch_chunks < usize::MAX,
            old(self).active_chunks_missing_surface_class < usize::MAX,
            old(self).active_chunks_with_surface_class < usize::MAX,
            forall|i: int| 0 <= i < 16 ==> #[trigger] old(self).active_stitch_mask_counts@[i] < usize::MAX,
            old(self).active_stitched_chunks < usize::MAX,
            forall|i: int| 0 <= i < 4 ==> #[trigger] old(self).active_stitched_edge_counts@[i] < usize::MAX,
        ensures
            final(self).pending_surface_class_mismatch_chunks == old(self).pending_surface_class_mismatch_chunks
                + if (active_surface_class matches Some(a) && payload_surface_class matches Some(p) && *a != *p) { 1int } else { 0int },
            match (active_surface_class, payload_surface_class) {
                (None, None) => {
                    &&& final(self).active_chunks_missing_surface_class == old(self).active_chunks_missing_surface_class + 1
                    &&& final(self).active_chunks_with_surface_class == old(self).active_chunks_with_surface_class
                    &&& final(self).active_stitch_mask_counts == old(self).active_stitch_mask_counts
                },
                _ => {
                    let mask = match active_surface_class { Some(a) => a.stitch_mask, None => payload_surface_class.unwrap().stitch_mask };
                    &&& final(self).active_chunks_missing_surface_class == old(self).active_chunks_missing_surface_class
                    &&& final(self).active_chunks_with_surface_class == old(self).active_chunks_with_surface_class + 1
                    &&& final(self).active_stitch_mask_counts@ == counted(old(self).active_stitch_mask_counts@, mask)
                },
            },
            final(self).active_render_chunks == old(self).active_render_chunks,
            final(self).pooled_render_entries == old(self).pooled_render_entries,
            final(self).pooled_stitch_mask_counts == old(self).pooled_stitch_mask_counts,
    {
        if let (Some(active), Some(payload)) = (active_surface_class, payload_surface_class) {
            if *active != *payload {
                self.pending_surface_class_mismatch_chunks += 1;
            }
        }
        let chosen = match active_surface_class {
            Some(a) => Some(a),
            None => payload_surface_class,
        };
        match chosen {
            Some(class) => {
                self.record_active_mask(class.stitch_mask);
            },
            None => {
                self.active_chunks_missing_surface_class += 1;
            },
        }
    }
}

} // verus!
