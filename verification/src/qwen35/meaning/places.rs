//! Where a tick is worked on.
use vstd::prelude::*;
use crate::device::values::{apart, lemma_seats, seat, Cells};
use crate::program::Buffer;
use crate::qwen35::graph::{Graph, Scratch};

verus! {

impl Graph {
    /// The scratch planes, the states, the windows, and what a law adds.
    pub open spec fn workplace(&self, more: Seq<Buffer>) -> Seq<Buffer> {
        self.scratch.planes().push(self.state).push(self.conv) + more
    }
}

/// Each of them has its own place.
pub proof fn lemma_places(g: &Graph, more: Seq<Buffer>)
    requires
        apart(g.workplace(more)),
    ensures
        ({
            let l = g.workplace(more);
            let s = g.scratch;
            &&& seat(l, s.gemm.id) == 0
            &&& seat(l, s.ids.id) == 1
            &&& seat(l, s.outputs.id) == 2
            &&& seat(l, s.meta.id) == 3
            &&& seat(l, s.mrope.id) == 4
            &&& seat(l, s.limits.id) == 5
            &&& seat(l, s.pages.id) == 6
            &&& seat(l, s.spans.id) == 7
            &&& seat(l, s.chunks.id) == 8
            &&& seat(l, s.bounds.id) == 9
            &&& seat(l, s.attn_tiles.id) == 10
            &&& seat(l, s.decode_rows.id) == 11
            &&& seat(l, s.long_decode_tiles.id) == 12
            &&& seat(l, s.checkpoint_rows.id) == 13
            &&& seat(l, s.checkpoint_spans.id) == 14
            &&& seat(l, s.x.id) == 15
            &&& seat(l, s.norm.id) == 16
            &&& seat(l, s.delta.id) == 17
            &&& seat(l, s.gate.id) == 18
            &&& seat(l, s.up.id) == 19
            &&& seat(l, s.logits.id) == 20
            &&& seat(l, s.qraw.id) == 21
            &&& seat(l, s.q.id) == 22
            &&& seat(l, s.k.id) == 23
            &&& seat(l, s.v.id) == 24
            &&& seat(l, s.attn.id) == 25
            &&& seat(l, s.attn_parts.id) == 26
            &&& seat(l, s.qkv.id) == 27
            &&& seat(l, s.convolved.id) == 28
            &&& seat(l, s.z.id) == 29
            &&& seat(l, s.alpha.id) == 30
            &&& seat(l, s.beta.id) == 31
            &&& seat(l, s.gates.id) == 32
            &&& seat(l, s.prepared.id) == 33
            &&& seat(l, g.state.id) == 34
            &&& seat(l, g.conv.id) == 35
            &&& forall|i: int| 0 <= i < more.len() ==> seat(l, (#[trigger] more[i]).id) == 36 + i
        }),
{
    let l = g.workplace(more);
    let s = g.scratch;
    lemma_seats(l);
    assert(l[0] == s.gemm && l[1] == s.ids && l[2] == s.outputs && l[3] == s.meta && l[4] == s.mrope && l[5] == s.limits && l[6] == s.pages && l[7] == s.spans && l[8] == s.chunks && l[9] == s.bounds && l[10] == s.attn_tiles && l[11] == s.decode_rows && l[12] == s.long_decode_tiles && l[13] == s.checkpoint_rows && l[14] == s.checkpoint_spans && l[15] == s.x && l[16] == s.norm && l[17] == s.delta && l[18] == s.gate && l[19] == s.up && l[20] == s.logits && l[21] == s.qraw && l[22] == s.q && l[23] == s.k && l[24] == s.v && l[25] == s.attn && l[26] == s.attn_parts && l[27] == s.qkv && l[28] == s.convolved && l[29] == s.z && l[30] == s.alpha && l[31] == s.beta && l[32] == s.gates && l[33] == s.prepared && l[34] == g.state && l[35] == g.conv);
    assert forall|i: int| 0 <= i < more.len() implies seat(l, (#[trigger] more[i]).id) == 36 + i by {
        assert(l[36 + i] == more[i]);
    }
}

/// The tables that a tick reads are as they were.
pub open spec fn tables_kept(s: Scratch, a: Cells, b: Cells) -> bool {
    &&& a[s.ids.id] == b[s.ids.id]
    &&& a[s.outputs.id] == b[s.outputs.id]
    &&& a[s.meta.id] == b[s.meta.id]
    &&& a[s.mrope.id] == b[s.mrope.id]
    &&& a[s.limits.id] == b[s.limits.id]
    &&& a[s.pages.id] == b[s.pages.id]
    &&& a[s.spans.id] == b[s.spans.id]
    &&& a[s.chunks.id] == b[s.chunks.id]
    &&& a[s.bounds.id] == b[s.bounds.id]
    &&& a[s.attn_tiles.id] == b[s.attn_tiles.id]
    &&& a[s.decode_rows.id] == b[s.decode_rows.id]
    &&& a[s.long_decode_tiles.id] == b[s.long_decode_tiles.id]
    &&& a[s.checkpoint_rows.id] == b[s.checkpoint_rows.id]
    &&& a[s.checkpoint_spans.id] == b[s.checkpoint_spans.id]
}

} // verus!
