//! Where a full batch fits.
use vstd::prelude::*;
use crate::program::Buffer;
use crate::qwen3::load::{plane_bytes, Qwen3Encoder};

verus! {

/// The scratch planes hold the rows of a full batch: whole numbers for the
/// products of the planes that go to them, halves for the heads.
#[verifier::rlimit(40)]
#[verifier::spinoff_prover]
pub proof fn scratch_holds_a_full_batch(m: Qwen3Encoder, first: int, i: int)
    requires
        m.wf(),
        0 <= i < m.layers.len(),
        m.scratch.planes() == Seq::new(
            13,
            |j: int| Buffer {
                id: (first + j) as u32,
                len: (m.row_budget * plane_bytes(m.sizes())[j]) as u64,
            },
        ),
        forall|j: int| 0 <= j < 13 ==> m.row_budget * #[trigger] plane_bytes(m.sizes())[j] <= u64::MAX,
    ensures
        ({
            let s = m.scratch;
            let rows = m.row_budget;
            let l = m.layers[i];
            &&& s.x.len >= rows * (m.width * 4)
            &&& s.norm.len >= rows * (m.width * 4)
            &&& s.delta.len >= rows * (m.width * 4)
            &&& s.q.len >= rows * (m.heads * 128 * 4)
            &&& s.k.len >= rows * (m.kv_heads * 128 * 4)
            &&& s.v.len >= rows * (m.kv_heads * 128 * 4)
            &&& s.qh.len >= rows * (m.heads * 128 * 2)
            &&& s.kh.len >= rows * (m.kv_heads * 128 * 2)
            &&& s.vh.len >= rows * (m.kv_heads * 128 * 2)
            &&& s.attn.len >= rows * (m.heads * 128 * 4)
            &&& s.gate.len >= rows * (m.ff * 4)
            &&& s.up.len >= rows * (m.ff * 4)
        }),
{
    let s = m.scratch;
    let p = s.planes();
    let sizes = plane_bytes(m.sizes());
    assert(forall|j: int| 0 <= j < 13 ==> 0 <= sizes[j]);
    assert forall|k: int| 0 <= k < 13 implies (#[trigger] p[k]).len == m.row_budget * sizes[k] by {
        assert(0 <= m.row_budget * sizes[k]) by (nonlinear_arith)
            requires
                0 <= sizes[k],
        ;
        assert(m.row_budget * sizes[k] <= u64::MAX);
    }
    assert(p[0] == s.x && p[1] == s.norm && p[2] == s.delta && p[3] == s.q && p[4] == s.k && p[5] == s.v
        && p[6] == s.qh && p[7] == s.kh && p[8] == s.vh && p[9] == s.attn && p[10] == s.gate && p[11]
        == s.up);
}

} // verus!
