//! Where a full tick fits.
use vstd::prelude::*;
use crate::program::{Buffer, Weight};
use crate::qwen35::elect::Numbers;
use crate::qwen35::graph::{layer_shaped, Graph, Mixer, CHUNK};
use crate::qwen35::load::{graph_loaded, Machine};
use crate::qwen35::memory::{Kind, Sizing};

verus! {

/// Room for `rows` rows of so many numbers.
pub open spec fn room(b: Buffer, rows: int, columns: int) -> bool {
    b.len >= rows * columns * 4
}

/// The scratch planes hold what a full tick puts there: the products of the
/// planes that go to them, the heads of attention, and a word or two for every
/// row.
#[verifier::rlimit(60)]
#[verifier::spinoff_prover]
pub proof fn scratch_holds_a_full_tick(w: Seq<Weight>, kind: Kind, n: Numbers, m: Machine, z: Sizing, x: Graph, i: int)
    requires
        graph_loaded(w, kind, n, m, z, x),
        z.geometry == n.geometry,
        x.wf(),
        0 <= i < x.layers.len(),
    ensures
        ({
            let s = x.scratch;
            let rows = x.row_capacity as int;
            let l = x.layers[i];
            let g = x.geometry;
            &&& room(s.x, rows, x.embedding.k as int)
            &&& room(s.norm, rows, l.gate.k as int)
            &&& room(s.delta, rows, l.down.n as int)
            &&& room(s.gate, rows, l.gate.n as int)
            &&& room(s.up, rows, l.up.n as int)
            &&& match l.mixer {
                Mixer::Full(a) => {
                    &&& room(s.qraw, rows, a.q.n as int)
                    &&& room(s.q, rows, g.heads * 256)
                    &&& room(s.k, rows, a.k.n as int)
                    &&& room(s.v, rows, a.v.n as int)
                    &&& room(s.attn, rows, a.o.k as int)
                    &&& room(s.delta, rows, a.o.n as int)
                },
                Mixer::Linear(d) => {
                    &&& room(s.qkv, rows, d.qkv.n as int)
                    &&& room(s.convolved, rows, d.qkv.n as int)
                    &&& room(s.z, rows, d.z.n as int)
                    &&& room(s.alpha, rows, d.alpha.n as int)
                    &&& room(s.beta, rows, d.beta.n as int)
                    &&& room(s.gates, rows, d.alpha.n + d.beta.n)
                    &&& room(s.delta, rows, d.out.n as int)
                },
            }
            &&& room(s.ids, rows, 1)
            &&& room(s.outputs, rows, 1)
            &&& room(s.meta, rows, 2)
            &&& room(s.mrope, rows, 4)
            &&& room(s.limits, rows, 1)
            &&& room(s.spans, rows, 4)
            &&& room(s.bounds, rows, 2)
            &&& room(s.attn_tiles, rows, 2)
            &&& room(s.decode_rows, rows, 1)
            &&& room(s.long_decode_tiles, rows, 2)
            &&& room(s.checkpoint_rows, rows, 1)
            &&& room(s.checkpoint_spans, rows, 4)
        }),
{
    let s = x.scratch;
    let p = s.planes();
    let sizes = z.scratch_sizes();
    assert(layer_shaped(x.geometry, x.layers[i]));
    assert(x.row_capacity == CHUNK);
    assert(sizes.len() == 34);
    assert forall|k: int| 0 <= k < 34 implies (#[trigger] p[k]).len == sizes[k] as u64 by {}
    assert(p[1] == s.ids && p[2] == s.outputs && p[3] == s.meta && p[4] == s.mrope && p[5] == s.limits
        && p[7] == s.spans && p[9] == s.bounds && p[10] == s.attn_tiles && p[11] == s.decode_rows && p[12]
        == s.long_decode_tiles && p[13] == s.checkpoint_rows && p[14] == s.checkpoint_spans && p[15] == s.x
        && p[16] == s.norm && p[17] == s.delta && p[18] == s.gate && p[19] == s.up && p[21] == s.qraw
        && p[22] == s.q && p[23] == s.k && p[24] == s.v && p[25] == s.attn && p[27] == s.qkv && p[28]
        == s.convolved && p[29] == s.z && p[30] == s.alpha && p[31] == s.beta && p[32] == s.gates);
}

} // verus!
