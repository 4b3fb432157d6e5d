//! Where a full tick fits.
use vstd::prelude::*;
use crate::header::Header;
use crate::nemotron::graph::{scratch_sizes, Mixer, Nemotron, CHUNK};
use crate::nemotron::load::{
    block_schema, layer_of, loaded, model_schema, page_stride, spaces, NemotronConfig,
};
use crate::program::Buffer;

verus! {

/// Room for `rows` rows of so many numbers.
pub open spec fn room(b: Buffer, rows: int, columns: int) -> bool {
    b.len >= rows * columns * 4
}

/// The scratch planes hold what a full tick puts there: the products of the
/// planes that go to them, and a word or two for every row.
#[verifier::rlimit(60)]
#[verifier::spinoff_prover]
pub proof fn scratch_holds_a_full_tick(
    c: NemotronConfig,
    h: &Header,
    context: usize,
    batch: usize,
    m: Nemotron,
    i: int,
)
    requires
        loaded(c, h, context, batch, m),
        m.wf(),
        batch <= 64,
        0 <= page_stride(context as int) <= 2048,
        0 <= i < 52,
    ensures
        ({
            let s = m.scratch;
            let rows = CHUNK as int;
            &&& room(s.ids, rows, 1)
            &&& room(s.meta, rows, 2)
            &&& room(s.output_rows, rows, 1)
            &&& room(s.decode_rows, rows, 1)
            &&& room(s.attention_tiles, rows, 2)
            &&& room(s.pages, batch as int, m.page_stride as int)
            &&& room(s.logits, batch as int, 131072)
            &&& room(s.x, rows, 2688)
            &&& room(s.norm, rows, 2688)
            &&& room(s.delta, rows, 2688)
            &&& match m.layers[i].mixer {
                Mixer::Mamba(w) => {
                    &&& room(s.proj, rows, w.input.n as int)
                    &&& room(s.conv, rows, w.conv_w.n as int)
                    &&& room(s.yn, rows, w.output.k as int)
                    &&& room(s.y, rows, w.output.k as int)
                    &&& room(s.delta, rows, w.output.n as int)
                    &&& room(s.dt, rows, w.dt.k as int)
                },
                Mixer::Attention(w) => {
                    &&& room(s.q, rows, w.q.n as int)
                    &&& room(s.k, rows, w.k.n as int)
                    &&& room(s.v, rows, w.v.n as int)
                    &&& room(s.attention, rows, w.out.k as int)
                    &&& room(s.delta, rows, w.out.n as int)
                },
                Mixer::Moe(w) => {
                    &&& room(s.router, rows, w.router.n as int)
                    &&& room(s.picks, rows, 6)
                    &&& room(s.probabilities, rows, 6)
                    &&& room(s.up, rows * 6, w.up.n as int)
                    &&& room(s.expert_out, rows * 6, w.down.n as int)
                    &&& room(s.shared, rows, w.shared_up.n as int)
                    &&& room(s.delta, rows, w.shared_down.n as int)
                },
            }
        }),
{
    let s = m.scratch;
    let p = s.planes();
    let sizes = scratch_sizes(batch as int, page_stride(context as int));
    crate::arith::lemma_product_bound(batch as int, page_stride(context as int), 64, 2048);
    assert(sizes.len() == 35);
    assert forall|k: int| 0 <= k < 35 implies (#[trigger] p[k]).len == sizes[k] as u64 by {}
    assert(p[0] == s.ids && p[1] == s.meta && p[2] == s.pages && p[3] == s.output_rows && p[4]
        == s.decode_rows && p[5] == s.attention_tiles && p[8] == s.x && p[9] == s.norm && p[10] == s.delta
        && p[11] == s.proj && p[12] == s.conv && p[13] == s.y && p[14] == s.yn && p[15] == s.dt && p[20]
        == s.q && p[21] == s.k && p[22] == s.v && p[23] == s.attention && p[25] == s.router && p[26]
        == s.picks && p[27] == s.probabilities && p[31] == s.up && p[32] == s.expert_out && p[33]
        == s.shared && p[34] == s.logits);
    let list = model_schema(c.blocks@, 53);
    let one = block_schema(c.blocks@, i);
    crate::nemotron::naming::lemma_block(c.blocks@, 53, i);
    let b = crate::nemotron::load::block_start(c.blocks@, i);
    assert(m.layers[i] == layer_of(
        h,
        list,
        c.blocks@,
        spaces(c.blocks@, context as int, batch as int),
        i,
    ));
    assert(list[b + 1] == one[1]);
    assert(list[b + 2] == one[2]);
    assert(list[b + 3] == one[3]);
    assert(list[b + 4] == one[4]);
    assert(one.len() > 5 ==> list[b + 5] == one[5]);
    assert(one.len() > 6 ==> list[b + 6] == one[6]);
    assert(one.len() > 7 ==> list[b + 7] == one[7]);
}

} // verus!
