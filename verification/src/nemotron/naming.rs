//! Every plane of a loaded decoder is the tensor of its name.
use vstd::prelude::*;
use crate::header::{block_name, Header};
use crate::nemotron::graph::{Block, Mixer, Nemotron};

use crate::nemotron::load::{
    block_schema, block_start, layer_of, loaded, model_schema, spaces, NemotronConfig,
};
use crate::roles::called;

verus! {

proof fn lemma_head(blocks: Seq<Block>, n: int)
    requires
        0 <= n <= 53,
    ensures
        3 <= model_schema(blocks, n).len() <= 3 + 16 * n,
        forall|k: int|
            0 <= k < 3 ==> #[trigger] model_schema(blocks, n)[k] == model_schema(blocks, 0)[k],
    decreases n,
{
    if n > 0 {
        lemma_head(blocks, n - 1);
        assert(block_schema(blocks, n - 1).len() <= 16);
    }
}

pub proof fn lemma_block(blocks: Seq<Block>, n: int, i: int)
    requires
        0 <= i < n <= 53,
    ensures
        block_start(blocks, i) + block_schema(blocks, i).len() <= model_schema(blocks, n).len(),
        forall|k: int|
            0 <= k < block_schema(blocks, i).len() ==> #[trigger] model_schema(blocks, n)[block_start(
                blocks,
                i,
            ) + k] == block_schema(blocks, i)[k],
    decreases n,
{
    if i < n - 1 {
        lemma_block(blocks, n - 1, i);
        let mine = block_schema(blocks, i);
        assert forall|k: int| 0 <= k < mine.len() implies #[trigger] model_schema(blocks, n)[block_start(
            blocks,
            i,
        ) + k] == mine[k] by {
            assert(model_schema(blocks, n)[block_start(blocks, i) + k] == model_schema(
                blocks,
                n - 1,
            )[block_start(blocks, i) + k]);
        }
    }
}

/// The planes of a loaded decoder are the tensors of their names, and each
/// block is of the kind that its place in the configuration says.
#[verifier::spinoff_prover]
#[verifier::rlimit(60)]
pub proof fn decoders_hold_the_tensors_they_name(
    c: NemotronConfig,
    h: &Header,
    context: usize,
    batch: usize,
    m: Nemotron,
    i: int,
)
    requires
        loaded(c, h, context, batch, m),
        0 <= i < 52,
    ensures
        ({
            let list = model_schema(c.blocks@, 53);
            let of = |name: Seq<char>| block_name(i, name);
            let layer = m.layers[i];
            &&& called(list, 0, m.embedding, "token_embd.weight"@)
            &&& called(list, 0, m.head, "output.weight"@)
            &&& called(list, 0, m.output_norm, "output_norm.weight"@)
            &&& called(list, 0, layer.norm, of("attn_norm.weight"@))
            &&& match layer.mixer {
                Mixer::Mamba(x) => {
                    &&& c.blocks[i] == Block::Mamba
                    &&& called(list, 0, x.input, of("ssm_in.weight"@))
                    &&& called(list, 0, x.output, of("ssm_out.weight"@))
                    &&& called(list, 0, x.conv_w, of("ssm_conv1d.weight"@))
                    &&& called(list, 0, x.conv_b, of("ssm_conv1d.bias"@))
                    &&& called(list, 0, x.a, of("ssm_a"@))
                    &&& called(list, 0, x.d, of("ssm_d"@))
                    &&& called(list, 0, x.dt, of("ssm_dt.bias"@))
                    &&& called(list, 0, x.norm, of("ssm_norm.weight"@))
                },
                Mixer::Attention(x) => {
                    &&& c.blocks[i] == Block::Attention
                    &&& called(list, 0, x.q, of("attn_q.weight"@))
                    &&& called(list, 0, x.k, of("attn_k.weight"@))
                    &&& called(list, 0, x.v, of("attn_v.weight"@))
                    &&& called(list, 0, x.out, of("attn_output.weight"@))
                },
                Mixer::Moe(x) => {
                    &&& c.blocks[i] == Block::Moe
                    &&& called(list, 0, x.router, of("ffn_gate_inp.weight"@))
                    &&& called(list, 0, x.bias, of("exp_probs_b.bias"@))
                    &&& called(list, 0, x.up, of("ffn_up_exps.weight"@))
                    &&& called(list, 0, x.down, of("ffn_down_exps.weight"@))
                    &&& called(list, 0, x.shared_up, of("ffn_up_shexp.weight"@))
                    &&& called(list, 0, x.shared_down, of("ffn_down_shexp.weight"@))
                },
            }
        }),
{
    let list = model_schema(c.blocks@, 53);
    let b = block_start(c.blocks@, i);
    let one = block_schema(c.blocks@, i);
    lemma_head(c.blocks@, 53);
    lemma_head(c.blocks@, i);
    lemma_block(c.blocks@, 53, i);
    assert(m.layers[i] == layer_of(
        h,
        list,
        c.blocks@,
        spaces(c.blocks@, context as int, batch as int),
        i,
    ));
    assert(list[b + 0] == one[0]);
    assert(list[b + 1] == one[1]);
    assert(list[b + 2] == one[2]);
    assert(list[b + 3] == one[3]);
    assert(list[b + 4] == one[4]);
    assert(one.len() > 5 ==> list[b + 5] == one[5]);
    assert(one.len() > 6 ==> list[b + 6] == one[6]);
    assert(one.len() > 7 ==> list[b + 7] == one[7]);
    assert(one.len() > 8 ==> list[b + 8] == one[8]);
    assert(list[0] == model_schema(c.blocks@, 0)[0]);
    assert(list[1] == model_schema(c.blocks@, 0)[1]);
    assert(list[2] == model_schema(c.blocks@, 0)[2]);
}

} // verus!
