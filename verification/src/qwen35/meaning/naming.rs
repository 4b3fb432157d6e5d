//! Every plane of a loaded graph and of its companions is the tensor of its
//! name.
use vstd::prelude::*;
use crate::header::{block_name, Header};
use crate::qwen35::attach_dflash::{draft_entries, draft_layer, draft_layers, draft_schema, drafted, ring_bytes};
use crate::qwen35::attach_mtp::{block_of, block_schema};
use crate::qwen35::dflash::Dflash;
use crate::qwen35::geometry::Geometry;
use crate::qwen35::graph::{Mixer, Verify};
use crate::qwen35::schema::{
    graph_schema, layer_entries, layer_of, layer_start, lemma_entries, lemma_head, post_norm,
};
use crate::qwen35::source::{planes, Source};
use crate::qwen35::state::Qwen35;
use crate::roles::called;

verus! {

/// The shared or dense feed-forward of a layer has its own names in a model
/// with experts.
pub open spec fn feeding(g: Geometry, moe: Seq<char>, dense: Seq<char>) -> Seq<char> {
    if g.is_moe() { moe } else { dense }
}

/// The planes of layer `i` are the tensors of their names.
#[verifier::spinoff_prover]
#[verifier::rlimit(80)]
pub proof fn layers_hold_the_tensors_they_name(
    src: &Source,
    mapped: bool,
    g: Geometry,
    vocab: usize,
    first: int,
    bytes: int,
    i: int,
)
    requires
        0 <= i < g.layers <= 0xffff,
    ensures
        ({
            let list = graph_schema(&src.header, mapped, g, vocab, g.layers as int);
            let w = planes(src, list);
            let layer = layer_of(w, g, first, bytes, i);
            let of = |name: Seq<char>| block_name(i, name);
            &&& called(list, 0, w[0], "token_embd.weight"@)
            &&& called(list, 0, w[1], "output_norm.weight"@)
            &&& called(list, 0, w[2], "output.weight"@)
            &&& called(list, 0, layer.norm, of("attn_norm.weight"@))
            &&& called(list, 0, layer.post_norm, of(post_norm(&src.header, mapped, i)))
            &&& match layer.mixer {
                Mixer::Full(x) => {
                    &&& i % 4 == 3
                    &&& called(list, 0, x.q, of("attn_q.weight"@))
                    &&& called(list, 0, x.k, of("attn_k.weight"@))
                    &&& called(list, 0, x.v, of("attn_v.weight"@))
                    &&& called(list, 0, x.o, of("attn_output.weight"@))
                    &&& called(list, 0, x.q_norm, of("attn_q_norm.weight"@))
                    &&& called(list, 0, x.k_norm, of("attn_k_norm.weight"@))
                },
                Mixer::Linear(x) => {
                    &&& i % 4 != 3
                    &&& called(list, 0, x.qkv, of("attn_qkv.weight"@))
                    &&& called(list, 0, x.z, of("attn_gate.weight"@))
                    &&& called(list, 0, x.alpha, of("ssm_alpha.weight"@))
                    &&& called(list, 0, x.beta, of("ssm_beta.weight"@))
                    &&& called(list, 0, x.out, of("ssm_out.weight"@))
                    &&& called(list, 0, x.conv, of("ssm_conv1d.weight"@))
                    &&& called(list, 0, x.a, of("ssm_a"@))
                    &&& called(list, 0, x.dt, of("ssm_dt.bias"@))
                    &&& called(list, 0, x.norm, of("ssm_norm.weight"@))
                },
            }
            &&& called(list, 0, layer.gate, of(feeding(g, "ffn_gate_shexp.weight"@, "ffn_gate.weight"@)))
            &&& called(list, 0, layer.up, of(feeding(g, "ffn_up_shexp.weight"@, "ffn_up.weight"@)))
            &&& called(list, 0, layer.down, of(feeding(g, "ffn_down_shexp.weight"@, "ffn_down.weight"@)))
            &&& g.is_moe() == (layer.moe is Some)
            &&& layer.moe matches Some(x) ==> {
                &&& called(list, 0, x.router, of("ffn_gate_inp.weight"@))
                &&& called(list, 0, x.shared_gate, of("ffn_gate_inp_shexp.weight"@))
                &&& called(list, 0, x.gate, of("ffn_gate_exps.weight"@))
                &&& called(list, 0, x.up, of("ffn_up_exps.weight"@))
                &&& called(list, 0, x.down, of("ffn_down_exps.weight"@))
            }
        }),
{
    let h = &src.header;
    let n = g.layers as int;
    let list = graph_schema(h, mapped, g, vocab, n);
    let one = layer_entries(g, post_norm(h, mapped, i), i);
    let b = layer_start(g, i);
    lemma_entries(h, mapped, g, vocab, n, i);
    lemma_head(h, mapped, g, vocab, n);
    assert(list[0] == graph_schema(h, mapped, g, vocab, 0)[0]);
    assert(list[1] == graph_schema(h, mapped, g, vocab, 0)[1]);
    assert(list[2] == graph_schema(h, mapped, g, vocab, 0)[2]);
    assert(list[b + 0] == one[0]);
    assert(list[b + 1] == one[1]);
    assert(list[b + 2] == one[2]);
    assert(list[b + 3] == one[3]);
    assert(list[b + 4] == one[4]);
    assert(list[b + 5] == one[5]);
    assert(list[b + 6] == one[6]);
    assert(list[b + 7] == one[7]);
    assert(list[b + 8] == one[8]);
    assert(list[b + 9] == one[9]);
    assert(list[b + 10] == one[10]);
    assert(one.len() > 11 ==> list[b + 11] == one[11]);
    assert(one.len() > 12 ==> list[b + 12] == one[12]);
    assert(one.len() > 13 ==> list[b + 13] == one[13]);
    assert(one.len() > 14 ==> list[b + 14] == one[14]);
    assert(one.len() > 15 ==> list[b + 15] == one[15]);
    assert(one.len() > 16 ==> list[b + 16] == one[16]);
    assert(one.len() > 17 ==> list[b + 17] == one[17]);
    assert(one.len() > 18 ==> list[b + 18] == one[18]);
}

/// The planes of an attached prediction block are the tensors of their names.
#[verifier::spinoff_prover]
#[verifier::rlimit(60)]
pub proof fn predictors_hold_the_tensors_they_name(h: &Header, q: &Qwen35, i: int, first: u32, pool: int)
    requires
        first <= 0x7fff_ffff,
    ensures
        ({
            let g = q.graph.geometry;
            let list = block_schema(g, i);
            let m = block_of(h, q, i, first, pool);
            let f = first as int;
            let of = |name: Seq<char>| block_name(i, name);
            let layer = m.layer;
            &&& called(list, f, m.eh, of("nextn.eh_proj.weight"@))
            &&& called(list, f, m.en, of("nextn.enorm.weight"@))
            &&& called(list, f, m.hn, of("nextn.hnorm.weight"@))
            &&& called(list, f, m.head_norm, of("nextn.shared_head_norm.weight"@))
            &&& called(list, f, layer.norm, of("attn_norm.weight"@))
            &&& called(list, f, layer.post_norm, of("post_attention_norm.weight"@))
            &&& layer.mixer matches Mixer::Full(x)
            &&& called(list, f, x.q, of("attn_q.weight"@))
            &&& called(list, f, x.k, of("attn_k.weight"@))
            &&& called(list, f, x.v, of("attn_v.weight"@))
            &&& called(list, f, x.o, of("attn_output.weight"@))
            &&& called(list, f, x.q_norm, of("attn_q_norm.weight"@))
            &&& called(list, f, x.k_norm, of("attn_k_norm.weight"@))
            &&& called(list, f, layer.gate, of(feeding(g, "ffn_gate_shexp.weight"@, "ffn_gate.weight"@)))
            &&& called(list, f, layer.up, of(feeding(g, "ffn_up_shexp.weight"@, "ffn_up.weight"@)))
            &&& called(list, f, layer.down, of(feeding(g, "ffn_down_shexp.weight"@, "ffn_down.weight"@)))
            &&& g.is_moe() == (layer.moe is Some)
            &&& layer.moe matches Some(e) ==> {
                &&& called(list, f, e.router, of("ffn_gate_inp.weight"@))
                &&& called(list, f, e.shared_gate, of("ffn_gate_inp_shexp.weight"@))
                &&& called(list, f, e.gate, of("ffn_gate_exps.weight"@))
                &&& called(list, f, e.up, of("ffn_up_exps.weight"@))
                &&& called(list, f, e.down, of("ffn_down_exps.weight"@))
            }
        }),
{
}

proof fn lemma_draft_entries(n: int, i: int)
    requires
        0 <= i < n,
    ensures
        draft_layers(n).len() == 15 * n,
        forall|k: int|
            0 <= k < 15 ==> #[trigger] draft_layers(n)[15 * i + k] == draft_entries(i)[k],
    decreases n,
{
    lemma_draft_len(n - 1);
    if i < n - 1 {
        lemma_draft_entries(n - 1, i);
        assert forall|k: int| 0 <= k < 15 implies #[trigger] draft_layers(n)[15 * i + k] == draft_entries(i)[k] by {
            assert(draft_layers(n)[15 * i + k] == draft_layers(n - 1)[15 * i + k]);
        }
    }
}

proof fn lemma_draft_len(n: int)
    requires
        0 <= n,
    ensures
        draft_layers(n).len() == 15 * n,
    decreases n,
{
    if n > 0 {
        lemma_draft_len(n - 1);
    }
}

/// The planes of an attached drafter are the tensors of their names.
#[verifier::spinoff_prover]
#[verifier::rlimit(80)]
pub proof fn drafters_hold_the_tensors_they_name(
    src: &Source,
    q: &Qwen35,
    first: u32,
    verify: Verify,
    workspace: u64,
    d: Dflash,
    i: int,
)
    requires
        drafted(planes(src, draft_schema(q.graph.vocab as u64)), q, first, verify, workspace, d),
        first <= 0x7fff_ffff,
        0 <= i < 5,
    ensures
        ({
            let list = draft_schema(q.graph.vocab as u64);
            let f = first as int;
            let of = |name: Seq<char>| block_name(i, name);
            let layer = d.layers[i];
            &&& called(list, f, d.fc, "fc.weight"@)
            &&& called(list, f, d.enc_norm, "enc.output_norm.weight"@)
            &&& called(list, f, d.out_norm, "output_norm.weight"@)
            &&& called(list, f, d.selector, "selector_hidden.weight"@)
            &&& called(list, f, d.pred, "selector_predecessor.weight"@)
            &&& called(list, f, d.succ, "selector_successor.weight"@)
            &&& called(list, f, layer.norm, of("attn_norm.weight"@))
            &&& called(list, f, layer.post, of("ffn_norm.weight"@))
            &&& called(list, f, layer.q, of("attn_q.weight"@))
            &&& called(list, f, layer.k, of("attn_k.weight"@))
            &&& called(list, f, layer.v, of("attn_v.weight"@))
            &&& called(list, f, layer.o, of("attn_output.weight"@))
            &&& called(list, f, layer.qn, of("attn_q_norm.weight"@))
            &&& called(list, f, layer.kn, of("attn_k_norm.weight"@))
            &&& called(list, f, layer.gate, of("ffn_gate.weight"@))
            &&& called(list, f, layer.up, of("ffn_up.weight"@))
            &&& called(list, f, layer.down, of("ffn_down.weight"@))
            &&& called(list, f, layer.ac.base, of("attn_conv_base"@))
            &&& called(list, f, layer.ac.proj, of("attn_conv_proj.weight"@))
            &&& called(list, f, layer.fc.base, of("ffn_conv_base"@))
            &&& called(list, f, layer.fc.proj, of("ffn_conv_proj.weight"@))
        }),
{
    let list = draft_schema(q.graph.vocab as u64);
    let w = planes(src, list);
    lemma_draft_entries(5, i);
    assert(list.len() == 81);
    assert(d.layers[i] == draft_layer(w, first, ring_bytes(&q.graph), i));
    let b = 15 * i;
    let one = draft_entries(i);
    assert forall|k: int| 0 <= k < 15 implies #[trigger] list[b + k] == one[k] by {
        assert(draft_layers(5)[b + k] == one[k]);
    }
    assert(list[b + 0] == one[0]);
    assert(list[b + 1] == one[1]);
    assert(list[b + 2] == one[2]);
    assert(list[b + 3] == one[3]);
    assert(list[b + 4] == one[4]);
    assert(list[b + 5] == one[5]);
    assert(list[b + 6] == one[6]);
    assert(list[b + 7] == one[7]);
    assert(list[b + 8] == one[8]);
    assert(list[b + 9] == one[9]);
    assert(list[b + 10] == one[10]);
    assert(list[b + 11] == one[11]);
    assert(list[b + 12] == one[12]);
    assert(list[b + 13] == one[13]);
    assert(list[b + 14] == one[14]);
}

} // verus!
