//! Every plane of a loaded model is the tensor of its name.
use vstd::prelude::*;
use crate::header::{block_name, Header};
use crate::paddleocr::load::{self, decoder_schema, loaded, PaddleOcr};
use crate::paddleocr::tower::{self, blocks_schema, tower_loaded, tower_name, tower_schema, Linear, Norm, Vision};
use crate::roles::called;

verus! {

proof fn lemma_decoder_entries(n: int, i: int)
    requires
        0 <= i < n,
    ensures
        decoder_schema(n).len() == 3 + 9 * n,
        forall|k: int|
            0 <= k < 9 ==> #[trigger] decoder_schema(n)[3 + 9 * i + k] == load::push_block(
                decoder_schema(i),
                i,
            )[3 + 9 * i + k],
        forall|k: int| 0 <= k < 3 ==> #[trigger] decoder_schema(n)[k] == decoder_schema(0)[k],
    decreases n,
{
    lemma_decoder_len(n - 1);
    if i < n - 1 {
        lemma_decoder_entries(n - 1, i);
    }
    lemma_decoder_head(n);
}

proof fn lemma_decoder_len(n: int)
    requires
        0 <= n,
    ensures
        decoder_schema(n).len() == 3 + 9 * n,
    decreases n,
{
    if n > 0 {
        lemma_decoder_len(n - 1);
    }
}

proof fn lemma_decoder_head(n: int)
    requires
        0 <= n,
    ensures
        forall|k: int| 0 <= k < 3 ==> #[trigger] decoder_schema(n)[k] == decoder_schema(0)[k],
    decreases n,
{
    if n > 0 {
        lemma_decoder_len(n - 1);
        lemma_decoder_head(n - 1);
    }
}

/// The planes of a loaded decoder are the tensors of their names.
pub proof fn decoders_hold_the_tensors_they_name(h: &Header, context: usize, batch: usize, m: PaddleOcr, i: int)
    requires
        loaded(h, context, batch, m),
        0 <= i < 18,
    ensures
        ({
            let list = decoder_schema(18);
            let of = |name: Seq<char>| block_name(i, name);
            let layer = m.layers[i];
            &&& called(list, 0, m.embedding, "token_embd.weight"@)
            &&& called(list, 0, m.head, "output.weight"@)
            &&& called(list, 0, m.output_norm, "output_norm.weight"@)
            &&& called(list, 0, layer.norm, of("attn_norm.weight"@))
            &&& called(list, 0, layer.post, of("ffn_norm.weight"@))
            &&& called(list, 0, layer.q, of("attn_q.weight"@))
            &&& called(list, 0, layer.k, of("attn_k.weight"@))
            &&& called(list, 0, layer.v, of("attn_v.weight"@))
            &&& called(list, 0, layer.o, of("attn_output.weight"@))
            &&& called(list, 0, layer.gate, of("ffn_gate.weight"@))
            &&& called(list, 0, layer.up, of("ffn_up.weight"@))
            &&& called(list, 0, layer.down, of("ffn_down.weight"@))
        }),
{
    lemma_decoder_entries(18, i);
    lemma_decoder_len(i);
    let list = decoder_schema(18);
    let one = load::push_block(decoder_schema(i), i);
    assert(m.layers[i] == load::layer_of(h, context as int, batch as int, i));
    assert(list[3 + 9 * i + 0] == one[3 + 9 * i + 0]);
    assert(list[3 + 9 * i + 1] == one[3 + 9 * i + 1]);
    assert(list[3 + 9 * i + 2] == one[3 + 9 * i + 2]);
    assert(list[3 + 9 * i + 3] == one[3 + 9 * i + 3]);
    assert(list[3 + 9 * i + 4] == one[3 + 9 * i + 4]);
    assert(list[3 + 9 * i + 5] == one[3 + 9 * i + 5]);
    assert(list[3 + 9 * i + 6] == one[3 + 9 * i + 6]);
    assert(list[3 + 9 * i + 7] == one[3 + 9 * i + 7]);
    assert(list[3 + 9 * i + 8] == one[3 + 9 * i + 8]);
    assert(list[0] == decoder_schema(0)[0]);
    assert(list[1] == decoder_schema(0)[1]);
    assert(list[2] == decoder_schema(0)[2]);
}

/// The norm is made of the weight and the bias of one name.
pub open spec fn norm_called(first: int, n: Norm, weight: Seq<char>, bias: Seq<char>) -> bool {
    called(tower_schema(), first, n.w, weight) && called(tower_schema(), first, n.b, bias)
}

/// The plane is made of the weight and the bias of one name.
pub open spec fn linear_called(first: int, l: Linear, weight: Seq<char>, bias: Seq<char>) -> bool {
    called(tower_schema(), first, l.w, weight) && called(tower_schema(), first, l.b, bias)
}

proof fn lemma_tower_len(n: int)
    requires
        0 <= n,
    ensures
        blocks_schema(n).len() == 3 + 16 * n,
        forall|k: int| 0 <= k < 3 ==> #[trigger] blocks_schema(n)[k] == blocks_schema(0)[k],
    decreases n,
{
    if n > 0 {
        lemma_tower_len(n - 1);
    }
}

proof fn lemma_tower_entries(n: int, i: int)
    requires
        0 <= i < n,
    ensures
        blocks_schema(n).len() == 3 + 16 * n,
        forall|k: int|
            0 <= k < 16 ==> #[trigger] blocks_schema(n)[3 + 16 * i + k] == tower::push_block(
                blocks_schema(i),
                i,
            )[3 + 16 * i + k],
    decreases n,
{
    lemma_tower_len(n - 1);
    if i < n - 1 {
        lemma_tower_entries(n - 1, i);
    }
}

/// The planes of a loaded tower are the tensors of their names.
#[verifier::spinoff_prover]
#[verifier::rlimit(60)]
pub proof fn towers_hold_the_tensors_they_name(h: &Header, first: u32, v: Vision, i: int)
    requires
        tower_loaded(h, first, v),
        first <= 0x7fff_ffff,
        0 <= i < 27,
    ensures
        ({
            let of = |name: Seq<char>| tower_name(i, name);
            let b = v.blocks[i];
            let f = first as int;
            &&& linear_called(f, v.patch, "v.patch_embd.weight"@, "v.patch_embd.bias"@)
            &&& called(tower_schema(), f, v.pos, "v.position_embd.weight"@)
            &&& norm_called(f, b.ln1, of("ln1.weight"@), of("ln1.bias"@))
            &&& norm_called(f, b.ln2, of("ln2.weight"@), of("ln2.bias"@))
            &&& linear_called(f, b.q, of("attn_q.weight"@), of("attn_q.bias"@))
            &&& linear_called(f, b.k, of("attn_k.weight"@), of("attn_k.bias"@))
            &&& linear_called(f, b.v, of("attn_v.weight"@), of("attn_v.bias"@))
            &&& linear_called(f, b.o, of("attn_out.weight"@), of("attn_out.bias"@))
            &&& linear_called(f, b.up, of("ffn_up.weight"@), of("ffn_up.bias"@))
            &&& linear_called(f, b.down, of("ffn_down.weight"@), of("ffn_down.bias"@))
            &&& norm_called(f, v.post, "v.post_ln.weight"@, "v.post_ln.bias"@)
            &&& norm_called(f, v.pre, "mm.input_norm.weight"@, "mm.input_norm.bias"@)
            &&& linear_called(f, v.up, "mm.1.weight"@, "mm.1.bias"@)
            &&& linear_called(f, v.down, "mm.2.weight"@, "mm.2.bias"@)
        }),
{
    lemma_tower_entries(27, i);
    lemma_tower_len(27);
    lemma_tower_len(i);
    let list = tower_schema();
    let one = tower::push_block(blocks_schema(i), i);
    assert(list.len() == 443);
    assert(v.blocks[i] == tower::block_of(h, first, i));
    assert forall|k: int| 0 <= k < 16 implies #[trigger] list[3 + 16 * i + k] == one[3 + 16 * i + k] by {
        assert(blocks_schema(27)[3 + 16 * i + k] == one[3 + 16 * i + k]);
    }
    assert forall|k: int| 0 <= k < 3 implies #[trigger] list[k] == blocks_schema(0)[k] by {
        assert(blocks_schema(27)[k] == blocks_schema(0)[k]);
    }
    assert(list[3 + 16 * i + 0] == one[3 + 16 * i + 0]);
    assert(list[3 + 16 * i + 1] == one[3 + 16 * i + 1]);
    assert(list[3 + 16 * i + 2] == one[3 + 16 * i + 2]);
    assert(list[3 + 16 * i + 3] == one[3 + 16 * i + 3]);
    assert(list[3 + 16 * i + 4] == one[3 + 16 * i + 4]);
    assert(list[3 + 16 * i + 5] == one[3 + 16 * i + 5]);
    assert(list[3 + 16 * i + 6] == one[3 + 16 * i + 6]);
    assert(list[3 + 16 * i + 7] == one[3 + 16 * i + 7]);
    assert(list[3 + 16 * i + 8] == one[3 + 16 * i + 8]);
    assert(list[3 + 16 * i + 9] == one[3 + 16 * i + 9]);
    assert(list[3 + 16 * i + 10] == one[3 + 16 * i + 10]);
    assert(list[3 + 16 * i + 11] == one[3 + 16 * i + 11]);
    assert(list[3 + 16 * i + 12] == one[3 + 16 * i + 12]);
    assert(list[3 + 16 * i + 13] == one[3 + 16 * i + 13]);
    assert(list[3 + 16 * i + 14] == one[3 + 16 * i + 14]);
    assert(list[3 + 16 * i + 15] == one[3 + 16 * i + 15]);
    assert(list[0] == blocks_schema(0)[0]);
    assert(list[1] == blocks_schema(0)[1]);
    assert(list[2] == blocks_schema(0)[2]);
}

} // verus!
