//! Every plane of a loaded encoder is the tensor of its name.
use vstd::prelude::*;
use crate::header::{block_name, Header};
use crate::qwen3::load::{
    encoder_schema, layer_of, loaded, outer, push_block, sizes_of, vocabulary, Qwen3Encoder, Sizes,
};
use crate::roles::called;

verus! {

proof fn lemma_head(s: Sizes, vocab: u64, head: bool, n: int)
    requires
        0 <= n,
    ensures
        encoder_schema(s, vocab, head, n).len() == outer(s, vocab, head).len() + 11 * n,
        forall|k: int|
            0 <= k < outer(s, vocab, head).len() ==> #[trigger] encoder_schema(s, vocab, head, n)[k]
                == outer(s, vocab, head)[k],
    decreases n,
{
    if n > 0 {
        lemma_head(s, vocab, head, n - 1);
    }
}

proof fn lemma_block(s: Sizes, vocab: u64, head: bool, n: int, i: int)
    requires
        0 <= i < n,
    ensures
        ({
            let b = outer(s, vocab, head).len() + 11 * i;
            forall|k: int|
                0 <= k < 11 ==> #[trigger] encoder_schema(s, vocab, head, n)[b + k] == push_block(
                    encoder_schema(s, vocab, head, i),
                    s,
                    i,
                )[b + k]
        }),
    decreases n,
{
    lemma_head(s, vocab, head, n - 1);
    if i < n - 1 {
        lemma_block(s, vocab, head, n - 1, i);
    }
}

/// The planes of a loaded encoder are the tensors of their names.
pub proof fn encoders_hold_the_tensors_they_name(
    h: &Header,
    context: usize,
    budget: u64,
    identity: u64,
    m: Qwen3Encoder,
    i: int,
)
    requires
        loaded(h, context, budget, identity, m),
        sizes_of(h) is Ok,
        sizes_of(h)->Ok_0.count <= 0xffff,
        0 <= i < sizes_of(h)->Ok_0.count,
    ensures
        ({
            let s = sizes_of(h)->Ok_0;
            let list = encoder_schema(
                s,
                vocabulary(h)->0,
                h.tensor("output.weight"@) is Some,
                s.count as int,
            );
            let of = |name: Seq<char>| block_name(i, name);
            let layer = m.layers[i];
            &&& called(list, 0, m.embedding, "token_embd.weight"@)
            &&& called(list, 0, m.output_norm, "output_norm.weight"@)
            &&& m.head matches Some(w) ==> called(list, 0, w, "output.weight"@)
            &&& called(list, 0, layer.norm, of("attn_norm.weight"@))
            &&& called(list, 0, layer.q, of("attn_q.weight"@))
            &&& called(list, 0, layer.k, of("attn_k.weight"@))
            &&& called(list, 0, layer.v, of("attn_v.weight"@))
            &&& called(list, 0, layer.qnorm, of("attn_q_norm.weight"@))
            &&& called(list, 0, layer.knorm, of("attn_k_norm.weight"@))
            &&& called(list, 0, layer.o, of("attn_output.weight"@))
            &&& called(list, 0, layer.ffn_norm, of("ffn_norm.weight"@))
            &&& called(list, 0, layer.gate, of("ffn_gate.weight"@))
            &&& called(list, 0, layer.up, of("ffn_up.weight"@))
            &&& called(list, 0, layer.down, of("ffn_down.weight"@))
        }),
{
    let s = sizes_of(h)->Ok_0;
    let vocab = vocabulary(h)->0;
    let head = h.tensor("output.weight"@) is Some;
    let n = s.count as int;
    let list = encoder_schema(s, vocab, head, n);
    let b = outer(s, vocab, head).len() + 11 * i;
    let one = push_block(encoder_schema(s, vocab, head, i), s, i);
    lemma_head(s, vocab, head, n);
    lemma_head(s, vocab, head, i);
    lemma_block(s, vocab, head, n, i);
    assert(m.layers[i] == layer_of(h, list, if head { 3int } else { 2 }, i));
    assert(list[b + 0] == one[b + 0]);
    assert(list[b + 1] == one[b + 1]);
    assert(list[b + 2] == one[b + 2]);
    assert(list[b + 3] == one[b + 3]);
    assert(list[b + 4] == one[b + 4]);
    assert(list[b + 5] == one[b + 5]);
    assert(list[b + 6] == one[b + 6]);
    assert(list[b + 7] == one[b + 7]);
    assert(list[b + 8] == one[b + 8]);
    assert(list[b + 9] == one[b + 9]);
    assert(list[b + 10] == one[b + 10]);
    assert(list[0] == outer(s, vocab, head)[0]);
    assert(list[1] == outer(s, vocab, head)[1]);
    assert(head ==> list[2] == outer(s, vocab, head)[2]);
}

} // verus!
