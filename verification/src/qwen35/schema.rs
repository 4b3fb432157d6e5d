//! The tensors of a decoder, in the order in which they are uploaded, and the
//! layers that they make.
use vstd::prelude::*;
use crate::header::{
    block_name, block_text, expect, expected, schema, Entry, Expected, Header, ANY_FORMAT,
};
use crate::program::{list1, list2, list3, Buffer, Weight};
use crate::qwen35::checkpoint::outputs;
use crate::qwen35::geometry::Geometry;
use crate::qwen35::graph::{layer_shaped, DeltaNet, FullAttention, Layer, Mixer};
use crate::qwen35::moe::Experts;

verus! {

/// Every fourth layer attends; the others are recurrent.
pub open spec fn attends(i: int) -> bool {
    (i + 1) % 4 == 0
}

/// A norm behind the mixer has two names in the wild.
pub open spec fn post_norm(h: &Header, mapped: bool, i: int) -> Seq<char> {
    if mapped && h.tensor(block_name(i, "attn_post_norm.weight"@)) is Some {
        "attn_post_norm.weight"@
    } else {
        "post_attention_norm.weight"@
    }
}

/// The name in this checkpoint. Only mapped files use the first form.
pub fn post_norm_name(h: &Header, mapped: bool, i: usize) -> (r: &'static str)
    ensures
        r@ == post_norm(h, mapped, i as int),
{
    if mapped {
        let name = block_text(i, "attn_post_norm.weight");
        if h.find_tensor(name.as_str()).is_some() {
            return "attn_post_norm.weight";
        }
    }
    "post_attention_norm.weight"
}

pub open spec fn attention_entries(g: Geometry, i: int) -> Seq<Expected> {
    let width = g.width as u64;
    seq![
        expected(block_name(i, "attn_q.weight"@), seq![width, (g.heads * 512) as u64], ANY_FORMAT, true),
        expected(block_name(i, "attn_k.weight"@), seq![width, (g.kv_heads * 256) as u64], ANY_FORMAT, true),
        expected(block_name(i, "attn_v.weight"@), seq![width, (g.kv_heads * 256) as u64], ANY_FORMAT, true),
        expected(block_name(i, "attn_output.weight"@), seq![(g.heads * 256) as u64, width], ANY_FORMAT, true),
        expected(block_name(i, "attn_q_norm.weight"@), seq![256u64], 0, true),
        expected(block_name(i, "attn_k_norm.weight"@), seq![256u64], 0, true),
    ]
}

pub open spec fn recurrent_entries(g: Geometry, i: int) -> Seq<Expected> {
    let width = g.width as u64;
    let conv = g.conv_width() as u64;
    let wide = (g.value_heads * 128) as u64;
    let heads = g.value_heads as u64;
    seq![
        expected(block_name(i, "attn_qkv.weight"@), seq![width, conv], ANY_FORMAT, true),
        expected(block_name(i, "attn_gate.weight"@), seq![width, wide], ANY_FORMAT, true),
        expected(block_name(i, "ssm_alpha.weight"@), seq![width, heads], ANY_FORMAT, true),
        expected(block_name(i, "ssm_beta.weight"@), seq![width, heads], ANY_FORMAT, true),
        expected(block_name(i, "ssm_out.weight"@), seq![wide, width], ANY_FORMAT, true),
        expected(block_name(i, "ssm_conv1d.weight"@), seq![4u64, conv], 0, true),
        expected(block_name(i, "ssm_a"@), seq![heads], 0, true),
        expected(block_name(i, "ssm_dt.bias"@), seq![heads], 0, true),
        expected(block_name(i, "ssm_norm.weight"@), seq![128u64], 0, true),
    ]
}

/// Norms and the dense or shared feed-forward.
pub open spec fn common_entries(g: Geometry, post: Seq<char>, i: int) -> Seq<Expected> {
    let width = g.width as u64;
    let ff = g.ff as u64;
    let moe = g.is_moe();
    seq![
        expected(block_name(i, "attn_norm.weight"@), seq![width], ANY_FORMAT, true),
        expected(block_name(i, post), seq![width], ANY_FORMAT, true),
        expected(
            block_name(i, if moe { "ffn_gate_shexp.weight"@ } else { "ffn_gate.weight"@ }),
            seq![width, ff],
            ANY_FORMAT,
            true,
        ),
        expected(
            block_name(i, if moe { "ffn_up_shexp.weight"@ } else { "ffn_up.weight"@ }),
            seq![width, ff],
            ANY_FORMAT,
            true,
        ),
        expected(
            block_name(i, if moe { "ffn_down_shexp.weight"@ } else { "ffn_down.weight"@ }),
            seq![ff, width],
            ANY_FORMAT,
            true,
        ),
    ]
}

/// Routers and experts, where there are any.
pub open spec fn routed_entries(g: Geometry, i: int) -> Seq<Expected> {
    if g.is_moe() {
        seq![
            expected(block_name(i, "ffn_gate_inp.weight"@), seq![2048u64, 256], ANY_FORMAT, true),
            expected(block_name(i, "ffn_gate_inp_shexp.weight"@), seq![2048u64], ANY_FORMAT, true),
            expected(block_name(i, "ffn_gate_exps.weight"@), seq![2048u64, 512, 256], ANY_FORMAT, true),
            expected(block_name(i, "ffn_up_exps.weight"@), seq![2048u64, 512, 256], ANY_FORMAT, true),
            expected(block_name(i, "ffn_down_exps.weight"@), seq![512u64, 2048, 256], ANY_FORMAT, true),
        ]
    } else {
        Seq::empty()
    }
}

pub open spec fn layer_entries(g: Geometry, post: Seq<char>, i: int) -> Seq<Expected> {
    (if attends(i) { attention_entries(g, i) } else { recurrent_entries(g, i) }) + common_entries(
        g,
        post,
        i,
    ) + routed_entries(g, i)
}

/// Embedding, norm and head, then the first `n` layers.
pub open spec fn graph_schema(h: &Header, mapped: bool, g: Geometry, vocab: usize, n: int) -> Seq<Expected>
    decreases n,
{
    if n <= 0 {
        let width = g.width as u64;
        seq![
            expected("token_embd.weight"@, seq![width, vocab as u64], ANY_FORMAT, true),
            expected("output_norm.weight"@, seq![width], ANY_FORMAT, true),
            expected("output.weight"@, seq![width, vocab as u64], ANY_FORMAT, true),
        ]
    } else {
        graph_schema(h, mapped, g, vocab, n - 1) + layer_entries(g, post_norm(h, mapped, n - 1), n - 1)
    }
}

/// Where the entries of layer `i` start.
pub open spec fn layer_start(g: Geometry, i: int) -> int {
    3 + 14 * i - 3 * (i / 4) + if g.is_moe() { 5 * i } else { 0 }
}

/// The layer's entries lie where they are looked for.
pub proof fn lemma_entries(h: &Header, mapped: bool, g: Geometry, vocab: usize, n: int, i: int)
    requires
        0 <= i < n,
    ensures
        graph_schema(h, mapped, g, vocab, n).len() == layer_start(g, n),
        layer_start(g, i) + layer_entries(g, post_norm(h, mapped, i), i).len() <= layer_start(g, n),
        forall|k: int|
            0 <= k < layer_entries(g, post_norm(h, mapped, i), i).len() ==> #[trigger] graph_schema(
                h,
                mapped,
                g,
                vocab,
                n,
            )[layer_start(g, i) + k] == layer_entries(g, post_norm(h, mapped, i), i)[k],
    decreases n,
{
    lemma_start(h, mapped, g, vocab, n - 1);
    let before = graph_schema(h, mapped, g, vocab, n - 1);
    let last = layer_entries(g, post_norm(h, mapped, n - 1), n - 1);
    let now = graph_schema(h, mapped, g, vocab, n);
    assert(now == before + last);
    assert(last.len() == layer_start(g, n) - layer_start(g, n - 1)) by {
        lemma_layer_len(g, post_norm(h, mapped, n - 1), n - 1);
    }
    if i < n - 1 {
        lemma_entries(h, mapped, g, vocab, n - 1, i);
        let mine = layer_entries(g, post_norm(h, mapped, i), i);
        assert forall|k: int| 0 <= k < mine.len() implies #[trigger] now[layer_start(g, i) + k] == mine[k] by {
            assert(now[layer_start(g, i) + k] == before[layer_start(g, i) + k]);
        }
    } else {
        assert forall|k: int| 0 <= k < last.len() implies #[trigger] now[layer_start(g, i) + k] == last[k] by {
            assert(now[before.len() + k] == last[k]);
        }
    }
}

proof fn lemma_layer_len(g: Geometry, post: Seq<char>, i: int)
    requires
        0 <= i,
    ensures
        layer_entries(g, post, i).len() == layer_start(g, i + 1) - layer_start(g, i),
        layer_entries(g, post, i).len() == (if attends(i) { 11int } else { 14 }) + if g.is_moe() {
            5int
        } else {
            0
        },
{
}

proof fn lemma_start(h: &Header, mapped: bool, g: Geometry, vocab: usize, n: int)
    requires
        0 <= n,
    ensures
        graph_schema(h, mapped, g, vocab, n).len() == layer_start(g, n),
    decreases n,
{
    if n > 0 {
        lemma_start(h, mapped, g, vocab, n - 1);
        lemma_layer_len(g, post_norm(h, mapped, n - 1), n - 1);
    }
}

/// The planes outside the layers come first.
pub proof fn lemma_head(h: &Header, mapped: bool, g: Geometry, vocab: usize, n: int)
    requires
        0 <= n,
    ensures
        graph_schema(h, mapped, g, vocab, n).len() == layer_start(g, n),
        graph_schema(h, mapped, g, vocab, n).take(3) == graph_schema(h, mapped, g, vocab, 0),
        forall|j: int|
            0 <= j < 3 ==> #[trigger] graph_schema(h, mapped, g, vocab, n)[j] == graph_schema(
                h,
                mapped,
                g,
                vocab,
                0,
            )[j],
    decreases n,
{
    lemma_start(h, mapped, g, vocab, n);
    if n > 0 {
        lemma_head(h, mapped, g, vocab, n - 1);
        let before = graph_schema(h, mapped, g, vocab, n - 1);
        let now = graph_schema(h, mapped, g, vocab, n);
        assert(now.take(3) =~= before.take(3));
        assert forall|j: int| 0 <= j < 3 implies #[trigger] now[j] == graph_schema(h, mapped, g, vocab, 0)[j] by {
            assert(now[j] == before[j]);
        }
    } else {
        assert(graph_schema(h, mapped, g, vocab, 0).take(3) =~= graph_schema(h, mapped, g, vocab, 0));
    }
}

fn push_attention(list: &mut Vec<Entry>, g: Geometry, i: usize)
    requires
        g.elected(),
    ensures
        schema(final(list)@) == schema(old(list)@) + attention_entries(g, i as int),
{
    let ghost before = schema(list@);
    let width: u64 = g.width as u64;
    let q: u64 = (g.heads * 512) as u64;
    let kv: u64 = (g.kv_heads * 256) as u64;
    let o: u64 = (g.heads * 256) as u64;
    expect(list, block_text(i, "attn_q.weight"), list2(width, q), ANY_FORMAT, true);
    expect(list, block_text(i, "attn_k.weight"), list2(width, kv), ANY_FORMAT, true);
    expect(list, block_text(i, "attn_v.weight"), list2(width, kv), ANY_FORMAT, true);
    expect(list, block_text(i, "attn_output.weight"), list2(o, width), ANY_FORMAT, true);
    expect(list, block_text(i, "attn_q_norm.weight"), list1(256), 0, true);
    expect(list, block_text(i, "attn_k_norm.weight"), list1(256), 0, true);
    assert(schema(list@) =~= before + attention_entries(g, i as int));
}

fn push_recurrent(list: &mut Vec<Entry>, g: Geometry, i: usize)
    requires
        g.elected(),
    ensures
        schema(final(list)@) == schema(old(list)@) + recurrent_entries(g, i as int),
{
    let ghost before = schema(list@);
    let width: u64 = g.width as u64;
    let conv: u64 = g.conv() as u64;
    let wide: u64 = (g.value_heads * 128) as u64;
    let heads: u64 = g.value_heads as u64;
    expect(list, block_text(i, "attn_qkv.weight"), list2(width, conv), ANY_FORMAT, true);
    expect(list, block_text(i, "attn_gate.weight"), list2(width, wide), ANY_FORMAT, true);
    expect(list, block_text(i, "ssm_alpha.weight"), list2(width, heads), ANY_FORMAT, true);
    expect(list, block_text(i, "ssm_beta.weight"), list2(width, heads), ANY_FORMAT, true);
    expect(list, block_text(i, "ssm_out.weight"), list2(wide, width), ANY_FORMAT, true);
    expect(list, block_text(i, "ssm_conv1d.weight"), list2(4, conv), 0, true);
    expect(list, block_text(i, "ssm_a"), list1(heads), 0, true);
    expect(list, block_text(i, "ssm_dt.bias"), list1(heads), 0, true);
    expect(list, block_text(i, "ssm_norm.weight"), list1(128), 0, true);
    assert(schema(list@) =~= before + recurrent_entries(g, i as int));
}

fn push_common(list: &mut Vec<Entry>, g: Geometry, post: &str, i: usize)
    requires
        g.elected(),
    ensures
        schema(final(list)@) == schema(old(list)@) + common_entries(g, post@, i as int),
{
    let ghost before = schema(list@);
    let width: u64 = g.width as u64;
    let ff: u64 = g.ff as u64;
    let moe = g.moe();
    expect(list, block_text(i, "attn_norm.weight"), list1(width), ANY_FORMAT, true);
    expect(list, block_text(i, post), list1(width), ANY_FORMAT, true);
    let gate = if moe { "ffn_gate_shexp.weight" } else { "ffn_gate.weight" };
    let up = if moe { "ffn_up_shexp.weight" } else { "ffn_up.weight" };
    let down = if moe { "ffn_down_shexp.weight" } else { "ffn_down.weight" };
    expect(list, block_text(i, gate), list2(width, ff), ANY_FORMAT, true);
    expect(list, block_text(i, up), list2(width, ff), ANY_FORMAT, true);
    expect(list, block_text(i, down), list2(ff, width), ANY_FORMAT, true);
    assert(schema(list@) =~= before + common_entries(g, post@, i as int));
}

fn push_routed(list: &mut Vec<Entry>, g: Geometry, i: usize)
    ensures
        schema(final(list)@) == schema(old(list)@) + routed_entries(g, i as int),
{
    let ghost before = schema(list@);
    if g.moe() {
        expect(list, block_text(i, "ffn_gate_inp.weight"), list2(2048, 256), ANY_FORMAT, true);
        expect(list, block_text(i, "ffn_gate_inp_shexp.weight"), list1(2048), ANY_FORMAT, true);
        expect(list, block_text(i, "ffn_gate_exps.weight"), list3(2048, 512, 256), ANY_FORMAT, true);
        expect(list, block_text(i, "ffn_up_exps.weight"), list3(2048, 512, 256), ANY_FORMAT, true);
        expect(list, block_text(i, "ffn_down_exps.weight"), list3(512, 2048, 256), ANY_FORMAT, true);
    }
    assert(schema(list@) =~= before + routed_entries(g, i as int));
}

/// Everything that a decoder of this shape uploads.
pub fn build_schema(h: &Header, mapped: bool, g: Geometry, vocab: usize) -> (list: Vec<Entry>)
    requires
        g.elected(),
    ensures
        schema(list@) == graph_schema(h, mapped, g, vocab, g.layers as int),
        list.len() == layer_start(g, g.layers as int),
{
    let width: u64 = g.width as u64;
    let mut list: Vec<Entry> = Vec::new();
    expect(&mut list, "token_embd.weight".to_owned(), list2(width, vocab as u64), ANY_FORMAT, true);
    expect(&mut list, "output_norm.weight".to_owned(), list1(width), ANY_FORMAT, true);
    expect(&mut list, "output.weight".to_owned(), list2(width, vocab as u64), ANY_FORMAT, true);
    assert(schema(list@) =~= graph_schema(h, mapped, g, vocab, 0));
    let mut i: usize = 0;
    while i < g.layers
        invariant
            i <= g.layers,
            g.elected(),
            schema(list@) == graph_schema(h, mapped, g, vocab, i as int),
        decreases g.layers - i,
    {
        let ghost before = schema(list@);
        let post = post_norm_name(h, mapped, i);
        if (i + 1) % 4 == 0 {
            push_attention(&mut list, g, i);
        } else {
            push_recurrent(&mut list, g, i);
        }
        push_common(&mut list, g, post, i);
        push_routed(&mut list, g, i);
        assert(schema(list@) =~= before + layer_entries(g, post@, i as int));
        i = i + 1;
    }
    proof {
        lemma_start(h, mapped, g, vocab, g.layers as int);
    }
    list
}

/// Key and value planes of attention layer `i`, allocated from `first` on.
pub open spec fn cache_plane(first: int, bytes: int, i: int, value: bool) -> Buffer {
    Buffer { id: (first + 2 * (i / 4) + if value { 1int } else { 0 }) as u32, len: bytes as u64 }
}

/// Layer `i` out of the uploaded planes.
pub open spec fn layer_of(w: Seq<Weight>, g: Geometry, first: int, bytes: int, i: int) -> Layer {
    let b = layer_start(g, i);
    let c = b + if attends(i) { 6int } else { 9 };
    Layer {
        norm: w[c],
        post_norm: w[c + 1],
        mixer: if attends(i) {
            Mixer::Full(
                FullAttention {
                    q: w[b],
                    k: w[b + 1],
                    v: w[b + 2],
                    o: w[b + 3],
                    q_norm: w[b + 4],
                    k_norm: w[b + 5],
                    keys: cache_plane(first, bytes, i, false),
                    values: cache_plane(first, bytes, i, true),
                },
            )
        } else {
            Mixer::Linear(
                DeltaNet {
                    qkv: w[b],
                    z: w[b + 1],
                    alpha: w[b + 2],
                    beta: w[b + 3],
                    out: w[b + 4],
                    conv: w[b + 5],
                    a: w[b + 6],
                    dt: w[b + 7],
                    norm: w[b + 8],
                    index: (i - i / 4) as usize,
                },
            )
        },
        gate: w[c + 2],
        up: w[c + 3],
        down: w[c + 4],
        moe: if g.is_moe() {
            Some(
                Experts {
                    router: w[c + 5],
                    shared_gate: w[c + 6],
                    gate: w[c + 7],
                    up: w[c + 8],
                    down: w[c + 9],
                },
            )
        } else {
            None
        },
    }
}

/// Planes with the sides that a list asks for.
pub open spec fn planes_sided(w: Seq<Weight>, list: Seq<Expected>) -> bool {
    &&& w.len() == list.len()
    &&& forall|j: int|
        0 <= j < w.len() ==> (#[trigger] w[j]).k == list[j].dims[0] as usize && w[j].n == outputs(
            list[j].dims,
        ) as usize
}

/// A layer out of sound planes has the shape that the graph relies on.
#[verifier::spinoff_prover]
#[verifier::rlimit(60)]
pub proof fn lemma_layer_shaped(
    h: &Header,
    mapped: bool,
    g: Geometry,
    vocab: usize,
    w: Seq<Weight>,
    first: int,
    bytes: int,
    i: int,
)
    requires
        g.elected(),
        0 <= i < g.layers,
        planes_sided(w, graph_schema(h, mapped, g, vocab, g.layers as int)),
    ensures
        layer_shaped(g, layer_of(w, g, first, bytes, i)),
{
    let n = g.layers as int;
    let list = graph_schema(h, mapped, g, vocab, n);
    let post = post_norm(h, mapped, i);
    let mine = layer_entries(g, post, i);
    lemma_entries(h, mapped, g, vocab, n, i);
    lemma_layer_len(g, post, i);
    let b = layer_start(g, i);
    let m = if attends(i) { 6int } else { 9 };
    let mixer = if attends(i) { attention_entries(g, i) } else { recurrent_entries(g, i) };
    assert(list[b + 0] == mine[0] && mine[0] == mixer[0]);
    assert(list[b + 1] == mine[1] && mine[1] == mixer[1]);
    assert(list[b + 2] == mine[2] && mine[2] == mixer[2]);
    assert(list[b + 3] == mine[3] && mine[3] == mixer[3]);
    assert(list[b + 4] == mine[4] && mine[4] == mixer[4]);
    let common = common_entries(g, post, i);
    assert(list[b + (m + 2)] == mine[m + 2] && mine[m + 2] == common[2]);
    assert(list[b + (m + 3)] == mine[m + 3] && mine[m + 3] == common[3]);
    assert(list[b + (m + 4)] == mine[m + 4] && mine[m + 4] == common[4]);
}

fn build_layer(
    w: &Vec<Weight>,
    g: Geometry,
    first: u32,
    bytes: u64,
    i: usize,
    Ghost(list): Ghost<Seq<Expected>>,
    Ghost(h): Ghost<&Header>,
    Ghost(mapped): Ghost<bool>,
    Ghost(vocab): Ghost<usize>,
) -> (r: Layer)
    requires
        g.elected(),
        i < g.layers,
        first <= 0xffff,
        list == graph_schema(h, mapped, g, vocab, g.layers as int),
        planes_sided(w@, list),
    ensures
        r == layer_of(w@, g, first as int, bytes as int, i as int),
{
    assert(layer_start(g, i as int) + (if attends(i as int) { 11int } else { 14 }) + (if g.is_moe() {
        5int
    } else {
        0
    }) <= w.len()) by {
        lemma_entries(h, mapped, g, vocab, g.layers as int, i as int);
        lemma_layer_len(g, post_norm(h, mapped, i as int), i as int);
    }
    assert(w.len() == layer_start(g, g.layers as int)) by {
        lemma_start(h, mapped, g, vocab, g.layers as int);
    }
    assert(w.len() <= 1000);
    let moe = g.moe();
    let b: usize = 3 + 14 * i - 3 * (i / 4) + if moe { 5 * i } else { 0 };
    let attending = (i + 1) % 4 == 0;
    let c: usize = b + if attending { 6 } else { 9 };
    let mixer = if attending {
        Mixer::Full(
            FullAttention {
                q: w[b],
                k: w[b + 1],
                v: w[b + 2],
                o: w[b + 3],
                q_norm: w[b + 4],
                k_norm: w[b + 5],
                keys: Buffer { id: first + 2 * (i as u32 / 4), len: bytes },
                values: Buffer { id: first + 2 * (i as u32 / 4) + 1, len: bytes },
            },
        )
    } else {
        Mixer::Linear(
            DeltaNet {
                qkv: w[b],
                z: w[b + 1],
                alpha: w[b + 2],
                beta: w[b + 3],
                out: w[b + 4],
                conv: w[b + 5],
                a: w[b + 6],
                dt: w[b + 7],
                norm: w[b + 8],
                index: i - i / 4,
            },
        )
    };
    let experts = if moe {
        Some(
            Experts {
                router: w[c + 5],
                shared_gate: w[c + 6],
                gate: w[c + 7],
                up: w[c + 8],
                down: w[c + 9],
            },
        )
    } else {
        None
    };
    Layer {
        norm: w[c],
        post_norm: w[c + 1],
        mixer,
        gate: w[c + 2],
        up: w[c + 3],
        down: w[c + 4],
        moe: experts,
    }
}

/// Every layer, in order.
pub(crate) fn build_layers(
    w: &Vec<Weight>,
    g: Geometry,
    first: u32,
    bytes: u64,
    Ghost(list): Ghost<Seq<Expected>>,
    Ghost(h): Ghost<&Header>,
    Ghost(mapped): Ghost<bool>,
    Ghost(vocab): Ghost<usize>,
) -> (r: Vec<Layer>)
    requires
        g.elected(),
        first <= 0xffff,
        list == graph_schema(h, mapped, g, vocab, g.layers as int),
        planes_sided(w@, list),
    ensures
        r.len() == g.layers,
        forall|i: int|
            0 <= i < g.layers ==> #[trigger] r[i] == layer_of(
                w@,
                g,
                first as int,
                bytes as int,
                i,
            ),
        forall|i: int| 0 <= i < g.layers ==> layer_shaped(g, #[trigger] r[i]),
{
    let mut out: Vec<Layer> = Vec::new();
    let mut i: usize = 0;
    while i < g.layers
        invariant
            i <= g.layers,
            g.elected(),
            first <= 0xffff,
            list == graph_schema(h, mapped, g, vocab, g.layers as int),
            planes_sided(w@, list),
            out.len() == i,
            forall|k: int|
                0 <= k < i ==> #[trigger] out[k] == layer_of(
                    w@,
                    g,
                    first as int,
                    bytes as int,
                    k,
                ),
            forall|k: int| 0 <= k < i ==> layer_shaped(g, #[trigger] out[k]),
        decreases g.layers - i,
    {
        let layer = build_layer(w, g, first, bytes, i, Ghost(list), Ghost(h), Ghost(mapped), Ghost(vocab));
        proof {
            lemma_layer_shaped(h, mapped, g, vocab, w@, first as int, bytes as int, i as int);
        }
        out.push(layer);
        i = i + 1;
    }
    out
}

} // verus!
