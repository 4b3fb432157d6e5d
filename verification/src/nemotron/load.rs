//! Loading: geometry, schema and memory are checked before any upload.
use vstd::prelude::*;
use crate::arith::{ceil_div, div_ceil, min, BLOCK_TOKENS};
use crate::error::{Fault, MetalError};
use crate::header::{
    any_foreign, block_name, block_text, expect, expected, first_unmet, resident_bytes, schema,
    Entry, Expected, Header,
};
use crate::nemotron::graph::{
    layer_wf, scratch_sizes, Attention, Block, Experts, Layer, Mamba, Mixer, Nemotron, Scratch,
    Slot,
};
use crate::program::{list1, list2, list3, Buffer, Weight};

verus! {

/// What the checkpoint says of its own shape. Real numbers are bit patterns.
#[derive(Debug)]
pub struct NemotronConfig {
    pub hidden: usize,
    pub vocab: usize,
    pub n_layer: usize,
    pub n_heads: usize,
    pub n_kv_heads: usize,
    pub head_dim: usize,
    pub mamba_heads: usize,
    pub mamba_head_dim: usize,
    pub d_state: usize,
    pub d_conv: usize,
    pub n_groups: usize,
    pub n_expert: usize,
    pub n_active: usize,
    pub moe_ff: usize,
    pub shared_ff: usize,
    pub eps: u32,
    pub routed_scale: u32,
    pub max_pos: usize,
    pub blocks: Vec<Block>,
}

pub open spec fn count_kind(blocks: Seq<Block>, kind: Block) -> int
    decreases blocks.len(),
{
    if blocks.len() == 0 {
        0
    } else {
        count_kind(blocks.drop_last(), kind) + if blocks.last() == kind { 1int } else { 0 }
    }
}

/// The places of the attention blocks.
pub open spec fn attends(i: int) -> bool {
    i == 5 || i == 12 || i == 19 || i == 26 || i == 33 || i == 42
}

/// The one elected shape.
pub open spec fn elected(c: NemotronConfig) -> bool {
    &&& c.hidden == 2688
    &&& c.vocab == 131072
    &&& c.n_layer == 52
    &&& c.n_heads == 32
    &&& c.n_kv_heads == 2
    &&& c.head_dim == 128
    &&& c.mamba_heads == 64
    &&& c.mamba_head_dim == 64
    &&& c.d_state == 128
    &&& c.d_conv == 4
    &&& c.n_groups == 8
    &&& c.n_expert == 128
    &&& c.n_active == 6
    &&& c.moe_ff == 1856
    &&& c.shared_ff == 3712
    &&& c.eps == 0x3727_c5ac
    &&& c.routed_scale == 0x4020_0000
    &&& c.blocks.len() == 52
    &&& forall|i: int| 0 <= i < 52 ==> ((#[trigger] c.blocks[i] == Block::Attention) == attends(i))
    &&& count_kind(c.blocks@, Block::Mamba) == 23
    &&& count_kind(c.blocks@, Block::Moe) == 23
}

fn count(blocks: &Vec<Block>, kind: Block) -> (r: usize)
    ensures
        r == count_kind(blocks@, kind),
        r <= blocks.len(),
{
    let mut n: usize = 0;
    let mut i: usize = 0;
    assert(blocks@.take(0) =~= Seq::<Block>::empty());
    while i < blocks.len()
        invariant
            i <= blocks.len(),
            n <= i,
            n == count_kind(blocks@.take(i as int), kind),
        decreases blocks.len() - i,
    {
        assert(blocks@.take(i + 1).drop_last() =~= blocks@.take(i as int));
        if blocks[i] == kind {
            n = n + 1;
        }
        i = i + 1;
    }
    assert(blocks@.take(blocks.len() as int) =~= blocks@);
    n
}

fn is_elected(c: &NemotronConfig) -> (r: bool)
    ensures
        r == elected(*c),
{
    if c.hidden != 2688 || c.vocab != 131072 || c.n_layer != 52 || c.n_heads != 32 || c.n_kv_heads
        != 2 || c.head_dim != 128 || c.mamba_heads != 64 || c.mamba_head_dim != 64 || c.d_state != 128
        || c.d_conv != 4 || c.n_groups != 8 || c.n_expert != 128 || c.n_active != 6 || c.moe_ff != 1856
        || c.shared_ff != 3712 || c.eps != 0x3727_c5ac || c.routed_scale != 0x4020_0000
        || c.blocks.len() != 52 {
        return false;
    }
    let mut i: usize = 0;
    while i < 52
        invariant
            i <= 52,
            c.blocks.len() == 52,
            forall|j: int| 0 <= j < i ==> ((#[trigger] c.blocks[j] == Block::Attention) == attends(j)),
        decreases 52 - i,
    {
        let want = i == 5 || i == 12 || i == 19 || i == 26 || i == 33 || i == 42;
        if (c.blocks[i] == Block::Attention) != want {
            return false;
        }
        i = i + 1;
    }
    count(&c.blocks, Block::Mamba) == 23 && count(&c.blocks, Block::Moe) == 23
}

/// The tensors of block `i`. Block 52 is the next-token block: checked, but
/// never uploaded.
pub open spec fn block_schema(blocks: Seq<Block>, i: int) -> Seq<Expected> {
    let resident = i < 52;
    let e = |name: Seq<char>, dims: Seq<u64>, ty: u32| expected(block_name(i, name), dims, ty, resident);
    let norm = seq![e("attn_norm.weight"@, seq![2688u64], 0)];
    let attention = seq![
        e("attn_q.weight"@, seq![2688u64, 4096], 8),
        e("attn_k.weight"@, seq![2688u64, 256], 8),
        e("attn_v.weight"@, seq![2688u64, 256], 8),
        e("attn_output.weight"@, seq![4096u64, 2688], 8),
    ];
    let moe = seq![
        e("ffn_gate_inp.weight"@, seq![2688u64, 128], if i == 52 { 30u32 } else { 0 }),
        e("exp_probs_b.bias"@, seq![128u64], 0),
        e("ffn_up_exps.weight"@, seq![2688u64, 1856, 128], 8),
        e("ffn_down_exps.weight"@, seq![1856u64, 2688, 128], 8),
        e("ffn_up_shexp.weight"@, seq![2688u64, 3712], 8),
        e("ffn_down_shexp.weight"@, seq![3712u64, 2688], 8),
    ];
    let mamba = seq![
        e("ssm_in.weight"@, seq![2688u64, 10304], 8),
        e("ssm_out.weight"@, seq![4096u64, 2688], 8),
        e("ssm_conv1d.weight"@, seq![4u64, 6144], 0),
        e("ssm_conv1d.bias"@, seq![6144u64], 0),
        e("ssm_a"@, seq![1u64, 64], 0),
        e("ssm_d"@, seq![1u64, 64], 0),
        e("ssm_dt.bias"@, seq![64u64], 0),
        e("ssm_norm.weight"@, seq![512u64, 8], 0),
    ];
    let nextn = seq![
        e("nextn.eh_proj.weight"@, seq![5376u64, 2688], 8),
        e("nextn.enorm.weight"@, seq![2688u64], 0),
        e("nextn.hnorm.weight"@, seq![2688u64], 0),
        e("nextn.shared_head_norm.weight"@, seq![2688u64], 0),
        e("post_attention_norm.weight"@, seq![2688u64], 0),
    ];
    if i >= 52 {
        norm + attention + moe + nextn
    } else {
        match blocks[i] {
            Block::Attention => norm + attention,
            Block::Moe => norm + moe,
            Block::Mamba => norm + mamba,
        }
    }
}

/// The tables outside the blocks, then the first `n` blocks.
pub open spec fn model_schema(blocks: Seq<Block>, n: int) -> Seq<Expected>
    decreases n,
{
    if n <= 0 {
        seq![
            expected("token_embd.weight"@, seq![2688u64, 131072], 8, true),
            expected("output.weight"@, seq![2688u64, 131072], 8, true),
            expected("output_norm.weight"@, seq![2688u64], 0, true),
        ]
    } else {
        model_schema(blocks, n - 1) + block_schema(blocks, n - 1)
    }
}

fn push_attention(list: &mut Vec<Entry>, i: usize)
    ensures
        schema(final(list)@) == schema(old(list)@) + seq![
            expected(block_name(i as int, "attn_q.weight"@), seq![2688u64, 4096], 8, i < 52),
            expected(block_name(i as int, "attn_k.weight"@), seq![2688u64, 256], 8, i < 52),
            expected(block_name(i as int, "attn_v.weight"@), seq![2688u64, 256], 8, i < 52),
            expected(block_name(i as int, "attn_output.weight"@), seq![4096u64, 2688], 8, i < 52),
        ],
{
    let resident = i < 52;
    expect(list, block_text(i, "attn_q.weight"), list2(2688, 4096), 8, resident);
    expect(list, block_text(i, "attn_k.weight"), list2(2688, 256), 8, resident);
    expect(list, block_text(i, "attn_v.weight"), list2(2688, 256), 8, resident);
    expect(list, block_text(i, "attn_output.weight"), list2(4096, 2688), 8, resident);
}

fn push_moe(list: &mut Vec<Entry>, i: usize)
    ensures
        schema(final(list)@) == schema(old(list)@) + seq![
            expected(
                block_name(i as int, "ffn_gate_inp.weight"@),
                seq![2688u64, 128],
                if i == 52 { 30u32 } else { 0 },
                i < 52,
            ),
            expected(block_name(i as int, "exp_probs_b.bias"@), seq![128u64], 0, i < 52),
            expected(block_name(i as int, "ffn_up_exps.weight"@), seq![2688u64, 1856, 128], 8, i < 52),
            expected(block_name(i as int, "ffn_down_exps.weight"@), seq![1856u64, 2688, 128], 8, i < 52),
            expected(block_name(i as int, "ffn_up_shexp.weight"@), seq![2688u64, 3712], 8, i < 52),
            expected(block_name(i as int, "ffn_down_shexp.weight"@), seq![3712u64, 2688], 8, i < 52),
        ],
{
    let resident = i < 52;
    let router: u32 = if i == 52 { 30 } else { 0 };
    expect(list, block_text(i, "ffn_gate_inp.weight"), list2(2688, 128), router, resident);
    expect(list, block_text(i, "exp_probs_b.bias"), list1(128), 0, resident);
    expect(list, block_text(i, "ffn_up_exps.weight"), list3(2688, 1856, 128), 8, resident);
    expect(list, block_text(i, "ffn_down_exps.weight"), list3(1856, 2688, 128), 8, resident);
    expect(list, block_text(i, "ffn_up_shexp.weight"), list2(2688, 3712), 8, resident);
    expect(list, block_text(i, "ffn_down_shexp.weight"), list2(3712, 2688), 8, resident);
}

fn push_mamba(list: &mut Vec<Entry>, i: usize)
    requires
        i < 52,
    ensures
        schema(final(list)@) == schema(old(list)@) + seq![
            expected(block_name(i as int, "ssm_in.weight"@), seq![2688u64, 10304], 8, true),
            expected(block_name(i as int, "ssm_out.weight"@), seq![4096u64, 2688], 8, true),
            expected(block_name(i as int, "ssm_conv1d.weight"@), seq![4u64, 6144], 0, true),
            expected(block_name(i as int, "ssm_conv1d.bias"@), seq![6144u64], 0, true),
            expected(block_name(i as int, "ssm_a"@), seq![1u64, 64], 0, true),
            expected(block_name(i as int, "ssm_d"@), seq![1u64, 64], 0, true),
            expected(block_name(i as int, "ssm_dt.bias"@), seq![64u64], 0, true),
            expected(block_name(i as int, "ssm_norm.weight"@), seq![512u64, 8], 0, true),
        ],
{
    expect(list, block_text(i, "ssm_in.weight"), list2(2688, 10304), 8, true);
    expect(list, block_text(i, "ssm_out.weight"), list2(4096, 2688), 8, true);
    expect(list, block_text(i, "ssm_conv1d.weight"), list2(4, 6144), 0, true);
    expect(list, block_text(i, "ssm_conv1d.bias"), list1(6144), 0, true);
    expect(list, block_text(i, "ssm_a"), list2(1, 64), 0, true);
    expect(list, block_text(i, "ssm_d"), list2(1, 64), 0, true);
    expect(list, block_text(i, "ssm_dt.bias"), list1(64), 0, true);
    expect(list, block_text(i, "ssm_norm.weight"), list2(512, 8), 0, true);
}

fn push_nextn(list: &mut Vec<Entry>)
    ensures
        schema(final(list)@) == schema(old(list)@) + seq![
            expected(block_name(52, "nextn.eh_proj.weight"@), seq![5376u64, 2688], 8, false),
            expected(block_name(52, "nextn.enorm.weight"@), seq![2688u64], 0, false),
            expected(block_name(52, "nextn.hnorm.weight"@), seq![2688u64], 0, false),
            expected(block_name(52, "nextn.shared_head_norm.weight"@), seq![2688u64], 0, false),
            expected(block_name(52, "post_attention_norm.weight"@), seq![2688u64], 0, false),
        ],
{
    expect(list, block_text(52, "nextn.eh_proj.weight"), list2(5376, 2688), 8, false);
    expect(list, block_text(52, "nextn.enorm.weight"), list1(2688), 0, false);
    expect(list, block_text(52, "nextn.hnorm.weight"), list1(2688), 0, false);
    expect(list, block_text(52, "nextn.shared_head_norm.weight"), list1(2688), 0, false);
    expect(list, block_text(52, "post_attention_norm.weight"), list1(2688), 0, false);
}

fn push_block(list: &mut Vec<Entry>, blocks: &Vec<Block>, i: usize)
    requires
        i <= 52,
        blocks.len() == 52,
    ensures
        schema(final(list)@) == schema(old(list)@) + block_schema(blocks@, i as int),
{
    let ghost start = schema(list@);
    expect(list, block_text(i, "attn_norm.weight"), list1(2688), 0, i < 52);
    let ghost norm = seq![expected(block_name(i as int, "attn_norm.weight"@), seq![2688u64], 0, i < 52)];
    assert(schema(list@) =~= start + norm);
    if i == 52 {
        push_attention(list, i);
        push_moe(list, i);
        push_nextn(list);
    } else {
        match blocks[i] {
            Block::Attention => {
                push_attention(list, i);
            },
            Block::Moe => {
                push_moe(list, i);
            },
            Block::Mamba => {
                push_mamba(list, i);
            },
        }
    }
    assert(schema(list@) =~= start + block_schema(blocks@, i as int));
}

fn build_schema(blocks: &Vec<Block>) -> (r: Vec<Entry>)
    requires
        blocks.len() == 52,
    ensures
        schema(r@) == model_schema(blocks@, 53),
{
    let mut list: Vec<Entry> = Vec::new();
    expect(&mut list, "token_embd.weight".to_owned(), list2(2688, 131072), 8, true);
    expect(&mut list, "output.weight".to_owned(), list2(2688, 131072), 8, true);
    expect(&mut list, "output_norm.weight".to_owned(), list1(2688), 0, true);
    assert(schema(list@) =~= model_schema(blocks@, 0));
    let mut i: usize = 0;
    while i < 53
        invariant
            i <= 53,
            blocks.len() == 52,
            schema(list@) == model_schema(blocks@, i as int),
        decreases 53 - i,
    {
        push_block(&mut list, blocks, i);
        i = i + 1;
    }
    list
}

/// The plane of schema entry `j`, as allocation `j`.
pub open spec fn entry_weight(h: &Header, schema: Seq<Expected>, j: int) -> Weight {
    let e = schema[j];
    Weight {
        buffer: Buffer {
            id: j as u32,
            len: match h.tensor(e.name) {
                Some(t) => t.bytes,
                None => 0,
            },
        },
        ty: e.ty,
        k: e.dims[0] as usize,
        n: if e.dims.len() > 1 { e.dims[1] as usize } else { 1 },
    }
}

/// Where block `i` begins in the schema.
pub open spec fn block_start(blocks: Seq<Block>, i: int) -> int {
    model_schema(blocks, i).len() as int
}

/// Device spaces of the blocks before `i`: two for each that keeps state.
pub open spec fn spaces_before(blocks: Seq<Block>, i: int) -> int
    decreases i,
{
    if i <= 0 {
        0
    } else {
        spaces_before(blocks, i - 1) + if blocks[i - 1] == Block::Moe { 0int } else { 2 }
    }
}

/// Bytes that the caches of one configuration take.
pub struct Spaces {
    /// First allocation after the resident tensors.
    pub first: int,
    pub state: int,
    pub window: int,
    pub kv: int,
}

/// Block `i` of the loaded model.
pub open spec fn layer_of(h: &Header, schema: Seq<Expected>, blocks: Seq<Block>, s: Spaces, i: int) -> Layer {
    let c = block_start(blocks, i);
    let id = s.first + spaces_before(blocks, i);
    let w = |k: int| entry_weight(h, schema, c + k);
    Layer {
        norm: w(0),
        mixer: match blocks[i] {
            Block::Mamba => Mixer::Mamba(
                Mamba {
                    input: w(1),
                    output: w(2),
                    conv_w: w(3),
                    conv_b: w(4),
                    a: w(5),
                    d: w(6),
                    dt: w(7),
                    norm: w(8),
                    state: Buffer { id: id as u32, len: s.state as u64 },
                    window: Buffer { id: (id + 1) as u32, len: s.window as u64 },
                },
            ),
            Block::Attention => Mixer::Attention(
                Attention {
                    q: w(1),
                    k: w(2),
                    v: w(3),
                    out: w(4),
                    keys: Buffer { id: id as u32, len: s.kv as u64 },
                    values: Buffer { id: (id + 1) as u32, len: s.kv as u64 },
                },
            ),
            Block::Moe => Mixer::Moe(
                Experts {
                    router: w(1),
                    bias: w(2),
                    up: w(3),
                    down: w(4),
                    shared_up: w(5),
                    shared_down: w(6),
                },
            ),
        },
    }
}

proof fn lemma_block_len(blocks: Seq<Block>, i: int)
    requires
        0 <= i <= 52,
    ensures
        block_schema(blocks, i).len() == if i == 52 {
            16int
        } else {
            match blocks[i] {
                Block::Attention => 5,
                Block::Moe => 7,
                Block::Mamba => 9,
            }
        },
{
}

proof fn lemma_schema_prefix(blocks: Seq<Block>, i: int, n: int)
    requires
        0 <= i < n,
    ensures
        block_start(blocks, i) + block_schema(blocks, i).len() <= block_start(blocks, n),
        forall|k: int|
            0 <= k < block_schema(blocks, i).len() ==> model_schema(blocks, n)[#[trigger] (block_start(
                blocks,
                i,
            ) + k)] == block_schema(blocks, i)[k],
    decreases n - i,
{
    if i < n - 1 {
        lemma_schema_prefix(blocks, i, n - 1);
    }
    assert forall|k: int| 0 <= k < block_schema(blocks, i).len() implies model_schema(blocks, n)[
    #[trigger] (block_start(blocks, i) + k)] == block_schema(blocks, i)[k] by {
        if i < n - 1 {
            assert(model_schema(blocks, n)[block_start(blocks, i) + k] == model_schema(
                blocks,
                n - 1,
            )[block_start(blocks, i) + k]);
        }
    }
}

fn plane(header: &Header, list: &Vec<Entry>, j: usize) -> (r: Weight)
    requires
        j < list.len(),
        list[j as int].dims.len() > 0,
        list.len() <= 0x1_0000,
    ensures
        r == entry_weight(header, schema(list@), j as int),
        r.ty == list[j as int].ty,
{
    let e = &list[j];
    assert(schema(list@)[j as int] == list[j as int]@);
    let len: u64 = match header.find_tensor(e.name.as_str()) {
        Some(k) => header.tensors[k].bytes,
        None => 0,
    };
    Weight {
        buffer: Buffer { id: j as u32, len },
        ty: e.ty,
        k: e.dims[0] as usize,
        n: if e.dims.len() > 1 { e.dims[1] as usize } else { 1 },
    }
}

/// What the caches and scratch of a configuration take.
pub open spec fn page_stride(context: int) -> int {
    ceil_div(context, 16)
}

pub open spec fn kv_layer(context: int, batch: int) -> int {
    page_stride(context) * (batch + 1) * 8192
}

pub open spec fn cache_bytes(context: int, batch: int) -> int {
    12 * kv_layer(context, batch) + 23 * (batch + 1) * 2170880
}

pub open spec fn sum(s: Seq<int>) -> int
    decreases s.len(),
{
    if s.len() == 0 {
        0
    } else {
        sum(s.drop_last()) + s.last()
    }
}

pub open spec fn required_bytes(payload: int, context: int, batch: int) -> int {
    payload + cache_bytes(context, batch) + sum(scratch_sizes(batch, page_stride(context)))
}

/// Metadata that a grouped or speculative graph would change.
pub open spec fn fields_elected(h: &Header) -> Option<usize> {
    if h.unsigned("expert_group_count"@) != Some(1u64) {
        Some(0)
    } else if h.unsigned("expert_group_used_count"@) != Some(1u64) {
        Some(1)
    } else if h.unsigned("expert_shared_count"@) != Some(1u64) {
        Some(2)
    } else if h.unsigned("nextn_predict_layers"@) != Some(1u64) {
        Some(3)
    } else {
        None
    }
}

/// Why a checkpoint is refused, in the order in which it is looked at.
pub open spec fn load_fault(
    c: NemotronConfig,
    h: &Header,
    context: usize,
    batch: usize,
    budget: u64,
) -> Option<MetalError> {
    let want = model_schema(c.blocks@, 53);
    if !elected(c) {
        Some(MetalError::Model(Fault::Geometry))
    } else if context == 0 || context > min(c.max_pos as int, 32768) || batch == 0 || batch > 64 {
        Some(MetalError::Model(Fault::Range))
    } else if fields_elected(h) is Some {
        Some(MetalError::Model(Fault::Field { index: fields_elected(h)->0 }))
    } else if first_unmet(h, want, 0) is Some {
        Some(MetalError::Model(Fault::Tensor { index: (first_unmet(h, want, 0)->0) as usize }))
    } else if any_foreign(h, want) {
        Some(MetalError::Model(Fault::Foreign))
    } else if required_bytes(
        resident_bytes(h, want, want.len() as int),
        context as int,
        batch as int,
    ) > budget {
        Some(MetalError::Memory(Fault::Budget))
    } else {
        None
    }
}

fn scratch_total(batch: usize, pages: usize) -> (r: u64)
    requires
        batch <= 64,
        pages <= 2048,
    ensures
        r == sum(scratch_sizes(batch as int, pages as int)),
        r <= 35 * 0x4000_0000,
{
    let s = Scratch::sizes(batch, pages);
    let ghost want = scratch_sizes(batch as int, pages as int);
    let mut total: u64 = 0;
    let mut i: usize = 0;
    assert(want.take(0) =~= Seq::<int>::empty());
    assert(want.len() == 35);
    proof {
        crate::arith::lemma_product_bound(batch as int, pages as int, 64, 2048);
    }
    while i < 35
        invariant
            i <= 35,
            batch <= 64,
            pages <= 2048,
            0 <= batch * pages <= 131072,
            want == scratch_sizes(batch as int, pages as int),
            want.len() == 35,
            forall|i: int| 0 <= i < 35 ==> #[trigger] s[i] == want[i],
            total == sum(want.take(i as int)),
            total <= i * 0x4000_0000,
        decreases 35 - i,
    {
        proof {
            assert(want.take(i + 1).drop_last() =~= want.take(i as int));
            assert(want.take(i + 1).last() == want[i as int]);
            assert(s[i as int] == want[i as int]);
            assert(want[i as int] <= 0x4000_0000);
        }
        total = total + s[i] as u64;
        i = i + 1;
    }
    assert(want.take(35) =~= want);
    total
}

/// An empty sequence.
pub fn empty_slot() -> (r: Slot)
    ensures
        r.blocks@.len() == 0,
        r.history@.len() == 0,
        r.reused == 0,
{
    Slot { blocks: Vec::new(), history: Vec::new(), reused: 0 }
}

proof fn lemma_schema_len(blocks: Seq<Block>, n: int)
    requires
        0 <= n <= 53,
    ensures
        3 <= block_start(blocks, n) <= 3 + 16 * n,
    decreases n,
{
    if n > 0 {
        lemma_schema_len(blocks, n - 1);
        lemma_block_len(blocks, n - 1);
    }
}

/// The bytes of each cache space and where their allocations begin.
pub open spec fn spaces(blocks: Seq<Block>, context: int, batch: int) -> Spaces {
    Spaces {
        first: block_start(blocks, 52),
        state: (batch + 1) * 2097152,
        window: (batch + 1) * 73728,
        kv: kv_layer(context, batch),
    }
}

/// Block `i`, whose entries start at `c` and whose spaces start at `id`.
#[verifier::spinoff_prover]
#[verifier::rlimit(60)]
fn build_layer(
    header: &Header,
    list: &Vec<Entry>,
    blocks: &Vec<Block>,
    i: usize,
    c: usize,
    id: u32,
    context: usize,
    batch: usize,
) -> (r: Layer)
    requires
        blocks.len() == 52,
        i < 52,
        schema(list@) == model_schema(blocks@, 53),
        c == block_start(blocks@, i as int),
        id == block_start(blocks@, 52) + spaces_before(blocks@, i as int),
        id < 0x1_0000,
        1 <= context <= 32768,
        1 <= batch <= 64,
    ensures
        r == layer_of(
            header,
            schema(list@),
            blocks@,
            spaces(blocks@, context as int, batch as int),
            i as int,
        ),
        layer_wf(r),
{
    proof {
        lemma_schema_prefix(blocks@, i as int, 53);
        lemma_schema_len(blocks@, 53);
        lemma_block_len(blocks@, i as int);
        assert(list.len() == schema(list@).len());
        assert forall|k: int| 0 <= k < block_schema(blocks@, i as int).len() implies {
            let e = #[trigger] list[c + k];
            &&& e.dims.len() > 0
            &&& e@ == block_schema(blocks@, i as int)[k]
        } by {
            assert(schema(list@)[c + k] == list[c + k]@);
            assert(model_schema(blocks@, 53)[block_start(blocks@, i as int) + k] == block_schema(
                blocks@,
                i as int,
            )[k]);
        }
        crate::arith::lemma_ceil_div(context as int, 16);
    }
    let norm = plane(header, list, c);
    let mixer = match blocks[i] {
        Block::Mamba => Mixer::Mamba(
            Mamba {
                input: plane(header, list, c + 1),
                output: plane(header, list, c + 2),
                conv_w: plane(header, list, c + 3),
                conv_b: plane(header, list, c + 4),
                a: plane(header, list, c + 5),
                d: plane(header, list, c + 6),
                dt: plane(header, list, c + 7),
                norm: plane(header, list, c + 8),
                state: Buffer { id, len: (batch as u64 + 1) * 2097152 },
                window: Buffer { id: id + 1, len: (batch as u64 + 1) * 73728 },
            },
        ),
        Block::Attention => {
            let bytes: u64 = kv_bytes(context, batch);
            Mixer::Attention(
                Attention {
                    q: plane(header, list, c + 1),
                    k: plane(header, list, c + 2),
                    v: plane(header, list, c + 3),
                    out: plane(header, list, c + 4),
                    keys: Buffer { id, len: bytes },
                    values: Buffer { id: id + 1, len: bytes },
                },
            )
        },
        Block::Moe => Mixer::Moe(
            Experts {
                router: plane(header, list, c + 1),
                bias: plane(header, list, c + 2),
                up: plane(header, list, c + 3),
                down: plane(header, list, c + 4),
                shared_up: plane(header, list, c + 5),
                shared_down: plane(header, list, c + 6),
            },
        ),
    };
    Layer { norm, mixer }
}

fn kv_bytes(context: usize, batch: usize) -> (r: u64)
    requires
        1 <= context <= 32768,
        1 <= batch <= 64,
    ensures
        r == kv_layer(context as int, batch as int),
        r <= 2048 * 65 * 8192,
{
    let stride: u64 = div_ceil(context, BLOCK_TOKENS) as u64;
    proof {
        crate::arith::lemma_ceil_div(context as int, 16);
        assert(stride <= 2048);
        crate::arith::lemma_product_bound(stride as int, batch + 1, 2048, 65);
    }
    stride * (batch as u64 + 1) * 8192
}

fn build_layers(
    header: &Header,
    list: &Vec<Entry>,
    blocks: &Vec<Block>,
    context: usize,
    batch: usize,
) -> (r: Vec<Layer>)
    requires
        blocks.len() == 52,
        schema(list@) == model_schema(blocks@, 53),
        1 <= context <= 32768,
        1 <= batch <= 64,
    ensures
        r.len() == 52,
        forall|i: int|
            0 <= i < 52 ==> layer_wf(#[trigger] r[i]) && r[i] == layer_of(
                header,
                schema(list@),
                blocks@,
                spaces(blocks@, context as int, batch as int),
                i,
            ),
{
    let mut starts: Vec<usize> = Vec::new();
    let mut c: usize = 3;
    let mut i: usize = 0;
    while i < 52
        invariant
            i <= 52,
            blocks.len() == 52,
            starts.len() == i,
            c == block_start(blocks@, i as int),
            c <= 3 + 16 * i,
            forall|j: int| 0 <= j < i ==> #[trigger] starts[j] == block_start(blocks@, j),
        decreases 52 - i,
    {
        proof {
            lemma_block_len(blocks@, i as int);
        }
        starts.push(c);
        c = c + match blocks[i] {
            Block::Attention => 5,
            Block::Moe => 7,
            Block::Mamba => 9,
        };
        i = i + 1;
    }
    let mut layers: Vec<Layer> = Vec::new();
    let mut id: u32 = c as u32;
    let mut k: usize = 0;
    while k < 52
        invariant
            k <= 52,
            blocks.len() == 52,
            starts.len() == 52,
            schema(list@) == model_schema(blocks@, 53),
            1 <= context <= 32768,
            1 <= batch <= 64,
            forall|j: int| 0 <= j < 52 ==> #[trigger] starts[j] == block_start(blocks@, j),
            id == block_start(blocks@, 52) + spaces_before(blocks@, k as int),
            id <= 3 + 16 * 52 + 2 * k,
            layers.len() == k,
            forall|i: int|
                0 <= i < k ==> layer_wf(#[trigger] layers[i]) && layers[i] == layer_of(
                    header,
                    schema(list@),
                    blocks@,
                    spaces(blocks@, context as int, batch as int),
                    i,
                ),
        decreases 52 - k,
    {
        let layer = build_layer(header, list, blocks, k, starts[k], id, context, batch);
        layers.push(layer);
        if blocks[k] != Block::Moe {
            id = id + 2;
        }
        k = k + 1;
    }
    layers
}

/// What loading yields for an accepted checkpoint.
pub open spec fn loaded(
    c: NemotronConfig,
    h: &Header,
    context: usize,
    batch: usize,
    m: Nemotron,
) -> bool {
    let want = model_schema(c.blocks@, 53);
    let s = spaces(c.blocks@, context as int, batch as int);
    &&& m.embedding == entry_weight(h, want, 0)
    &&& m.head == entry_weight(h, want, 1)
    &&& m.output_norm == entry_weight(h, want, 2)
    &&& m.layers.len() == 52
    &&& forall|i: int| 0 <= i < 52 ==> #[trigger] m.layers[i] == layer_of(h, want, c.blocks@, s, i)
    &&& m.scratch.planes() == Seq::new(
        35,
        |i: int| Buffer {
            id: (s.first + spaces_before(c.blocks@, 52) + i) as u32,
            len: scratch_sizes(batch as int, page_stride(context as int))[i] as u64,
        },
    )
    &&& m.slots.len() == batch
    &&& forall|i: int|
        0 <= i < batch ==> (#[trigger] m.slots[i]).history.len() == 0 && m.slots[i].blocks.len() == 0
            && m.slots[i].reused == 0
    &&& m.prefix.history.len() == 0
    &&& m.prefix.blocks.len() == 0
    &&& m.pending.len() == 0
    &&& m.context == context
    &&& m.page_stride == page_stride(context as int)
    &&& m.weight_bytes == resident_bytes(h, want, want.len() as int)
    &&& m.cache_bytes == cache_bytes(context as int, batch as int)
}

fn spaces_end(blocks: &Vec<Block>) -> (r: u32)
    requires
        blocks.len() == 52,
    ensures
        r == block_start(blocks@, 52) + spaces_before(blocks@, 52),
        r <= 1024,
{
    let mut n: u32 = 3;
    let mut i: usize = 0;
    while i < 52
        invariant
            i <= 52,
            blocks.len() == 52,
            n == block_start(blocks@, i as int) + spaces_before(blocks@, i as int),
            n <= 3 + 11 * i,
        decreases 52 - i,
    {
        proof {
            lemma_block_len(blocks@, i as int);
        }
        n = n + match blocks[i] {
            Block::Attention => 7,
            Block::Moe => 7,
            Block::Mamba => 11,
        };
        i = i + 1;
    }
    n
}

impl Nemotron {
    /// Accept exactly the elected artifact. Geometry, range, metadata, every
    /// tensor and the whole memory need are checked before anything is
    /// uploaded; the next-token planes are checked and stay unloaded.
    pub fn load(
        config: &NemotronConfig,
        header: &Header,
        context: usize,
        max_batch: usize,
        budget: u64,
    ) -> (r: Result<Self, MetalError>)
        ensures
            match load_fault(*config, header, context, max_batch, budget) {
                Some(e) => r == Err::<Self, MetalError>(e),
                None => {
                    &&& r matches Ok(m)
                    &&& m.wf()
                    &&& loaded(*config, header, context, max_batch, m)
                },
            },
    {
        if !is_elected(config) {
            return Err(MetalError::Model(Fault::Geometry));
        }
        if context == 0 || context > 32768 || context > config.max_pos || max_batch == 0 || max_batch
            > 64 {
            return Err(MetalError::Model(Fault::Range));
        }
        if header.get_unsigned("expert_group_count") != Some(1u64) {
            return Err(MetalError::Model(Fault::Field { index: 0 }));
        }
        if header.get_unsigned("expert_group_used_count") != Some(1u64) {
            return Err(MetalError::Model(Fault::Field { index: 1 }));
        }
        if header.get_unsigned("expert_shared_count") != Some(1u64) {
            return Err(MetalError::Model(Fault::Field { index: 2 }));
        }
        if header.get_unsigned("nextn_predict_layers") != Some(1u64) {
            return Err(MetalError::Model(Fault::Field { index: 3 }));
        }
        let list = build_schema(&config.blocks);
        let payload: u128 = match header.check(&list) {
            Err(e) => {
                return Err(e);
            },
            Ok(n) => n,
        };
        if header.has_foreign(&list) {
            return Err(MetalError::Model(Fault::Foreign));
        }
        let stride: usize = div_ceil(context, BLOCK_TOKENS);
        proof {
            crate::arith::lemma_ceil_div(context as int, 16);
            lemma_schema_len(config.blocks@, 53);
            lemma_payload(header, schema(list@), list.len() as int);
            assert(list.len() == schema(list@).len());
        }
        let kv: u64 = kv_bytes(context, max_batch);
        let cache: u64 = 12 * kv + 23 * (max_batch as u64 + 1) * 2170880;
        let scratch_bytes: u64 = scratch_total(max_batch, stride);
        let required: u128 = payload + cache as u128 + scratch_bytes as u128;
        if required > budget as u128 {
            return Err(MetalError::Memory(Fault::Budget));
        }
        proof {
            assert(schema(list@)[0] == list[0]@);
            assert(schema(list@)[1] == list[1]@);
            assert(schema(list@)[2] == list[2]@);
            lemma_first_three(config.blocks@, 53);
        }
        let embedding = plane(header, &list, 0);
        let head = plane(header, &list, 1);
        let output_norm = plane(header, &list, 2);
        let layers = build_layers(header, &list, &config.blocks, context, max_batch);
        let first: u32 = spaces_end(&config.blocks);
        let scratch = Scratch::new(first, max_batch, stride);
        let mut slots: Vec<Slot> = Vec::new();
        let mut i: usize = 0;
        while i < max_batch
            invariant
                i <= max_batch,
                slots.len() == i,
                forall|j: int|
                    0 <= j < i ==> (#[trigger] slots[j]).history.len() == 0 && slots[j].blocks.len() == 0
                        && slots[j].reused == 0,
            decreases max_batch - i,
        {
            slots.push(empty_slot());
            i = i + 1;
        }
        Ok(
            Nemotron {
                embedding,
                head,
                output_norm,
                layers,
                scratch,
                slots,
                pending: Vec::new(),
                prefix: empty_slot(),
                context,
                page_stride: stride,
                weight_bytes: payload as u64,
                cache_bytes: cache,
            },
        )
    }
}

proof fn lemma_first_three(blocks: Seq<Block>, n: int)
    requires
        0 <= n,
    ensures
        model_schema(blocks, n).len() >= 3,
        model_schema(blocks, n)[0] == expected("token_embd.weight"@, seq![2688u64, 131072], 8, true),
        model_schema(blocks, n)[1] == expected("output.weight"@, seq![2688u64, 131072], 8, true),
        model_schema(blocks, n)[2] == expected("output_norm.weight"@, seq![2688u64], 0, true),
    decreases n,
{
    if n > 0 {
        lemma_first_three(blocks, n - 1);
    }
}

proof fn lemma_payload(h: &Header, entries: Seq<Expected>, n: int)
    requires
        0 <= n,
    ensures
        0 <= resident_bytes(h, entries, n) <= n * 0xffff_ffff_ffff_ffff,
    decreases n,
{
    if n > 0 {
        lemma_payload(h, entries, n - 1);
    }
}

} // verus!
