//! Loading: the elected shapes, their tensors and the row budget.
use vstd::prelude::*;
use crate::arith::{max, min};
use crate::error::{Fault, MetalError};
use crate::header::{
    block_name, block_text, count_field, expect, expected, first_misshapen, foreign, get_count,
    get_real, placed, real_field, resident_bytes, schema, Entry, Expected, Header, Tensor,
};
use crate::program::{list1, list2, Buffer, Weight};

verus! {

#[derive(Clone, Copy, Debug, PartialEq, Eq, Structural)]
pub struct Layer {
    pub norm: Weight,
    pub q: Weight,
    pub k: Weight,
    pub v: Weight,
    pub qnorm: Weight,
    pub knorm: Weight,
    pub o: Weight,
    pub ffn_norm: Weight,
    pub gate: Weight,
    pub up: Weight,
    pub down: Weight,
}

#[derive(Clone, Copy, Debug, PartialEq, Eq, Structural)]
pub struct Scratch {
    pub x: Buffer,
    pub norm: Buffer,
    pub q: Buffer,
    pub k: Buffer,
    pub v: Buffer,
    pub qh: Buffer,
    pub kh: Buffer,
    pub vh: Buffer,
    pub attn: Buffer,
    pub delta: Buffer,
    pub gate: Buffer,
    pub up: Buffer,
    pub gemm: Buffer,
}

#[derive(Debug)]
pub struct Qwen3Encoder {
    /// Tells this encoder from every other.
    pub identity: u64,
    pub embedding: Weight,
    pub output_norm: Weight,
    pub head: Option<Weight>,
    pub layers: Vec<Layer>,
    pub scratch: Scratch,
    pub width: usize,
    pub heads: usize,
    pub kv_heads: usize,
    pub ff: usize,
    pub vocab: usize,
    pub context: usize,
    /// Rows that one submission may carry.
    pub row_budget: usize,
    /// Bit patterns of the normalisation epsilon and the rotary base.
    pub eps: u32,
    pub rope: u32,
    pub weight_bytes: u64,
}

/// The shape of a checkpoint.
#[derive(Clone, Copy, Debug, PartialEq, Eq, Structural)]
pub struct Sizes {
    pub width: usize,
    pub ff: usize,
    pub count: usize,
    pub heads: usize,
    pub kv_heads: usize,
}

/// The three elected shapes.
pub open spec fn elected(s: Sizes) -> bool {
    ||| s == (Sizes { width: 1024, ff: 3072, count: 28, heads: 16, kv_heads: 8 })
    ||| s == (Sizes { width: 2560, ff: 9728, count: 36, heads: 32, kv_heads: 8 })
    ||| s == (Sizes { width: 4096, ff: 12288, count: 36, heads: 32, kv_heads: 8 })
}

/// The shape, or what is wrong with it, in the order of reading.
pub open spec fn sizes_of(h: &Header) -> Result<Sizes, Fault> {
    if count_field(h, "embedding_length"@) is None {
        Err(Fault::Field { index: 0 })
    } else if count_field(h, "feed_forward_length"@) is None {
        Err(Fault::Field { index: 1 })
    } else if count_field(h, "block_count"@) is None {
        Err(Fault::Field { index: 2 })
    } else if count_field(h, "attention.head_count"@) is None {
        Err(Fault::Field { index: 3 })
    } else if count_field(h, "attention.head_count_kv"@) is None {
        Err(Fault::Field { index: 4 })
    } else {
        let s = Sizes {
            width: count_field(h, "embedding_length"@)->0 as usize,
            ff: count_field(h, "feed_forward_length"@)->0 as usize,
            count: count_field(h, "block_count"@)->0 as usize,
            heads: count_field(h, "attention.head_count"@)->0 as usize,
            kv_heads: count_field(h, "attention.head_count_kv"@)->0 as usize,
        };
        if !elected(s) {
            Err(Fault::Geometry)
        } else if count_field(h, "attention.key_length"@) is None {
            Err(Fault::Field { index: 5 })
        } else if count_field(h, "attention.key_length"@) != Some(128u64) {
            Err(Fault::Geometry)
        } else if count_field(h, "attention.value_length"@) is None {
            Err(Fault::Field { index: 6 })
        } else if count_field(h, "attention.value_length"@) != Some(128u64) {
            Err(Fault::Geometry)
        } else if h.has_field("rope.dimension_count"@) && count_field(h, "rope.dimension_count"@) is None {
            Err(Fault::Field { index: 7 })
        } else if h.has_field("rope.dimension_count"@) && count_field(h, "rope.dimension_count"@) != Some(
            128u64,
        ) {
            Err(Fault::Geometry)
        } else {
            Ok(s)
        }
    }
}

/// Rows of the embedding plane.
pub open spec fn vocabulary(h: &Header) -> Option<u64> {
    match h.tensor("token_embd.weight"@) {
        Some(t) => if t.dims.len() > 1 && 0 < t.dims[1] <= u32::MAX { Some(t.dims[1]) } else { None },
        None => None,
    }
}

/// The tensors of block `i`.
pub open spec fn push_block(p: Seq<Expected>, s: Sizes, i: int) -> Seq<Expected> {
    let width = s.width as u64;
    let ff = s.ff as u64;
    let q = (s.heads * 128) as u64;
    let kv = (s.kv_heads * 128) as u64;
    p.push(expected(block_name(i, "attn_norm.weight"@), seq![width], 0, true)).push(
        expected(block_name(i, "attn_q.weight"@), seq![width, q], 8, true),
    ).push(expected(block_name(i, "attn_k.weight"@), seq![width, kv], 8, true)).push(
        expected(block_name(i, "attn_v.weight"@), seq![width, kv], 8, true),
    ).push(expected(block_name(i, "attn_q_norm.weight"@), seq![128u64], 0, true)).push(
        expected(block_name(i, "attn_k_norm.weight"@), seq![128u64], 0, true),
    ).push(expected(block_name(i, "attn_output.weight"@), seq![q, width], 8, true)).push(
        expected(block_name(i, "ffn_norm.weight"@), seq![width], 0, true),
    ).push(expected(block_name(i, "ffn_gate.weight"@), seq![width, ff], 8, true)).push(
        expected(block_name(i, "ffn_up.weight"@), seq![width, ff], 8, true),
    ).push(expected(block_name(i, "ffn_down.weight"@), seq![ff, width], 8, true))
}

/// Tensors outside the blocks; the relevance head is optional.
pub open spec fn outer(s: Sizes, vocab: u64, head: bool) -> Seq<Expected> {
    let width = s.width as u64;
    let p = seq![
        expected("token_embd.weight"@, seq![width, vocab], 8, true),
        expected("output_norm.weight"@, seq![width], 0, true),
    ];
    if head { p.push(expected("output.weight"@, seq![width, vocab], 8, true)) } else { p }
}

/// The schema with the first `n` blocks.
pub open spec fn encoder_schema(s: Sizes, vocab: u64, head: bool, n: int) -> Seq<Expected>
    decreases n,
{
    if n <= 0 {
        outer(s, vocab, head)
    } else {
        push_block(encoder_schema(s, vocab, head, n - 1), s, n - 1)
    }
}

proof fn lemma_schema_len(s: Sizes, vocab: u64, head: bool, n: int)
    requires
        0 <= n,
    ensures
        encoder_schema(s, vocab, head, n).len() == 2 + (if head { 1int } else { 0 }) + 11 * n,
        forall|j: int|
            0 <= j < encoder_schema(s, vocab, head, n).len() ==> 0 < (#[trigger] encoder_schema(
                s,
                vocab,
                head,
                n,
            )[j]).dims.len(),
    decreases n,
{
    if n > 0 {
        lemma_schema_len(s, vocab, head, n - 1);
    }
}

/// What is wrong with the first stored tensor, from `i` on, that is a matrix
/// in another format or has a foreign name.
pub open spec fn tensor_fault(tensors: Seq<Tensor>, names: Seq<Expected>, i: int) -> Option<Fault>
    decreases tensors.len() - i,
{
    if i >= tensors.len() {
        None
    } else if tensors[i].dims.len() == 2 && tensors[i].ty != 8 {
        Some(Fault::Format { index: i as usize })
    } else if foreign(names, tensors[i]) {
        Some(Fault::Unexpected { index: i as usize })
    } else {
        tensor_fault(tensors, names, i + 1)
    }
}

/// Scratch bytes of one row.
pub open spec fn scratch_per_row(s: Sizes) -> int {
    let q = s.heads * 128;
    let kv = s.kv_heads * 128;
    4 * (3 * s.width + 2 * q + 2 * kv + 2 * s.ff) + 2 * (q + 2 * kv + max(s.ff as int, q))
}

/// Bytes of one row while two results are in flight.
pub open spec fn live_per_row(s: Sizes) -> int {
    scratch_per_row(s) + 2 * (s.width * 4 + 28)
}

/// Rows that fit, in whole attention tiles of four.
pub open spec fn fitting_rows(s: Sizes, available: int) -> int {
    min(available / live_per_row(s), 65536) / 128 * 128
}

/// Rows that are reserved: never all that fits.
pub open spec fn reserved_rows(s: Sizes, available: int, context: int) -> int {
    min(fitting_rows(s, available), (max(context, 8192) + 127) / 128 * 128)
}

pub open spec fn trained(h: &Header) -> int {
    min(count_field(h, "context_length"@)->0 as int, 32768)
}

/// Why a checkpoint is refused, in the order in which it is looked at.
pub open spec fn load_fault(h: &Header, context: usize, budget: u64) -> Option<MetalError> {
    let named = match h.architecture {
        Some(a) => a@ == "qwen3"@,
        None => false,
    };
    if !named {
        Some(MetalError::Model(Fault::Architecture))
    } else {
        match sizes_of(h) {
            Err(f) => Some(MetalError::Model(f)),
            Ok(s) => {
                if count_field(h, "context_length"@) is None {
                    Some(MetalError::Model(Fault::Field { index: 8 }))
                } else if context == 0 || context > trained(h) {
                    Some(MetalError::Model(Fault::Range))
                } else if h.has_field("rope.scaling.type"@) || h.has_field("attention.sliding_window"@) {
                    Some(MetalError::Model(Fault::Scaled))
                } else if real_field(h, "attention.layer_norm_rms_epsilon"@) is None {
                    Some(MetalError::Model(Fault::Field { index: 9 }))
                } else if real_field(h, "rope.freq_base"@) is None {
                    Some(MetalError::Model(Fault::Field { index: 10 }))
                } else if vocabulary(h) is None {
                    Some(MetalError::Model(Fault::Vocabulary))
                } else {
                    let vocab = vocabulary(h)->0;
                    let names = encoder_schema(s, vocab, true, s.count as int);
                    let list = encoder_schema(
                        s,
                        vocab,
                        h.tensor("output.weight"@) is Some,
                        s.count as int,
                    );
                    let weights = resident_bytes(h, list, list.len() as int);
                    match tensor_fault(h.tensors@, names, 0) {
                        Some(f) => Some(MetalError::Model(f)),
                        None => match first_misshapen(h, list, 0) {
                            Some(i) => Some(MetalError::Model(Fault::Tensor { index: i as usize })),
                            None => if weights > budget || fitting_rows(s, budget - weights) < context {
                                Some(MetalError::Memory(Fault::Budget))
                            } else {
                                None
                            },
                        },
                    }
                }
            },
        }
    }
}

/// Block `i` of the loaded encoder.
pub open spec fn layer_of(h: &Header, list: Seq<Expected>, base: int, i: int) -> Layer {
    let w = |k: int| placed(h, list, base + 11 * i + k);
    Layer {
        norm: w(0),
        q: w(1),
        k: w(2),
        v: w(3),
        qnorm: w(4),
        knorm: w(5),
        o: w(6),
        ffn_norm: w(7),
        gate: w(8),
        up: w(9),
        down: w(10),
    }
}

/// Bytes per row of the scratch planes, in the order of allocation.
pub open spec fn plane_bytes(s: Sizes) -> Seq<int> {
    let q = s.heads * 128;
    let kv = s.kv_heads * 128;
    let width = s.width as int;
    let ff = s.ff as int;
    seq![
        width * 4,
        width * 4,
        width * 4,
        q * 4,
        kv * 4,
        kv * 4,
        q * 2,
        kv * 2,
        kv * 2,
        q * 4,
        ff * 4,
        ff * 4,
        max(ff, q) * 2,
    ]
}

impl Scratch {
    pub open spec fn planes(self) -> Seq<Buffer> {
        seq![
            self.x,
            self.norm,
            self.delta,
            self.q,
            self.k,
            self.v,
            self.qh,
            self.kh,
            self.vh,
            self.attn,
            self.gate,
            self.up,
            self.gemm,
        ]
    }
}

/// The scratch planes together take what the row budget charged for them.
pub proof fn scratch_planes_are_charged_exactly(s: Sizes)
    requires
        elected(s),
    ensures
        ({
            let b = plane_bytes(s);
            b[0] + b[1] + b[2] + b[3] + b[4] + b[5] + b[6] + b[7] + b[8] + b[9] + b[10] + b[11] + b[12]
                == scratch_per_row(s)
        }),
{
}

/// Scratch and two full result sets of every reserved row fit the memory
/// that the weights leave, and a full context is never refused.
pub proof fn reserved_rows_fit(s: Sizes, available: int, context: int)
    requires
        elected(s),
        0 <= available,
        1 <= context <= 32768,
        fitting_rows(s, available) >= context,
    ensures
        context <= reserved_rows(s, available, context) <= 65536,
        reserved_rows(s, available, context) % 128 == 0,
        reserved_rows(s, available, context) * live_per_row(s) <= available,
{
    let live = live_per_row(s);
    assert(0 < live <= 300000);
    let rows = reserved_rows(s, available, context);
    let q = available / live;
    assert(0 <= q && q * live <= available) by {
        vstd::arithmetic::div_mod::lemma_fundamental_div_mod(available, live);
        vstd::arithmetic::div_mod::lemma_mod_bound(available, live);
        vstd::arithmetic::div_mod::lemma_div_pos_is_pos(available, live);
        assert(q * live == live * q) by (nonlinear_arith);
    }
    assert(rows <= q);
    assert(rows * live <= q * live) by (nonlinear_arith)
        requires
            0 <= rows <= q,
            0 < live,
    ;
}

impl Qwen3Encoder {
    pub open spec fn sizes(&self) -> Sizes {
        Sizes {
            width: self.width,
            ff: self.ff,
            count: self.layers.len(),
            heads: self.heads,
            kv_heads: self.kv_heads,
        }
    }

    pub open spec fn wf(&self) -> bool {
        &&& elected(self.sizes())
        &&& 0 < self.vocab <= u32::MAX
        &&& 1 <= self.context <= 32768
        &&& self.context <= self.row_budget <= 65536
    }
}

fn is_elected(s: Sizes) -> (r: bool)
    ensures
        r == elected(s),
{
    s == (Sizes { width: 1024, ff: 3072, count: 28, heads: 16, kv_heads: 8 }) || s == (Sizes {
        width: 2560,
        ff: 9728,
        count: 36,
        heads: 32,
        kv_heads: 8,
    }) || s == (Sizes { width: 4096, ff: 12288, count: 36, heads: 32, kv_heads: 8 })
}

fn read_sizes(h: &Header) -> (r: Result<Sizes, Fault>)
    ensures
        r == sizes_of(h),
{
    let width: u64 = match get_count(h, "embedding_length") {
        Some(n) => n,
        None => {
            return Err(Fault::Field { index: 0 });
        },
    };
    let ff: u64 = match get_count(h, "feed_forward_length") {
        Some(n) => n,
        None => {
            return Err(Fault::Field { index: 1 });
        },
    };
    let count: u64 = match get_count(h, "block_count") {
        Some(n) => n,
        None => {
            return Err(Fault::Field { index: 2 });
        },
    };
    let heads: u64 = match get_count(h, "attention.head_count") {
        Some(n) => n,
        None => {
            return Err(Fault::Field { index: 3 });
        },
    };
    let kv_heads: u64 = match get_count(h, "attention.head_count_kv") {
        Some(n) => n,
        None => {
            return Err(Fault::Field { index: 4 });
        },
    };
    let s = Sizes {
        width: width as usize,
        ff: ff as usize,
        count: count as usize,
        heads: heads as usize,
        kv_heads: kv_heads as usize,
    };
    if !is_elected(s) {
        return Err(Fault::Geometry);
    }
    match get_count(h, "attention.key_length") {
        Some(n) => if n != 128 {
            return Err(Fault::Geometry);
        },
        None => {
            return Err(Fault::Field { index: 5 });
        },
    }
    match get_count(h, "attention.value_length") {
        Some(n) => if n != 128 {
            return Err(Fault::Geometry);
        },
        None => {
            return Err(Fault::Field { index: 6 });
        },
    }
    if h.contains_field("rope.dimension_count") {
        match get_count(h, "rope.dimension_count") {
            Some(n) => if n != 128 {
                return Err(Fault::Geometry);
            },
            None => {
                return Err(Fault::Field { index: 7 });
            },
        }
    }
    Ok(s)
}

fn expect_block(list: &mut Vec<Entry>, s: Sizes, i: usize)
    requires
        elected(s),
        i < s.count,
    ensures
        schema(final(list)@) == push_block(schema(old(list)@), s, i as int),
{
    let width: u64 = s.width as u64;
    let ff: u64 = s.ff as u64;
    let q: u64 = (s.heads * 128) as u64;
    let kv: u64 = (s.kv_heads * 128) as u64;
    expect(list, block_text(i, "attn_norm.weight"), list1(width), 0, true);
    expect(list, block_text(i, "attn_q.weight"), list2(width, q), 8, true);
    expect(list, block_text(i, "attn_k.weight"), list2(width, kv), 8, true);
    expect(list, block_text(i, "attn_v.weight"), list2(width, kv), 8, true);
    expect(list, block_text(i, "attn_q_norm.weight"), list1(128), 0, true);
    expect(list, block_text(i, "attn_k_norm.weight"), list1(128), 0, true);
    expect(list, block_text(i, "attn_output.weight"), list2(q, width), 8, true);
    expect(list, block_text(i, "ffn_norm.weight"), list1(width), 0, true);
    expect(list, block_text(i, "ffn_gate.weight"), list2(width, ff), 8, true);
    expect(list, block_text(i, "ffn_up.weight"), list2(width, ff), 8, true);
    expect(list, block_text(i, "ffn_down.weight"), list2(ff, width), 8, true);
}

fn build_schema(s: Sizes, vocab: u64, head: bool) -> (list: Vec<Entry>)
    requires
        elected(s),
    ensures
        schema(list@) == encoder_schema(s, vocab, head, s.count as int),
{
    let width: u64 = s.width as u64;
    let mut list: Vec<Entry> = Vec::new();
    expect(&mut list, "token_embd.weight".to_owned(), list2(width, vocab), 8, true);
    expect(&mut list, "output_norm.weight".to_owned(), list1(width), 0, true);
    if head {
        expect(&mut list, "output.weight".to_owned(), list2(width, vocab), 8, true);
    }
    assert(schema(list@) =~= outer(s, vocab, head));
    let mut i: usize = 0;
    while i < s.count
        invariant
            i <= s.count,
            elected(s),
            schema(list@) == encoder_schema(s, vocab, head, i as int),
        decreases s.count - i,
    {
        expect_block(&mut list, s, i);
        i = i + 1;
    }
    list
}

fn check_tensors(h: &Header, names: &Vec<Entry>) -> (r: Option<Fault>)
    ensures
        r == tensor_fault(h.tensors@, schema(names@), 0),
{
    let mut i: usize = 0;
    while i < h.tensors.len()
        invariant
            i <= h.tensors.len(),
            tensor_fault(h.tensors@, schema(names@), 0) == tensor_fault(
                h.tensors@,
                schema(names@),
                i as int,
            ),
        decreases h.tensors.len() - i,
    {
        if h.tensors[i].dims.len() == 2 && h.tensors[i].ty != 8 {
            return Some(Fault::Format { index: i });
        }
        if h.is_foreign(names, i) {
            return Some(Fault::Unexpected { index: i });
        }
        i = i + 1;
    }
    None
}

fn build_layers(h: &Header, list: &Vec<Entry>, s: Sizes, base: usize) -> (r: Vec<Layer>)
    requires
        elected(s),
        base <= 3,
        list.len() == base + 11 * s.count,
        forall|j: int| 0 <= j < list.len() ==> 0 < (#[trigger] list[j]).dims.len(),
    ensures
        r.len() == s.count,
        forall|i: int|
            0 <= i < s.count ==> #[trigger] r[i] == layer_of(h, schema(list@), base as int, i),
{
    let mut out: Vec<Layer> = Vec::new();
    let mut i: usize = 0;
    while i < s.count
        invariant
            i <= s.count,
            elected(s),
            base <= 3,
            list.len() == base + 11 * s.count,
            forall|j: int| 0 <= j < list.len() ==> 0 < (#[trigger] list[j]).dims.len(),
            out.len() == i,
            forall|k: int|
                0 <= k < i ==> #[trigger] out[k] == layer_of(h, schema(list@), base as int, k),
        decreases s.count - i,
    {
        let c: usize = base + 11 * i;
        out.push(
            Layer {
                norm: h.place(list, c),
                q: h.place(list, c + 1),
                k: h.place(list, c + 2),
                v: h.place(list, c + 3),
                qnorm: h.place(list, c + 4),
                knorm: h.place(list, c + 5),
                o: h.place(list, c + 6),
                ffn_norm: h.place(list, c + 7),
                gate: h.place(list, c + 8),
                up: h.place(list, c + 9),
                down: h.place(list, c + 10),
            },
        );
        i = i + 1;
    }
    out
}

fn build_scratch(s: Sizes, first: u32, rows: usize) -> (r: Scratch)
    requires
        elected(s),
        first <= 1000,
        rows <= 65536,
    ensures
        r.planes() == Seq::new(
            13,
            |i: int| Buffer { id: (first + i) as u32, len: (rows * plane_bytes(s)[i]) as u64 },
        ),
{
    let n: u64 = rows as u64;
    let width: u64 = s.width as u64;
    let ff: u64 = s.ff as u64;
    let q: u64 = (s.heads * 128) as u64;
    let kv: u64 = (s.kv_heads * 128) as u64;
    let wide: u64 = if ff >= q { ff } else { q };
    proof {
        lemma_plane(n as int, width * 4);
        lemma_plane(n as int, q * 4);
        lemma_plane(n as int, kv * 4);
        lemma_plane(n as int, q * 2);
        lemma_plane(n as int, kv * 2);
        lemma_plane(n as int, ff * 4);
        lemma_plane(n as int, wide * 2);
    }
    let r = Scratch {
        x: Buffer { id: first, len: n * (width * 4) },
        norm: Buffer { id: first + 1, len: n * (width * 4) },
        delta: Buffer { id: first + 2, len: n * (width * 4) },
        q: Buffer { id: first + 3, len: n * (q * 4) },
        k: Buffer { id: first + 4, len: n * (kv * 4) },
        v: Buffer { id: first + 5, len: n * (kv * 4) },
        qh: Buffer { id: first + 6, len: n * (q * 2) },
        kh: Buffer { id: first + 7, len: n * (kv * 2) },
        vh: Buffer { id: first + 8, len: n * (kv * 2) },
        attn: Buffer { id: first + 9, len: n * (q * 4) },
        gate: Buffer { id: first + 10, len: n * (ff * 4) },
        up: Buffer { id: first + 11, len: n * (ff * 4) },
        gemm: Buffer { id: first + 12, len: n * (wide * 2) },
    };
    assert(r.planes() =~= Seq::new(
        13,
        |i: int| Buffer { id: (first + i) as u32, len: (rows * plane_bytes(s)[i]) as u64 },
    ));
    r
}

proof fn lemma_plane(n: int, b: int)
    requires
        0 <= n <= 65536,
        0 <= b <= 100000,
    ensures
        0 <= n * b <= 6553600000,
{
    crate::arith::lemma_product_bound(n, b, 65536, 100000);
}

fn row_bytes(s: Sizes) -> (r: u64)
    requires
        elected(s),
    ensures
        r == live_per_row(s),
        0 < r,
{
    let width: u64 = s.width as u64;
    let ff: u64 = s.ff as u64;
    let q: u64 = (s.heads * 128) as u64;
    let kv: u64 = (s.kv_heads * 128) as u64;
    let wide: u64 = if ff >= q { ff } else { q };
    4 * (3 * width + 2 * q + 2 * kv + 2 * ff) + 2 * (q + 2 * kv + wide) + 2 * (width * 4 + 28)
}

/// The encoder that a sound checkpoint gives.
pub open spec fn loaded(h: &Header, context: usize, budget: u64, identity: u64, m: Qwen3Encoder) -> bool {
    let s = sizes_of(h)->Ok_0;
    let vocab = vocabulary(h)->0;
    let head = h.tensor("output.weight"@) is Some;
    let list = encoder_schema(s, vocab, head, s.count as int);
    let base = if head { 3int } else { 2 };
    let weights = resident_bytes(h, list, list.len() as int);
    &&& m.identity == identity
    &&& m.sizes() == s
    &&& m.embedding == placed(h, list, 0)
    &&& m.output_norm == placed(h, list, 1)
    &&& m.head == if head { Some(placed(h, list, 2)) } else { None }
    &&& forall|i: int| 0 <= i < s.count ==> #[trigger] m.layers[i] == layer_of(h, list, base, i)
    &&& m.scratch.planes() == Seq::new(
        13,
        |i: int| Buffer {
            id: (list.len() + i) as u32,
            len: (m.row_budget * plane_bytes(s)[i]) as u64,
        },
    )
    &&& m.vocab == vocab
    &&& m.context == context
    &&& m.row_budget == reserved_rows(s, budget - weights, context as int)
    &&& m.eps == real_field(h, "attention.layer_norm_rms_epsilon"@)->0
    &&& m.rope == real_field(h, "rope.freq_base"@)->0
    &&& m.weight_bytes == weights
}

impl Qwen3Encoder {
    /// Accept one of the elected encoders. Every name, format and shape and
    /// the memory of a full context are checked before anything is uploaded.
    pub fn load(header: &Header, context: usize, budget: u64, identity: u64) -> (r: Result<
        Self,
        MetalError,
    >)
        ensures
            match load_fault(header, context, budget) {
                Some(e) => r == Err::<Self, MetalError>(e),
                None => {
                    &&& r matches Ok(m)
                    &&& m.wf()
                    &&& loaded(header, context, budget, identity, m)
                },
            },
    {
        let named = match &header.architecture {
            Some(a) => crate::header::is_named(a, "qwen3"),
            None => false,
        };
        if !named {
            return Err(MetalError::Model(Fault::Architecture));
        }
        let s = match read_sizes(header) {
            Ok(s) => s,
            Err(f) => {
                return Err(MetalError::Model(f));
            },
        };
        match get_count(header, "context_length") {
            Some(n) => if context == 0 || context as u64 > n || context > 32768 {
                return Err(MetalError::Model(Fault::Range));
            },
            None => {
                return Err(MetalError::Model(Fault::Field { index: 8 }));
            },
        }
        if header.contains_field("rope.scaling.type") || header.contains_field(
            "attention.sliding_window",
        ) {
            return Err(MetalError::Model(Fault::Scaled));
        }
        let eps: u32 = match get_real(header, "attention.layer_norm_rms_epsilon") {
            Some(b) => b,
            None => {
                return Err(MetalError::Model(Fault::Field { index: 9 }));
            },
        };
        let rope: u32 = match get_real(header, "rope.freq_base") {
            Some(b) => b,
            None => {
                return Err(MetalError::Model(Fault::Field { index: 10 }));
            },
        };
        let vocab: u64 = match read_vocabulary(header) {
            Some(n) => n,
            None => {
                return Err(MetalError::Model(Fault::Vocabulary));
            },
        };
        let names = build_schema(s, vocab, true);
        if let Some(f) = check_tensors(header, &names) {
            return Err(MetalError::Model(f));
        }
        let head = header.find_tensor("output.weight").is_some();
        let list = build_schema(s, vocab, head);
        let weights: u128 = match header.check_shapes(&list) {
            Ok(n) => n,
            Err(e) => {
                return Err(e);
            },
        };
        if weights > budget as u128 {
            return Err(MetalError::Memory(Fault::Budget));
        }
        let available: u64 = budget - weights as u64;
        let live: u64 = row_bytes(s);
        let quotient: u64 = available / live;
        let capped: u64 = if quotient > 65536 { 65536 } else { quotient };
        let fitting: usize = capped as usize / 128 * 128;
        proof {
            assert(fitting == fitting_rows(s, available as int));
        }
        if fitting < context {
            return Err(MetalError::Memory(Fault::Budget));
        }
        let wanted: usize = (if context > 8192 { context } else { 8192 }) + 127;
        let ceiling: usize = wanted / 128 * 128;
        let rows: usize = if fitting < ceiling { fitting } else { ceiling };
        let ghost view = schema(list@);
        proof {
            reserved_rows_fit(s, available as int, context as int);
            lemma_schema_len(s, vocab, head, s.count as int);
            assert forall|j: int| 0 <= j < list.len() implies 0 < (#[trigger] list[j]).dims.len() by {
                assert(view[j] == list[j]@);
            }
        }
        let base: usize = if head { 3 } else { 2 };
        let embedding = header.place(&list, 0);
        let output_norm = header.place(&list, 1);
        let output = if head { Some(header.place(&list, 2)) } else { None };
        let layers = build_layers(header, &list, s, base);
        let scratch = build_scratch(s, list.len() as u32, rows);
        Ok(
            Qwen3Encoder {
                identity,
                embedding,
                output_norm,
                head: output,
                layers,
                scratch,
                width: s.width,
                heads: s.heads,
                kv_heads: s.kv_heads,
                ff: s.ff,
                vocab: vocab as usize,
                context,
                row_budget: rows,
                eps,
                rope,
                weight_bytes: weights as u64,
            },
        )
    }
}

fn read_vocabulary(h: &Header) -> (r: Option<u64>)
    ensures
        r == vocabulary(h),
{
    match h.find_tensor("token_embd.weight") {
        Some(k) => {
            let t = &h.tensors[k];
            if t.dims.len() > 1 && t.dims[1] > 0 && t.dims[1] <= u32::MAX as u64 {
                Some(t.dims[1])
            } else {
                None
            }
        },
        None => None,
    }
}

} // verus!
