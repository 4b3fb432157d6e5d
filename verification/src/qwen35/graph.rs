//! The loaded graph: weight planes, scratch planes and lane elections.
use vstd::prelude::*;
use crate::arith::MAX_ROWS;
use crate::program::{Buffer, Plane, RowSpan, Weight};
use crate::qwen35::bonsai::{narrow, rotated_width, Bonsai};
use crate::qwen35::dflash::Dflash;
use crate::qwen35::geometry::Geometry;
use crate::qwen35::moe::{Experts, Workspace};
use crate::qwen35::mtp::Mtp;
use crate::qwen35::projection::eligible;

verus! {

/// Rows of one prompt pass.
pub const CHUNK: usize = 512;

/// The most partial results of one decode row and head.
pub const MAX_SPLITS: usize = 32;

/// The most pages of one sequence, so that all rows can be counted in 32 bits,
/// and the most tokens on them.
pub const MAX_PAGES: usize = 0xfff_ffff;

pub const MAX_CONTEXT: usize = 0xffff_fff0;

/// The most elements along one side of a weight plane.
pub const MAX_PLANE: usize = 0x100_0000;

#[derive(Clone, Copy, Debug, PartialEq, Eq, Structural)]
pub struct FullAttention {
    pub q: Weight,
    pub k: Weight,
    pub v: Weight,
    pub o: Weight,
    pub q_norm: Weight,
    pub k_norm: Weight,
    pub keys: Buffer,
    pub values: Buffer,
}

#[derive(Clone, Copy, Debug, PartialEq, Eq, Structural)]
pub struct DeltaNet {
    pub qkv: Weight,
    pub z: Weight,
    pub alpha: Weight,
    pub beta: Weight,
    pub out: Weight,
    pub conv: Weight,
    pub a: Weight,
    pub dt: Weight,
    pub norm: Weight,
    pub index: usize,
}

#[derive(Clone, Copy, Debug, PartialEq, Eq, Structural)]
pub enum Mixer {
    Full(FullAttention),
    Linear(DeltaNet),
}

/// One block. `gate`, `up` and `down` are the dense feed-forward, or the
/// shared one beside routed experts.
#[derive(Clone, Copy, Debug, PartialEq, Eq, Structural)]
pub struct Layer {
    pub norm: Weight,
    pub post_norm: Weight,
    pub mixer: Mixer,
    pub gate: Weight,
    pub up: Weight,
    pub down: Weight,
    pub moe: Option<Experts>,
}

#[derive(Clone, Copy, Debug, PartialEq, Eq, Structural)]
pub struct Scratch {
    pub gemm: Buffer,
    pub ids: Buffer,
    pub outputs: Buffer,
    pub meta: Buffer,
    pub mrope: Buffer,
    pub limits: Buffer,
    pub pages: Buffer,
    pub spans: Buffer,
    pub chunks: Buffer,
    pub bounds: Buffer,
    pub attn_tiles: Buffer,
    pub decode_rows: Buffer,
    pub long_decode_tiles: Buffer,
    pub checkpoint_rows: Buffer,
    pub checkpoint_spans: Buffer,
    pub x: Buffer,
    pub norm: Buffer,
    pub delta: Buffer,
    pub gate: Buffer,
    pub up: Buffer,
    pub logits: Buffer,
    pub qraw: Buffer,
    pub q: Buffer,
    pub k: Buffer,
    pub v: Buffer,
    pub attn: Buffer,
    pub attn_parts: Buffer,
    pub qkv: Buffer,
    pub convolved: Buffer,
    pub z: Buffer,
    pub alpha: Buffer,
    pub beta: Buffer,
    pub gates: Buffer,
    pub prepared: Buffer,
}

/// Buffers of a speculative verification pass.
#[derive(Clone, Copy, Debug, PartialEq, Eq, Structural)]
pub struct Verify {
    pub rows: usize,
    pub live: usize,
    pub conv_input: Buffer,
    pub updates: Buffer,
    pub logits: Buffer,
    pub hidden: Buffer,
    pub picks: Buffer,
}

/// Limits and format codes that the device side fixes.
#[derive(Clone, Copy, Debug, PartialEq, Eq, Structural)]
pub struct Lanes {
    /// Format code of four-bit affine planes.
    pub affine4: u32,
    /// Visible rows from which a packed decode row takes the grouped route.
    pub long_decode: usize,
    /// Partitions of the grouped decode route.
    pub decode_parts: usize,
}

#[derive(Debug)]
pub struct Graph {
    /// Affine arithmetic: half-precision boundaries.
    pub mlx: bool,
    /// Packed affine target.
    pub splash: bool,
    /// Native ternary lane.
    pub bonsai: Option<Bonsai>,
    /// Rotated ternary lane of the device side.
    pub ternary: bool,
    /// The device has tensor units.
    pub accelerated: bool,
    pub lanes: Lanes,
    pub geometry: Geometry,
    pub embedding: Weight,
    pub output_norm: Weight,
    pub head: Weight,
    pub layers: Vec<Layer>,
    pub scratch: Scratch,
    pub moe_scratch: Option<Workspace>,
    pub state: Buffer,
    pub conv: Buffer,
    pub vocab: usize,
    pub context: usize,
    pub page_stride: usize,
    pub state_slots: usize,
    /// The most rows of one tick.
    pub row_capacity: usize,
    /// Bit pattern of the normalisation epsilon.
    pub eps: u32,
    /// Bit pattern of the rotary base.
    pub rope: u32,
    pub rotary: usize,
    pub spec: Option<Verify>,
    pub verifying: bool,
    pub greedy_output: bool,
    pub mtp: Option<Mtp>,
    pub dflash: Option<Dflash>,
}

/// A plane of `k` inputs and `n` outputs.
pub open spec fn shaped(w: Weight, k: int, n: int) -> bool {
    w.k == k && w.n == n
}

pub open spec fn attention_shaped(g: Geometry, a: FullAttention) -> bool {
    &&& shaped(a.q, g.width as int, g.heads * 512)
    &&& shaped(a.k, g.width as int, g.kv_heads * 256)
    &&& shaped(a.v, g.width as int, g.kv_heads * 256)
    &&& shaped(a.o, g.heads * 256, g.width as int)
}

pub open spec fn recurrent_shaped(g: Geometry, d: DeltaNet) -> bool {
    &&& shaped(d.qkv, g.width as int, g.conv_width())
    &&& shaped(d.z, g.width as int, g.value_heads * 128)
    &&& shaped(d.alpha, g.width as int, g.value_heads as int)
    &&& shaped(d.beta, g.width as int, g.value_heads as int)
    &&& shaped(d.out, g.value_heads * 128, g.width as int)
    &&& d.index < 64
}

pub open spec fn layer_shaped(g: Geometry, l: Layer) -> bool {
    &&& match l.mixer {
        Mixer::Full(a) => attention_shaped(g, a),
        Mixer::Linear(d) => recurrent_shaped(g, d),
    }
    &&& shaped(l.gate, g.width as int, g.ff as int)
    &&& shaped(l.up, g.width as int, g.ff as int)
    &&& shaped(l.down, g.ff as int, g.width as int)
    &&& l.moe is Some <==> g.is_moe()
}

impl Graph {
    /// What loading establishes and every tick relies on.
    pub open spec fn wf(&self) -> bool {
        let g = self.geometry;
        &&& g.elected()
        &&& self.layers.len() == g.layers
        &&& forall|i: int| 0 <= i < self.layers.len() ==> layer_shaped(g, #[trigger] self.layers[i])
        &&& shaped(self.embedding, g.width as int, self.vocab as int)
        &&& shaped(self.head, g.width as int, self.vocab as int)
        &&& 0 < self.vocab <= 0x80_0000
        &&& self.context <= MAX_CONTEXT
        &&& self.page_stride <= MAX_PAGES
        &&& self.state_slots <= 3 * CHUNK
        &&& 0 < self.row_capacity <= MAX_ROWS
        &&& self.bonsai is Some ==> self.row_capacity <= CHUNK
        &&& self.moe_scratch is Some <==> g.is_moe()
        &&& self.moe_scratch matches Some(w) ==> self.row_capacity <= w.rows <= 8192
        &&& self.splash ==> self.mlx && g == Geometry::dense_27b()
        &&& self.bonsai is Some ==> self.mlx && !self.splash && g == Geometry::dense_27b()
            && self.vocab <= 0x10_0000
        &&& self.ternary ==> !self.mlx
        &&& self.lanes.decode_parts <= 0x1000
        &&& (self.verifying || self.greedy_output) ==> self.spec is Some
        &&& self.spec matches Some(v) ==> 0 < v.live && v.rows <= MAX_ROWS
        &&& self.mtp matches Some(d) ==> d.wf(g) && !self.mlx && !self.ternary
        &&& self.dflash matches Some(d) ==> d.wf(g) && self.bonsai is None && !self.ternary
        &&& self.bonsai matches Some(b) ==> b.wf()
    }

    /// Packed prompt contractions of the native ternary lane have their own
    /// arithmetic, whatever rows are left of the prompt.
    pub open spec fn bonsai_prefill(&self) -> bool {
        self.bonsai is Some && self.accelerated
    }

    /// Affine prompt reductions are pinned on the qualified shape and device.
    pub open spec fn affine_prefill(&self) -> bool {
        &&& self.mlx
        &&& !self.splash
        &&& self.bonsai is None
        &&& self.geometry == Geometry::dense_27b()
        &&& self.accelerated
    }

    pub fn stable_bonsai_prefill(&self) -> (r: bool)
        ensures
            r == self.bonsai_prefill(),
    {
        self.bonsai.is_some() && self.accelerated
    }

    pub fn stable_affine_prefill(&self) -> (r: bool)
        ensures
            r == self.affine_prefill(),
    {
        self.mlx && !self.splash && self.bonsai.is_none() && self.geometry == Geometry::dense_27b()
            && self.accelerated
    }

    pub fn stable_affine_contract(&self) -> (r: bool)
        ensures
            r == self.affine_prefill(),
    {
        self.stable_affine_prefill()
    }
}

/// Spans cover rows `0..rows` in order, without gaps.
pub open spec fn covers(spans: Seq<RowSpan>, rows: int) -> bool
    decreases spans.len(),
{
    if spans.len() == 0 {
        rows == 0
    } else {
        let last = spans.last();
        &&& last.count > 0
        &&& last.role == 1 || last.role == CHUNK
        &&& last.first + last.count == rows
        &&& covers(spans.drop_last(), last.first as int)
    }
}

/// Planes that one projection can take together: a common input width, row
/// spans that cover the rows, and the routed shape's tile divisor.
pub open spec fn projectable(g: &Graph, planes: Seq<Plane>, rows: int, spans: Seq<RowSpan>) -> bool {
    &&& 1 <= planes.len() <= 4
    &&& 1 <= rows <= MAX_ROWS
    &&& forall|i: int|
        0 <= i < planes.len() ==> {
            let w = (#[trigger] planes[i]).weight;
            &&& w.k == planes[0].weight.k
            &&& w.k <= 0x1_0000
            &&& w.k % 128 == 0
            &&& w.n <= MAX_PLANE
        }
    &&& planes.len() == 4 ==> !eligible(planes)
    &&& g.bonsai is Some ==> {
        &&& rows <= CHUNK
        &&& spans.len() > 0 ==> covers(spans, rows)
        &&& rotated_width(planes[0].weight.k as int)
        &&& narrow(planes)
    }
}

} // verus!
