//! Memory of a decoder: pages, recurrent states, workspaces and the grant
//! that has to cover them.
use vstd::prelude::*;
use crate::arith::{ceil_div, div_ceil, lemma_product_bound, max, min, BLOCK_TOKENS};
use crate::program::Buffer;
use crate::qwen35::geometry::{elected_shapes_share_scratch, Geometry};
use crate::qwen35::graph::{Scratch, CHUNK, MAX_SPLITS};
use crate::qwen35::moe::{plane_sizes, sum, Workspace};

verus! {

/// How a checkpoint is stored.
#[derive(Clone, Copy, Debug, PartialEq, Eq, Structural)]
pub enum Kind {
    /// One mapped file.
    Mapped,
    /// One mapped file with rotated ternary planes.
    Rotated,
    /// Affine planes.
    Affine,
    /// Native ternary planes.
    Ternary,
    /// A packed affine target.
    Packed,
}

impl Kind {
    /// Half-precision boundaries.
    pub open spec fn is_mlx(self) -> bool {
        self == Kind::Affine || self == Kind::Ternary || self == Kind::Packed
    }

    pub open spec fn is_mapped(self) -> bool {
        self == Kind::Mapped || self == Kind::Rotated
    }

    pub fn mlx(self) -> (r: bool)
        ensures
            r == self.is_mlx(),
    {
        self == Kind::Affine || self == Kind::Ternary || self == Kind::Packed
    }

    pub fn mapped(self) -> (r: bool)
        ensures
            r == self.is_mapped(),
    {
        self == Kind::Mapped || self == Kind::Rotated
    }
}

/// What is asked for, and what the packed lane takes of its own.
#[derive(Clone, Copy, Debug, PartialEq, Eq, Structural)]
pub struct Sizing {
    pub kind: Kind,
    pub geometry: Geometry,
    pub vocab: usize,
    pub context: usize,
    pub batch: usize,
    /// Pages of a colder tier's staging are wanted.
    pub tiered: bool,
    /// Workspace and attention scratch of the packed lane.
    pub packed_workspace: u64,
    pub packed_attention: u64,
}

impl Sizing {
    pub open spec fn sane(self) -> bool {
        &&& self.geometry.elected()
        &&& 0 < self.vocab <= 0x7f_ffff
        &&& 0 < self.context
        &&& 0 < self.batch <= CHUNK
    }

    pub open spec fn page_stride(self) -> int {
        ceil_div(self.context as int, 16)
    }

    /// Attention pages. Without a tier every slot and checkpoint has a whole
    /// context; with one, every slot has, one context is staging headroom for
    /// a restore that outlives its request, and each checkpoint has a page.
    pub open spec fn blocks(self) -> int {
        if self.tiered {
            self.page_stride() * (self.batch + 1) + self.batch * 2
        } else {
            self.page_stride() * (self.batch * 3)
        }
    }

    /// Pages whose rows can be counted in 32 bits.
    pub open spec fn countable(self) -> bool {
        self.blocks() <= 0xfff_ffff
    }

    /// Bytes of one layer's keys or values.
    pub open spec fn kv_layer(self) -> int {
        self.blocks() * (16 * self.geometry.kv_heads * 256 * if self.kind == Kind::Ternary { 4int } else { 2 })
    }

    pub open spec fn state_bytes(self) -> int {
        self.geometry.linear() * (self.batch * 3) * (self.geometry.state_size() * 4)
    }

    pub open spec fn conv_bytes(self) -> int {
        self.geometry.linear() * (self.batch * 3) * (self.geometry.conv_width() * 12)
    }

    pub open spec fn kv_bytes(self) -> int {
        self.kv_layer() * 2 * self.geometry.full() + self.state_bytes() + self.conv_bytes()
    }

    /// Recurrent chunks of one tick.
    pub open spec fn chunks(self) -> int {
        16 + self.batch * 3
    }

    pub open spec fn projection(self) -> int {
        let g = self.geometry;
        max(max(max(g.ff as int, g.conv_width()), g.width * 2), g.heads * 512)
    }

    pub open spec fn gemm_bytes(self) -> int {
        if self.kind == Kind::Packed {
            self.packed_workspace as int
        } else {
            512 * self.projection() * 2
        }
    }

    pub open spec fn prepared_bytes(self) -> int {
        let g = self.geometry;
        max(
            self.chunks() * (g.value_heads * 17408 * if g.is_moe() { 4int } else { 2 }),
            if self.kind == Kind::Packed { self.packed_attention as int } else { 0 },
        )
    }

    /// What the grant charges for workspaces.
    pub open spec fn scratch_bound(self) -> int {
        let g = self.geometry;
        512 * (g.width * 5 + g.ff * 2 + g.heads * 256 * 5 + g.kv_heads * 256 * 2 + g.conv_width() * 2
            + g.value_heads * 132 + g.heads * 32 * 258) * 4 + self.gemm_bytes() + self.prepared_bytes()
            + self.batch * (self.page_stride() + self.vocab) * 4 + 512 * 128
    }

    /// What the lanes of a kind add to the stored bytes.
    pub open spec fn lane_bytes(self) -> int {
        let g = self.geometry;
        (if self.kind == Kind::Ternary || self.kind == Kind::Rotated {
            512 * g.ff * 4 + (5120 + 6144 + 17408) * 4
        } else {
            0
        }) + (if self.kind == Kind::Packed { 57507840int } else { 0 }) + (if self.kind.is_mlx() {
            g.layers * (g.width * 2 + g.conv_width() * 4 + 1024) * 4
        } else {
            0
        }) + (if g.is_moe() { 4 * sum(plane_sizes(512)) } else { 0 })
    }

    /// The whole need, as far as it can be counted: the stored bytes, used or
    /// not, caches, states and workspaces.
    pub open spec fn needed(self, total: u64) -> int {
        min(total + self.lane_bytes() + self.kv_bytes() + self.scratch_bound(), u64::MAX as int)
    }

    /// Bytes of the workspaces, in the order of their allocation.
    pub open spec fn scratch_sizes(self) -> Seq<int> {
        let g = self.geometry;
        seq![
            self.gemm_bytes(),
            2048int,
            2048int,
            4096int,
            8192int,
            2048int,
            self.batch * self.page_stride() * 4,
            8192int,
            self.chunks() * 16,
            4096int,
            4096int,
            2048int,
            4096int,
            2048int,
            8192int,
            512 * g.width * 4,
            512 * g.width * 4,
            512 * g.width * 4,
            512 * g.ff * 4,
            512 * g.ff * 4,
            self.batch * self.vocab * 4,
            512 * (g.heads * 512) * 4,
            512 * (g.heads * 256) * 4,
            512 * (g.kv_heads * 256) * 4,
            512 * (g.kv_heads * 256) * 4,
            512 * (g.heads * 256) * 4,
            512 * (g.heads * 32 * 258) * 4,
            512 * g.conv_width() * 4,
            512 * g.conv_width() * 4,
            512 * (g.value_heads * 128) * 4,
            512 * g.value_heads * 4,
            512 * g.value_heads * 4,
            512 * (g.value_heads * 2) * 4,
            self.prepared_bytes(),
        ]
    }

    /// A context is never more than all pages.
    pub proof fn lemma_stride(self)
        requires
            self.sane(),
        ensures
            self.page_stride() <= self.blocks(),
    {
        let n = self.page_stride();
        let batch = self.batch as int;
        assert(n <= n * (batch + 1) && n <= n * (batch * 3)) by (nonlinear_arith)
            requires
                0 <= n,
                1 <= batch,
        ;
    }

    pub fn pages(self) -> (r: usize)
        ensures
            r == self.page_stride(),
    {
        div_ceil(self.context, BLOCK_TOKENS)
    }

    /// The pages, where they can be counted.
    pub fn count_blocks(self) -> (r: Option<u32>)
        requires
            self.sane(),
        ensures
            match r {
                Some(n) => self.countable() && n == self.blocks(),
                None => !self.countable(),
            },
    {
        let stride: u128 = self.pages() as u128;
        let batch: u128 = self.batch as u128;
        proof {
            lemma_product_bound(stride as int, batch * 3, u64::MAX as int, 1536);
            lemma_product_bound(stride as int, batch + 1, u64::MAX as int, 513);
        }
        let n: u128 = if self.tiered { stride * (batch + 1) + batch * 2 } else { stride * (batch * 3) };
        if n <= 0xfff_ffff {
            Some(n as u32)
        } else {
            None
        }
    }

    pub fn layer_bytes(self, blocks: u32) -> (r: u64)
        requires
            self.sane(),
            blocks == self.blocks(),
        ensures
            r == self.kv_layer(),
            r <= 0xffff_ffff * 65536,
    {
        let page: u64 = (BLOCK_TOKENS * self.geometry.kv_heads * 256) as u64 * if self.kind
            == Kind::Ternary {
            4
        } else {
            2
        };
        proof {
            lemma_product_bound(blocks as int, page as int, 0xffff_ffff, 65536);
        }
        blocks as u64 * page
    }

    /// Bytes of the recurrent and of the convolution states.
    pub fn recurrent_bytes(self) -> (r: (u64, u64))
        requires
            self.sane(),
        ensures
            r.0 == self.state_bytes(),
            r.1 == self.conv_bytes(),
            r.0 <= 0x100_0000_0000,
            r.1 <= 0x100_0000_0000,
    {
        proof {
            elected_shapes_share_scratch(self.geometry);
        }
        let linear: u64 = self.geometry.linear_layers() as u64;
        let slots: u64 = self.batch as u64 * 3;
        let state: u64 = self.geometry.state() as u64 * 4;
        let conv: u64 = self.geometry.conv() as u64 * 12;
        proof {
            lemma_product_bound(linear as int, slots as int, 48, 1536);
            lemma_product_bound(linear * slots, state as int, 73728, 3145728);
            lemma_product_bound(linear * slots, conv as int, 73728, 122880);
        }
        (linear * slots * state, linear * slots * conv)
    }

    pub fn cache_bytes(self, blocks: u32) -> (r: u64)
        requires
            self.sane(),
            blocks == self.blocks(),
        ensures
            r == self.kv_bytes(),
    {
        let layer: u64 = self.layer_bytes(blocks);
        let (state, conv) = self.recurrent_bytes();
        let full: u64 = self.geometry.full_layers() as u64;
        proof {
            lemma_product_bound(layer * 2, full as int, 0xffff_ffffint * 131072, 16);
        }
        layer * 2 * full + state + conv
    }

    fn gemm(self) -> (r: u64)
        requires
            self.sane(),
        ensures
            r == self.gemm_bytes(),
    {
        proof {
            elected_shapes_share_scratch(self.geometry);
        }
        if self.kind == Kind::Packed {
            self.packed_workspace
        } else {
            512 * self.geometry.projection_width() as u64 * 2
        }
    }

    fn prepared(self) -> (r: u64)
        requires
            self.sane(),
        ensures
            r == self.prepared_bytes(),
    {
        let chunks: u64 = 16 + self.batch as u64 * 3;
        let each: u64 = self.geometry.value_heads as u64 * 17408 * if self.geometry.moe() {
            4
        } else {
            2
        };
        proof {
            lemma_product_bound(chunks as int, each as int, 1552, 4000000);
        }
        let n: u64 = chunks * each;
        if self.kind == Kind::Packed && self.packed_attention > n {
            self.packed_attention
        } else {
            n
        }
    }

    /// The bytes that a grant must cover.
    pub fn need(self, total: u64, blocks: u32) -> (r: u64)
        requires
            self.sane(),
            blocks == self.blocks(),
        ensures
            r == self.needed(total),
    {
        proof {
            elected_shapes_share_scratch(self.geometry);
        }
        let g = self.geometry;
        let stride: u128 = self.pages() as u128;
        let batch: u128 = self.batch as u128;
        proof {
            self.lemma_stride();
            lemma_product_bound(batch as int, stride + self.vocab, 512, 0x2_0000_0000);
        }
        let conv: u128 = g.conv() as u128;
        let bound: u128 = 512 * (g.width as u128 * 5 + g.ff as u128 * 2 + g.heads as u128 * 256 * 5
            + g.kv_heads as u128 * 256 * 2 + conv * 2 + g.value_heads as u128 * 132 + g.heads as u128
            * 32 * 258) * 4 + self.gemm() as u128 + self.prepared() as u128 + batch * (stride
            + self.vocab as u128) * 4 + 512 * 128;
        let mut lanes: u128 = 0;
        if self.kind == Kind::Ternary || self.kind == Kind::Rotated {
            lanes = lanes + 512 * g.ff as u128 * 4 + (5120 + 6144 + 17408) * 4;
        }
        if self.kind == Kind::Packed {
            lanes = lanes + 57507840;
        }
        if self.kind.mlx() {
            proof {
                lemma_product_bound(g.layers as int, g.width * 2 + conv * 4 + 1024, 64, 60000);
            }
            lanes = lanes + g.layers as u128 * (g.width as u128 * 2 + conv * 4 + 1024) * 4;
        }
        if g.moe() {
            lanes = lanes + Workspace::bytes(CHUNK) as u128;
        }
        let all: u128 = total as u128 + lanes + self.cache_bytes(blocks) as u128 + bound;
        if all > u64::MAX as u128 {
            u64::MAX
        } else {
            all as u64
        }
    }

    /// The workspaces as consecutive allocations from `first`.
    pub fn scratch(self, first: u32) -> (r: Scratch)
        requires
            self.sane(),
            self.countable(),
            first <= 0x7fff_ffff,
        ensures
            r.planes() == Seq::new(
                34,
                |i: int| Buffer { id: (first + i) as u32, len: self.scratch_sizes()[i] as u64 },
            ),
    {
        proof {
            elected_shapes_share_scratch(self.geometry);
        }
        let g = self.geometry;
        let batch: u64 = self.batch as u64;
        let stride: u64 = self.pages() as u64;
        let vocab: u64 = self.vocab as u64;
        let width: u64 = g.width as u64;
        let ff: u64 = g.ff as u64;
        let heads: u64 = g.heads as u64;
        let kv: u64 = g.kv_heads as u64;
        let vh: u64 = g.value_heads as u64;
        let conv: u64 = g.conv() as u64;
        proof {
            self.lemma_stride();
            lemma_product_bound(batch as int, stride as int, 512, 0x1000_0000);
            lemma_product_bound(batch as int, vocab as int, 512, 0x80_0000);
        }
        let r = Scratch {
            gemm: Buffer { id: first, len: self.gemm() },
            ids: Buffer { id: first + 1, len: 512 * 4 },
            outputs: Buffer { id: first + 2, len: 512 * 4 },
            meta: Buffer { id: first + 3, len: 512 * 8 },
            mrope: Buffer { id: first + 4, len: 512 * 16 },
            limits: Buffer { id: first + 5, len: 512 * 4 },
            pages: Buffer { id: first + 6, len: batch * stride * 4 },
            spans: Buffer { id: first + 7, len: 512 * 16 },
            chunks: Buffer { id: first + 8, len: (16 + batch * 3) * 16 },
            bounds: Buffer { id: first + 9, len: 512 * 8 },
            attn_tiles: Buffer { id: first + 10, len: 512 * 8 },
            decode_rows: Buffer { id: first + 11, len: 512 * 4 },
            long_decode_tiles: Buffer { id: first + 12, len: 512 * 8 },
            checkpoint_rows: Buffer { id: first + 13, len: 512 * 4 },
            checkpoint_spans: Buffer { id: first + 14, len: 512 * 16 },
            x: Buffer { id: first + 15, len: 512 * width * 4 },
            norm: Buffer { id: first + 16, len: 512 * width * 4 },
            delta: Buffer { id: first + 17, len: 512 * width * 4 },
            gate: Buffer { id: first + 18, len: 512 * ff * 4 },
            up: Buffer { id: first + 19, len: 512 * ff * 4 },
            logits: Buffer { id: first + 20, len: batch * vocab * 4 },
            qraw: Buffer { id: first + 21, len: 512 * (heads * 512) * 4 },
            q: Buffer { id: first + 22, len: 512 * (heads * 256) * 4 },
            k: Buffer { id: first + 23, len: 512 * (kv * 256) * 4 },
            v: Buffer { id: first + 24, len: 512 * (kv * 256) * 4 },
            attn: Buffer { id: first + 25, len: 512 * (heads * 256) * 4 },
            attn_parts: Buffer { id: first + 26, len: 512 * (heads * MAX_SPLITS as u64 * 258) * 4 },
            qkv: Buffer { id: first + 27, len: 512 * conv * 4 },
            convolved: Buffer { id: first + 28, len: 512 * conv * 4 },
            z: Buffer { id: first + 29, len: 512 * (vh * 128) * 4 },
            alpha: Buffer { id: first + 30, len: 512 * vh * 4 },
            beta: Buffer { id: first + 31, len: 512 * vh * 4 },
            gates: Buffer { id: first + 32, len: 512 * (vh * 2) * 4 },
            prepared: Buffer { id: first + 33, len: self.prepared() },
        };
        assert(r.planes() =~= Seq::new(
            34,
            |i: int| Buffer { id: (first + i) as u32, len: self.scratch_sizes()[i] as u64 },
        ));
        r
    }
}

impl Scratch {
    /// The planes in the order of their allocation.
    pub open spec fn planes(self) -> Seq<Buffer> {
        seq![
            self.gemm,
            self.ids,
            self.outputs,
            self.meta,
            self.mrope,
            self.limits,
            self.pages,
            self.spans,
            self.chunks,
            self.bounds,
            self.attn_tiles,
            self.decode_rows,
            self.long_decode_tiles,
            self.checkpoint_rows,
            self.checkpoint_spans,
            self.x,
            self.norm,
            self.delta,
            self.gate,
            self.up,
            self.logits,
            self.qraw,
            self.q,
            self.k,
            self.v,
            self.attn,
            self.attn_parts,
            self.qkv,
            self.convolved,
            self.z,
            self.alpha,
            self.beta,
            self.gates,
            self.prepared,
        ]
    }
}

/// The grant covers every workspace: their bytes never exceed what it was
/// charged for them.
pub proof fn workspaces_are_granted(s: Sizing)
    requires
        s.sane(),
    ensures
        sum(s.scratch_sizes()) <= s.scratch_bound(),
{
    elected_shapes_share_scratch(s.geometry);
    let list = s.scratch_sizes();
    lemma_sum34(list);
    let b = s.batch as int;
    let p = s.page_stride();
    let v = s.vocab as int;
    assert(b * (p + v) * 4 == b * p * 4 + b * v * 4) by (nonlinear_arith);
}

proof fn lemma_sum34(s: Seq<int>)
    requires
        s.len() == 34,
    ensures
        sum(s) == s[0] + s[1] + s[2] + s[3] + s[4] + s[5] + s[6] + s[7] + s[8] + s[9] + s[10] + s[11]
            + s[12] + s[13] + s[14] + s[15] + s[16] + s[17] + s[18] + s[19] + s[20] + s[21] + s[22]
            + s[23] + s[24] + s[25] + s[26] + s[27] + s[28] + s[29] + s[30] + s[31] + s[32] + s[33],
{
    lemma_sum_eight(s, 8);
    lemma_sum_eight(s, 16);
    lemma_sum_eight(s, 24);
    lemma_sum_eight(s, 32);
    assert(s.take(0) =~= Seq::<int>::empty());
    lemma_sum_one(s, 33);
    lemma_sum_one(s, 34);
    assert(s.take(34) =~= s);
}

proof fn lemma_sum_one(s: Seq<int>, n: int)
    requires
        0 < n <= s.len(),
    ensures
        sum(s.take(n)) == sum(s.take(n - 1)) + s[n - 1],
{
    assert(s.take(n).drop_last() =~= s.take(n - 1));
}

proof fn lemma_sum_eight(s: Seq<int>, n: int)
    requires
        8 <= n <= s.len(),
    ensures
        sum(s.take(n)) == sum(s.take(n - 8)) + s[n - 8] + s[n - 7] + s[n - 6] + s[n - 5] + s[n - 4] + s[n
            - 3] + s[n - 2] + s[n - 1],
{
    lemma_sum_one(s, n);
    lemma_sum_one(s, n - 1);
    lemma_sum_one(s, n - 2);
    lemma_sum_one(s, n - 3);
    lemma_sum_one(s, n - 4);
    lemma_sum_one(s, n - 5);
    lemma_sum_one(s, n - 6);
    lemma_sum_one(s, n - 7);
}

} // verus!
