//! Kernel election of the paged attention layers.
use vstd::prelude::*;
use crate::arith::{area, ceil_div, div_ceil, groups, groups256, max, min, MAX_ROWS};
use crate::program::{
    kernel, list1, list2, list3, list4, list6, list8, list9, Buffer, Plane, Program, RowSpan, Step,
};
use crate::qwen35::geometry::Geometry;
use crate::qwen35::graph::{attention_shaped, covers, FullAttention, Graph, MAX_SPLITS};

verus! {

/// Bit pattern of one sixteenth, the head-256 softmax scale.
pub const SIXTEENTH: u32 = 0x3d80_0000;

/// Bytes of four partial results per row and head.
pub open spec fn append_bytes(rows: int, heads: int) -> int {
    rows * heads * 4 * 258 * 4
}

/// Whether an append is split into four partitions: it must be neither tiny
/// nor wide, see enough of the cache, and fit the partial-result storage.
pub open spec fn splits_append(rows: int, visible_kv: int, workspace_bytes: int, heads: int) -> bool {
    &&& 16 <= rows <= 128
    &&& visible_kv >= 256
    &&& workspace_bytes >= append_bytes(rows, heads)
}

pub fn split_append(rows: usize, visible_kv: usize, workspace_bytes: u64, heads: usize) -> (r: bool)
    ensures
        r == splits_append(rows as int, visible_kv as int, workspace_bytes as int, heads as int),
{
    if rows < 16 || rows > 128 || visible_kv < 256 {
        return false;
    }
    proof {
        assert(rows * (heads * 4128) == rows * heads * 4 * 258 * 4) by (nonlinear_arith);
        assert(rows * (heads * 4128) <= 128 * (heads * 4128)) by (nonlinear_arith)
            requires
                rows <= 128,
        ;
    }
    let need: u128 = rows as u128 * (heads as u128 * 4128);
    workspace_bytes as u128 >= need
}

/// What one tick asks of an attention layer.
#[derive(Clone, Copy, Debug, PartialEq, Eq, Structural)]
pub struct Load {
    /// Rows of the tick.
    pub rows: usize,
    /// Append tiles of up to 32 rows.
    pub tiles: usize,
    /// Rows that decode alone.
    pub decode_rows: usize,
    /// Grouped decode tiles of up to eight rows.
    pub long_tiles: usize,
    /// The longest visible cache of a decode row.
    pub decode_length: usize,
    /// The longest visible cache of an append tile.
    pub append_length: usize,
    /// No live slot holds an image.
    pub text_only: bool,
}

impl Graph {
    pub open spec fn rope_params(&self) -> Seq<u32> {
        seq![
            self.geometry.heads as u32,
            self.geometry.kv_heads as u32,
            self.page_stride as u32,
            self.rope,
            self.eps,
            self.rotary as u32,
        ]
    }

    /// The routed shape keeps full-precision attention operands.
    pub open spec fn strict_attention(&self) -> bool {
        self.geometry.is_moe()
    }

    /// Indexed page traversal is qualified on one shape and device only.
    pub open spec fn indexed(&self) -> bool {
        self.accelerated && self.geometry == Geometry::dense_27b()
    }

    pub open spec fn query_bytes(&self, tiles: int) -> int {
        tiles * (self.geometry.heads * 16384)
    }

    /// Six query heads share one cache page where the scratch covers every
    /// padded tile.
    pub open spec fn groups_queries(&self, load: Load) -> bool {
        &&& self.affine_prefill()
        &&& self.indexed()
        &&& load.append_length >= 256
        &&& !self.verifying
        &&& load.text_only
        &&& self.scratch.gemm.len >= self.query_bytes(load.tiles as int)
    }

    /// A softmax tree never depends on another request: pinned lanes keep one
    /// partition, the packed lane always has four.
    pub open spec fn partitions(&self, load: Load) -> bool {
        self.splash || (!self.affine_prefill() && splits_append(
            load.rows as int,
            load.append_length as int,
            self.scratch.attn_parts.len as int,
            self.geometry.heads as int,
        ))
    }

    /// Bytes of prepared storage that the append tiles overwrite.
    pub open spec fn append_storage(&self, load: Load) -> int {
        load.tiles * (self.geometry.heads * (if self.partitions(load) { 4int } else { 1 }) * (
        if self.splash { 64int } else { 32 }) * 256 * (if self.strict_attention() { 4int } else { 2 }))
    }

    /// The storage that an attention layer borrows is large enough.
    pub open spec fn attention_fits(&self, load: Load) -> bool {
        let s = self.scratch;
        let heads = self.geometry.heads;
        let kv_heads = self.geometry.kv_heads;
        let parts = self.lanes.decode_parts;
        &&& load.tiles > 0 && (!self.mlx || self.splash) ==> s.prepared.len >= self.append_storage(load)
        &&& load.tiles > 0 && self.splash ==> s.gemm.len >= self.query_bytes(load.tiles as int)
        &&& load.long_tiles > 0 ==> {
            &&& self.splash
            &&& s.gemm.len >= load.long_tiles * (8 * heads * 256 * 2)
            &&& s.prepared.len >= load.long_tiles * (kv_heads * parts * 64 * 256 * 2)
            &&& s.attn_parts.len >= load.long_tiles * (8 * heads * parts * 258 * 4)
        }
    }

    pub open spec fn load_wf(&self, load: Load) -> bool {
        &&& 1 <= load.rows <= self.row_capacity
        &&& load.tiles <= load.rows
        &&& load.decode_rows <= load.rows
        &&& load.long_tiles <= load.rows
        &&& self.attention_fits(load)
    }

    /// Project, normalise and rotate the queries, and store keys and values.
    pub open spec fn store_steps(
        &self,
        p: Seq<Step>,
        w: FullAttention,
        m: usize,
        spans: Seq<RowSpan>,
    ) -> Seq<Step> {
        let s = self.scratch;
        let g = self.geometry;
        self.project_steps(
            p,
            seq![
                Plane { weight: w.q, out: s.qraw },
                Plane { weight: w.k, out: s.k },
                Plane { weight: w.v, out: s.v },
            ],
            s.norm,
            m,
            s.gemm,
            spans,
        ).push(
            kernel(
                if self.mlx { "mlx_qnorm_rope"@ } else { "qwen_qnorm_rope"@ },
                seq![s.qraw, w.q_norm.buffer, s.mrope, s.q],
                self.rope_params(),
                (g.heads as int, m as int, 1),
                32,
            ),
        ).push(
            kernel(
                if self.mlx { "mlx_knorm_store"@ } else { "qwen_knorm_store"@ },
                seq![s.k, s.v, w.k_norm.buffer, s.meta, s.pages, w.keys, w.values, s.mrope],
                self.rope_params(),
                (g.kv_heads as int, m as int, 1),
                32,
            ),
        )
    }

    pub open spec fn prefill_name(&self, load: Load) -> Seq<char> {
        let split = self.partitions(load);
        let strict = self.strict_attention();
        if self.groups_queries(load) {
            "mlx_attention_prefill_gqa"@
        } else if self.splash {
            "splash_attention_prefill_grouped"@
        } else if self.mlx && split {
            "mlx_attention_prefill_split"@
        } else if self.mlx && load.append_length >= 256 {
            if self.indexed() {
                "mlx_attention_prefill_indexed"@
            } else {
                "mlx_attention_prefill_direct"@
            }
        } else if self.mlx {
            "mlx_attention_prefill"@
        } else if strict && split {
            "qwen_attention_prefill_split_strict"@
        } else if strict {
            "qwen_attention_prefill_strict"@
        } else if split {
            "qwen_attention_prefill_split"@
        } else {
            "qwen_attention_prefill"@
        }
    }

    /// Stage the queries of append tiles.
    pub open spec fn query_steps(&self, p: Seq<Step>, load: Load) -> Seq<Step> {
        let s = self.scratch;
        let heads = self.geometry.heads;
        if self.splash || self.groups_queries(load) {
            p.push(
                kernel(
                    if self.groups_queries(load) {
                        "mlx_attention_query_grouped"@
                    } else {
                        "splash_attention_query_grouped"@
                    },
                    seq![s.q, s.gemm, s.attn_tiles],
                    seq![load.tiles as u32],
                    (load.tiles * (32 * heads), 1, 1),
                    256,
                ),
            )
        } else if !self.strict_attention() {
            p.push(
                kernel(
                    if self.mlx { "mlx_attention_query"@ } else { "attention_query"@ },
                    seq![s.q, s.gemm],
                    seq![(heads * 256) as u32, 0u32, load.rows as u32],
                    (groups(load.rows + 32, heads * 256), 1, 1),
                    256,
                ),
            )
        } else {
            p
        }
    }

    pub open spec fn append_steps(&self, p: Seq<Step>, w: FullAttention, load: Load) -> Seq<Step> {
        let s = self.scratch;
        let g = self.geometry;
        let grouped = self.groups_queries(load);
        let split = self.partitions(load);
        let shared = seq![
            if self.strict_attention() { s.q } else { s.gemm },
            w.keys,
            w.values,
            s.meta,
            s.pages,
            if split { s.attn_parts } else { s.attn },
            s.attn_tiles,
            s.limits,
        ];
        let p = self.query_steps(p, load).push(
            kernel(
                self.prefill_name(load),
                if self.mlx && !self.splash { shared } else { shared.push(s.prepared) },
                seq![g.heads as u32, g.kv_heads as u32, self.page_stride as u32, SIXTEENTH],
                if grouped {
                    (g.kv_heads as int, load.tiles * 4, 1)
                } else if self.splash {
                    (g.kv_heads as int, load.tiles * 4, 4)
                } else {
                    (g.heads as int, load.tiles as int, if split { 4int } else { 1 })
                },
                if self.splash || grouped { 256int } else { 128 },
            ),
        );
        if split {
            p.push(
                kernel(
                    "qwen_attention_prefill_join"@,
                    seq![s.attn_parts, s.attn, s.attn_tiles],
                    seq![g.heads as u32],
                    (g.heads as int, load.tiles as int, 32),
                    32,
                ),
            )
        } else {
            p
        }
    }

    /// Peers that a decode row's reduction may count. Pinned lanes keep the
    /// single-stream floor.
    pub open spec fn decode_live(&self, decode_rows: int) -> int {
        if self.splash || self.affine_prefill() {
            1
        } else if self.mlx && self.verifying {
            (self.spec->0).live as int
        } else {
            decode_rows
        }
    }

    pub open spec fn decode_splits(&self, load: Load) -> int {
        let live = self.decode_live(load.decode_rows as int);
        min(
            max(max(ceil_div(load.decode_length as int, 128), ceil_div(16, live)), 1),
            MAX_SPLITS as int,
        )
    }

    pub open spec fn decode_attention_name(&self) -> Seq<char> {
        if self.affine_prefill() {
            "mlx_attention_stable"@
        } else if self.mlx && self.verifying {
            "mlx_attention_verify"@
        } else if self.mlx {
            "mlx_attention_decode"@
        } else {
            self.geometry.decode_name()
        }
    }

    pub open spec fn decode_steps(&self, p: Seq<Step>, w: FullAttention, load: Load) -> Seq<Step> {
        let s = self.scratch;
        let g = self.geometry;
        let live = self.decode_live(load.decode_rows as int);
        let splits = self.decode_splits(load);
        p.push(
            kernel(
                self.decode_attention_name(),
                seq![s.q, w.keys, w.values, s.meta, s.pages, s.decode_rows, s.attn_parts, s.limits],
                seq![
                    g.heads as u32,
                    g.kv_heads as u32,
                    self.page_stride as u32,
                    SIXTEENTH,
                    splits as u32,
                    ceil_div(16, live) as u32,
                ],
                (g.kv_heads as int, load.decode_rows as int, splits),
                128,
            ),
        ).push(
            kernel(
                "qwen_attention_merge"@,
                seq![s.attn_parts, s.attn, s.decode_rows],
                seq![g.heads as u32, splits as u32],
                (load.decode_rows * g.heads, 1, 1),
                32,
            ),
        )
    }

    pub open spec fn long_steps(&self, p: Seq<Step>, w: FullAttention, long_tiles: usize) -> Seq<Step> {
        let s = self.scratch;
        let g = self.geometry;
        p.push(
            kernel(
                "splash_attention_query_decode"@,
                seq![s.q, s.gemm, s.long_decode_tiles],
                seq![long_tiles as u32],
                (long_tiles * (8 * g.heads), 1, 1),
                256,
            ),
        ).push(
            kernel(
                "splash_attention_decode_grouped"@,
                seq![
                    s.gemm,
                    w.keys,
                    w.values,
                    s.meta,
                    s.pages,
                    s.attn_parts,
                    s.long_decode_tiles,
                    s.limits,
                    s.prepared,
                ],
                seq![g.heads as u32, g.kv_heads as u32, self.page_stride as u32, SIXTEENTH],
                (g.kv_heads as int, long_tiles as int, self.lanes.decode_parts as int),
                256,
            ),
        ).push(
            kernel(
                "splash_attention_decode_join"@,
                seq![s.attn_parts, s.attn, s.long_decode_tiles],
                seq![g.heads as u32],
                (g.heads as int, long_tiles as int, 8),
                32,
            ),
        )
    }

    pub open spec fn attention_steps(
        &self,
        p: Seq<Step>,
        w: FullAttention,
        load: Load,
        spans: Seq<RowSpan>,
    ) -> Seq<Step> {
        let s = self.scratch;
        let heads = self.geometry.heads;
        let p = self.store_steps(p, w, load.rows, spans);
        let p = if load.tiles > 0 { self.append_steps(p, w, load) } else { p };
        let p = if load.decode_rows > 0 { self.decode_steps(p, w, load) } else { p };
        let p = if load.long_tiles > 0 { self.long_steps(p, w, load.long_tiles) } else { p };
        let p = p.push(
            kernel(
                if self.mlx { "mlx_attn_gate"@ } else { "qwen_attn_gate"@ },
                seq![s.attn, s.qraw],
                seq![(load.rows * (heads * 256)) as u32],
                (groups(load.rows as int, heads * 256), 1, 1),
                256,
            ),
        );
        self.project_steps(
            p,
            seq![Plane { weight: w.o, out: s.delta }],
            s.attn,
            load.rows,
            s.gemm,
            spans,
        )
    }

    /// The attention layer of the native ternary lane.
    pub open spec fn ternary_attention_steps(
        &self,
        p: Seq<Step>,
        w: FullAttention,
        load: Load,
        spans: Seq<RowSpan>,
    ) -> Seq<Step> {
        let s = self.scratch;
        let rows = load.rows;
        let params = seq![24u32, 4u32, self.page_stride as u32, self.rope, self.eps, self.rotary as u32];
        let p = self.project_steps(
            p,
            seq![
                Plane { weight: w.q, out: s.qraw },
                Plane { weight: w.k, out: s.k },
                Plane { weight: w.v, out: s.v },
            ],
            s.norm,
            rows,
            s.gemm,
            spans,
        ).push(
            kernel(
                "qwen_qnorm_rope"@,
                seq![s.qraw, w.q_norm.buffer, s.mrope, s.q],
                params,
                (24, rows as int, 1),
                32,
            ),
        ).push(
            kernel(
                "bonsai_knorm_store"@,
                seq![s.k, s.v, w.k_norm.buffer, s.meta, s.pages, w.keys, w.values, s.mrope],
                params,
                (4, rows as int, 1),
                32,
            ),
        );
        let p = if load.tiles > 0 {
            p.push(
                kernel(
                    "bonsai_attention_prefill"@,
                    seq![s.q, w.keys, w.values, s.meta, s.pages, s.attn, s.attn_tiles, s.limits],
                    seq![24u32, 4u32, self.page_stride as u32, SIXTEENTH],
                    (24, load.tiles as int, 1),
                    128,
                ),
            )
        } else {
            p
        };
        let splits = min(max(ceil_div(load.decode_length as int, 128), 16), MAX_SPLITS as int);
        let p = if load.decode_rows > 0 {
            p.push(
                kernel(
                    "bonsai_attention_decode"@,
                    seq![s.q, w.keys, w.values, s.meta, s.pages, s.decode_rows, s.attn_parts, s.limits],
                    seq![24u32, 4u32, self.page_stride as u32, SIXTEENTH, splits as u32, 16u32],
                    (4, load.decode_rows as int, splits),
                    128,
                ),
            ).push(
                kernel(
                    "qwen_attention_merge"@,
                    seq![s.attn_parts, s.attn, s.decode_rows],
                    seq![24u32, splits as u32],
                    (load.decode_rows * 24, 1, 1),
                    32,
                ),
            )
        } else {
            p
        };
        let p = p.push(
            kernel(
                "qwen_attn_gate"@,
                seq![s.attn, s.qraw],
                seq![(rows * 6144) as u32],
                (groups(rows as int, 6144), 1, 1),
                256,
            ),
        );
        self.project_steps(p, seq![Plane { weight: w.o, out: s.delta }], s.attn, rows, s.gemm, spans)
    }

    pub open spec fn full_attention_steps(
        &self,
        p: Seq<Step>,
        w: FullAttention,
        load: Load,
        spans: Seq<RowSpan>,
    ) -> Seq<Step> {
        if self.bonsai is Some {
            self.ternary_attention_steps(p, w, load, spans)
        } else {
            self.attention_steps(p, w, load, spans)
        }
    }

    fn store(&self, cmd: &mut Program, w: FullAttention, m: usize, spans: &Vec<RowSpan>)
        requires
            self.wf(),
            attention_shaped(self.geometry, w),
            1 <= m <= self.row_capacity,
            self.bonsai is None,
        ensures
            final(cmd)@ == self.store_steps(old(cmd)@, w, m, spans@),
    {
        let s = self.scratch;
        let g = self.geometry;
        let planes = list3(
            Plane { weight: w.q, out: s.qraw },
            Plane { weight: w.k, out: s.k },
            Plane { weight: w.v, out: s.v },
        );
        self.project(cmd, planes, s.norm, m, s.gemm, spans);
        cmd.dispatch(
            if self.mlx { "mlx_qnorm_rope" } else { "qwen_qnorm_rope" },
            list4(s.qraw, w.q_norm.buffer, s.mrope, s.q),
            list6(
                g.heads as u32,
                g.kv_heads as u32,
                self.page_stride as u32,
                self.rope,
                self.eps,
                self.rotary as u32,
            ),
            (g.heads, m, 1),
            32,
        );
        cmd.dispatch(
            if self.mlx { "mlx_knorm_store" } else { "qwen_knorm_store" },
            list8(s.k, s.v, w.k_norm.buffer, s.meta, s.pages, w.keys, w.values, s.mrope),
            list6(
                g.heads as u32,
                g.kv_heads as u32,
                self.page_stride as u32,
                self.rope,
                self.eps,
                self.rotary as u32,
            ),
            (g.kv_heads, m, 1),
            32,
        );
    }

    fn grouped_queries(&self, load: Load) -> (r: bool)
        requires
            self.wf(),
            self.load_wf(load),
        ensures
            r == self.groups_queries(load),
    {
        proof {
            crate::arith::lemma_product_bound(
                load.tiles as int,
                self.geometry.heads * 16384,
                0x1_0000,
                393216,
            );
        }
        let heads: u64 = self.geometry.heads as u64;
        self.stable_affine_contract() && self.accelerated && self.geometry == Geometry::dense_27b()
            && load.append_length >= 256 && !self.verifying && load.text_only
            && self.scratch.gemm.len >= load.tiles as u64 * (heads * 16384)
    }

    fn partitioned(&self, load: Load) -> (r: bool)
        ensures
            r == self.partitions(load),
    {
        self.splash || (!self.stable_affine_contract() && split_append(
            load.rows,
            load.append_length,
            self.scratch.attn_parts.len,
            self.geometry.heads,
        ))
    }

    fn append(&self, cmd: &mut Program, w: FullAttention, load: Load)
        requires
            self.wf(),
            self.load_wf(load),
            self.bonsai is None,
            load.tiles > 0,
        ensures
            final(cmd)@ == self.append_steps(old(cmd)@, w, load),
    {
        let s = self.scratch;
        let g = self.geometry;
        let heads: usize = g.heads;
        let grouped = self.grouped_queries(load);
        let split = self.partitioned(load);
        let strict = g.moe();
        let indexed = self.accelerated && g == Geometry::dense_27b();
        if self.splash || grouped {
            cmd.dispatch(
                if grouped { "mlx_attention_query_grouped" } else { "splash_attention_query_grouped" },
                list3(s.q, s.gemm, s.attn_tiles),
                list1(load.tiles as u32),
                (area(load.tiles, 32 * heads), 1, 1),
                256,
            );
        } else if !strict {
            cmd.dispatch(
                if self.mlx { "mlx_attention_query" } else { "attention_query" },
                list2(s.q, s.gemm),
                list3((heads * 256) as u32, 0, load.rows as u32),
                (groups256(load.rows + 32, heads * 256), 1, 1),
                256,
            );
        }
        assert(cmd@ == self.query_steps(old(cmd)@, load));
        let name = if grouped {
            "mlx_attention_prefill_gqa"
        } else if self.splash {
            "splash_attention_prefill_grouped"
        } else if self.mlx && split {
            "mlx_attention_prefill_split"
        } else if self.mlx && load.append_length >= 256 {
            if indexed {
                "mlx_attention_prefill_indexed"
            } else {
                "mlx_attention_prefill_direct"
            }
        } else if self.mlx {
            "mlx_attention_prefill"
        } else if strict && split {
            "qwen_attention_prefill_split_strict"
        } else if strict {
            "qwen_attention_prefill_strict"
        } else if split {
            "qwen_attention_prefill_split"
        } else {
            "qwen_attention_prefill"
        };
        let mut buffers: Vec<Buffer> = list8(
            if strict { s.q } else { s.gemm },
            w.keys,
            w.values,
            s.meta,
            s.pages,
            if split { s.attn_parts } else { s.attn },
            s.attn_tiles,
            s.limits,
        );
        if !(self.mlx && !self.splash) {
            buffers.push(s.prepared);
        }
        cmd.dispatch(
            name,
            buffers,
            list4(heads as u32, g.kv_heads as u32, self.page_stride as u32, SIXTEENTH),
            if grouped {
                (g.kv_heads, load.tiles * 4, 1)
            } else if self.splash {
                (g.kv_heads, load.tiles * 4, 4)
            } else {
                (heads, load.tiles, if split { 4 } else { 1 })
            },
            if self.splash || grouped { 256 } else { 128 },
        );
        if split {
            cmd.dispatch(
                "qwen_attention_prefill_join",
                list3(s.attn_parts, s.attn, s.attn_tiles),
                list1(heads as u32),
                (heads, load.tiles, 32),
                32,
            );
        }
    }

    fn decode(&self, cmd: &mut Program, w: FullAttention, load: Load)
        requires
            self.wf(),
            self.load_wf(load),
            load.decode_rows > 0,
        ensures
            final(cmd)@ == self.decode_steps(old(cmd)@, w, load),
    {
        let s = self.scratch;
        let g = self.geometry;
        let stable = self.stable_affine_prefill();
        let live: usize = if self.splash || stable {
            1
        } else if self.mlx && self.verifying {
            self.spec.unwrap().live
        } else {
            load.decode_rows
        };
        let floor: usize = div_ceil(16, live);
        let mut splits: usize = div_ceil(load.decode_length, 128);
        if floor > splits {
            splits = floor;
        }
        if splits < 1 {
            splits = 1;
        }
        if splits > MAX_SPLITS {
            splits = MAX_SPLITS;
        }
        let name = if stable {
            "mlx_attention_stable"
        } else if self.mlx && self.verifying {
            "mlx_attention_verify"
        } else if self.mlx {
            "mlx_attention_decode"
        } else {
            g.decode_kernel()
        };
        cmd.dispatch(
            name,
            list8(s.q, w.keys, w.values, s.meta, s.pages, s.decode_rows, s.attn_parts, s.limits),
            list6(
                g.heads as u32,
                g.kv_heads as u32,
                self.page_stride as u32,
                SIXTEENTH,
                splits as u32,
                floor as u32,
            ),
            (g.kv_heads, load.decode_rows, splits),
            128,
        );
        cmd.dispatch(
            "qwen_attention_merge",
            list3(s.attn_parts, s.attn, s.decode_rows),
            list2(g.heads as u32, splits as u32),
            (area(load.decode_rows, g.heads), 1, 1),
            32,
        );
    }

    fn long(&self, cmd: &mut Program, w: FullAttention, long_tiles: usize)
        requires
            self.wf(),
            long_tiles <= MAX_ROWS,
        ensures
            final(cmd)@ == self.long_steps(old(cmd)@, w, long_tiles),
    {
        let s = self.scratch;
        let g = self.geometry;
        cmd.dispatch(
            "splash_attention_query_decode",
            list3(s.q, s.gemm, s.long_decode_tiles),
            list1(long_tiles as u32),
            (area(long_tiles, 8 * g.heads), 1, 1),
            256,
        );
        cmd.dispatch(
            "splash_attention_decode_grouped",
            list9(
                s.gemm,
                w.keys,
                w.values,
                s.meta,
                s.pages,
                s.attn_parts,
                s.long_decode_tiles,
                s.limits,
                s.prepared,
            ),
            list4(g.heads as u32, g.kv_heads as u32, self.page_stride as u32, SIXTEENTH),
            (g.kv_heads, long_tiles, self.lanes.decode_parts),
            256,
        );
        cmd.dispatch(
            "splash_attention_decode_join",
            list3(s.attn_parts, s.attn, s.long_decode_tiles),
            list1(g.heads as u32),
            (g.heads, long_tiles, 8),
            32,
        );
    }

    /// One attention layer over the rows of a tick.
    pub fn full_attention(
        &self,
        cmd: &mut Program,
        w: FullAttention,
        load: Load,
        spans: &Vec<RowSpan>,
    )
        requires
            self.wf(),
            self.load_wf(load),
            attention_shaped(self.geometry, w),
            self.bonsai is Some && spans.len() > 0 ==> covers(spans@, load.rows as int),
        ensures
            final(cmd)@ == self.full_attention_steps(old(cmd)@, w, load, spans@),
    {
        if self.bonsai.is_some() {
            self.bonsai_attention(cmd, w, load, spans);
            return;
        }
        let s = self.scratch;
        let heads: usize = self.geometry.heads;
        self.store(cmd, w, load.rows, spans);
        if load.tiles > 0 {
            self.append(cmd, w, load);
        }
        if load.decode_rows > 0 {
            self.decode(cmd, w, load);
        }
        if load.long_tiles > 0 {
            self.long(cmd, w, load.long_tiles);
        }
        cmd.dispatch(
            if self.mlx { "mlx_attn_gate" } else { "qwen_attn_gate" },
            list2(s.attn, s.qraw),
            list1(area(load.rows, heads * 256) as u32),
            (groups256(load.rows, heads * 256), 1, 1),
            256,
        );
        self.project(
            cmd,
            list1(Plane { weight: w.o, out: s.delta }),
            s.attn,
            load.rows,
            s.gemm,
            spans,
        );
    }

    /// The attention layer of the native ternary lane, which stores its cache
    /// in full precision.
    pub fn bonsai_attention(
        &self,
        cmd: &mut Program,
        w: FullAttention,
        load: Load,
        spans: &Vec<RowSpan>,
    )
        requires
            self.wf(),
            self.bonsai is Some,
            1 <= load.rows <= self.row_capacity,
            load.decode_rows <= load.rows,
            attention_shaped(self.geometry, w),
            spans.len() > 0 ==> covers(spans@, load.rows as int),
        ensures
            final(cmd)@ == self.ternary_attention_steps(old(cmd)@, w, load, spans@),
    {
        let s = self.scratch;
        let rows: usize = load.rows;
        let planes = list3(
            Plane { weight: w.q, out: s.qraw },
            Plane { weight: w.k, out: s.k },
            Plane { weight: w.v, out: s.v },
        );
        self.project(cmd, planes, s.norm, rows, s.gemm, spans);
        cmd.dispatch(
            "qwen_qnorm_rope",
            list4(s.qraw, w.q_norm.buffer, s.mrope, s.q),
            list6(24, 4, self.page_stride as u32, self.rope, self.eps, self.rotary as u32),
            (24, rows, 1),
            32,
        );
        cmd.dispatch(
            "bonsai_knorm_store",
            list8(s.k, s.v, w.k_norm.buffer, s.meta, s.pages, w.keys, w.values, s.mrope),
            list6(24, 4, self.page_stride as u32, self.rope, self.eps, self.rotary as u32),
            (4, rows, 1),
            32,
        );
        if load.tiles > 0 {
            cmd.dispatch(
                "bonsai_attention_prefill",
                list8(s.q, w.keys, w.values, s.meta, s.pages, s.attn, s.attn_tiles, s.limits),
                list4(24, 4, self.page_stride as u32, SIXTEENTH),
                (24, load.tiles, 1),
                128,
            );
        }
        if load.decode_rows > 0 {
            let mut splits: usize = div_ceil(load.decode_length, 128);
            if splits < 16 {
                splits = 16;
            }
            if splits > MAX_SPLITS {
                splits = MAX_SPLITS;
            }
            cmd.dispatch(
                "bonsai_attention_decode",
                list8(s.q, w.keys, w.values, s.meta, s.pages, s.decode_rows, s.attn_parts, s.limits),
                list6(24, 4, self.page_stride as u32, SIXTEENTH, splits as u32, 16),
                (4, load.decode_rows, splits),
                128,
            );
            cmd.dispatch(
                "qwen_attention_merge",
                list3(s.attn_parts, s.attn, s.decode_rows),
                list2(24, splits as u32),
                (area(load.decode_rows, 24), 1, 1),
                32,
            );
        }
        cmd.dispatch(
            "qwen_attn_gate",
            list2(s.attn, s.qraw),
            list1(area(rows, 6144) as u32),
            (groups256(rows, 6144), 1, 1),
            256,
        );
        self.project(cmd, list1(Plane { weight: w.o, out: s.delta }), s.attn, rows, s.gemm, spans);
    }
}

/// On the packed lane and where prompt reductions are pinned, the shape of a
/// softmax never depends on the peers of a sequence: two ticks that see as
/// much of the cache partition their appends and split their decode rows
/// alike, however many rows they have.
pub proof fn pinned_reductions_ignore_peers(g: &Graph, a: Load, b: Load)
    requires
        g.splash || g.affine_prefill(),
    ensures
        g.partitions(a) == g.partitions(b),
        g.partitions(a) == g.splash,
        g.decode_live(a.decode_rows as int) == g.decode_live(b.decode_rows as int),
        a.decode_length == b.decode_length ==> g.decode_splits(a) == g.decode_splits(b),
        a.decode_length <= b.decode_length ==> g.decode_splits(a) <= g.decode_splits(b),
{
    if a.decode_length <= b.decode_length {
        vstd::arithmetic::div_mod::lemma_div_is_ordered(
            a.decode_length + 127,
            b.decode_length + 127,
            128,
        );
    }
}

} // verus!
