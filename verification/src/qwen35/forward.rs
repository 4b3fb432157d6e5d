//! One tick through every layer: what is uploaded, what runs, and what a
//! finished tick publishes.
use vstd::prelude::*;
use crate::arith::{area, ceil_div, div_ceil, groups, groups256, min, MAX_ROWS, ONE};
use crate::program::{
    kernel, list1, list2, list3, list4, list5, list6, list7, planes as planes_step, Buffer, Plane,
    Program, Route, RowSpan, Step, Weight,
};
use crate::qwen35::attention::Load;
use crate::qwen35::geometry::{Geometry, KEY_HEADS};
use crate::qwen35::graph::{covers, DeltaNet, Graph, Layer, Mixer, CHUNK};
use crate::qwen35::multimodal::{images_steps, inject_images, SlotImage};
use crate::rows::Row;

verus! {

/// Equal neighbours joined into spans, from row zero.
pub open spec fn role_spans(roles: Seq<usize>) -> Seq<RowSpan>
    decreases roles.len(),
{
    if roles.len() == 0 {
        Seq::empty()
    } else {
        let before = role_spans(roles.drop_last());
        if before.len() > 0 && before.last().role == roles.last() {
            before.drop_last().push(
                RowSpan {
                    first: before.last().first,
                    count: (before.last().count + 1) as usize,
                    role: roles.last(),
                },
            )
        } else {
            before.push(RowSpan { first: (roles.len() - 1) as usize, count: 1, role: roles.last() })
        }
    }
}

/// Row spans cover their rows in order, and every row keeps its role: a row's
/// arithmetic never depends on who shares its tick.
pub proof fn role_spans_cover(roles: Seq<usize>)
    requires
        roles.len() <= MAX_ROWS,
        forall|i: int| 0 <= i < roles.len() ==> #[trigger] roles[i] == 1 || roles[i] == CHUNK,
    ensures
        covers(role_spans(roles), roles.len() as int),
        roles.len() > 0 ==> role_spans(roles).len() > 0 && role_spans(roles).last().role == roles.last(),
        forall|k: int, r: int|
            0 <= k < role_spans(roles).len() && (#[trigger] role_spans(roles)[k]).first <= r
                < role_spans(roles)[k].first + role_spans(roles)[k].count ==> role_spans(roles)[k].role
                == #[trigger] roles[r],
    decreases roles.len(),
{
    if roles.len() > 0 {
        let shorter = roles.drop_last();
        assert forall|i: int| 0 <= i < shorter.len() implies #[trigger] shorter[i] == 1 || shorter[i]
            == CHUNK by {
            assert(shorter[i] == roles[i]);
        }
        role_spans_cover(shorter);
        let before = role_spans(shorter);
        let after = role_spans(roles);
        let n = roles.len() as int;
        if before.len() > 0 && before.last().role == roles.last() {
            assert(after.drop_last() =~= before.drop_last());
            assert forall|k: int, r: int|
                0 <= k < after.len() && (#[trigger] after[k]).first <= r < after[k].first + after[k].count
                implies after[k].role == #[trigger] roles[r] by {
                if k < after.len() - 1 {
                    assert(after[k] == before[k]);
                    lemma_span_inside(before, shorter.len() as int, k);
                    assert(before[k].role == shorter[r]);
                } else if r < n - 1 {
                    assert(before[before.len() - 1].role == shorter[r]);
                }
            }
        } else {
            assert(after.drop_last() =~= before);
            assert forall|k: int, r: int|
                0 <= k < after.len() && (#[trigger] after[k]).first <= r < after[k].first + after[k].count
                implies after[k].role == #[trigger] roles[r] by {
                if k < after.len() - 1 {
                    assert(after[k] == before[k]);
                    lemma_span_inside(before, shorter.len() as int, k);
                    assert(before[k].role == shorter[r]);
                }
            }
        }
    }
}

proof fn lemma_span_inside(spans: Seq<RowSpan>, rows: int, i: int)
    requires
        covers(spans, rows),
        0 <= i < spans.len(),
    ensures
        spans[i].first + spans[i].count <= rows,
    decreases spans.len(),
{
    if i < spans.len() - 1 {
        lemma_span_inside(spans.drop_last(), spans.last().first as int, i);
    }
}

pub fn join_roles(roles: &Vec<usize>) -> (r: Vec<RowSpan>)
    requires
        roles.len() <= MAX_ROWS,
    ensures
        r@ == role_spans(roles@),
{
    let mut spans: Vec<RowSpan> = Vec::new();
    let mut n: usize = 0;
    assert(roles@.take(0) =~= Seq::<usize>::empty());
    while n < roles.len()
        invariant
            n <= roles.len(),
            roles.len() <= MAX_ROWS,
            spans@ == role_spans(roles@.take(n as int)),
            spans.len() > 0 ==> spans[spans.len() - 1].count <= n,
        decreases roles.len() - n,
    {
        let role: usize = roles[n];
        proof {
            assert(roles@.take(n + 1).drop_last() =~= roles@.take(n as int));
            assert(roles@.take(n + 1).last() == role);
        }
        if spans.len() > 0 && spans[spans.len() - 1].role == role {
            let last = spans[spans.len() - 1];
            let joined = RowSpan { first: last.first, count: last.count + 1, role };
            let at: usize = spans.len() - 1;
            let ghost before = spans@;
            spans.set(at, joined);
            assert(spans@ =~= before.drop_last().push(joined));
        } else {
            spans.push(RowSpan { first: n, count: 1, role });
        }
        n = n + 1;
    }
    assert(roles@.take(roles.len() as int) =~= roles@);
    spans
}

/// What one tick runs, besides its row plan.
#[derive(Debug)]
pub struct Tick {
    pub rows: Vec<Row>,
    pub selected: usize,
    pub sequences: usize,
    /// Some sequence has at least a tile of rows.
    pub wide: bool,
    pub chunks: usize,
    pub load: Load,
    /// The longest visible cache of any row.
    pub length: usize,
    pub images: Vec<SlotImage>,
    pub spans: Vec<RowSpan>,
    /// Layers whose feed-forward takes the compact prompt route.
    pub compact: Vec<bool>,
    /// Saved prefixes: from which state to which.
    pub copies: Vec<(usize, usize)>,
}

impl Graph {
    pub open spec fn norm_threads(&self) -> int {
        if self.mlx { min(ceil_div(self.geometry.width as int, 128) * 32, 1024) } else { 256 }
    }

    /// The name of a normalisation on this graph's lane.
    pub open spec fn lane_name(&self, plain: Seq<char>, mlx: Seq<char>, bonsai: Seq<char>) -> Seq<char> {
        if self.bonsai is Some {
            bonsai
        } else if self.mlx {
            mlx
        } else {
            plain
        }
    }

    fn named(&self, plain: &'static str, mlx: &'static str, bonsai: &'static str) -> (r: &'static str)
        ensures
            r@ == self.lane_name(plain@, mlx@, bonsai@),
    {
        if self.bonsai.is_some() {
            bonsai
        } else if self.mlx {
            mlx
        } else {
            plain
        }
    }

    fn threads(&self) -> (r: usize)
        requires
            self.wf(),
        ensures
            r == self.norm_threads(),
    {
        if self.mlx {
            let n: usize = div_ceil(self.geometry.width, 128) * 32;
            if n < 1024 {
                n
            } else {
                1024
            }
        } else {
            256
        }
    }

    /// Embed the rows, lay image rows over them and normalise.
    pub open spec fn entry_steps(&self, t: Tick) -> Seq<Step> {
        let s = self.scratch;
        let width = self.geometry.width;
        let m = t.rows.len();
        let p = if self.bonsai is Some {
            seq![(self.bonsai->0).embed_step(self.embedding, s.ids, s.x, m)]
        } else if self.ternary {
            seq![
                planes_step(
                    Route::TernaryEmbed,
                    seq![Plane { weight: self.embedding, out: s.x }],
                    s.ids,
                    m as int,
                    s.x,
                    seq![],
                ),
            ]
        } else {
            seq![
                kernel(
                    if self.mlx { "mlx_embed"@ } else { "embed"@ },
                    seq![self.embedding.buffer, s.ids, s.x],
                    seq![
                        width as u32,
                        m as u32,
                        if self.mlx { self.vocab as u32 } else { self.embedding.ty },
                        ONE,
                    ],
                    (groups(m as int, width as int), 1, 1),
                    256,
                ),
            ]
        };
        images_steps(p, t.images@, t.rows@, s.x, width, self.splash).push(
            kernel(
                self.lane_name("rms"@, "mlx_rms"@, "bonsai_rms"@),
                seq![s.x, self.layers[0].norm.buffer, s.norm],
                seq![width as u32, self.layers[0].norm.ty, self.eps],
                (m as int, 1, 1),
                self.norm_threads(),
            ),
        )
    }

    fn entry(&self, t: &Tick) -> (cmd: Program)
        requires
            self.wf(),
            t.wf(self),
        ensures
            cmd@ == self.entry_steps(*t),
    {
        let s = self.scratch;
        let width: usize = self.geometry.width;
        let m: usize = t.rows.len();
        let mut cmd = Program::new();
        if let Some(bonsai) = &self.bonsai {
            bonsai.embed(&mut cmd, self.embedding, s.ids, s.x, m);
        } else if self.ternary {
            cmd.planes(
                Route::TernaryEmbed,
                list1(Plane { weight: self.embedding, out: s.x }),
                s.ids,
                m,
                s.x,
                Vec::new(),
            );
        } else {
            cmd.dispatch(
                if self.mlx { "mlx_embed" } else { "embed" },
                list3(self.embedding.buffer, s.ids, s.x),
                list4(
                    width as u32,
                    m as u32,
                    if self.mlx { self.vocab as u32 } else { self.embedding.ty },
                    ONE,
                ),
                (groups256(m, width), 1, 1),
                256,
            );
        }
        inject_images(&mut cmd, &t.images, &t.rows, s.x, width, self.splash);
        cmd.dispatch(
            self.named("rms", "mlx_rms", "bonsai_rms"),
            list3(s.x, self.layers[0].norm.buffer, s.norm),
            list3(width as u32, self.layers[0].norm.ty, self.eps),
            (m, 1, 1),
            self.threads(),
        );
        cmd
    }

    /// Add the branch to the residual and normalise for the next one.
    pub open spec fn residual_norm(&self, norm: Weight, m: int) -> Step {
        let s = self.scratch;
        kernel(
            self.lane_name("residual_rms"@, "mlx_residual_rms"@, "bonsai_residual_rms"@),
            seq![s.x, s.delta, norm.buffer, s.norm],
            seq![self.geometry.width as u32, norm.ty, self.eps, ONE],
            (m, 1, 1),
            self.norm_threads(),
        )
    }

    fn push_residual_norm(&self, cmd: &mut Program, norm: Weight, m: usize)
        requires
            self.wf(),
        ensures
            final(cmd)@ == old(cmd)@.push(self.residual_norm(norm, m as int)),
    {
        let s = self.scratch;
        cmd.dispatch(
            self.named("residual_rms", "mlx_residual_rms", "bonsai_residual_rms"),
            list4(s.x, s.delta, norm.buffer, s.norm),
            list4(self.geometry.width as u32, norm.ty, self.eps, ONE),
            (m, 1, 1),
            self.threads(),
        );
    }

    pub open spec fn recurrent_params(&self, w: DeltaNet, m: int, last: u32) -> Seq<u32> {
        seq![
            KEY_HEADS as u32,
            self.geometry.value_heads as u32,
            self.geometry.conv_width() as u32,
            m as u32,
            self.state_slots as u32,
            w.index as u32,
            last,
        ]
    }

    fn recurrent_list(&self, w: DeltaNet, m: usize, last: u32) -> (r: Vec<u32>)
        requires
            self.wf(),
        ensures
            r@ == self.recurrent_params(w, m as int, last),
    {
        list7(
            KEY_HEADS as u32,
            self.geometry.value_heads as u32,
            self.geometry.conv() as u32,
            m as u32,
            self.state_slots as u32,
            w.index as u32,
            last,
        )
    }

    /// Projections, convolution and gates of a recurrent layer.
    pub open spec fn recurrent_entry_steps(&self, p: Seq<Step>, w: DeltaNet, t: Tick) -> Seq<Step> {
        let s = self.scratch;
        let g = self.geometry;
        let m = t.rows.len();
        let qkv = Plane { weight: w.qkv, out: s.qkv };
        let z = Plane { weight: w.z, out: s.z };
        let alpha = Plane { weight: w.alpha, out: s.alpha };
        let beta = Plane { weight: w.beta, out: s.beta };
        let params = self.recurrent_params(w, m as int, 0);
        let plain = self.mlx && self.bonsai is None;
        let p = if self.mlx {
            self.project_steps(p, seq![qkv, z, alpha, beta], s.norm, m, s.gemm, t.spans@)
        } else {
            self.project_steps(
                self.project_steps(p, seq![qkv, z], s.norm, m, s.gemm, t.spans@),
                seq![alpha, beta],
                s.norm,
                m,
                s.gemm,
                t.spans@,
            )
        };
        p.push(
            kernel(
                if plain { "mlx_dn_conv"@ } else { "dn_conv"@ },
                seq![s.qkv, w.conv.buffer, self.conv, s.meta, s.bounds, s.convolved],
                params,
                (groups(m as int, g.conv_width()), 1, 1),
                256,
            ),
        ).push(
            kernel(
                self.lane_name("dn_qk_norm"@, "mlx_dn_qk_norm"@, "bonsai_dn_qk_norm"@),
                seq![s.convolved],
                params,
                (32, m as int, 1),
                32,
            ),
        ).push(
            kernel(
                if plain { "mlx_dn_gates"@ } else { "dn_gates"@ },
                seq![s.alpha, s.beta, w.a.buffer, w.dt.buffer, s.gates],
                params,
                (groups(m as int, g.value_heads as int), 1, 1),
                256,
            ),
        )
    }

    fn recurrent_entry(&self, cmd: &mut Program, w: DeltaNet, t: &Tick)
        requires
            self.wf(),
            t.wf(self),
            crate::qwen35::graph::recurrent_shaped(self.geometry, w),
        ensures
            final(cmd)@ == self.recurrent_entry_steps(old(cmd)@, w, *t),
    {
        let s = self.scratch;
        let g = self.geometry;
        let m: usize = t.rows.len();
        let qkv = Plane { weight: w.qkv, out: s.qkv };
        let z = Plane { weight: w.z, out: s.z };
        let alpha = Plane { weight: w.alpha, out: s.alpha };
        let beta = Plane { weight: w.beta, out: s.beta };
        let plain = self.mlx && self.bonsai.is_none();
        if self.mlx {
            let four = list4(qkv, z, alpha, beta);
            assert(!crate::qwen35::projection::eligible(four@)) by {
                assert(four@[2].weight.n < 1024);
            }
            self.project(cmd, four, s.norm, m, s.gemm, &t.spans);
        } else {
            self.project(cmd, list2(qkv, z), s.norm, m, s.gemm, &t.spans);
            self.project(cmd, list2(alpha, beta), s.norm, m, s.gemm, &t.spans);
        }
        cmd.dispatch(
            if plain { "mlx_dn_conv" } else { "dn_conv" },
            list6(s.qkv, w.conv.buffer, self.conv, s.meta, s.bounds, s.convolved),
            self.recurrent_list(w, m, 0),
            (groups256(m, g.conv()), 1, 1),
            256,
        );
        cmd.dispatch(
            self.named("dn_qk_norm", "mlx_dn_qk_norm", "bonsai_dn_qk_norm"),
            list1(s.convolved),
            self.recurrent_list(w, m, 0),
            (32, m, 1),
            32,
        );
        cmd.dispatch(
            if plain { "mlx_dn_gates" } else { "dn_gates" },
            list5(s.alpha, s.beta, w.a.buffer, w.dt.buffer, s.gates),
            self.recurrent_list(w, m, 0),
            (groups256(m, g.value_heads), 1, 1),
            256,
        );
    }

    /// Verification keeps its inputs and updates aside until it is committed.
    pub open spec fn recurrent_verify_steps(&self, p: Seq<Step>, w: DeltaNet, t: Tick) -> Seq<Step> {
        let s = self.scratch;
        let g = self.geometry;
        let v = self.spec->0;
        let m = t.rows.len();
        p.push(
            kernel(
                "spec_copy"@,
                seq![s.qkv, v.conv_input],
                seq![
                    0u32,
                    (w.index * (v.rows * g.conv_width())) as u32,
                    (m * g.conv_width()) as u32,
                ],
                (groups(m as int, g.conv_width()), 1, 1),
                256,
            ),
        ).push(
            kernel(
                if self.mlx { "mlx_dn_verify"@ } else { "dn_verify"@ },
                seq![s.convolved, s.gates, self.state, s.spans, s.meta, s.attn, v.updates],
                self.recurrent_params(w, m as int, v.rows as u32),
                (if self.mlx { 32int } else { 8 }, g.value_heads as int, t.sequences as int),
                128,
            ),
        )
    }

    fn recurrent_verify(&self, cmd: &mut Program, w: DeltaNet, t: &Tick)
        requires
            self.wf(),
            t.wf(self),
            self.verifying,
            w.index < 64,
        ensures
            final(cmd)@ == self.recurrent_verify_steps(old(cmd)@, w, *t),
    {
        let s = self.scratch;
        let g = self.geometry;
        let v = self.spec.unwrap();
        let m: usize = t.rows.len();
        proof {
            crate::arith::lemma_product_bound(v.rows as int, g.conv_width(), 0x1_0000, 10240);
            crate::arith::lemma_product_bound(
                w.index as int,
                v.rows * g.conv_width(),
                64,
                0x1_0000 * 10240int,
            );
        }
        let at: u64 = w.index as u64 * (v.rows as u64 * g.conv() as u64);
        cmd.dispatch(
            "spec_copy",
            list2(s.qkv, v.conv_input),
            list3(0, at as u32, area(m, g.conv()) as u32),
            (groups256(m, g.conv()), 1, 1),
            256,
        );
        cmd.dispatch(
            if self.mlx { "mlx_dn_verify" } else { "dn_verify" },
            list7(s.convolved, s.gates, self.state, s.spans, s.meta, s.attn, v.updates),
            self.recurrent_list(w, m, v.rows as u32),
            (if self.mlx { 32 } else { 8 }, g.value_heads, t.sequences),
            128,
        );
    }

    /// Inputs are reused across value rows on the ternary lane, and on plain
    /// affine prompts on a tensor device.
    pub open spec fn reuses_inputs(&self, wide: bool) -> bool {
        self.bonsai is Some || (self.mlx && !self.splash && self.accelerated && wide)
    }

    pub open spec fn packs_rows(&self, wide: bool) -> bool {
        self.reuses_inputs(wide) && self.bonsai is None && self.geometry == Geometry::dense_27b()
    }

    pub open spec fn recurrent_walk_steps(&self, p: Seq<Step>, w: DeltaNet, t: Tick) -> Seq<Step> {
        let s = self.scratch;
        let g = self.geometry;
        let m = t.rows.len();
        let params = self.recurrent_params(w, m as int, 0);
        let reuse = self.reuses_inputs(t.wide);
        let packed = self.packs_rows(t.wide);
        let strict = g.is_moe();
        let p = p.push(
            kernel(
                "dn_conv_commit"@,
                seq![s.qkv, self.conv, s.spans, s.meta, s.checkpoint_spans],
                params,
                (ceil_div(g.conv_width(), 256), t.sequences as int, 1),
                256,
            ),
        );
        let p = if self.mlx || t.load.decode_rows > 0 {
            p.push(
                kernel(
                    if self.bonsai is Some {
                        "bonsai_dn_recurrent"@
                    } else if packed {
                        "mlx_dn_recurrent_packed"@
                    } else if reuse {
                        "mlx_dn_recurrent_quad"@
                    } else if self.mlx {
                        "mlx_dn_recurrent"@
                    } else {
                        "dn_recurrent"@
                    },
                    seq![s.convolved, s.gates, self.state, s.spans, s.meta, s.attn, s.checkpoint_rows],
                    params,
                    (
                        if packed {
                            4int
                        } else if self.mlx && !reuse {
                            32
                        } else {
                            8
                        },
                        g.value_heads as int,
                        t.sequences as int,
                    ),
                    128,
                ),
            )
        } else {
            p
        };
        if !self.mlx && t.chunks > 0 {
            p.push(
                kernel(
                    if strict { "dn_chunk_dots_strict"@ } else { "dn_chunk_dots"@ },
                    seq![s.convolved, s.gates, s.chunks, s.prepared],
                    params,
                    (g.value_heads as int, t.chunks as int, 1),
                    128,
                ),
            ).push(
                kernel(
                    if strict { "dn_chunk_prepare_strict"@ } else { "dn_chunk_prepare"@ },
                    seq![s.convolved, s.gates, s.chunks, s.prepared],
                    params,
                    (g.value_heads as int, t.chunks as int, 1),
                    128,
                ),
            ).push(
                kernel(
                    if strict { "dn_chunk_walk_strict"@ } else { "dn_chunk_walk"@ },
                    seq![s.prepared, s.gates, s.spans, s.chunks, s.meta, self.state, s.attn],
                    params,
                    (8, g.value_heads as int, t.sequences as int),
                    128,
                ),
            )
        } else {
            p
        }
    }

    fn recurrent_walk(&self, cmd: &mut Program, w: DeltaNet, t: &Tick)
        requires
            self.wf(),
            t.wf(self),
        ensures
            final(cmd)@ == self.recurrent_walk_steps(old(cmd)@, w, *t),
    {
        let s = self.scratch;
        let g = self.geometry;
        let m: usize = t.rows.len();
        let ternary = self.bonsai.is_some();
        let reuse = ternary || (self.mlx && !self.splash && self.accelerated && t.wide);
        let packed = reuse && !ternary && g == Geometry::dense_27b();
        let strict = g.moe();
        cmd.dispatch(
            "dn_conv_commit",
            list5(s.qkv, self.conv, s.spans, s.meta, s.checkpoint_spans),
            self.recurrent_list(w, m, 0),
            (div_ceil(g.conv(), 256), t.sequences, 1),
            256,
        );
        if self.mlx || t.load.decode_rows > 0 {
            cmd.dispatch(
                if ternary {
                    "bonsai_dn_recurrent"
                } else if packed {
                    "mlx_dn_recurrent_packed"
                } else if reuse {
                    "mlx_dn_recurrent_quad"
                } else if self.mlx {
                    "mlx_dn_recurrent"
                } else {
                    "dn_recurrent"
                },
                list7(s.convolved, s.gates, self.state, s.spans, s.meta, s.attn, s.checkpoint_rows),
                self.recurrent_list(w, m, 0),
                (
                    if packed {
                        4
                    } else if self.mlx && !reuse {
                        32
                    } else {
                        8
                    },
                    g.value_heads,
                    t.sequences,
                ),
                128,
            );
        }
        if !self.mlx && t.chunks > 0 {
            cmd.dispatch(
                if strict { "dn_chunk_dots_strict" } else { "dn_chunk_dots" },
                list4(s.convolved, s.gates, s.chunks, s.prepared),
                self.recurrent_list(w, m, 0),
                (g.value_heads, t.chunks, 1),
                128,
            );
            cmd.dispatch(
                if strict { "dn_chunk_prepare_strict" } else { "dn_chunk_prepare" },
                list4(s.convolved, s.gates, s.chunks, s.prepared),
                self.recurrent_list(w, m, 0),
                (g.value_heads, t.chunks, 1),
                128,
            );
            cmd.dispatch(
                if strict { "dn_chunk_walk_strict" } else { "dn_chunk_walk" },
                list7(s.prepared, s.gates, s.spans, s.chunks, s.meta, self.state, s.attn),
                self.recurrent_list(w, m, 0),
                (8, g.value_heads, t.sequences),
                128,
            );
        }
    }

    pub open spec fn recurrent_steps(&self, p: Seq<Step>, w: DeltaNet, t: Tick) -> Seq<Step> {
        let s = self.scratch;
        let m = t.rows.len();
        let p = self.recurrent_entry_steps(p, w, t);
        let p = if self.verifying {
            self.recurrent_verify_steps(p, w, t)
        } else {
            self.recurrent_walk_steps(p, w, t)
        };
        let p = p.push(
            kernel(
                self.lane_name("dn_gated_norm"@, "mlx_dn_gated_norm"@, "bonsai_dn_gated_norm"@),
                seq![s.attn, s.z, w.norm.buffer],
                self.recurrent_params(w, m as int, self.eps),
                (self.geometry.value_heads as int, m as int, 1),
                32,
            ),
        );
        self.project_steps(
            p,
            seq![Plane { weight: w.out, out: s.delta }],
            s.attn,
            m,
            s.gemm,
            t.spans@,
        )
    }

    fn recurrent(&self, cmd: &mut Program, w: DeltaNet, t: &Tick)
        requires
            self.wf(),
            t.wf(self),
            crate::qwen35::graph::recurrent_shaped(self.geometry, w),
        ensures
            final(cmd)@ == self.recurrent_steps(old(cmd)@, w, *t),
    {
        let s = self.scratch;
        let m: usize = t.rows.len();
        self.recurrent_entry(cmd, w, t);
        if self.verifying {
            self.recurrent_verify(cmd, w, t);
        } else {
            self.recurrent_walk(cmd, w, t);
        }
        cmd.dispatch(
            self.named("dn_gated_norm", "mlx_dn_gated_norm", "bonsai_dn_gated_norm"),
            list3(s.attn, s.z, w.norm.buffer),
            self.recurrent_list(w, m, self.eps),
            (self.geometry.value_heads, m, 1),
            32,
        );
        self.project(cmd, list1(Plane { weight: w.out, out: s.delta }), s.attn, m, s.gemm, &t.spans);
    }

    /// The feed-forward of one block, routed experts included.
    pub open spec fn ffn_steps(&self, p: Seq<Step>, l: Layer, t: Tick, compact: bool) -> Seq<Step> {
        let s = self.scratch;
        let g = self.geometry;
        let m = t.rows.len();
        let gate = Plane { weight: l.gate, out: s.gate };
        let up = Plane { weight: l.up, out: s.up };
        let down = Plane { weight: l.down, out: s.delta };
        let p = if compact {
            p.push(planes_step(Route::CompactFfn, seq![gate, up, down], s.norm, m as int, s.gemm, t.spans@))
        } else {
            let p = if self.splash {
                p.push(
                    planes_step(Route::PackedGateUp, seq![gate, up], s.norm, m as int, s.gemm, t.spans@),
                )
            } else {
                self.project_steps(p, seq![gate, up], s.norm, m, s.gemm, t.spans@).push(
                    kernel(
                        if self.mlx && self.bonsai is None { "mlx_swiglu"@ } else { "swiglu"@ },
                        seq![s.gate, s.up],
                        seq![(m * g.ff) as u32],
                        (groups(m as int, g.ff as int), 1, 1),
                        256,
                    ),
                )
            };
            self.project_steps(p, seq![down], s.gate, m, s.gemm, t.spans@)
        };
        if l.moe is Some {
            (self.moe_scratch->0).ffn_steps(p, l.moe->0, s.norm, s.delta, m)
        } else {
            p
        }
    }

    fn ffn(&self, cmd: &mut Program, l: Layer, t: &Tick, compact: bool)
        requires
            self.wf(),
            t.wf(self),
            crate::qwen35::graph::layer_shaped(self.geometry, l),
        ensures
            final(cmd)@ == self.ffn_steps(old(cmd)@, l, *t, compact),
    {
        let s = self.scratch;
        let g = self.geometry;
        let m: usize = t.rows.len();
        let gate = Plane { weight: l.gate, out: s.gate };
        let up = Plane { weight: l.up, out: s.up };
        let down = Plane { weight: l.down, out: s.delta };
        let spans = crate::qwen35::lane::copied(&t.spans);
        if compact {
            cmd.planes(Route::CompactFfn, list3(gate, up, down), s.norm, m, s.gemm, spans);
        } else {
            if self.splash {
                cmd.planes(Route::PackedGateUp, list2(gate, up), s.norm, m, s.gemm, spans);
            } else {
                self.project(cmd, list2(gate, up), s.norm, m, s.gemm, &t.spans);
                cmd.dispatch(
                    if self.mlx && self.bonsai.is_none() { "mlx_swiglu" } else { "swiglu" },
                    list2(s.gate, s.up),
                    list1(area(m, g.ff) as u32),
                    (groups256(m, g.ff), 1, 1),
                    256,
                );
            }
            self.project(cmd, list1(down), s.gate, m, s.gemm, &t.spans);
        }
        if let Some(experts) = l.moe {
            self.moe_scratch.unwrap().moe_ffn(cmd, experts, s.norm, s.delta, m);
        }
    }

    /// Layer `i`: tap, mixer, feed-forward and the residual into the next.
    pub open spec fn layer_steps(&self, p: Seq<Step>, i: int, t: Tick) -> Seq<Step> {
        let s = self.scratch;
        let l = self.layers[i];
        let width = self.geometry.width;
        let m = t.rows.len();
        let p = self.dflash_tap_steps(p, i, m);
        let p = match l.mixer {
            Mixer::Linear(w) => self.recurrent_steps(p, w, t),
            Mixer::Full(w) => self.full_attention_steps(p, w, t.load, t.spans@),
        };
        let p = p.push(self.residual_norm(l.post_norm, m as int));
        let p = self.ffn_steps(p, l, t, t.compact[i]);
        if i + 1 < self.layers.len() {
            p.push(self.residual_norm(self.layers[i + 1].norm, m as int))
        } else {
            p.push(
                kernel(
                    if self.mlx && self.bonsai is None { "mlx_residual"@ } else { "residual"@ },
                    seq![s.x, s.delta],
                    seq![(m * width) as u32, ONE],
                    (groups(m as int, width as int), 1, 1),
                    256,
                ),
            )
        }
    }

    fn layer(&self, cmd: &mut Program, i: usize, t: &Tick)
        requires
            self.wf(),
            t.wf(self),
            i < self.layers.len(),
        ensures
            final(cmd)@ == self.layer_steps(old(cmd)@, i as int, *t),
    {
        let s = self.scratch;
        let l = self.layers[i];
        let width: usize = self.geometry.width;
        let m: usize = t.rows.len();
        self.dflash_tap(cmd, i, m);
        match l.mixer {
            Mixer::Linear(w) => {
                self.recurrent(cmd, w, t);
            },
            Mixer::Full(w) => {
                self.full_attention(cmd, w, t.load, &t.spans);
            },
        }
        self.push_residual_norm(cmd, l.post_norm, m);
        self.ffn(cmd, l, t, t.compact[i]);
        if i + 1 < self.layers.len() {
            self.push_residual_norm(cmd, self.layers[i + 1].norm, m);
        } else {
            cmd.dispatch(
                if self.mlx && self.bonsai.is_none() { "mlx_residual" } else { "residual" },
                list2(s.x, s.delta),
                list2(area(m, width) as u32, ONE),
                (groups256(m, width), 1, 1),
                256,
            );
        }
    }

    /// The first `n` layers.
    pub open spec fn layers_steps(&self, p: Seq<Step>, n: int, t: Tick) -> Seq<Step>
        decreases n,
    {
        if n <= 0 {
            p
        } else {
            self.layer_steps(self.layers_steps(p, n - 1, t), n - 1, t)
        }
    }

    pub open spec fn logits_buffer(&self) -> Buffer {
        if self.verifying { (self.spec->0).logits } else { self.scratch.logits }
    }

    /// Copy the drafter's rings of every saved prefix.
    pub open spec fn copies_steps(&self, p: Seq<Step>, copies: Seq<(usize, usize)>) -> Seq<Step>
        decreases copies.len(),
    {
        if copies.len() == 0 {
            p
        } else {
            self.dflash_checkpoint_steps(
                self.copies_steps(p, copies.drop_last()),
                copies.last().0,
                copies.last().1,
            )
        }
    }

    /// Logits of the selected rows, companions and saved drafter state.
    pub open spec fn exit_steps(&self, p: Seq<Step>, t: Tick) -> Seq<Step> {
        let s = self.scratch;
        let width = self.geometry.width;
        let m = t.rows.len();
        let n = t.selected;
        let p = if n > 0 {
            self.project_steps(
                p.push(
                    kernel(
                        self.lane_name(
                            "rms_selected"@,
                            "mlx_rms_selected"@,
                            "bonsai_rms_selected"@,
                        ),
                        seq![s.x, self.output_norm.buffer, s.outputs, s.norm],
                        seq![width as u32, self.output_norm.ty, self.eps],
                        (n as int, 1, 1),
                        self.norm_threads(),
                    ),
                ),
                seq![Plane { weight: self.head, out: self.logits_buffer() }],
                s.norm,
                n,
                s.gemm,
                t.spans@,
            )
        } else {
            p
        };
        let p = if self.verifying {
            p.push(
                kernel(
                    "spec_copy"@,
                    seq![s.x, (self.spec->0).hidden],
                    seq![0u32, 0u32, (m * width) as u32],
                    (groups(m as int, width as int), 1, 1),
                    256,
                ),
            )
        } else {
            self.mtp_catchup_steps(p, s.x, t.companion_load(), t.images@, t.spans@)
        };
        let p = self.copies_steps(self.dflash_append_steps(p, m), t.copies@);
        if self.greedy_output {
            p.push(
                kernel(
                    "spec_argmax"@,
                    seq![self.logits_buffer(), (self.spec->0).picks],
                    seq![self.vocab as u32],
                    (n as int, 1, 1),
                    256,
                ),
            )
        } else {
            p
        }
    }

    fn exit(&self, cmd: &mut Program, t: &Tick)
        requires
            self.wf(),
            t.wf(self),
        ensures
            final(cmd)@ == self.exit_steps(old(cmd)@, *t),
    {
        let s = self.scratch;
        let width: usize = self.geometry.width;
        let m: usize = t.rows.len();
        let n: usize = t.selected;
        let logits = if self.verifying { self.spec.unwrap().logits } else { s.logits };
        if n > 0 {
            cmd.dispatch(
                self.named("rms_selected", "mlx_rms_selected", "bonsai_rms_selected"),
                list4(s.x, self.output_norm.buffer, s.outputs, s.norm),
                list3(width as u32, self.output_norm.ty, self.eps),
                (n, 1, 1),
                self.threads(),
            );
            self.project_head(cmd, logits, n, &t.spans);
        }
        if self.verifying {
            cmd.dispatch(
                "spec_copy",
                list2(s.x, self.spec.unwrap().hidden),
                list3(0, 0, area(m, width) as u32),
                (groups256(m, width), 1, 1),
                256,
            );
        } else {
            let load = Load {
                long_tiles: 0,
                decode_length: t.length,
                append_length: t.length,
                ..t.load
            };
            self.mtp_catchup(cmd, s.x, load, &t.images, &t.spans);
        }
        self.dflash_append(cmd, m);
        let ghost start = cmd@;
        let mut i: usize = 0;
        assert(t.copies@.take(0) =~= Seq::<(usize, usize)>::empty());
        while i < t.copies.len()
            invariant
                i <= t.copies.len(),
                self.wf(),
                t.wf(self),
                cmd@ == self.copies_steps(start, t.copies@.take(i as int)),
            decreases t.copies.len() - i,
        {
            let pair = t.copies[i];
            self.dflash_checkpoint(cmd, pair.0, pair.1);
            proof {
                let next = t.copies@.take(i + 1);
                assert(next.drop_last() =~= t.copies@.take(i as int));
                assert(next.last() == pair);
            }
            i = i + 1;
        }
        assert(t.copies@.take(t.copies.len() as int) =~= t.copies@);
        if self.greedy_output {
            cmd.dispatch(
                "spec_argmax",
                list2(logits, self.spec.unwrap().picks),
                list1(self.vocab as u32),
                (n, 1, 1),
                256,
            );
        }
    }

    /// The head over selected rows. It never takes the tick's spans on a lane
    /// that covers rows by them.
    fn project_head(&self, cmd: &mut Program, out: Buffer, n: usize, spans: &Vec<RowSpan>)
        requires
            self.wf(),
            1 <= n <= MAX_ROWS,
            self.bonsai is Some ==> n <= CHUNK,
        ensures
            final(cmd)@ == self.project_steps(
                old(cmd)@,
                seq![Plane { weight: self.head, out }],
                self.scratch.norm,
                n,
                self.scratch.gemm,
                spans@,
            ),
    {
        let s = self.scratch;
        let head = list1(Plane { weight: self.head, out });
        if let Some(bonsai) = &self.bonsai {
            let none: Vec<RowSpan> = Vec::new();
            bonsai.project(cmd, &head, s.norm, n, &none, self.accelerated);
        } else {
            self.project(cmd, head, s.norm, n, s.gemm, spans);
        }
    }

    /// Everything that one tick runs.
    pub open spec fn tick_steps(&self, t: Tick) -> Seq<Step> {
        self.exit_steps(self.layers_steps(self.entry_steps(t), self.layers.len() as int, t), t)
    }

    pub fn execute_plan(&self, t: &Tick) -> (cmd: Program)
        requires
            self.wf(),
            t.wf(self),
        ensures
            cmd@ == self.tick_steps(*t),
    {
        let mut cmd = self.entry(t);
        let ghost start = cmd@;
        let mut i: usize = 0;
        while i < self.layers.len()
            invariant
                i <= self.layers.len(),
                self.wf(),
                t.wf(self),
                cmd@ == self.layers_steps(start, i as int, *t),
            decreases self.layers.len() - i,
        {
            self.layer(&mut cmd, i, t);
            i = i + 1;
        }
        self.exit(&mut cmd, t);
        cmd
    }
}

impl Graph {
    /// What is read back once a tick has run: the logits of the selected
    /// rows, of the verifier where it was the one that ran. Greedy ticks keep
    /// them on the device.
    pub fn read_back(&self, selected: usize) -> (r: Option<(Buffer, usize)>)
        requires
            self.wf(),
            selected * self.vocab <= usize::MAX,
        ensures
            r == if self.greedy_output {
                None
            } else {
                Some((self.logits_buffer(), (selected * self.vocab) as usize))
            },
    {
        if self.greedy_output {
            return None;
        }
        let buffer = if self.verifying {
            self.spec.unwrap().logits
        } else {
            self.scratch.logits
        };
        Some((buffer, selected * self.vocab))
    }
}

impl Tick {
    pub open spec fn companion_load(&self) -> Load {
        Load { long_tiles: 0, decode_length: self.length, append_length: self.length, ..self.load }
    }

    pub open spec fn wf(&self, g: &Graph) -> bool {
        &&& 1 <= self.rows.len() <= g.row_capacity
        &&& self.selected <= MAX_ROWS
        &&& g.bonsai is Some ==> self.selected <= CHUNK
        &&& self.load.rows == self.rows.len()
        &&& g.load_wf(self.load)
        &&& g.load_wf(self.companion_load())
        &&& self.compact.len() == g.layers.len()
        &&& g.bonsai is Some && self.spans.len() > 0 ==> covers(self.spans@, self.rows.len() as int)
        &&& forall|n: int|
            0 <= n < self.images.len() ==> (#[trigger] self.images[n]).offset + self.images[n].rows
                <= 0x1_0000_0000
        &&& forall|n: int|
            0 <= n < self.copies.len() ==> (#[trigger] self.copies[n]).0 <= MAX_ROWS && self.copies[n].1
                <= MAX_ROWS
    }
}

} // verus!
