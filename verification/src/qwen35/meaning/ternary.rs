//! What the native ternary lane computes.
use vstd::prelude::*;
use crate::arith::{ceil_div, groups_cover, lemma_ceil_div, max, min};
use crate::device::effects::{group_hybrid, group_runs, group_shared, group_ternary, run};
use crate::device::names::{lemma_hybrid_names, lemma_shared_names, lemma_ternary_names};
use crate::device::values::{apart, Cells, Value};
use crate::program::{Buffer, Plane, RowSpan, Step, Weight};
use crate::qwen35::attention::{Load, SIXTEENTH};
use crate::qwen35::bonsai::{any_packed, packed_prefix, rotated_width, Bonsai, AFFINE2};
use crate::qwen35::graph::{FullAttention, Graph, MAX_SPLITS};
use crate::qwen35::meaning::places::lemma_places;

verus! {

broadcast use {group_runs, group_shared, group_hybrid, group_ternary};

/// A kernel of the lane, with the columns and rows that one of its tiles
/// covers.
pub open spec fn covering(name: Seq<char>, columns: int, rows: int) -> bool {
    ||| name == "bonsai_vectors1"@ && columns == 16 && rows == 1
    ||| name == "bonsai_vectors4"@ && columns == 16 && rows == 4
    ||| name == "bonsai_full1"@ && columns == 16 && rows == 1
    ||| name == "bonsai_full2"@ && columns == 16 && rows == 2
    ||| name == "bonsai_full3"@ && columns == 16 && rows == 3
    ||| name == "bonsai_full4"@ && columns == 16 && rows == 4
    ||| name == "bonsai_mm32"@ && columns == 16 && rows == 32
    ||| name == "bonsai_mm64"@ && columns == 16 && rows == 64
    ||| name == "bonsai_tile32x32x64"@ && columns == 32 && rows == 32
    ||| name == "bonsai_tile64x32x64"@ && columns == 32 && rows == 64
    ||| name == "bonsai_prefill16"@ && columns == 32 && rows == 16
    ||| name == "bonsai_prefill32"@ && columns == 32 && rows == 32
    ||| name == "bonsai_prefill64"@ && columns == 32 && rows == 64
}

/// Where a launch over rows from `first` on finds row `r` of a plane that is
/// `width` numbers wide: where it stands in the whole plane.
pub open spec fn row_found(offset: usize, width: usize, first: usize, r: int) -> bool {
    offset + (r - first) * width * 4 == r * width * 4
}

impl Bonsai {
    /// A plane is multiplied by the rows of its span, every column and every
    /// row of it: ternary planes by the rotated rows, others by the rows as
    /// they are. A row is read and written where it stands.
    pub proof fn planes_multiply_the_rows_of_their_span(
        self,
        plane: Plane,
        input: Buffer,
        first: usize,
        rows: usize,
        prefill: bool,
        accelerated: bool,
        r: int,
    )
        requires
            1 <= rows,
            first <= r < first + rows,
            first * plane.weight.k * 4 <= usize::MAX,
            first * plane.weight.n * 4 <= usize::MAX,
        ensures
            ({
                let w = plane.weight;
                let step = self.plane_step(plane, input, first, rows, prefill, accelerated);
                &&& step matches Step::Kernel { kernel, buffers, offsets, params, grid, threads }
                &&& buffers[0] == w.buffer
                &&& buffers[1] == if w.ty == AFFINE2 { self.rotated } else { input }
                &&& buffers[2] == plane.out
                &&& offsets[0] == 0
                &&& row_found(offsets[1], w.k, first, r)
                &&& row_found(offsets[2], w.n, first, r)
                &&& params == seq![w.k as u32, w.n as u32, rows as u32, w.ty]
                &&& exists|c: int, t: int|
                    #[trigger] covering(kernel, c, t) && grid.0 * c >= w.n && grid.1 * t >= rows
            }),
    {
        let w = plane.weight;
        let step = self.plane_step(plane, input, first, rows, prefill, accelerated);
        let (name, c, t) = crate::qwen35::bonsai::span_kernel(
            w.ty == AFFINE2,
            w.n as int,
            rows as int,
            prefill,
            accelerated,
        );
        assert(covering(name, c, t));
        lemma_ceil_div(w.n as int, c);
        lemma_ceil_div(rows as int, t);
        assert(0 <= first * w.k * 4) by (nonlinear_arith);
        assert(0 <= first * w.n * 4) by (nonlinear_arith);
        assert(first * w.k * 4 + (r - first) * w.k * 4 == r * w.k * 4) by (nonlinear_arith);
        assert(first * w.n * 4 + (r - first) * w.n * 4 == r * w.n * 4) by (nonlinear_arith);
        match step {
            Step::Kernel { kernel, buffers, offsets, params, grid, threads } => {
                assert(kernel == name);
                assert(row_found(offsets[1], w.k, first, r));
                assert(row_found(offsets[2], w.n, first, r));
                assert(grid.0 * c >= w.n);
                assert(grid.1 * t >= rows);
                assert(covering(kernel, c, t) && grid.0 * c >= w.n && grid.1 * t >= rows);
                assert(params == seq![w.k as u32, w.n as u32, rows as u32, w.ty]);
            },
            _ => {},
        }
    }

    /// Fused planes keep their order: each has its weights, its result, its
    /// rows and its columns at its own place, and all columns are covered.
    pub proof fn fused_planes_keep_their_order(
        self,
        planes: Seq<Plane>,
        first: usize,
        rows: usize,
        i: int,
        r: int,
    )
        requires
            2 <= packed_prefix(planes) <= 3,
            packed_prefix(planes) <= planes.len(),
            0 <= i < packed_prefix(planes),
            first <= r < first + rows,
            forall|j: int|
                0 <= j < planes.len() ==> (#[trigger] planes[j]).weight.k == planes[0].weight.k && first
                    * planes[j].weight.n * 4 <= usize::MAX,
            first * planes[0].weight.k * 4 <= usize::MAX,
        ensures
            ({
                let step = self.fused_step(planes, first, rows);
                let n = |j: int| if j < packed_prefix(planes) { planes[j].weight.n as int } else { 0int };
                &&& step matches Step::Kernel { kernel, buffers, offsets, params, grid, threads }
                &&& buffers[i] == planes[i].weight.buffer
                &&& buffers[3] == self.rotated
                &&& buffers[4 + i] == planes[i].out
                &&& offsets[i] == 0
                &&& row_found(offsets[3], planes[i].weight.k, first, r)
                &&& row_found(offsets[4 + i], planes[i].weight.n, first, r)
                &&& params[0] == planes[i].weight.k as u32
                &&& params[1 + i] == planes[i].weight.n as u32
                &&& packed_prefix(planes) == 2 ==> params[3] == 0
                &&& params[4] == rows as u32
                &&& grid.0 * 16 >= n(0) + n(1) + n(2)
            }),
    {
        let a = planes[0].weight;
        let b = planes[1].weight;
        let c = if packed_prefix(planes) == 3 { planes[2].weight } else { planes[1].weight };
        lemma_ceil_div(a.n as int, 16);
        lemma_ceil_div(b.n as int, 16);
        lemma_ceil_div(c.n as int, 16);
        let w = planes[i].weight;
        assert(w.k == a.k);
        assert(first * w.n * 4 <= usize::MAX);
        assert(0 <= first * w.k * 4) by (nonlinear_arith);
        assert(0 <= first * w.n * 4) by (nonlinear_arith);
        assert(first * w.k * 4 + (r - first) * w.k * 4 == r * w.k * 4) by (nonlinear_arith);
        assert(first * w.n * 4 + (r - first) * w.n * 4 == r * w.n * 4) by (nonlinear_arith);
    }

    /// Rows that meet a ternary plane are first turned, all of them, by the
    /// signs of their width.
    pub proof fn ternary_planes_meet_turned_rows(
        self,
        m: Cells,
        p: Seq<Step>,
        planes: Seq<Plane>,
        input: Buffer,
        rows: usize,
        spans: Seq<RowSpan>,
        accelerated: bool,
    )
        requires
            any_packed(planes),
            rotated_width(planes[0].weight.k as int),
            rows <= 65536,
        ensures
            ({
                let k = planes[0].weight.k;
                exists|q: Seq<Step>|
                    {
                        &&& run(m, q)[self.rotated.id] == (Value::Rotated {
                            signs: self.signs@[k].id,
                            width: k as u32,
                            rows: rows as u32,
                            of: Box::new(run(m, p)[input.id]),
                        })
                        &&& self.project_steps(p, planes, input, rows, spans, accelerated) == if spans.len() > 0 {
                            self.spans_steps(q, planes, input, spans, accelerated)
                        } else {
                            #[trigger] self.span_steps(q, planes, input, 0, rows, false, accelerated)
                        }
                    }
            }),
    {
        let k = planes[0].weight.k;
        lemma_ternary_names();
        let q = p.push(
            crate::program::kernel(
                "bonsai_rotate"@,
                seq![input, self.signs@[k], self.rotated],
                seq![k as u32, rows as u32],
                (k as int / 1024, rows as int, 1),
                256,
            ),
        );
        assert(run(m, q)[self.rotated.id] is Rotated);
        let one = self.span_steps(q, planes, input, 0, rows, false, accelerated);
        assert(self.project_steps(p, planes, input, rows, spans, accelerated) == if spans.len() > 0 {
            self.spans_steps(q, planes, input, spans, accelerated)
        } else {
            one
        });
    }

    /// Tokens pick their rows of the table, turned back by the signs of their
    /// width.
    pub proof fn ternary_rows_are_those_of_their_tokens(
        self,
        m: Cells,
        p: Seq<Step>,
        weight: Weight,
        ids: Buffer,
        output: Buffer,
        rows: usize,
    )
        requires
            rotated_width(weight.k as int),
            rows <= 65536,
        ensures
            run(m, p.push(self.embed_step(weight, ids, output, rows)))[output.id] == (
            Value::EmbeddedRotated {
                table: weight.buffer.id,
                signs: self.signs@[weight.k].id,
                width: weight.k as u32,
                vocab: weight.n as u32,
                rows: rows as u32,
                ids: Box::new(run(m, p)[ids.id]),
            }),
    {
        lemma_ternary_names();
    }
}

impl Graph {
    /// What the rows of a ternary tick see: appended rows in tiles, then
    /// decoded rows in parts, both through the keys and values of the tick.
    pub open spec fn ternary_seen(&self, m: Cells, w: FullAttention, load: Load) -> Value {
        let s = self.scratch;
        let queries = self.turned(24, w.q_norm, load.rows, m[s.mrope.id], m[s.qraw.id]);
        let keys = self.ternary_caches(m, w, load.rows).0;
        let values = self.ternary_caches(m, w, load.rows).1;
        let appended = if load.tiles > 0 {
            Value::AppendedUpTo {
                heads: 24,
                kv_heads: 4,
                stride: self.page_stride as u32,
                scale: SIXTEENTH,
                launch: (24, load.tiles as int, 1),
                places: Box::new(m[s.meta.id]),
                pages: Box::new(m[s.pages.id]),
                tiles: Box::new(m[s.attn_tiles.id]),
                limits: Box::new(m[s.limits.id]),
                queries: Box::new(queries),
                keys: Box::new(keys),
                values: Box::new(values),
                base: Box::new(m[s.attn.id]),
            }
        } else {
            m[s.attn.id]
        };
        let splits = min(max(ceil_div(load.decode_length as int, 128), 16), MAX_SPLITS as int);
        if load.decode_rows > 0 {
            Value::Merged {
                heads: 24,
                splits: splits as u32,
                count: load.decode_rows * 24,
                picks: Box::new(m[s.decode_rows.id]),
                parts: Box::new(
                    Value::PartialUpTo {
                        heads: 24,
                        kv_heads: 4,
                        stride: self.page_stride as u32,
                        scale: SIXTEENTH,
                        splits: splits as u32,
                        least: 16,
                        launch: (4, load.decode_rows as int, splits),
                        places: Box::new(m[s.meta.id]),
                        pages: Box::new(m[s.pages.id]),
                        picks: Box::new(m[s.decode_rows.id]),
                        limits: Box::new(m[s.limits.id]),
                        queries: Box::new(queries),
                        keys: Box::new(keys),
                        values: Box::new(values),
                    },
                ),
                base: Box::new(appended),
            }
        } else {
            appended
        }
    }

    /// The caches of a ternary tick: keys normalised and turned, values as
    /// they are.
    pub open spec fn ternary_caches(&self, m: Cells, w: FullAttention, rows: usize) -> (Value, Value) {
        let s = self.scratch;
        (
            self.cached(
                m,
                rows,
                self.turned(4, w.k_norm, rows, m[s.mrope.id], m[s.k.id]),
                m[w.keys.id],
            ),
            self.cached(m, rows, m[s.v.id], m[w.values.id]),
        )
    }

    /// Behind its projections a ternary attention stores its keys and values,
    /// looks at both caches, gates what it saw, and projects that.
    #[verifier::rlimit(60)]
    #[verifier::spinoff_prover]
    pub proof fn ternary_attention_sees_its_caches(
        &self,
        m: Cells,
        p: Seq<Step>,
        w: FullAttention,
        load: Load,
        spans: Seq<RowSpan>,
    )
        requires
            self.wf(),
            self.load_wf(load),
            apart(self.workplace(seq![w.keys, w.values])),
        ensures
            ({
                let s = self.scratch;
                let rows = load.rows;
                let planes = seq![
                    Plane { weight: w.q, out: s.qraw },
                    Plane { weight: w.k, out: s.k },
                    Plane { weight: w.v, out: s.v },
                ];
                let mid = run(m, self.project_steps(p, planes, s.norm, rows, s.gemm, spans));
                exists|q: Seq<Step>|
                    {
                        &&& self.ternary_attention_steps(p, w, load, spans)
                            == #[trigger] self.project_steps(
                            q,
                            seq![Plane { weight: w.o, out: s.delta }],
                            s.attn,
                            rows,
                            s.gemm,
                            spans,
                        )
                        &&& run(m, q)[s.attn.id] == (Value::HeadsGated {
                            count: (rows * 6144) as u32,
                            gate: Box::new(mid[s.qraw.id]),
                            of: Box::new(self.ternary_seen(mid, w, load)),
                        })
                        &&& run(m, q)[w.keys.id] == self.ternary_caches(mid, w, rows).0
                        &&& run(m, q)[w.values.id] == self.ternary_caches(mid, w, rows).1
                        &&& run(m, q)[s.x.id] == mid[s.x.id]
                    }
            }),
    {
        let s = self.scratch;
        let rows = load.rows;
        let more = seq![w.keys, w.values];
        lemma_places(self, more);
        assert(more[0] == w.keys && more[1] == w.values);
        lemma_shared_names();
        lemma_hybrid_names();
        groups_cover(rows as int, 6144);
        let all = self.ternary_attention_steps(p, w, load, spans);
        let q = self.ternary_gated(p, w, load, spans);
        assert(all == self.project_steps(
            q,
            seq![Plane { weight: w.o, out: s.delta }],
            s.attn,
            rows,
            s.gemm,
            spans,
        ));
        assert(run(m, q)[s.attn.id] is HeadsGated);
    }

    /// The steps of a ternary attention before its output projection.
    spec fn ternary_gated(&self, p: Seq<Step>, w: FullAttention, load: Load, spans: Seq<RowSpan>) -> Seq<Step> {
        let s = self.scratch;
        let rows = load.rows;
        let params = seq![24u32, 4u32, self.page_stride as u32, self.rope, self.eps, self.rotary as u32];
        let p = self.project_steps(
            p,
            seq![
                Plane { weight: w.q, out: s.qraw },
                Plane { weight: w.k, out: s.k },
                Plane { weight: w.v, out: s.v },
            ],
            s.norm,
            rows,
            s.gemm,
            spans,
        ).push(
            crate::program::kernel(
                "qwen_qnorm_rope"@,
                seq![s.qraw, w.q_norm.buffer, s.mrope, s.q],
                params,
                (24, rows as int, 1),
                32,
            ),
        ).push(
            crate::program::kernel(
                "bonsai_knorm_store"@,
                seq![s.k, s.v, w.k_norm.buffer, s.meta, s.pages, w.keys, w.values, s.mrope],
                params,
                (4, rows as int, 1),
                32,
            ),
        );
        let p = if load.tiles > 0 {
            p.push(
                crate::program::kernel(
                    "bonsai_attention_prefill"@,
                    seq![s.q, w.keys, w.values, s.meta, s.pages, s.attn, s.attn_tiles, s.limits],
                    seq![24u32, 4u32, self.page_stride as u32, SIXTEENTH],
                    (24, load.tiles as int, 1),
                    128,
                ),
            )
        } else {
            p
        };
        let splits = min(max(ceil_div(load.decode_length as int, 128), 16), MAX_SPLITS as int);
        let p = if load.decode_rows > 0 {
            p.push(
                crate::program::kernel(
                    "bonsai_attention_decode"@,
                    seq![s.q, w.keys, w.values, s.meta, s.pages, s.decode_rows, s.attn_parts, s.limits],
                    seq![24u32, 4u32, self.page_stride as u32, SIXTEENTH, splits as u32, 16u32],
                    (4, load.decode_rows as int, splits),
                    128,
                ),
            ).push(
                crate::program::kernel(
                    "qwen_attention_merge"@,
                    seq![s.attn_parts, s.attn, s.decode_rows],
                    seq![24u32, splits as u32],
                    (load.decode_rows * 24, 1, 1),
                    32,
                ),
            )
        } else {
            p
        };
        p.push(
            crate::program::kernel(
                "qwen_attn_gate"@,
                seq![s.attn, s.qraw],
                seq![(rows * 6144) as u32],
                (crate::arith::groups(rows as int, 6144), 1, 1),
                256,
            ),
        )
    }
}

} // verus!
