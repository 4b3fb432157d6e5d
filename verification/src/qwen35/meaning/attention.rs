//! What an attention layer computes.
use vstd::prelude::*;
use crate::arith::{ceil_div, groups, groups_cover, lemma_product_bound};
use crate::device::effects::{group_hybrid, group_runs, group_shared, products, run};
use crate::device::names::{lemma_hybrid_names, lemma_shared_names};
use crate::device::values::{apart, product, Cells, Value};
use crate::program::{Plane, RowSpan, Step, Weight};
use crate::qwen35::attention::{Load, SIXTEENTH};
use crate::qwen35::graph::{attention_shaped, projectable, FullAttention, Graph};
use crate::qwen35::meaning::lane::{agree, separate};
use crate::qwen35::meaning::places::{lemma_places, tables_kept};

verus! {

broadcast use {group_runs, group_shared, group_hybrid};

impl Graph {
    /// Heads of a projection, normalised and turned to where the rows stand.
    pub open spec fn turned(&self, heads: usize, gain: Weight, rows: usize, places: Value, of: Value) -> Value {
        Value::HeadsTurned {
            heads: heads as u32,
            gain: gain.buffer.id,
            base: self.rope,
            eps: self.eps,
            rotary: self.rotary as u32,
            rows: rows as int,
            places: Box::new(places),
            of: Box::new(of),
        }
    }

    /// A cache behind the rows of a tick.
    pub open spec fn cached(&self, m: Cells, rows: usize, new: Value, old: Value) -> Value {
        Value::Cached {
            rows: rows as u32,
            stride: self.page_stride as u32,
            places: Box::new(m[self.scratch.meta.id]),
            pages: Box::new(m[self.scratch.pages.id]),
            new: Box::new(new),
            old: Box::new(old),
        }
    }

    /// Queries of a tick, before they are laid out.
    pub open spec fn queries(&self, m: Cells, w: FullAttention, rows: usize) -> Value {
        let s = self.scratch;
        self.turned(
            self.geometry.heads,
            w.q_norm,
            rows,
            m[s.mrope.id],
            product(w.q, rows as int, m[s.norm.id]),
        )
    }

    /// The key cache, then the value cache, behind the rows of a tick.
    pub open spec fn caches(&self, m: Cells, w: FullAttention, rows: usize) -> (Value, Value) {
        let s = self.scratch;
        let h = m[s.norm.id];
        (
            self.cached(
                m,
                rows,
                self.turned(
                    self.geometry.kv_heads,
                    w.k_norm,
                    rows,
                    m[s.mrope.id],
                    product(w.k, rows as int, h),
                ),
                m[w.keys.id],
            ),
            self.cached(m, rows, product(w.v, rows as int, h), m[w.values.id]),
        )
    }

    /// A tick writes its normalised and turned key heads to the key cache and
    /// its value projection to the value cache, and keeps its queries.
    #[verifier::rlimit(40)]
    #[verifier::spinoff_prover]
    pub proof fn attention_stores_keys_and_values(
        &self,
        m: Cells,
        p: Seq<Step>,
        w: FullAttention,
        rows: usize,
        spans: Seq<RowSpan>,
    )
        requires
            self.wf(),
            self.bonsai is None,
            1 <= rows <= self.row_capacity,
            attention_shaped(self.geometry, w),
            apart(self.workplace(seq![w.keys, w.values])),
        ensures
            ({
                let s = self.scratch;
                let before = run(m, p);
                let after = run(m, self.store_steps(p, w, rows, spans));
                &&& after[w.keys.id] == self.caches(before, w, rows).0
                &&& after[w.values.id] == self.caches(before, w, rows).1
                &&& after[s.q.id] == self.queries(before, w, rows)
                &&& after[s.qraw.id] == product(w.q, rows as int, before[s.norm.id])
                &&& after[s.attn.id] == before[s.attn.id]
                &&& after[s.attn_parts.id] == before[s.attn_parts.id]
                &&& after[s.x.id] == before[s.x.id]
                &&& tables_kept(s, before, after)
            }),
    {
        let s = self.scratch;
        let more = seq![w.keys, w.values];
        lemma_places(self, more);
        assert(more[0] == w.keys && more[1] == w.values);
        lemma_shared_names();
        lemma_hybrid_names();
        reveal_with_fuel(products, 4);
        let three = seq![
            Plane { weight: w.q, out: s.qraw },
            Plane { weight: w.k, out: s.k },
            Plane { weight: w.v, out: s.v },
        ];
        assert(projectable(self, three, rows as int, spans));
        assert(separate(three, s.norm, s.gemm));
        self.lanes_multiply_every_plane(m, p, three, s.norm, rows, s.gemm, spans);
    }

    /// Queries as append tiles read them.
    pub open spec fn laid_out(&self, m: Cells, load: Load) -> Value {
        let s = self.scratch;
        let q = m[s.q.id];
        if self.splash || self.groups_queries(load) {
            Value::StagedTiles {
                tiles: load.tiles as u32,
                launch: load.tiles * (32 * self.geometry.heads),
                spans: Box::new(m[s.attn_tiles.id]),
                of: Box::new(q),
            }
        } else if !self.strict_attention() {
            Value::Staged {
                width: (self.geometry.heads * 256) as u32,
                first: 0,
                rows: load.rows as u32,
                of: Box::new(q),
            }
        } else {
            q
        }
    }

    /// Append tiles that look at both caches as far as their rows may.
    pub open spec fn appended(&self, m: Cells, w: FullAttention, load: Load) -> Value {
        let s = self.scratch;
        let g = self.geometry;
        let split = self.partitions(load);
        let seen = Value::AppendedUpTo {
            heads: g.heads as u32,
            kv_heads: g.kv_heads as u32,
            stride: self.page_stride as u32,
            scale: SIXTEENTH,
            launch: if self.groups_queries(load) {
                (g.kv_heads as int, load.tiles * 4, 1int)
            } else if self.splash {
                (g.kv_heads as int, load.tiles * 4, 4int)
            } else {
                (g.heads as int, load.tiles as int, if split { 4int } else { 1 })
            },
            places: Box::new(m[s.meta.id]),
            pages: Box::new(m[s.pages.id]),
            tiles: Box::new(m[s.attn_tiles.id]),
            limits: Box::new(m[s.limits.id]),
            queries: Box::new(self.laid_out(m, load)),
            keys: Box::new(m[w.keys.id]),
            values: Box::new(m[w.values.id]),
            base: Box::new(if split { m[s.attn_parts.id] } else { m[s.attn.id] }),
        };
        if split {
            Value::Joined {
                heads: g.heads as u32,
                launch: (g.heads as int, load.tiles as int, 32),
                tiles: Box::new(m[s.attn_tiles.id]),
                parts: Box::new(seen),
                base: Box::new(m[s.attn.id]),
            }
        } else {
            seen
        }
    }

    /// Append tiles lay out their queries and look at the caches.
    #[verifier::rlimit(60)]
    #[verifier::spinoff_prover]
    pub proof fn append_tiles_look_at_both_caches(&self, m: Cells, p: Seq<Step>, w: FullAttention, load: Load)
        requires
            self.wf(),
            self.load_wf(load),
            apart(self.workplace(seq![w.keys, w.values])),
        ensures
            ({
                let s = self.scratch;
                let before = run(m, p);
                let after = run(m, self.append_steps(p, w, load));
                &&& after[s.attn.id] == self.appended(before, w, load)
                &&& after[w.keys.id] == before[w.keys.id]
                &&& after[w.values.id] == before[w.values.id]
                &&& after[s.q.id] == before[s.q.id]
                &&& after[s.qraw.id] == before[s.qraw.id]
                &&& after[s.x.id] == before[s.x.id]
                &&& tables_kept(s, before, after)
            }),
    {
        let more = seq![w.keys, w.values];
        lemma_places(self, more);
        assert(more[0] == w.keys && more[1] == w.values);
        lemma_shared_names();
        lemma_hybrid_names();
        let heads = self.geometry.heads;
        groups_cover(load.rows + 32, heads * 256);
        lemma_product_bound(load.rows + 32, heads * 256, 65568, 8192);
        assert((load.rows + 32) * (heads * 256) == (load.rows + 32) * (heads * 256));
    }

    /// Rows that decode look at both caches one by one, split, and are put
    /// together again.
    #[verifier::rlimit(40)]
    #[verifier::spinoff_prover]
    pub proof fn decode_rows_look_at_both_caches(&self, m: Cells, p: Seq<Step>, w: FullAttention, load: Load)
        requires
            self.wf(),
            self.load_wf(load),
            apart(self.workplace(seq![w.keys, w.values])),
        ensures
            ({
                let s = self.scratch;
                let g = self.geometry;
                let before = run(m, p);
                let after = run(m, self.decode_steps(p, w, load));
                &&& after[s.attn.id] == (Value::Merged {
                    heads: g.heads as u32,
                    splits: self.decode_splits(load) as u32,
                    count: load.decode_rows * g.heads,
                    picks: Box::new(before[s.decode_rows.id]),
                    parts: Box::new(
                        Value::PartialUpTo {
                            heads: g.heads as u32,
                            kv_heads: g.kv_heads as u32,
                            stride: self.page_stride as u32,
                            scale: SIXTEENTH,
                            splits: self.decode_splits(load) as u32,
                            least: ceil_div(16, self.decode_live(load.decode_rows as int)) as u32,
                            launch: (
                                g.kv_heads as int,
                                load.decode_rows as int,
                                self.decode_splits(load),
                            ),
                            places: Box::new(before[s.meta.id]),
                            pages: Box::new(before[s.pages.id]),
                            picks: Box::new(before[s.decode_rows.id]),
                            limits: Box::new(before[s.limits.id]),
                            queries: Box::new(before[s.q.id]),
                            keys: Box::new(before[w.keys.id]),
                            values: Box::new(before[w.values.id]),
                        },
                    ),
                    base: Box::new(before[s.attn.id]),
                })
                &&& after[w.keys.id] == before[w.keys.id]
                &&& after[w.values.id] == before[w.values.id]
                &&& after[s.q.id] == before[s.q.id]
                &&& after[s.qraw.id] == before[s.qraw.id]
                &&& after[s.x.id] == before[s.x.id]
                &&& tables_kept(s, before, after)
            }),
    {
        let more = seq![w.keys, w.values];
        lemma_places(self, more);
        assert(more[0] == w.keys && more[1] == w.values);
        lemma_shared_names();
        lemma_hybrid_names();
    }

    /// Long decodes go in tiles of their own.
    #[verifier::rlimit(40)]
    #[verifier::spinoff_prover]
    pub proof fn long_tiles_look_at_both_caches(&self, m: Cells, p: Seq<Step>, w: FullAttention, tiles: usize)
        requires
            self.wf(),
            apart(self.workplace(seq![w.keys, w.values])),
        ensures
            ({
                let s = self.scratch;
                let g = self.geometry;
                let before = run(m, p);
                let after = run(m, self.long_steps(p, w, tiles));
                &&& after[s.attn.id] == (Value::Joined {
                    heads: g.heads as u32,
                    launch: (g.heads as int, tiles as int, 8),
                    tiles: Box::new(before[s.long_decode_tiles.id]),
                    parts: Box::new(
                        Value::AppendedUpTo {
                            heads: g.heads as u32,
                            kv_heads: g.kv_heads as u32,
                            stride: self.page_stride as u32,
                            scale: SIXTEENTH,
                            launch: (g.kv_heads as int, tiles as int, self.lanes.decode_parts as int),
                            places: Box::new(before[s.meta.id]),
                            pages: Box::new(before[s.pages.id]),
                            tiles: Box::new(before[s.long_decode_tiles.id]),
                            limits: Box::new(before[s.limits.id]),
                            queries: Box::new(
                                Value::StagedTiles {
                                    tiles: tiles as u32,
                                    launch: tiles * (8 * g.heads),
                                    spans: Box::new(before[s.long_decode_tiles.id]),
                                    of: Box::new(before[s.q.id]),
                                },
                            ),
                            keys: Box::new(before[w.keys.id]),
                            values: Box::new(before[w.values.id]),
                            base: Box::new(before[s.attn_parts.id]),
                        },
                    ),
                    base: Box::new(before[s.attn.id]),
                })
                &&& after[w.keys.id] == before[w.keys.id]
                &&& after[w.values.id] == before[w.values.id]
                &&& after[s.qraw.id] == before[s.qraw.id]
                &&& after[s.x.id] == before[s.x.id]
                &&& tables_kept(s, before, after)
            }),
    {
        let more = seq![w.keys, w.values];
        lemma_places(self, more);
        assert(more[0] == w.keys && more[1] == w.values);
        lemma_shared_names();
        lemma_hybrid_names();
    }

    /// The program of an attention layer up to its last look at the caches.
    pub open spec fn looked(&self, p: Seq<Step>, w: FullAttention, load: Load, spans: Seq<RowSpan>) -> Seq<Step> {
        let p = self.store_steps(p, w, load.rows, spans);
        let p = if load.tiles > 0 { self.append_steps(p, w, load) } else { p };
        let p = if load.decode_rows > 0 { self.decode_steps(p, w, load) } else { p };
        if load.long_tiles > 0 { self.long_steps(p, w, load.long_tiles) } else { p }
    }

    /// What the rows saw, gated by the other half of their query projection,
    /// leaves through the output projection; both caches stay as the tick
    /// wrote them.
    #[verifier::rlimit(60)]
    #[verifier::spinoff_prover]
    pub proof fn attention_gates_what_it_saw(
        &self,
        m: Cells,
        p: Seq<Step>,
        w: FullAttention,
        load: Load,
        spans: Seq<RowSpan>,
    )
        requires
            self.wf(),
            self.bonsai is None,
            self.load_wf(load),
            attention_shaped(self.geometry, w),
            apart(self.workplace(seq![w.keys, w.values])),
        ensures
            ({
                let s = self.scratch;
                let rows = load.rows;
                let start = run(m, p);
                let before = run(m, self.looked(p, w, load, spans));
                let after = run(m, self.full_attention_steps(p, w, load, spans));
                &&& after[s.delta.id] == product(
                    w.o,
                    rows as int,
                    Value::HeadsGated {
                        count: (rows * (self.geometry.heads * 256)) as u32,
                        gate: Box::new(product(w.q, rows as int, start[s.norm.id])),
                        of: Box::new(before[s.attn.id]),
                    },
                )
                &&& after[w.keys.id] == self.caches(start, w, rows).0
                &&& after[w.values.id] == self.caches(start, w, rows).1
                &&& after[s.x.id] == start[s.x.id]
                &&& tables_kept(s, start, after)
            }),
    {
        let s = self.scratch;
        let rows = load.rows;
        let more = seq![w.keys, w.values];
        let stored = self.store_steps(p, w, rows, spans);
        self.attention_stores_keys_and_values(m, p, w, rows, spans);
        let a = if load.tiles > 0 {
            self.append_tiles_look_at_both_caches(m, stored, w, load);
            self.append_steps(stored, w, load)
        } else {
            stored
        };
        let b = if load.decode_rows > 0 {
            self.decode_rows_look_at_both_caches(m, a, w, load);
            self.decode_steps(a, w, load)
        } else {
            a
        };
        if load.long_tiles > 0 {
            self.long_tiles_look_at_both_caches(m, b, w, load.long_tiles);
        }
        let q = self.looked(p, w, load, spans);
        let one = seq![Plane { weight: w.o, out: s.delta }];
        assert(projectable(self, one, rows as int, spans));
        self.lemma_leaves(m, q, w, rows, spans);
    }

    proof fn lemma_leaves(&self, m: Cells, q: Seq<Step>, w: FullAttention, rows: usize, spans: Seq<RowSpan>)
        requires
            self.wf(),
            self.bonsai is None,
            1 <= rows <= self.row_capacity,
            attention_shaped(self.geometry, w),
            apart(self.workplace(seq![w.keys, w.values])),
        ensures
            ({
                let s = self.scratch;
                let heads = self.geometry.heads;
                let before = run(m, q);
                let gate = crate::program::kernel(
                    if self.mlx { "mlx_attn_gate"@ } else { "qwen_attn_gate"@ },
                    seq![s.attn, s.qraw],
                    seq![(rows * (heads * 256)) as u32],
                    (groups(rows as int, heads * 256), 1, 1),
                    256,
                );
                let after = run(
                    m,
                    self.project_steps(
                        q.push(gate),
                        seq![Plane { weight: w.o, out: s.delta }],
                        s.attn,
                        rows,
                        s.gemm,
                        spans,
                    ),
                );
                &&& after[s.delta.id] == product(
                    w.o,
                    rows as int,
                    Value::HeadsGated {
                        count: (rows * (heads * 256)) as u32,
                        gate: Box::new(before[s.qraw.id]),
                        of: Box::new(before[s.attn.id]),
                    },
                )
                &&& after[w.keys.id] == before[w.keys.id]
                &&& after[w.values.id] == before[w.values.id]
                &&& after[s.x.id] == before[s.x.id]
                &&& tables_kept(s, before, after)
            }),
    {
        let s = self.scratch;
        let heads = self.geometry.heads;
        let more = seq![w.keys, w.values];
        lemma_places(self, more);
        assert(more[0] == w.keys && more[1] == w.values);
        lemma_shared_names();
        lemma_hybrid_names();
        groups_cover(rows as int, heads * 256);
        lemma_product_bound(rows as int, heads * 256, 65536, 8192);
        reveal_with_fuel(products, 2);
        let one = seq![Plane { weight: w.o, out: s.delta }];
        assert(projectable(self, one, rows as int, spans));
        assert(separate(one, s.attn, s.gemm));
        assert forall|q: Seq<Step>|
            agree(
                run(m, #[trigger] self.project_steps(q, one, s.attn, rows, s.gemm, spans)),
                products(run(m, q), one, run(m, q)[s.attn.id], rows as int, 1),
                s.gemm,
            ) by {
            self.lanes_multiply_every_plane(m, q, one, s.attn, rows, s.gemm, spans);
        }
    }
}

} // verus!
