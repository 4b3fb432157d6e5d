//! What a recurrent layer computes.
use vstd::prelude::*;
use crate::arith::{ceil_div, groups_cover, lemma_product_bound};
use crate::device::effects::{group_hybrid, group_runs, group_shared, products, run};
use crate::device::names::{lemma_hybrid_names, lemma_shared_names};
use crate::device::values::{apart, product, Cells, Net, Value};
use crate::program::{Plane, Step};
use crate::qwen35::forward::Tick;
use crate::qwen35::geometry::KEY_HEADS;
use crate::qwen35::graph::{projectable, recurrent_shaped, DeltaNet, Graph};
use crate::qwen35::meaning::lane::{agree, separate};
use crate::qwen35::meaning::places::{lemma_places, tables_kept};

verus! {

broadcast use {group_runs, group_shared, group_hybrid};

impl Graph {
    /// The numbers of a recurrent layer.
    pub open spec fn net(&self, w: DeltaNet, rows: usize) -> Net {
        Net {
            key_heads: KEY_HEADS as u32,
            value_heads: self.geometry.value_heads as u32,
            channels: self.geometry.conv_width() as u32,
            rows: rows as u32,
            slots: self.state_slots as u32,
            layer: w.index as u32,
        }
    }

    /// Projected rows, convolved over the windows before them, their query and
    /// key heads normalised.
    pub open spec fn heads(&self, m: Cells, w: DeltaNet, rows: usize) -> Value {
        let s = self.scratch;
        let net = self.net(w, rows);
        Value::NetHeads {
            net,
            rows: rows as int,
            of: Box::new(
                Value::NetConv {
                    net,
                    kernel: w.conv.buffer.id,
                    places: Box::new(m[s.meta.id]),
                    bounds: Box::new(m[s.bounds.id]),
                    window: Box::new(m[self.conv.id]),
                    of: Box::new(product(w.qkv, rows as int, m[s.norm.id])),
                },
            ),
        }
    }

    pub open spec fn gated_by(&self, m: Cells, w: DeltaNet, rows: usize) -> Value {
        let h = m[self.scratch.norm.id];
        Value::NetGates {
            net: self.net(w, rows),
            a: w.a.buffer.id,
            dt: w.dt.buffer.id,
            alpha: Box::new(product(w.alpha, rows as int, h)),
            beta: Box::new(product(w.beta, rows as int, h)),
        }
    }

    /// The entry of a recurrent layer leaves its projection, the heads that go
    /// through the state, their gates, and what gates the result.
    #[verifier::rlimit(60)]
    #[verifier::spinoff_prover]
    pub proof fn recurrent_layers_convolve_and_gate(&self, m: Cells, p: Seq<Step>, w: DeltaNet, t: Tick)
        requires
            self.wf(),
            t.wf(self),
            self.bonsai is None,
            recurrent_shaped(self.geometry, w),
            apart(self.workplace(Seq::empty())),
        ensures
            ({
                let s = self.scratch;
                let rows = t.rows.len();
                let before = run(m, p);
                let after = run(m, self.recurrent_entry_steps(p, w, t));
                &&& after[s.qkv.id] == product(w.qkv, rows as int, before[s.norm.id])
                &&& after[s.z.id] == product(w.z, rows as int, before[s.norm.id])
                &&& after[s.convolved.id] == self.heads(before, w, rows)
                &&& after[s.gates.id] == self.gated_by(before, w, rows)
                &&& after[self.conv.id] == before[self.conv.id]
                &&& after[self.state.id] == before[self.state.id]
                &&& after[s.attn.id] == before[s.attn.id]
                &&& after[s.prepared.id] == before[s.prepared.id]
                &&& after[s.x.id] == before[s.x.id]
                &&& tables_kept(s, before, after)
            }),
    {
        let s = self.scratch;
        let g = self.geometry;
        let rows = t.rows.len();
        lemma_places(self, Seq::empty());
        lemma_shared_names();
        lemma_hybrid_names();
        groups_cover(rows as int, g.conv_width());
        groups_cover(rows as int, g.value_heads as int);
        reveal_with_fuel(products, 5);
        let qkv = Plane { weight: w.qkv, out: s.qkv };
        let z = Plane { weight: w.z, out: s.z };
        let alpha = Plane { weight: w.alpha, out: s.alpha };
        let beta = Plane { weight: w.beta, out: s.beta };
        let all = seq![qkv, z, alpha, beta];
        let two = seq![qkv, z];
        let small = seq![alpha, beta];
        assert(!crate::qwen35::projection::eligible(all)) by {
            assert(all[2].weight.n < 1024);
        }
        if self.mlx {
            assert(projectable(self, all, rows as int, t.spans@));
            assert(separate(all, s.norm, s.gemm));
            self.lanes_multiply_every_plane(m, p, all, s.norm, rows, s.gemm, t.spans@);
        } else {
            assert(projectable(self, two, rows as int, t.spans@));
            assert(projectable(self, small, rows as int, t.spans@));
            assert(separate(two, s.norm, s.gemm));
            assert(separate(small, s.norm, s.gemm));
            self.lanes_multiply_every_plane(m, p, two, s.norm, rows, s.gemm, t.spans@);
            let q = self.project_steps(p, two, s.norm, rows, s.gemm, t.spans@);
            self.lanes_multiply_every_plane(m, q, small, s.norm, rows, s.gemm, t.spans@);
        }
    }

    /// A verified tick leaves the states and the windows as they are, and
    /// keeps beside them the layer's projection, in its own stretch, and what
    /// its rows would have written.
    pub proof fn verification_moves_no_state(&self, m: Cells, p: Seq<Step>, w: DeltaNet, t: Tick)
        requires
            self.wf(),
            t.wf(self),
            self.verifying,
            w.index < 64,
            apart(self.workplace(seq![(self.spec->0).conv_input, (self.spec->0).updates])),
        ensures
            ({
                let s = self.scratch;
                let v = self.spec->0;
                let rows = t.rows.len();
                let before = run(m, p);
                let after = run(m, self.recurrent_verify_steps(p, w, t));
                let tried = |updates: bool, base: Value| Value::NetTried {
                    updates,
                    net: self.net(w, rows),
                    limit: v.rows as u32,
                    sequences: t.sequences as int,
                    spans: Box::new(before[s.spans.id]),
                    places: Box::new(before[s.meta.id]),
                    gates: Box::new(before[s.gates.id]),
                    state: Box::new(before[self.state.id]),
                    of: Box::new(before[s.convolved.id]),
                    base: Box::new(base),
                };
                &&& after[self.state.id] == before[self.state.id]
                &&& after[self.conv.id] == before[self.conv.id]
                &&& after[s.attn.id] == tried(false, before[s.attn.id])
                &&& after[v.updates.id] == tried(true, before[v.updates.id])
                &&& after[v.conv_input.id] == (Value::Patched {
                    from: 0,
                    to: (w.index * (v.rows * self.geometry.conv_width())) as u32,
                    count: (rows * self.geometry.conv_width()) as u32,
                    new: Box::new(before[s.qkv.id]),
                    old: Box::new(before[v.conv_input.id]),
                })
                &&& after[s.z.id] == before[s.z.id]
                &&& after[s.x.id] == before[s.x.id]
                &&& tables_kept(s, before, after)
            }),
    {
        let v = self.spec->0;
        let more = seq![v.conv_input, v.updates];
        lemma_places(self, more);
        assert(more[0] == v.conv_input && more[1] == v.updates);
        lemma_shared_names();
        lemma_hybrid_names();
        groups_cover(t.rows.len() as int, self.geometry.conv_width());
        lemma_product_bound(t.rows.len() as int, self.geometry.conv_width(), 65536, 10240);
    }

    /// Rows behind the state of a layer, and that state: rows that decode, and
    /// every row of an affine lane, one by one; chunks of prompts after them.
    pub open spec fn walked(&self, m: Cells, w: DeltaNet, t: Tick) -> (Value, Value) {
        let s = self.scratch;
        let net = self.net(w, t.rows.len());
        let moved = |by: Value, state: Value| Value::Moved { by: Box::new(by), state: Box::new(state) };
        let single = Value::NetRows {
            net,
            sequences: t.sequences as int,
            spans: Box::new(m[s.spans.id]),
            places: Box::new(m[s.meta.id]),
            saves: Box::new(m[s.checkpoint_rows.id]),
            gates: Box::new(m[s.gates.id]),
            state: Box::new(m[self.state.id]),
            of: Box::new(m[s.convolved.id]),
            base: Box::new(m[s.attn.id]),
        };
        let (rows, state) = if self.mlx || t.load.decode_rows > 0 {
            (single, moved(single, m[self.state.id]))
        } else {
            (m[s.attn.id], m[self.state.id])
        };
        let chunk = |solved: bool, base: Value| Value::Chunk {
            solved,
            net,
            chunks: t.chunks as int,
            spans: Box::new(m[s.chunks.id]),
            gates: Box::new(m[s.gates.id]),
            of: Box::new(m[s.convolved.id]),
            base: Box::new(base),
        };
        let many = Value::ChunkRows {
            net,
            sequences: t.sequences as int,
            spans: Box::new(m[s.spans.id]),
            chunks: Box::new(m[s.chunks.id]),
            places: Box::new(m[s.meta.id]),
            gates: Box::new(m[s.gates.id]),
            state: Box::new(state),
            of: Box::new(chunk(true, chunk(false, m[s.prepared.id]))),
            base: Box::new(rows),
        };
        if !self.mlx && t.chunks > 0 {
            (many, moved(many, state))
        } else {
            (rows, state)
        }
    }

    /// A tick that is not verified moves the windows behind the rows and the
    /// state with them, saving what was asked for on the way.
    #[verifier::rlimit(40)]
    #[verifier::spinoff_prover]
    pub proof fn walking_moves_states_and_windows(&self, m: Cells, p: Seq<Step>, w: DeltaNet, t: Tick)
        requires
            self.wf(),
            t.wf(self),
            apart(self.workplace(Seq::empty())),
        ensures
            ({
                let s = self.scratch;
                let before = run(m, p);
                let after = run(m, self.recurrent_walk_steps(p, w, t));
                &&& after[s.attn.id] == self.walked(before, w, t).0
                &&& after[self.state.id] == self.walked(before, w, t).1
                &&& after[self.conv.id] == (Value::NetSlid {
                    net: self.net(w, t.rows.len()),
                    channels: ceil_div(self.geometry.conv_width(), 256) * 256,
                    sequences: t.sequences as int,
                    spans: Box::new(before[s.spans.id]),
                    places: Box::new(before[s.meta.id]),
                    saves: Box::new(before[s.checkpoint_spans.id]),
                    window: Box::new(before[self.conv.id]),
                    over: Box::new(before[s.qkv.id]),
                })
                &&& after[s.z.id] == before[s.z.id]
                &&& after[s.x.id] == before[s.x.id]
                &&& tables_kept(s, before, after)
            }),
    {
        lemma_places(self, Seq::empty());
        lemma_shared_names();
        lemma_hybrid_names();
    }

    /// The rows behind the state, gated by their own projection, leave through
    /// the output projection.
    #[verifier::rlimit(40)]
    #[verifier::spinoff_prover]
    pub proof fn recurrent_layers_gate_their_rows(&self, m: Cells, p: Seq<Step>, w: DeltaNet, t: Tick)
        requires
            self.wf(),
            t.wf(self),
            self.bonsai is None,
            recurrent_shaped(self.geometry, w),
            apart(self.workplace(Seq::empty())),
        ensures
            ({
                let s = self.scratch;
                let rows = t.rows.len();
                let entered = self.recurrent_entry_steps(p, w, t);
                let mixed = if self.verifying {
                    self.recurrent_verify_steps(entered, w, t)
                } else {
                    self.recurrent_walk_steps(entered, w, t)
                };
                let before = run(m, mixed);
                let after = run(m, self.recurrent_steps(p, w, t));
                &&& after[s.delta.id] == product(
                    w.out,
                    rows as int,
                    Value::NormedGate {
                        gain: w.norm.buffer.id,
                        eps: self.eps,
                        rows: rows as int,
                        gate: Box::new(before[s.z.id]),
                        of: Box::new(before[s.attn.id]),
                    },
                )
                &&& after[self.state.id] == before[self.state.id]
                &&& after[self.conv.id] == before[self.conv.id]
                &&& after[s.x.id] == before[s.x.id]
                &&& tables_kept(s, before, after)
            }),
    {
        let s = self.scratch;
        let rows = t.rows.len();
        lemma_places(self, Seq::empty());
        lemma_shared_names();
        lemma_hybrid_names();
        reveal_with_fuel(products, 2);
        let one = seq![Plane { weight: w.out, out: s.delta }];
        assert(projectable(self, one, rows as int, t.spans@));
        assert(separate(one, s.attn, s.gemm));
        assert forall|q: Seq<Step>|
            agree(
                run(m, #[trigger] self.project_steps(q, one, s.attn, rows, s.gemm, t.spans@)),
                products(run(m, q), one, run(m, q)[s.attn.id], rows as int, 1),
                s.gemm,
            ) by {
            self.lanes_multiply_every_plane(m, q, one, s.attn, rows, s.gemm, t.spans@);
        }
    }
}

} // verus!
