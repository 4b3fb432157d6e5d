//! What a feed-forward computes, routed experts included.
use vstd::prelude::*;
use crate::arith::{ceil_div, groups_cover, lemma_ceil_div, lemma_product_bound};
use crate::device::effects::{
    group_experts, group_planes, group_runs, group_shared, products, run,
};
use crate::device::names::{lemma_experts_names, lemma_planes_names, lemma_shared_names};
use crate::device::values::{apart, gated, product, Cells, Value};
use crate::program::{Buffer, Plane, Step};
use crate::qwen35::forward::Tick;
use crate::qwen35::graph::{layer_shaped, projectable, Graph, Layer};
use crate::qwen35::meaning::lane::{agree, separate};
use crate::qwen35::meaning::places::{lemma_places, tables_kept};
use crate::qwen35::moe::{Experts, Workspace, ACTIVE, EXPERTS, FF, WIDTH};

verus! {

broadcast use {group_runs, group_shared, group_planes, group_experts};

/// Router logits: picks or their weights.
pub open spec fn routed(w: Experts, weights: bool, rows: usize, h: Value) -> Value {
    Value::Routed { weights, bias: 0, rows: rows as int, of: Box::new(product(w.router, rows as int, h)) }
}

impl Workspace {
    /// Routed experts: each pick's gate and up halves of the row, activated,
    /// then its down half; weighted as picked and added to what was there.
    pub open spec fn experts(self, w: Experts, rows: usize, h: Value, base: Value) -> Value {
        let picks = routed(w, false, rows, h);
        let tile = Self::tile(rows as int);
        let listed = |counts: bool| Value::Aligned {
            counts,
            picks: (rows * ACTIVE) as u32,
            experts: EXPERTS as int,
            of: Box::new(picks),
        };
        let tiles = Value::Tiled {
            experts: EXPERTS as u32,
            rows: tile as u32,
            of: Box::new(listed(true)),
        };
        let halves = if rows >= 16 {
            Value::PairTiles {
                gate: w.gate.buffer.id,
                up: w.up.buffer.id,
                k: WIDTH as u32,
                n: FF as u32,
                rows: rows as u32,
                launch: (ceil_div(FF as int, 32) * 2, ceil_div(rows * ACTIVE, tile) + EXPERTS, 1),
                lists: Box::new(listed(false)),
                counts: Box::new(listed(true)),
                tiles: Box::new(tiles),
                of: Box::new(h),
            }
        } else {
            Value::PairRows {
                gate: w.gate.buffer.id,
                up: w.up.buffer.id,
                k: WIDTH as u32,
                n: FF as u32,
                rows: rows as u32,
                launch: (ceil_div(FF as int, 4), rows * ACTIVE, 1),
                picks: Box::new(picks),
                of: Box::new(h),
            }
        };
        let active = Value::PairGated {
            width: FF as u32,
            picks: (rows * ACTIVE) as u32,
            of: Box::new(halves),
        };
        let back = if rows >= 16 {
            Value::ExpertTiles {
                up: false,
                plane: w.down.buffer.id,
                k: FF as u32,
                n: WIDTH as u32,
                rows: rows as u32,
                launch: (ceil_div(WIDTH as int, 32), ceil_div(rows * ACTIVE, tile) + EXPERTS, 1),
                lists: Box::new(listed(false)),
                counts: Box::new(listed(true)),
                tiles: Box::new(tiles),
                of: Box::new(active),
            }
        } else {
            Value::ExpertRows {
                up: false,
                plane: w.down.buffer.id,
                k: FF as u32,
                n: WIDTH as u32,
                rows: rows as u32,
                launch: (ceil_div(WIDTH as int, 4), rows * ACTIVE, 1),
                picks: Box::new(picks),
                of: Box::new(active),
            }
        };
        Value::FoldedBeside {
            width: WIDTH as u32,
            rows: rows as u32,
            weights: Box::new(routed(w, true, rows, h)),
            shared: Box::new(product(w.shared_gate, rows as int, h)),
            experts: Box::new(back),
            base: Box::new(base),
        }
    }

    /// A routed feed-forward adds the picked experts of the normalised rows to
    /// the shared one.
    #[verifier::rlimit(60)]
    #[verifier::spinoff_prover]
    pub proof fn experts_are_folded_as_picked(
        self,
        m: Cells,
        p: Seq<Step>,
        w: Experts,
        norm: Buffer,
        delta: Buffer,
        rows: usize,
    )
        requires
            1 <= rows <= 8192,
            w.router.n <= u32::MAX && w.shared_gate.n <= u32::MAX,
            apart(self.planes().push(norm).push(delta)),
        ensures
            ({
                let before = run(m, p);
                let after = run(m, self.ffn_steps(p, w, norm, delta, rows));
                &&& after[delta.id] == self.experts(w, rows, before[norm.id], before[delta.id])
                &&& forall|id: u32|
                    id != delta.id && !self.owns(id) ==> #[trigger] after[id] == before[id]
            }),
    {
        let l = self.planes().push(norm).push(delta);
        crate::device::values::lemma_seats(l);
        assert(l[0] == self.logits && l[1] == self.shared_gate && l[2] == self.ids && l[3] == self.weights
            && l[4] == self.lists && l[5] == self.counts && l[6] == self.tiles && l[7] == self.gu && l[8]
            == self.out && l[9] == norm && l[10] == delta);
        lemma_shared_names();
        lemma_planes_names();
        lemma_experts_names();
        lemma_ceil_div(w.router.n as int, 4);
        lemma_ceil_div(w.shared_gate.n as int, 4);
        groups_cover(rows * ACTIVE, FF as int);
        groups_cover(rows as int, WIDTH as int);
        assert(FF * (rows * ACTIVE) == rows * ACTIVE * FF) by (nonlinear_arith);
        assert(WIDTH * rows == rows * WIDTH) by (nonlinear_arith);
    }

    /// A plane of this workspace.
    pub open spec fn owns(self, id: u32) -> bool {
        ||| id == self.logits.id
        ||| id == self.shared_gate.id
        ||| id == self.ids.id
        ||| id == self.weights.id
        ||| id == self.lists.id
        ||| id == self.counts.id
        ||| id == self.tiles.id
        ||| id == self.gu.id
        ||| id == self.out.id
    }
}

impl Graph {
    /// The gated feed-forward of normalised rows, with routed experts where
    /// the layer has them.
    pub open spec fn fed(&self, l: Layer, rows: usize, h: Value) -> Value {
        let m = rows as int;
        let dense = product(
            l.down,
            m,
            gated((rows * self.geometry.ff) as u32, product(l.gate, m, h), product(l.up, m, h)),
        );
        match l.moe {
            Some(w) => (self.moe_scratch->0).experts(w, rows, h, dense),
            None => dense,
        }
    }

    /// The places of routed experts, where there are any.
    pub open spec fn expert_places(&self) -> Seq<Buffer> {
        match self.moe_scratch {
            Some(w) => w.planes(),
            None => Seq::empty(),
        }
    }

    /// The down projection reads the activated gate projection times the up
    /// projection, on every lane; the residual and the tables stay.
    #[verifier::rlimit(60)]
    #[verifier::spinoff_prover]
    pub proof fn feed_forward_gates_up_by_gate(&self, m: Cells, p: Seq<Step>, l: Layer, t: Tick, compact: bool)
        requires
            self.wf(),
            t.wf(self),
            self.bonsai is None,
            layer_shaped(self.geometry, l),
            l.moe matches Some(w) ==> w.router.n <= u32::MAX && w.shared_gate.n <= u32::MAX,
            apart(self.workplace(self.expert_places())),
        ensures
            ({
                let s = self.scratch;
                let before = run(m, p);
                let after = run(m, self.ffn_steps(p, l, t, compact));
                &&& after[s.delta.id] == self.fed(l, t.rows.len(), before[s.norm.id])
                &&& after[s.x.id] == before[s.x.id]
                &&& tables_kept(s, before, after)
            }),
    {
        let s = self.scratch;
        let rows = t.rows.len();
        lemma_places(self, self.expert_places());
        lemma_shared_names();
        groups_cover(rows as int, self.geometry.ff as int);
        lemma_product_bound(rows as int, self.geometry.ff as int, 65536, 17408);
        reveal_with_fuel(products, 4);
        let gate = Plane { weight: l.gate, out: s.gate };
        let up = Plane { weight: l.up, out: s.up };
        let down = Plane { weight: l.down, out: s.delta };
        let pair = seq![gate, up];
        let one = seq![down];
        assert(projectable(self, pair, rows as int, t.spans@));
        assert(projectable(self, one, rows as int, t.spans@));
        assert(separate(pair, s.norm, s.gemm));
        assert(separate(one, s.gate, s.gemm));
        self.lanes_multiply_every_plane(m, p, pair, s.norm, rows, s.gemm, t.spans@);
        assert forall|q: Seq<Step>|
            agree(
                run(m, #[trigger] self.project_steps(q, one, s.gate, rows, s.gemm, t.spans@)),
                products(run(m, q), one, run(m, q)[s.gate.id], rows as int, 1),
                s.gemm,
            ) by {
            self.lanes_multiply_every_plane(m, q, one, s.gate, rows, s.gemm, t.spans@);
        }
        if l.moe is Some {
            let w = self.moe_scratch->0;
            let e = self.expert_places();
            assert(e[0] == w.logits && e[1] == w.shared_gate && e[2] == w.ids && e[3] == w.weights && e[4]
                == w.lists && e[5] == w.counts && e[6] == w.tiles && e[7] == w.gu && e[8] == w.out);
            let own = w.planes().push(s.norm).push(s.delta);
            assert(apart(own)) by {
                assert(own[0] == w.logits && own[1] == w.shared_gate && own[2] == w.ids && own[3]
                    == w.weights && own[4] == w.lists && own[5] == w.counts && own[6] == w.tiles && own[7]
                    == w.gu && own[8] == w.out && own[9] == s.norm && own[10] == s.delta);
            }
            assert forall|q: Seq<Step>|
                ({
                    let after = run(
                        m,
                        #[trigger] w.ffn_steps(q, l.moe->0, s.norm, s.delta, rows),
                    );
                    &&& after[s.delta.id] == w.experts(
                        l.moe->0,
                        rows,
                        run(m, q)[s.norm.id],
                        run(m, q)[s.delta.id],
                    )
                    &&& forall|id: u32|
                        id != s.delta.id && !w.owns(id) ==> #[trigger] after[id] == run(m, q)[id]
                }) by {
                w.experts_are_folded_as_picked(m, q, l.moe->0, s.norm, s.delta, rows);
            }
        }
    }
}

} // verus!
