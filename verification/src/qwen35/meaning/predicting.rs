//! What the next-token block computes.
use vstd::prelude::*;
use crate::arith::{groups_cover, lemma_ceil_div, lemma_product_bound, ONE};
use crate::device::effects::{
    group_drafting, group_runs, group_shared, products, run,
};
use crate::device::names::{lemma_drafting_names, lemma_shared_names};
use crate::device::values::{apart, normed, product, sum, Cells, Value};
use crate::program::{Buffer, Plane, RowSpan, Step};
use crate::qwen35::attention::Load;
use crate::qwen35::graph::{layer_shaped, projectable, Graph};
use crate::qwen35::meaning::lane::{agree, separate};
use crate::qwen35::meaning::places::{lemma_places, tables_kept};
use crate::qwen35::mtp::Mtp;
use crate::qwen35::multimodal::{mtp_image_steps, SlotImage};

verus! {

broadcast use {group_runs, group_shared, group_drafting};

impl Mtp {
    /// The planes of the block.
    pub open spec fn places(self) -> Seq<Buffer> {
        seq![self.pending, self.h, self.concat, self.drafted]
    }
}

/// Rows with the images that they show, one after another.
pub open spec fn shown(images: Seq<SlotImage>, m: Cells, places: Value, width: usize, rows: usize, of: Value) -> Value
    decreases images.len(),
{
    if images.len() == 0 {
        of
    } else {
        let i = images.last();
        Value::Shown {
            width: width as u32,
            rows: rows as u32,
            slot: i.slot as u32,
            offset: i.offset as u32,
            count: i.rows as u32,
            places: Box::new(places),
            image: Box::new(m[i.embd.id]),
            old: Box::new(shown(images.drop_last(), m, places, width, rows, of)),
        }
    }
}

/// Rows of a range show the image of that range, wherever the images are kept.
pub proof fn blocks_show_the_images_of_their_rows(
    m: Cells,
    p: Seq<Step>,
    images: Seq<SlotImage>,
    meta: Buffer,
    x: Buffer,
    width: usize,
    rows: usize,
)
    requires
        rows <= 65536,
        width <= 0x8000,
        meta.id != x.id,
        forall|i: int| 0 <= i < images.len() ==> (#[trigger] images[i]).embd.id != x.id,
    ensures
        ({
            let before = run(m, p);
            let after = run(m, mtp_image_steps(p, images, meta, x, width, rows));
            &&& after[x.id] == shown(images, before, before[meta.id], width, rows, before[x.id])
            &&& forall|id: u32| id != x.id ==> #[trigger] after[id] == before[id]
        }),
    decreases images.len(),
{
    if images.len() > 0 {
        let rest = images.drop_last();
        assert(forall|i: int| 0 <= i < rest.len() ==> rest[i] == images[i]);
        assert(images.last() == images[images.len() - 1]);
        blocks_show_the_images_of_their_rows(m, p, rest, meta, x, width, rows);
        lemma_drafting_names();
        groups_cover(rows as int, width as int);
        assert(width * rows == rows * width) by (nonlinear_arith);
    }
}

impl Graph {
    /// One plane of the block, on whatever lane.
    proof fn lemma_block_plane(&self, m: Cells, plane: Plane, input: Buffer, rows: usize, spans: Seq<RowSpan>)
        requires
            self.bonsai is None,
            projectable(self, seq![plane], rows as int, spans),
            separate(seq![plane], input, self.scratch.gemm),
        ensures
            forall|q: Seq<Step>|
                agree(
                    run(m, #[trigger] self.block_plane_steps(q, plane, input, rows, spans)),
                    run(m, q).insert(
                        plane.out.id,
                        product(plane.weight, rows as int, run(m, q)[input.id]),
                    ),
                    self.scratch.gemm,
                ),
    {
        let s = self.scratch;
        let one = seq![plane];
        reveal_with_fuel(products, 2);
        assert(one[0] == plane);
        assert(plane.out.id != input.id && plane.out.id != s.gemm.id);
        assert forall|q: Seq<Step>|
            agree(
                run(m, #[trigger] self.block_plane_steps(q, plane, input, rows, spans)),
                run(m, q).insert(
                    plane.out.id,
                    product(plane.weight, rows as int, run(m, q)[input.id]),
                ),
                s.gemm,
            ) by {
            self.lanes_multiply_every_plane(m, q, one, input, rows, s.gemm, spans);
        }
    }

    /// The entry of the block combines the rows of the next tokens with the
    /// hidden rows before them, each behind its own norm, tokens first.
    #[verifier::rlimit(80)]
    #[verifier::spinoff_prover]
    pub proof fn predictions_start_from_token_and_hidden_row(
        &self,
        m: Cells,
        p: Seq<Step>,
        load: Load,
        images: Seq<SlotImage>,
        spans: Seq<RowSpan>,
    )
        requires
            self.wf(),
            self.mtp is Some,
            self.bonsai is None,
            self.load_wf(load),
            apart(self.workplace((self.mtp->0).places())),
            forall|i: int|
                0 <= i < images.len() ==> (#[trigger] images[i]).embd.id != self.scratch.x.id,
        ensures
            ({
                let d = self.mtp->0;
                let s = self.scratch;
                let rows = load.rows;
                let width = self.geometry.width as u32;
                let before = run(m, p);
                let after = run(m, self.mtp_head_steps(p, load, images, spans));
                let tokens = Value::Embedded {
                    table: self.embedding.buffer.id,
                    width,
                    rows: rows as u32,
                    form: self.embedding.ty,
                    scale: ONE,
                    ids: Box::new(before[s.ids.id]),
                };
                let seen = if load.tiles > 0 {
                    shown(images, before, before[s.meta.id], self.geometry.width, rows, tokens)
                } else {
                    tokens
                };
                let x = product(
                    d.eh,
                    rows as int,
                    Value::Paired {
                        width,
                        rows: rows as u32,
                        first: Box::new(normed(d.en, width, self.eps, rows as int, seen)),
                        second: Box::new(normed(d.hn, width, self.eps, rows as int, before[s.delta.id])),
                    },
                );
                &&& after[s.x.id] == x
                &&& after[s.norm.id] == normed(d.layer.norm, width, self.eps, rows as int, x)
                &&& after[d.h.id] == before[d.h.id]
                &&& after[d.pending.id] == before[d.pending.id]
                &&& after[d.drafted.id] == before[d.drafted.id]
                &&& tables_kept(s, before, after)
            }),
    {
        let d = self.mtp->0;
        let s = self.scratch;
        let rows = load.rows;
        let more = d.places();
        lemma_places(self, more);
        assert(more[0] == d.pending && more[1] == d.h && more[2] == d.concat && more[3] == d.drafted);
        lemma_shared_names();
        lemma_drafting_names();
        let width = self.geometry.width;
        groups_cover(rows as int, width as int);
        assert(width * rows == rows * width) by (nonlinear_arith);
        let plane = Plane { weight: d.eh, out: s.x };
        assert(projectable(self, seq![plane], rows as int, spans));
        assert(separate(seq![plane], d.concat, s.gemm));
        self.lemma_block_plane(m, plane, d.concat, rows, spans);
        let start = p.push(
            crate::program::kernel(
                "embed"@,
                seq![self.embedding.buffer, s.ids, s.x],
                seq![width as u32, rows as u32, self.embedding.ty, ONE],
                (crate::arith::groups(rows as int, width as int), 1, 1),
                256,
            ),
        );
        blocks_show_the_images_of_their_rows(m, start, images, s.meta, s.x, width, rows);
        self.lemma_shown_before(images, run(m, start), run(m, p), run(m, p)[s.meta.id], rows, run(m, start)[s.x.id]);
    }

    proof fn lemma_shown_before(&self, images: Seq<SlotImage>, a: Cells, b: Cells, places: Value, rows: usize, of: Value)
        requires
            forall|i: int| 0 <= i < images.len() ==> a[(#[trigger] images[i]).embd.id] == b[images[i].embd.id],
        ensures
            shown(images, a, places, self.geometry.width, rows, of) == shown(
                images,
                b,
                places,
                self.geometry.width,
                rows,
                of,
            ),
        decreases images.len(),
    {
        if images.len() > 0 {
            let rest = images.drop_last();
            assert(forall|i: int| 0 <= i < rest.len() ==> rest[i] == images[i]);
            assert(images.last() == images[images.len() - 1]);
            self.lemma_shown_before(rest, a, b, places, rows, of);
        }
    }

    /// Behind its attention the block adds what was seen, feeds the normalised
    /// sum forward and adds that too.
    #[verifier::rlimit(80)]
    #[verifier::spinoff_prover]
    pub proof fn predictions_add_attention_and_feed_forward(
        &self,
        m: Cells,
        p: Seq<Step>,
        rows: usize,
        spans: Seq<RowSpan>,
    )
        requires
            self.wf(),
            self.mtp is Some,
            self.bonsai is None,
            1 <= rows <= self.row_capacity,
            (self.mtp->0).layer.moe matches Some(w) ==> w.router.n <= u32::MAX && w.shared_gate.n
                <= u32::MAX,
            apart(self.workplace(self.expert_places() + (self.mtp->0).places())),
        ensures
            ({
                let d = self.mtp->0;
                let s = self.scratch;
                let width = self.geometry.width;
                let size = (rows * width) as u32;
                let before = run(m, p);
                let after = run(m, self.mtp_tail_steps(p, rows, spans));
                let y = sum(size, ONE, before[s.x.id], before[s.delta.id]);
                let h = normed(d.layer.post_norm, width as u32, self.eps, rows as int, y);
                &&& after[s.x.id] == sum(size, ONE, y, self.fed(d.layer, rows, h))
                &&& after[d.h.id] == before[d.h.id]
                &&& after[d.pending.id] == before[d.pending.id]
                &&& after[d.drafted.id] == before[d.drafted.id]
                &&& tables_kept(s, before, after)
            }),
    {
        let d = self.mtp->0;
        let s = self.scratch;
        let l = d.layer;
        let more = self.expert_places() + d.places();
        let e = self.expert_places();
        lemma_places(self, more);
        let n = e.len() as int;
        assert(more[n] == d.pending && more[n + 1] == d.h && more[n + 2] == d.concat && more[n + 3]
            == d.drafted);
        lemma_shared_names();
        groups_cover(rows as int, self.geometry.ff as int);
        groups_cover(rows as int, self.geometry.width as int);
        lemma_product_bound(rows as int, self.geometry.ff as int, 65536, 17408);
        lemma_product_bound(rows as int, self.geometry.width as int, 65536, 5120);
        reveal_with_fuel(products, 3);
        assert(layer_shaped(self.geometry, l));
        let gate = Plane { weight: l.gate, out: s.gate };
        let up = Plane { weight: l.up, out: s.up };
        let down = Plane { weight: l.down, out: s.delta };
        let pair = seq![gate, up];
        assert(projectable(self, pair, rows as int, spans));
        assert(separate(pair, s.norm, s.gemm));
        assert(projectable(self, seq![down], rows as int, spans));
        assert(separate(seq![down], s.gate, s.gemm));
        self.lemma_block_plane(m, down, s.gate, rows, spans);
        assert forall|q: Seq<Step>|
            agree(
                run(m, #[trigger] self.project_steps(q, pair, s.norm, rows, s.gemm, spans)),
                products(run(m, q), pair, run(m, q)[s.norm.id], rows as int, 2),
                s.gemm,
            ) by {
            self.lanes_multiply_every_plane(m, q, pair, s.norm, rows, s.gemm, spans);
        }
        if l.moe is Some {
            let w = self.moe_scratch->0;
            assert(more[0] == w.logits && more[1] == w.shared_gate && more[2] == w.ids && more[3]
                == w.weights && more[4] == w.lists && more[5] == w.counts && more[6] == w.tiles && more[7]
                == w.gu && more[8] == w.out);
            let own = w.planes().push(s.norm).push(s.delta);
            assert(apart(own)) by {
                assert(own[0] == w.logits && own[1] == w.shared_gate && own[2] == w.ids && own[3]
                    == w.weights && own[4] == w.lists && own[5] == w.counts && own[6] == w.tiles && own[7]
                    == w.gu && own[8] == w.out && own[9] == s.norm && own[10] == s.delta);
            }
            assert forall|q: Seq<Step>|
                ({
                    let after = run(
                        m,
                        #[trigger] w.ffn_steps(q, l.moe->0, s.norm, s.delta, rows),
                    );
                    &&& after[s.delta.id] == w.experts(
                        l.moe->0,
                        rows,
                        run(m, q)[s.norm.id],
                        run(m, q)[s.delta.id],
                    )
                    &&& forall|id: u32|
                        id != s.delta.id && !w.owns(id) ==> #[trigger] after[id] == run(m, q)[id]
                }) by {
                w.experts_are_folded_as_picked(m, q, l.moe->0, s.norm, s.delta, rows);
            }
        }
    }

    /// Catching up, the block reads the hidden row in front of every row of
    /// the tick, and keeps the last hidden row of every sequence and those of
    /// the saved prefixes.
    #[verifier::rlimit(60)]
    #[verifier::spinoff_prover]
    pub proof fn catching_up_keeps_the_last_hidden_rows(
        &self,
        m: Cells,
        p: Seq<Step>,
        source: Buffer,
        load: Load,
        images: Seq<SlotImage>,
        spans: Seq<RowSpan>,
    )
        requires
            self.wf(),
            self.mtp is Some,
            self.load_wf(load),
            apart(self.workplace((self.mtp->0).places())),
        ensures
            ({
                let d = self.mtp->0;
                let s = self.scratch;
                let width = self.geometry.width;
                let rows = load.rows;
                let before = run(m, p);
                let after = run(m, self.mtp_catchup_steps(p, source, load, images, spans));
                let hidden = Value::Patched {
                    from: 0,
                    to: 0,
                    count: (rows * width) as u32,
                    new: Box::new(before[source.id]),
                    old: Box::new(before[d.h.id]),
                };
                exists|q: Seq<Step>|
                    {
                        let mid = run(m, #[trigger] self.mtp_block_steps(q, load, images, spans));
                        &&& run(m, q)[d.h.id] == hidden
                        &&& run(m, q)[s.delta.id] == (Value::Previous {
                            width: width as u32,
                            rows: rows as u32,
                            kept: false,
                            hidden: Box::new(hidden),
                            pending: Box::new(before[d.pending.id]),
                            places: Box::new(before[s.meta.id]),
                            bounds: Box::new(before[s.bounds.id]),
                        })
                        &&& after[d.pending.id] == (Value::Pending {
                            width: width as u32,
                            rows: rows as u32,
                            places: Box::new(mid[s.meta.id]),
                            bounds: Box::new(mid[s.bounds.id]),
                            marks: Box::new(mid[s.checkpoint_rows.id]),
                            new: Box::new(mid[d.h.id]),
                            old: Box::new(mid[d.pending.id]),
                        })
                    }
            }),
    {
        let d = self.mtp->0;
        let s = self.scratch;
        let rows = load.rows;
        let width = self.geometry.width;
        let more = d.places();
        lemma_places(self, more);
        assert(more[0] == d.pending && more[1] == d.h && more[2] == d.concat && more[3] == d.drafted);
        lemma_shared_names();
        lemma_drafting_names();
        groups_cover(rows as int, width as int);
        assert(width * rows == rows * width) by (nonlinear_arith);
        lemma_product_bound(rows as int, width as int, 65536, 5120);
        let grid = (crate::arith::groups(rows as int, width as int), 1int, 1int);
        let q = p.push(
            crate::program::kernel(
                "spec_copy"@,
                seq![source, d.h],
                seq![0u32, 0u32, (rows * width) as u32],
                grid,
                256,
            ),
        ).push(
            crate::program::kernel(
                "mtp_hidden"@,
                seq![d.h, d.pending, s.meta, s.bounds, s.delta],
                seq![width as u32, rows as u32, 0u32],
                grid,
                256,
            ),
        );
        let mid = run(m, self.mtp_block_steps(q, load, images, spans));
        assert(run(m, q)[d.h.id] is Patched);
    }

    /// A draft step picks the largest logit of the block's rows behind their
    /// own norm, adds it to the chain at the step's place, and moves on by one.
    #[verifier::rlimit(60)]
    #[verifier::spinoff_prover]
    pub proof fn draft_steps_extend_the_chain(&self, m: Cells, p: Seq<Step>, load: Load, step: usize, k: usize)
        requires
            self.wf(),
            self.mtp is Some,
            self.bonsai is None,
            self.load_wf(load),
            apart(self.workplace((self.mtp->0).places())),
        ensures
            ({
                let d = self.mtp->0;
                let s = self.scratch;
                let rows = load.rows;
                let mid = run(m, self.mtp_block_steps(p, load, Seq::empty(), Seq::empty()));
                let after = run(m, self.mtp_step_steps(p, load, step, k));
                let h = normed(d.head_norm, self.geometry.width as u32, self.eps, rows as int, mid[s.x.id]);
                let pick = Value::Largest {
                    vocab: self.vocab as u32,
                    rows: rows as int,
                    of: Box::new(product(self.head, rows as int, h)),
                };
                let further = |v: Value| Value::Further { rows: rows as u32, of: Box::new(v) };
                &&& after[s.delta.id] == h
                &&& after[s.ids.id] == pick
                &&& after[d.drafted.id] == (Value::Drafted {
                    rows: rows as u32,
                    step: step as u32,
                    of: k as u32,
                    new: Box::new(pick),
                    old: Box::new(mid[d.drafted.id]),
                })
                &&& after[s.meta.id] == further(mid[s.meta.id])
                &&& after[s.mrope.id] == further(mid[s.mrope.id])
                &&& after[s.limits.id] == further(mid[s.limits.id])
            }),
    {
        let d = self.mtp->0;
        let s = self.scratch;
        let rows = load.rows;
        let more = d.places();
        lemma_places(self, more);
        assert(more[0] == d.pending && more[1] == d.h && more[2] == d.concat && more[3] == d.drafted);
        lemma_shared_names();
        lemma_drafting_names();
        lemma_ceil_div(rows as int, 256);
        let plane = Plane { weight: self.head, out: s.logits };
        assert(projectable(self, seq![plane], rows as int, Seq::empty()));
        assert(separate(seq![plane], s.delta, s.gemm));
        self.lemma_block_plane(m, plane, s.delta, rows, Seq::empty());
    }

    /// A chain starts from the hidden rows kept of its sequences, and has its
    /// steps one after another.
    pub proof fn chains_start_from_the_kept_rows(&self, m: Cells, load: Load, k: usize)
        requires
            self.wf(),
            self.mtp is Some,
            self.load_wf(load),
        ensures
            ({
                let d = self.mtp->0;
                let s = self.scratch;
                exists|p: Seq<Step>|
                    {
                        &&& self.mtp_draft_steps(load, k) == #[trigger] self.mtp_chain_steps(
                            p,
                            load,
                            k as nat,
                            k,
                        )
                        &&& run(m, p)[s.delta.id] == (Value::Previous {
                            width: self.geometry.width as u32,
                            rows: load.rows as u32,
                            kept: true,
                            hidden: Box::new(m[d.h.id]),
                            pending: Box::new(m[d.pending.id]),
                            places: Box::new(m[s.meta.id]),
                            bounds: Box::new(m[s.bounds.id]),
                        })
                    }
            }),
    {
        let d = self.mtp->0;
        let s = self.scratch;
        let rows = load.rows;
        let width = self.geometry.width;
        lemma_drafting_names();
        groups_cover(rows as int, width as int);
        assert(width * rows == rows * width) by (nonlinear_arith);
        let first = crate::program::kernel(
            "mtp_hidden"@,
            seq![d.h, d.pending, s.meta, s.bounds, s.delta],
            seq![width as u32, rows as u32, 1u32],
            (crate::arith::groups(rows as int, width as int), 1, 1),
            256,
        );
        let p = seq![first];
        assert(p =~= Seq::empty().push(first));
        assert(run(m, Seq::empty()) == m);
        assert(self.mtp_draft_steps(load, k) == self.mtp_chain_steps(p, load, k as nat, k));
    }
}

} // verus!
