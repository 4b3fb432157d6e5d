//! What a whole tick computes.
use vstd::prelude::*;
use crate::arith::{groups, groups_cover, lemma_product_bound, ONE};
use crate::device::effects::{effect, group_runs, group_shared, host, products, run};
use crate::device::names::lemma_shared_names;
use crate::device::values::{apart, normed, piece, product, sum, Cells, Value};
use crate::program::{Buffer, Plane, Step};
use crate::qwen35::forward::Tick;
use crate::qwen35::graph::{projectable, Graph};
use crate::qwen35::meaning::lane::{agree, separate};
use crate::qwen35::meaning::places::{lemma_places, tables_kept};
use crate::qwen35::multimodal::{first_shown, image_steps, run_end, shows, SlotImage};
use crate::qwen35::plan::Plan;
use crate::qwen35::state::Qwen35;
use crate::qwen35::upload::{limit_table, page_table, rope_table};
use crate::rows::{tokens, Row};
use crate::tables::{narrow, row_meta};

verus! {

broadcast use {group_runs, group_shared};

impl Graph {
    /// The rows of a tick behind its first norm, where no image is shown.
    pub proof fn ticks_embed_their_tokens(&self, m: Cells, t: Tick)
        requires
            self.wf(),
            t.wf(self),
            self.bonsai is None,
            t.images.len() == 0,
            apart(self.workplace(Seq::empty())),
        ensures
            ({
                let s = self.scratch;
                let after = run(m, self.entry_steps(t));
                let x = Value::Embedded {
                    table: self.embedding.buffer.id,
                    width: self.geometry.width as u32,
                    rows: t.rows.len() as u32,
                    form: if self.mlx && !self.ternary { self.vocab as u32 } else { self.embedding.ty },
                    scale: ONE,
                    ids: Box::new(m[s.ids.id]),
                };
                &&& after[s.x.id] == x
                &&& after[s.norm.id] == normed(
                    self.layers[0].norm,
                    self.geometry.width as u32,
                    self.eps,
                    t.rows.len() as int,
                    x,
                )
                &&& tables_kept(s, m, after)
                &&& after[self.state.id] == m[self.state.id]
                &&& after[self.conv.id] == m[self.conv.id]
            }),
    {
        let s = self.scratch;
        let width = self.geometry.width as int;
        let rows = t.rows.len() as int;
        lemma_places(self, Seq::empty());
        lemma_shared_names();
        groups_cover(rows, width);
        assert(width * rows == rows * width) by (nonlinear_arith);
        let none = Seq::<Step>::empty();
        assert(run(m, none) == m);
        assert forall|a: Step| run(m, #[trigger] seq![a]) == effect(m, a) by {
            assert(seq![a] =~= none.push(a));
        }
    }

    /// What follows a mixer.
    pub proof fn lemma_behind(&self, m: Cells, mixed: Seq<Step>, i: int, t: Tick)
        requires
            self.wf(),
            t.wf(self),
            self.bonsai is None,
            0 <= i < self.layers.len(),
            self.layers[i].moe matches Some(w) ==> w.router.n <= u32::MAX && w.shared_gate.n <= u32::MAX,
            apart(self.workplace(self.expert_places())),
        ensures
            ({
                let s = self.scratch;
                let l = self.layers[i];
                let rows = t.rows.len();
                let width = self.geometry.width;
                let q = self.ffn_steps(
                    mixed.push(self.residual_norm(l.post_norm, rows as int)),
                    l,
                    t,
                    t.compact[i],
                );
                let before = run(m, mixed);
                let next = run(m, q.push(self.residual_norm(self.layers[i + 1].norm, rows as int)));
                let size = (rows * width) as u32;
                let y = sum(size, ONE, before[s.x.id], before[s.delta.id]);
                let h = normed(l.post_norm, width as u32, self.eps, rows as int, y);
                let x = sum(size, ONE, y, self.fed(l, rows, h));
                &&& run(m, q)[s.x.id] == y
                &&& run(m, q)[s.delta.id] == self.fed(l, rows, h)
                &&& tables_kept(s, before, run(m, q))
                &&& next[s.x.id] == x
                &&& next[s.norm.id] == normed(
                    self.layers[i + 1].norm,
                    width as u32,
                    self.eps,
                    rows as int,
                    x,
                )
                &&& tables_kept(s, before, next)
            }),
    {
        let l = self.layers[i];
        let rows = t.rows.len();
        lemma_places(self, self.expert_places());
        lemma_shared_names();
        lemma_product_bound(rows as int, self.geometry.width as int, 65536, 8192);
        let q = mixed.push(self.residual_norm(l.post_norm, rows as int));
        let c = run(m, q);
        self.feed_forward_gates_up_by_gate(m, q, l, t, t.compact[i]);
    }

    /// The last residual.
    pub proof fn lemma_last(&self, m: Cells, q: Seq<Step>, rows: usize)
        requires
            self.wf(),
            1 <= rows <= 65536,
            apart(self.workplace(Seq::empty())),
        ensures
            ({
                let s = self.scratch;
                let width = self.geometry.width;
                let after = run(
                    m,
                    q.push(
                        crate::program::kernel(
                            if self.mlx && self.bonsai is None { "mlx_residual"@ } else { "residual"@ },
                            seq![s.x, s.delta],
                            seq![(rows * width) as u32, ONE],
                            (groups(rows as int, width as int), 1, 1),
                            256,
                        ),
                    ),
                );
                &&& after[s.x.id] == sum(
                    (rows * width) as u32,
                    ONE,
                    run(m, q)[s.x.id],
                    run(m, q)[s.delta.id],
                )
                &&& tables_kept(s, run(m, q), after)
            }),
    {
        let width = self.geometry.width;
        lemma_places(self, Seq::empty());
        lemma_shared_names();
        groups_cover(rows as int, width as int);
        lemma_product_bound(rows as int, width as int, 65536, 8192);
    }

    /// The logits of the rows that were asked for come from the normalised
    /// hidden rows, and on a greedy tick so do the picks; a verified tick
    /// keeps the hidden rows.
    pub proof fn ticks_answer_the_selected_rows(&self, m: Cells, p: Seq<Step>, t: Tick)
        requires
            self.wf(),
            t.wf(self),
            self.bonsai is None,
            self.mtp is None,
            self.dflash is None,
            t.selected > 0,
            self.spec matches Some(v) ==> apart(self.workplace(seq![v.logits, v.hidden, v.picks])),
            apart(self.workplace(Seq::empty())),
        ensures
            ({
                let s = self.scratch;
                let width = self.geometry.width;
                let n = t.selected;
                let before = run(m, p);
                let after = run(m, self.exit_steps(p, t));
                let logits = product(
                    self.head,
                    n as int,
                    Value::NormedPick {
                        gain: self.output_norm.buffer.id,
                        form: self.output_norm.ty,
                        width: width as u32,
                        eps: self.eps,
                        count: n as int,
                        picks: Box::new(before[s.outputs.id]),
                        of: Box::new(before[s.x.id]),
                    },
                );
                &&& after[self.logits_buffer().id] == logits
                &&& self.greedy_output ==> after[(self.spec->0).picks.id] == (Value::Largest {
                    vocab: self.vocab as u32,
                    rows: n as int,
                    of: Box::new(logits),
                })
                &&& self.verifying ==> after[(self.spec->0).hidden.id] == (Value::Patched {
                    from: 0,
                    to: 0,
                    count: (t.rows.len() * width) as u32,
                    new: Box::new(before[s.x.id]),
                    old: Box::new(before[(self.spec->0).hidden.id]),
                })
                &&& after[s.x.id] == before[s.x.id]
                &&& after[self.state.id] == before[self.state.id]
                &&& after[self.conv.id] == before[self.conv.id]
            }),
    {
        let s = self.scratch;
        let rows = t.rows.len() as int;
        let width = self.geometry.width as int;
        let out = self.logits_buffer();
        lemma_places(self, Seq::empty());
        if self.spec is Some {
            let v = self.spec->0;
            let more = seq![v.logits, v.hidden, v.picks];
            lemma_places(self, more);
            assert(more[0] == v.logits && more[1] == v.hidden && more[2] == v.picks);
        }
        lemma_shared_names();
        groups_cover(rows, width);
        lemma_product_bound(rows, width, 65536, 8192);
        reveal_with_fuel(products, 2);
        let one = seq![Plane { weight: self.head, out }];
        assert(projectable(self, one, t.selected as int, t.spans@));
        assert(separate(one, s.norm, s.gemm));
        assert forall|q: Seq<Step>|
            agree(
                run(m, #[trigger] self.project_steps(q, one, s.norm, t.selected, s.gemm, t.spans@)),
                products(run(m, q), one, run(m, q)[s.norm.id], t.selected as int, 1),
                s.gemm,
            ) by {
            self.lanes_multiply_every_plane(m, q, one, s.norm, t.selected, s.gemm, t.spans@);
        }
        assert forall|q: Seq<Step>| #[trigger] self.copies_steps(q, t.copies@) == q by {
            self.lemma_no_copies(q, t.copies@);
        }
    }

    proof fn lemma_no_copies(&self, p: Seq<Step>, copies: Seq<(usize, usize)>)
        requires
            self.dflash is None,
        ensures
            self.copies_steps(p, copies) == p,
        decreases copies.len(),
    {
        if copies.len() > 0 {
            self.lemma_no_copies(p, copies.drop_last());
        }
    }
}

/// Every row that shows part of an image has that part of the image for its
/// embedding, and every other row keeps what it had: for rows of a tick whose
/// sequences stand together and go on place by place.
pub proof fn images_cover_the_rows_that_show_them(
    m: Cells,
    p: Seq<Step>,
    i: SlotImage,
    rows: Seq<Row>,
    x: Buffer,
    width: usize,
    splash: bool,
    r: int,
)
    requires
        0 <= r < rows.len() <= 65536,
        0 < width <= 8192,
        i.offset + i.rows <= 0x8_0000,
        i.embd.id != x.id,
        forall|a: int, b: int|
            0 <= a < b < rows.len() && (#[trigger] rows[a]).slot == i.slot && (#[trigger] rows[b]).slot
                == i.slot ==> rows[b].position == rows[a].position + (b - a),
        forall|a: int, b: int, c: int|
            0 <= a <= b <= c < rows.len() && (#[trigger] rows[a]).slot == i.slot && (#[trigger] rows[c]).slot
                == i.slot ==> (#[trigger] rows[b]).slot == i.slot,
    ensures
        ({
            let before = run(m, p);
            let after = run(m, image_steps(p, i, rows, x, width, splash));
            piece(after[x.id], r * width, width as int) == if shows(rows[r], i) {
                piece(before[i.embd.id], (rows[r].position - i.offset) * width, width as int)
            } else {
                piece(before[x.id], r * width, width as int)
            }
        }),
{
    let first = first_shown(rows, i, 0);
    lemma_first_shown(rows, i, 0);
    lemma_shared_names();
    let w = width as int;
    if first < rows.len() {
        let end = run_end(rows, i, first);
        lemma_run_end(rows, i, first);
        let count = end - first;
        groups_cover(count, w);
        lemma_product_bound(count, w, 65536, 8192);
        lemma_product_bound(first, w, 65536, 8192);
        lemma_product_bound(rows[first].position - i.offset, w, 0x7_ffff, 8192);
        lemma_product_bound(r, w, 65536, 8192);
        if first <= r < end {
            assert(rows[r].position - i.offset == rows[first].position - i.offset + (r - first)) by {
                if first < r {
                    assert(rows[first].slot == i.slot && rows[r].slot == i.slot);
                }
            }
            assert(first * w <= r * w && (r - first) * w + w <= count * w && r * w == first * w + (r
                - first) * w) by (nonlinear_arith)
                requires
                    first <= r < first + count,
                    0 < w,
            ;
            assert((rows[first].position - i.offset) * w + (r - first) * w == (rows[first].position
                - i.offset + (r - first)) * w) by (nonlinear_arith);
        } else if r < first {
            assert(r * w + w <= first * w) by (nonlinear_arith)
                requires
                    r < first,
                    0 < w,
            ;
        } else {
            assert(first * w + count * w <= r * w) by (nonlinear_arith)
                requires
                    first + count <= r,
                    0 < w,
            ;
            if shows(rows[r], i) {
                assert(rows[first].slot == i.slot && rows[r].slot == i.slot);
                lemma_run_reaches(rows, i, first, r);
            }
        }
    }
}

/// From the first row on, a sequence shows the image until it ends, whoever
/// stands between: rows of one sequence stand together.
proof fn lemma_run_reaches(rows: Seq<Row>, i: SlotImage, from: int, r: int)
    requires
        0 <= from <= r < rows.len(),
        rows[from].slot == i.slot,
        shows(rows[r], i),
        forall|a: int, b: int|
            0 <= a < b < rows.len() && (#[trigger] rows[a]).slot == i.slot && (#[trigger] rows[b]).slot
                == i.slot ==> rows[b].position == rows[a].position + (b - a),
        forall|a: int| from <= a <= r ==> (#[trigger] rows[a]).slot == i.slot,
    ensures
        r < run_end(rows, i, from),
    decreases r - from,
{
    lemma_run_end(rows, i, from + 1);
    if from < r {
        assert(rows[from].slot == i.slot && rows[r].slot == i.slot);
        assert(rows[from + 1].slot == i.slot);
        lemma_run_reaches(rows, i, from + 1, r);
    }
}

proof fn lemma_first_shown(rows: Seq<Row>, i: SlotImage, from: int)
    requires
        0 <= from,
    ensures
        ({
            let f = first_shown(rows, i, from);
            &&& f < rows.len() ==> from <= f && shows(rows[f], i)
            &&& forall|a: int| from <= a < f && a < rows.len() ==> !shows(#[trigger] rows[a], i)
            &&& from >= rows.len() ==> f == rows.len()
            &&& f <= rows.len()
        }),
    decreases rows.len() - from,
{
    if from < rows.len() && !shows(rows[from], i) {
        lemma_first_shown(rows, i, from + 1);
    }
}

proof fn lemma_run_end(rows: Seq<Row>, i: SlotImage, from: int)
    requires
        0 <= from <= rows.len(),
    ensures
        from <= run_end(rows, i, from) <= rows.len(),
        forall|a: int|
            from <= a < run_end(rows, i, from) ==> (#[trigger] rows[a]).slot == i.slot && rows[a].position
                < i.offset + i.rows,
    decreases rows.len() - from,
{
    if from < rows.len() && rows[from].slot == i.slot && rows[from].position < i.offset + i.rows {
        lemma_run_end(rows, i, from + 1);
    }
}

impl Qwen35 {
    /// The tables of a tick stand where its kernels read them.
    pub proof fn tables_stand_where_they_are_read(&self, m: Cells, plan: Plan)
        requires
            apart(self.graph.workplace(Seq::empty())),
        ensures
            ({
                let s = self.graph.scratch;
                let c = host(m, self.tick_writes(plan));
                let rows = plan.rows@;
                &&& c[s.ids.id] == (Value::Words { words: tokens(rows) })
                &&& c[s.meta.id] == (Value::Words { words: row_meta(rows) })
                &&& c[s.outputs.id] == (Value::Words { words: narrow(plan.selected@) })
                &&& c[s.pages.id] == (Value::Words {
                    words: page_table(
                        self.slots@,
                        self.graph.page_stride as int,
                        self.slots.len() as int,
                    ),
                })
                &&& c[s.spans.id] == (Value::Words { words: plan.spans@ })
                &&& c[s.chunks.id] == (Value::Words { words: plan.chunks@ })
                &&& c[s.bounds.id] == (Value::Words { words: plan.bounds@ })
                &&& c[s.attn_tiles.id] == (Value::Words { words: plan.tiles@ })
                &&& c[s.decode_rows.id] == (Value::Words { words: plan.decode_rows@ })
                &&& c[s.long_decode_tiles.id] == (Value::Words { words: plan.long_decode_tiles@ })
                &&& c[s.checkpoint_rows.id] == (Value::Words { words: plan.checkpoint_rows@ })
                &&& c[s.checkpoint_spans.id] == (Value::Words { words: plan.checkpoint_spans@ })
                &&& c[s.mrope.id] == (Value::Words { words: rope_table(self.slots@, rows) })
                &&& c[s.limits.id] == (Value::Words { words: limit_table(self.slots@, rows) })
            }),
    {
        lemma_places(&self.graph, Seq::empty());
        let w = self.tick_writes(plan);
        assert(w =~= Seq::empty().push(w[0]).push(w[1]).push(w[2]).push(w[3]).push(w[4]).push(w[5]).push(
            w[6],
        ).push(w[7]).push(w[8]).push(w[9]).push(w[10]).push(w[11]).push(w[12]).push(w[13]));
    }
}

} // verus!
