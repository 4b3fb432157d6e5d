//! What a layer computes behind its mixer.
use vstd::prelude::*;
use crate::arith::ONE;
use crate::device::effects::run;
use crate::device::values::{apart, normed, sum, Cells};
use crate::program::{Buffer, RowSpan, Step};
use crate::qwen35::attention::Load;
use crate::qwen35::forward::Tick;
use crate::qwen35::graph::{Graph, Mixer};
use crate::qwen35::meaning::places::tables_kept;
use crate::qwen35::multimodal::SlotImage;

verus! {

impl Graph {
    /// Behind a mixer a layer adds its branch, feeds the normalised sum
    /// forward, adds that too, and normalises for the layer that follows.
    pub proof fn layers_add_mixer_and_feed_forward(&self, m: Cells, p: Seq<Step>, i: int, t: Tick)
        requires
            self.wf(),
            t.wf(self),
            self.bonsai is None,
            0 <= i < self.layers.len(),
            self.layers[i].moe matches Some(w) ==> w.router.n <= u32::MAX && w.shared_gate.n <= u32::MAX,
            apart(self.workplace(self.expert_places())),
        ensures
            ({
                let s = self.scratch;
                let l = self.layers[i];
                let rows = t.rows.len();
                let width = self.geometry.width;
                let tapped = self.dflash_tap_steps(p, i, rows);
                let mixed = match l.mixer {
                    Mixer::Linear(w) => self.recurrent_steps(tapped, w, t),
                    Mixer::Full(w) => self.full_attention_steps(tapped, w, t.load, t.spans@),
                };
                let before = run(m, mixed);
                let after = run(m, self.layer_steps(p, i, t));
                let size = (rows * width) as u32;
                let y = sum(size, ONE, before[s.x.id], before[s.delta.id]);
                let h = normed(l.post_norm, width as u32, self.eps, rows as int, y);
                let x = sum(size, ONE, y, self.fed(l, rows, h));
                &&& after[s.x.id] == x
                &&& i + 1 < self.layers.len() ==> after[s.norm.id] == normed(
                    self.layers[i + 1].norm,
                    width as u32,
                    self.eps,
                    rows as int,
                    x,
                )
                &&& tables_kept(s, before, after)
            }),
    {
        let l = self.layers[i];
        let rows = t.rows.len();
        let tapped = self.dflash_tap_steps(p, i, rows);
        let mixed = match l.mixer {
            Mixer::Linear(w) => self.recurrent_steps(tapped, w, t),
            Mixer::Full(w) => self.full_attention_steps(tapped, w, t.load, t.spans@),
        };
        self.lemma_behind(m, mixed, i, t);
        let q = self.ffn_steps(
            mixed.push(self.residual_norm(l.post_norm, rows as int)),
            l,
            t,
            t.compact[i],
        );
        self.lemma_fewer(self.expert_places());
        self.lemma_last(m, q, rows);
    }

    /// A prediction is one more layer: what it attends to and its feed-forward
    /// are added to the combined rows.
    pub proof fn predictions_are_one_more_layer(
        &self,
        m: Cells,
        p: Seq<Step>,
        load: Load,
        images: Seq<SlotImage>,
        spans: Seq<RowSpan>,
    )
        requires
            self.wf(),
            self.mtp is Some,
            self.bonsai is None,
            self.load_wf(load),
            (self.mtp->0).layer.moe matches Some(w) ==> w.router.n <= u32::MAX && w.shared_gate.n
                <= u32::MAX,
            apart(self.workplace(self.expert_places() + (self.mtp->0).places())),
            apart(
                self.workplace(
                    seq![
                        ((self.mtp->0).layer.mixer->Full_0).keys,
                        ((self.mtp->0).layer.mixer->Full_0).values,
                    ],
                ),
            ),
        ensures
            ({
                let d = self.mtp->0;
                let s = self.scratch;
                let rows = load.rows;
                let width = self.geometry.width;
                let size = (rows * width) as u32;
                let head = self.mtp_head_steps(p, load, images, spans);
                let mixed = self.full_attention_steps(head, d.layer.mixer->Full_0, load, spans);
                let after = run(m, self.mtp_block_steps(p, load, images, spans));
                let y = sum(size, ONE, run(m, head)[s.x.id], run(m, mixed)[s.delta.id]);
                let h = normed(d.layer.post_norm, width as u32, self.eps, rows as int, y);
                &&& after[s.x.id] == sum(size, ONE, y, self.fed(d.layer, rows, h))
                &&& tables_kept(s, run(m, head), after)
            }),
    {
        let d = self.mtp->0;
        let w = d.layer.mixer->Full_0;
        let head = self.mtp_head_steps(p, load, images, spans);
        self.attention_gates_what_it_saw(m, head, w, load, spans);
        let mixed = self.full_attention_steps(head, w, load, spans);
        self.predictions_add_attention_and_feed_forward(m, mixed, load.rows, spans);
    }

    /// Buffers of a longer list are apart in a shorter one.
    proof fn lemma_fewer(&self, more: Seq<Buffer>)
        requires
            apart(self.workplace(more)),
        ensures
            apart(self.workplace(Seq::empty())),
    {
        let a = self.workplace(Seq::empty());
        let b = self.workplace(more);
        assert forall|i: int, j: int| 0 <= i < j < a.len() implies #[trigger] a[i].id != #[trigger] a[j].id by {
            assert(a[i] == b[i] && a[j] == b[j]);
        }
    }
}

} // verus!
