//! What the block drafter computes.
use vstd::prelude::*;
use crate::arith::{ceil_div, groups_cover, lemma_product_bound, MAX_ROWS, ONE};
use crate::device::effects::{
    group_drafting, group_hybrid, group_runs, group_shared, products, run,
};
use crate::device::names::{lemma_drafting_names, lemma_hybrid_names, lemma_shared_names};
use crate::device::values::{apart, gated, product, seat, sum, Cells, Value};
use crate::program::{Buffer, Plane, Step, Weight};
use crate::qwen35::dflash::{Conv, Dflash, DraftLayer, DH, DK, ROPE, SCALE};
use crate::qwen35::graph::{projectable, Graph};
use crate::qwen35::meaning::copies::{no_ring, rings_apart};
use crate::qwen35::meaning::lane::{agree, separate};
use crate::qwen35::meaning::places::{lemma_places, tables_kept};

verus! {

broadcast use {group_runs, group_shared, group_hybrid, group_drafting};

impl Dflash {
    /// The planes of the drafter, and the rings of one of its layers.
    pub open spec fn places(self, l: DraftLayer) -> Seq<Buffer> {
        self.planes().push(l.keys).push(l.values)
    }
}

/// Each plane of the drafter has its own place.
proof fn lemma_draft_places(g: &Graph, d: Dflash, l: DraftLayer)
    requires
        apart(g.workplace(d.places(l))),
    ensures
        ({
            let w = g.workplace(d.places(l));
            &&& seat(w, d.pages.id) == 36
            &&& seat(w, d.taps.id) == 37
            &&& seat(w, d.conditioning.id) == 38
            &&& seat(w, d.z.id) == 39
            &&& seat(w, d.x.id) == 40
            &&& seat(w, d.norm.id) == 41
            &&& seat(w, d.delta.id) == 42
            &&& seat(w, d.conv.id) == 43
            &&& seat(w, d.coeff.id) == 44
            &&& seat(w, d.q.id) == 45
            &&& seat(w, d.qn.id) == 46
            &&& seat(w, d.k.id) == 47
            &&& seat(w, d.v.id) == 48
            &&& seat(w, d.attn.id) == 49
            &&& seat(w, d.gate.id) == 50
            &&& seat(w, d.up.id) == 51
            &&& seat(w, d.gemm.id) == 52
            &&& seat(w, d.logits.id) == 53
            &&& seat(w, d.top.id) == 54
            &&& seat(w, d.top_parts.id) == 55
            &&& seat(w, d.selector_h.id) == 56
            &&& seat(w, d.out.id) == 57
            &&& seat(w, l.keys.id) == 58
            &&& seat(w, l.values.id) == 59
        }),
{
    let more = d.places(l);
    lemma_places(g, more);
    assert(more[0] == d.pages && more[1] == d.taps && more[2] == d.conditioning && more[3] == d.z
        && more[4] == d.x && more[5] == d.norm && more[6] == d.delta && more[7] == d.conv && more[8]
        == d.coeff && more[9] == d.q && more[10] == d.qn && more[11] == d.k && more[12] == d.v && more[13]
        == d.attn && more[14] == d.gate && more[15] == d.up && more[16] == d.gemm && more[17]
        == d.logits && more[18] == d.top && more[19] == d.top_parts && more[20] == d.selector_h
        && more[21] == d.out && more[22] == l.keys && more[23] == l.values);
}

impl Graph {
    /// Draft rows behind a norm.
    pub open spec fn draft_normed(&self, gain: Weight, rows: int, of: Value) -> Value {
        Value::Normed {
            gain: gain.buffer.id,
            width: self.geometry.width as u32,
            form: 0,
            eps: self.eps,
            rows,
            of: Box::new(of),
        }
    }

    /// Rows of draft blocks, convolved in front of a sublayer or behind it.
    pub open spec fn convolved(
        &self,
        c: Conv,
        rows: usize,
        block: usize,
        behind: bool,
        coefficients: Value,
        of: Value,
    ) -> Value {
        Value::Mixed {
            base: c.base.buffer.id,
            width: self.geometry.width as u32,
            rows: rows as u32,
            block: block as u32,
            behind: if behind { 1 } else { 0 },
            coefficients: Box::new(coefficients),
            of: Box::new(of),
        }
    }

    /// A layer's rings with these rows in them: keys are normalised and
    /// turned, values go in as they are.
    pub open spec fn ringed(
        &self,
        m: Cells,
        l: DraftLayer,
        rows: int,
        drafted: bool,
        of: Value,
    ) -> (Value, Value) {
        let s = self.scratch;
        let d = self.dflash->0;
        let put = |turned: Option<(u32, u32, u32, Box<Value>)>, new: Value, old: Value| Value::Ringed {
            turned,
            heads: DK as u32,
            stride: self.page_stride as u32,
            ring: d.ring_tokens as u32,
            drafted: if drafted { 1 } else { 0 },
            rows,
            places: Box::new(m[s.meta.id]),
            pages: Box::new(m[d.pages.id]),
            bounds: Box::new(m[s.bounds.id]),
            new: Box::new(new),
            old: Box::new(old),
        };
        (
            put(
                Some((l.kn.buffer.id, self.eps, ROPE, Box::new(m[s.mrope.id]))),
                product(l.k, rows, of),
                m[l.keys.id],
            ),
            put(None, product(l.v, rows, of), m[l.values.id]),
        )
    }

    /// What draft rows see: their own normalised and turned queries against
    /// the layer's keys and values, their own among them.
    pub open spec fn draft_seen(
        &self,
        m: Cells,
        l: DraftLayer,
        sequences: int,
        rows: usize,
        of: Value,
    ) -> Value {
        let s = self.scratch;
        let d = self.dflash->0;
        let rings = self.ringed(m, l, rows as int, true, of);
        let queries = Value::Staged {
            width: 4096,
            first: 0,
            rows: rows as u32,
            of: Box::new(
                Value::DraftTurned {
                    heads: DH as u32,
                    gain: l.qn.buffer.id,
                    eps: self.eps,
                    base: ROPE,
                    rows: rows as int,
                    places: Box::new(m[s.mrope.id]),
                    of: Box::new(product(l.q, rows as int, of)),
                },
            ),
        };
        let seen = Value::DraftSeen {
            parts: self.splash,
            heads: DH as u32,
            groups: DK as u32,
            stride: self.page_stride as u32,
            scale: SCALE,
            rows: rows as u32,
            launch: if self.splash { (DK as int, sequences, 8int) } else { (DH as int, sequences, 1int) },
            places: Box::new(m[s.meta.id]),
            pages: Box::new(m[d.pages.id]),
            tiles: Box::new(m[s.attn_tiles.id]),
            queries: Box::new(queries),
            keys: Box::new(rings.0),
            values: Box::new(rings.1),
        };
        if self.splash {
            Value::DraftJoined { rows: rows as u32, launch: rows * DH, of: Box::new(seen) }
        } else {
            seen
        }
    }

    /// The attention of a draft layer looks from its convolved rows at the
    /// layer's rings, into which it has put their keys and values.
    #[verifier::rlimit(80)]
    #[verifier::spinoff_prover]
    pub proof fn draft_attention_sees_its_rings(
        &self,
        m: Cells,
        p: Seq<Step>,
        l: DraftLayer,
        sequences: usize,
        block: usize,
    )
        requires
            self.wf(),
            self.dflash is Some,
            sequences * block <= MAX_ROWS,
            apart(self.workplace((self.dflash->0).places(l))),
        ensures
            ({
                let d = self.dflash->0;
                let rows = (sequences * block) as usize;
                let before = run(m, p);
                let after = run(m, self.draft_attention_steps(p, l, sequences, block));
                let h = self.draft_normed(l.norm, rows as int, before[d.x.id]);
                let taps = product(l.ac.proj, rows as int, h);
                let c = self.convolved(l.ac, rows, block, false, taps, h);
                &&& after[d.attn.id] == self.draft_seen(before, l, sequences as int, rows, c)
                &&& after[l.keys.id] == self.ringed(before, l, rows as int, true, c).0
                &&& after[l.values.id] == self.ringed(before, l, rows as int, true, c).1
                &&& after[d.coeff.id] == taps
                &&& after[d.x.id] == before[d.x.id]
                &&& after[d.pages.id] == before[d.pages.id]
                &&& tables_kept(self.scratch, before, after)
            }),
    {
        let d = self.dflash->0;
        let rows = (sequences * block) as usize;
        assert(0 <= sequences * block) by (nonlinear_arith);
        lemma_places(self, d.places(l));
        lemma_draft_places(self, d, l);
        lemma_shared_names();
        lemma_hybrid_names();
        lemma_drafting_names();
        groups_cover(rows + 32, 4096);
        groups_cover(rows as int, self.geometry.width as int / 4);
        reveal_with_fuel(products, 4);
    }

    /// Behind its attention a draft layer projects, convolves and adds what
    /// was seen, then gates, convolves and adds its feed-forward.
    #[verifier::rlimit(80)]
    #[verifier::spinoff_prover]
    pub proof fn draft_layers_add_both_halves(
        &self,
        m: Cells,
        p: Seq<Step>,
        l: DraftLayer,
        rows: usize,
        block: usize,
    )
        requires
            self.wf(),
            self.dflash is Some,
            rows <= MAX_ROWS,
            apart(self.workplace((self.dflash->0).places(l))),
        ensures
            ({
                let d = self.dflash->0;
                let n = rows as int;
                let size = (rows * self.geometry.width) as u32;
                let before = run(m, p);
                let after = run(m, self.draft_ffn_steps(p, l, rows, block));
                let seen = self.convolved(
                    l.ac,
                    rows,
                    block,
                    true,
                    before[d.coeff.id],
                    product(l.o, n, before[d.attn.id]),
                );
                let y = sum(size, ONE, before[d.x.id], seen);
                let h = self.draft_normed(l.post, n, y);
                let taps = product(l.fc.proj, n, h);
                let c = self.convolved(l.fc, rows, block, false, taps, h);
                let fed = product(
                    l.down,
                    n,
                    gated((rows * self.geometry.ff) as u32, product(l.gate, n, c), product(l.up, n, c)),
                );
                &&& after[d.x.id] == sum(
                    size,
                    ONE,
                    y,
                    self.convolved(l.fc, rows, block, true, taps, fed),
                )
                &&& after[d.pages.id] == before[d.pages.id]
                &&& tables_kept(self.scratch, before, after)
            }),
    {
        let d = self.dflash->0;
        lemma_places(self, d.places(l));
        lemma_draft_places(self, d, l);
        lemma_shared_names();
        lemma_hybrid_names();
        lemma_drafting_names();
        groups_cover(rows as int, self.geometry.width as int / 4);
        groups_cover(rows as int, self.geometry.width as int);
        groups_cover(rows as int, self.geometry.ff as int);
        lemma_product_bound(rows as int, self.geometry.width as int, 65536, 5120);
        lemma_product_bound(rows as int, self.geometry.ff as int, 65536, 17408);
        reveal_with_fuel(products, 3);
    }

    /// Behind the layers the normalised rows give the candidates through the
    /// head and the hidden rows of the selector; the path goes through the
    /// candidates from predecessors to successors.
    #[verifier::rlimit(80)]
    #[verifier::spinoff_prover]
    pub proof fn drafts_pick_a_path_of_candidates(
        &self,
        m: Cells,
        p: Seq<Step>,
        l: DraftLayer,
        sequences: usize,
        block: usize,
    )
        requires
            self.wf(),
            self.bonsai is None,
            self.dflash is Some,
            1 <= sequences * block <= MAX_ROWS,
            apart(self.workplace((self.dflash->0).places(l))),
            projectable(
                self,
                seq![Plane { weight: self.head, out: (self.dflash->0).logits }],
                sequences * block,
                Seq::empty(),
            ),
        ensures
            ({
                let d = self.dflash->0;
                let s = self.scratch;
                let rows = sequences * block;
                let parts = ceil_div(self.vocab as int, 4096);
                let before = run(m, p);
                let after = run(m, self.draft_select_steps(p, sequences, block));
                let h = self.draft_normed(d.out_norm, rows, before[d.x.id]);
                let best = Value::Best {
                    candidates: (parts * 16) as u32,
                    rows,
                    of: Box::new(
                        Value::BestOfParts {
                            vocab: self.vocab as u32,
                            parts,
                            rows,
                            of: Box::new(product(self.head, rows, h)),
                        },
                    ),
                };
                after[d.out.id] == (Value::Path {
                    block: block as u32,
                    before: d.pred.buffer.id,
                    before_form: d.pred.ty,
                    behind: d.succ.buffer.id,
                    behind_form: d.succ.ty,
                    sequences: sequences as int,
                    best: Box::new(best),
                    hidden: Box::new(product(d.selector, rows, h)),
                    ids: Box::new(before[s.ids.id]),
                })
            }),
    {
        let d = self.dflash->0;
        let rows = (sequences * block) as usize;
        lemma_places(self, d.places(l));
        lemma_draft_places(self, d, l);
        lemma_shared_names();
        lemma_drafting_names();
        reveal_with_fuel(products, 3);
        let one = seq![Plane { weight: self.head, out: d.logits }];
        assert(separate(one, d.norm, d.gemm));
        assert forall|q: Seq<Step>|
            agree(
                run(m, #[trigger] self.project_steps(q, one, d.norm, rows, d.gemm, Seq::empty())),
                products(run(m, q), one, run(m, q)[d.norm.id], rows as int, 1),
                d.gemm,
            ) by {
            self.lanes_multiply_every_plane(m, q, one, d.norm, rows, d.gemm, Seq::empty());
        }
    }

    /// A draft starts from the rows of its tokens in the shared embedding.
    pub proof fn drafts_start_from_their_tokens(&self, m: Cells, sequences: usize, block: usize)
        requires
            self.wf(),
            self.dflash is Some,
            sequences * block <= MAX_ROWS,
        ensures
            ({
                let d = self.dflash->0;
                let steps = self.dflash_draft_steps(sequences, block);
                exists|p: Seq<Step>|
                    {
                        &&& steps == self.draft_select_steps(
                            #[trigger] self.draft_layers(p, d.layers@, sequences, block),
                            sequences,
                            block,
                        )
                        &&& run(m, p)[d.x.id] == (Value::Embedded {
                            table: self.embedding.buffer.id,
                            width: self.geometry.width as u32,
                            rows: (sequences * block) as u32,
                            form: if self.mlx { self.vocab as u32 } else { self.embedding.ty },
                            scale: ONE,
                            ids: Box::new(m[self.scratch.ids.id]),
                        })
                    }
            }),
    {
        let d = self.dflash->0;
        let rows = (sequences * block) as usize;
        let width = self.geometry.width;
        assert(0 <= sequences * block) by (nonlinear_arith);
        lemma_shared_names();
        groups_cover(rows as int, width as int);
        assert(width * rows == rows * width) by (nonlinear_arith);
        let first = crate::program::kernel(
            if self.mlx { "mlx_embed"@ } else { "embed"@ },
            seq![self.embedding.buffer, self.scratch.ids, d.x],
            seq![
                width as u32,
                rows as u32,
                if self.mlx { self.vocab as u32 } else { self.embedding.ty },
                ONE,
            ],
            (crate::arith::groups(rows as int, width as int), 1, 1),
            256,
        );
        let p = seq![first];
        assert(p =~= Seq::empty().push(first));
        assert(run(m, Seq::empty()) == m);
        let q = self.draft_layers(p, d.layers@, sequences, block);
        assert(self.dflash_draft_steps(sequences, block) == self.draft_select_steps(q, sequences, block));
    }

    /// The five taps keep the rows in front of every fourteenth layer, from
    /// the sixth on, each at its own place; other layers keep nothing.
    pub proof fn taps_keep_every_fourteenth_layer(&self, m: Cells, p: Seq<Step>, layer: int, rows: usize)
        requires
            self.wf(),
            self.dflash is Some,
            0 <= layer < 64,
            rows <= MAX_ROWS,
        ensures
            ({
                let d = self.dflash->0;
                let before = run(m, p);
                let after = run(m, self.dflash_tap_steps(p, layer, rows));
                let tap = (layer - 6) / 14;
                &&& layer % 14 == 6 ==> after[d.taps.id] == (Value::Tapped {
                    tap: tap as u32,
                    width: self.geometry.width as u32,
                    rows: rows as u32,
                    new: Box::new(before[self.scratch.x.id]),
                    old: Box::new(before[d.taps.id]),
                })
                &&& layer % 14 != 6 ==> after == before
                &&& forall|id: u32| id != d.taps.id ==> #[trigger] after[id] == before[id]
            }),
    {
        let width = self.geometry.width;
        lemma_drafting_names();
        groups_cover(rows as int, width as int);
        assert(width * rows == rows * width) by (nonlinear_arith);
    }

    proof fn lemma_appended(&self, m: Cells, p: Seq<Step>, layers: Seq<DraftLayer>, rows: usize, id: u32)
        requires
            self.dflash is Some,
            no_ring(layers, id),
            id != (self.dflash->0).k.id,
            id != (self.dflash->0).v.id,
            id != (self.dflash->0).gemm.id,
        ensures
            run(m, self.append_layers(p, layers, rows))[id] == run(m, p)[id],
        decreases layers.len(),
    {
        if layers.len() > 0 {
            let rest = layers.drop_last();
            assert(forall|i: int| 0 <= i < rest.len() ==> rest[i] == layers[i]);
            assert(layers.last() == layers[layers.len() - 1]);
            lemma_drafting_names();
            reveal_with_fuel(products, 3);
            self.lemma_appended(m, p, rest, rows, id);
        }
    }

    /// Finished rows condition every layer: the layer's rings get the keys
    /// and values of the conditioning rows.
    #[verifier::rlimit(80)]
    #[verifier::spinoff_prover]
    pub proof fn rings_get_keys_and_values_of_finished_rows(
        &self,
        m: Cells,
        p: Seq<Step>,
        layers: Seq<DraftLayer>,
        rows: usize,
        j: int,
    )
        requires
            self.dflash is Some,
            0 <= j < layers.len(),
            rings_apart(layers),
            forall|i: int|
                0 <= i < layers.len() ==> apart(
                    self.workplace((self.dflash->0).places(#[trigger] layers[i])),
                ),
        ensures
            ({
                let d = self.dflash->0;
                let before = run(m, p);
                let after = run(m, self.append_layers(p, layers, rows));
                let rings = self.ringed(before, layers[j], rows as int, false, before[d.z.id]);
                &&& after[layers[j].keys.id] == rings.0
                &&& after[layers[j].values.id] == rings.1
            }),
        decreases layers.len(),
    {
        let d = self.dflash->0;
        let rest = layers.drop_last();
        let last = layers.len() - 1;
        let l = layers[last];
        let s = self.scratch;
        assert(forall|i: int| 0 <= i < rest.len() ==> rest[i] == layers[i]);
        assert(layers.last() == l);
        lemma_places(self, d.places(l));
        lemma_draft_places(self, d, l);
        lemma_drafting_names();
        reveal_with_fuel(products, 3);
        if j < last {
            assert(layers[j].keys.id != l.keys.id && layers[j].values.id != l.keys.id);
            assert(layers[j].keys.id != l.values.id && layers[j].values.id != l.values.id);
            lemma_places(self, d.places(layers[j]));
            lemma_draft_places(self, d, layers[j]);
            self.rings_get_keys_and_values_of_finished_rows(m, p, rest, rows, j);
        } else {
            assert forall|i: int| 0 <= i < rest.len() implies {
                let o = #[trigger] rest[i];
                &&& o.keys.id != s.meta.id && o.values.id != s.meta.id
                &&& o.keys.id != s.mrope.id && o.values.id != s.mrope.id
                &&& o.keys.id != s.bounds.id && o.values.id != s.bounds.id
                &&& o.keys.id != d.pages.id && o.values.id != d.pages.id
                &&& o.keys.id != d.z.id && o.values.id != d.z.id
                &&& o.keys.id != l.keys.id && o.values.id != l.keys.id
                &&& o.keys.id != l.values.id && o.values.id != l.values.id
            } by {
                assert(rest[i] == layers[i]);
                lemma_places(self, d.places(layers[i]));
                lemma_draft_places(self, d, layers[i]);
            }
            self.lemma_appended(m, p, rest, rows, s.meta.id);
            self.lemma_appended(m, p, rest, rows, s.mrope.id);
            self.lemma_appended(m, p, rest, rows, s.bounds.id);
            self.lemma_appended(m, p, rest, rows, d.pages.id);
            self.lemma_appended(m, p, rest, rows, d.z.id);
            self.lemma_appended(m, p, rest, rows, l.keys.id);
            self.lemma_appended(m, p, rest, rows, l.values.id);
        }
    }

    /// The conditioning rows are the taps, combined and normalised.
    pub proof fn conditioning_combines_the_taps(&self, m: Cells, p: Seq<Step>, rows: usize)
        requires
            self.dflash is Some,
            (self.dflash->0).taps.id != (self.dflash->0).gemm.id,
            (self.dflash->0).conditioning.id != (self.dflash->0).gemm.id,
        ensures
            ({
                let d = self.dflash->0;
                let before = run(m, p);
                exists|q: Seq<Step>|
                    {
                        &&& self.dflash_append_steps(p, rows) == #[trigger] self.append_layers(
                            q,
                            d.layers@,
                            rows,
                        )
                        &&& run(m, q)[d.z.id] == self.draft_normed(
                            d.enc_norm,
                            rows as int,
                            product(d.fc, rows as int, before[d.taps.id]),
                        )
                    }
            }),
    {
        let d = self.dflash->0;
        lemma_shared_names();
        lemma_drafting_names();
        reveal_with_fuel(products, 2);
        let q = p.push(crate::program::linear(d.fc, d.taps, d.conditioning, rows as int, d.gemm)).push(
            self.draft_rms(d.conditioning, d.enc_norm, d.z, rows as int),
        );
        assert(self.dflash_append_steps(p, rows) == self.append_layers(q, d.layers@, rows));
    }
}

} // verus!
