//! What a tick of the hybrid decoder computes.
use vstd::prelude::*;
use crate::arith::{ceil_div, groups, groups_cover, ONE};
use crate::device::effects::{
    effect, group_nemotron, group_planes, group_runs, group_shared, host, products, run,
};
use crate::device::names::{lemma_nemotron_names, lemma_planes_names, lemma_shared_names};
use crate::device::projecting::projections_multiply_every_plane;
use crate::device::values::{apart, entry, lemma_seats, product, seat, sum, Cells, Value};
use crate::nemotron::forward::{norm_step, Plan, Shape};
use crate::nemotron::serving::page_table;
use crate::rows::tokens;
use crate::tables::{narrow, row_meta};
use crate::nemotron::graph::{
    layer_wf, Attention, Experts, Layer, Mamba, Mixer, Nemotron, Scratch, CHUNK, EPS, FF, WIDTH,
};
use crate::program::{Buffer, Plane, Step, Weight};

verus! {

broadcast use {group_runs, group_shared, group_planes, group_nemotron};

impl Scratch {
    /// Where a tick is worked on.
    pub open spec fn workplace(self) -> Seq<Buffer> {
        seq![
            self.ids,
            self.meta,
            self.pages,
            self.output_rows,
            self.decode_rows,
            self.attention_tiles,
            self.sequences,
            self.ssd_tiles,
            self.x,
            self.norm,
            self.delta,
            self.proj,
            self.conv,
            self.y,
            self.yn,
            self.dt,
            self.decay,
            self.matrix,
            self.state_delta,
            self.state_in,
            self.q,
            self.k,
            self.v,
            self.attention,
            self.parts,
            self.router,
            self.picks,
            self.probabilities,
            self.lists,
            self.counts,
            self.tiles,
            self.up,
            self.expert_out,
            self.shared,
            self.logits,
        ]
    }
}

/// Two caches beside the places where a tick is worked on.
pub open spec fn beside(s: Scratch, a: Buffer, b: Buffer) -> bool {
    apart(s.workplace().push(a).push(b))
}

proof fn lemma_places(s: Scratch, a: Buffer, b: Buffer)
    requires
        beside(s, a, b),
    ensures
        ({
            let l = s.workplace().push(a).push(b);
            &&& seat(l, s.ids.id) == 0
            &&& seat(l, s.meta.id) == 1
            &&& seat(l, s.pages.id) == 2
            &&& seat(l, s.output_rows.id) == 3
            &&& seat(l, s.decode_rows.id) == 4
            &&& seat(l, s.attention_tiles.id) == 5
            &&& seat(l, s.sequences.id) == 6
            &&& seat(l, s.ssd_tiles.id) == 7
            &&& seat(l, s.x.id) == 8
            &&& seat(l, s.norm.id) == 9
            &&& seat(l, s.delta.id) == 10
            &&& seat(l, s.proj.id) == 11
            &&& seat(l, s.conv.id) == 12
            &&& seat(l, s.y.id) == 13
            &&& seat(l, s.yn.id) == 14
            &&& seat(l, s.dt.id) == 15
            &&& seat(l, s.decay.id) == 16
            &&& seat(l, s.matrix.id) == 17
            &&& seat(l, s.state_delta.id) == 18
            &&& seat(l, s.state_in.id) == 19
            &&& seat(l, s.q.id) == 20
            &&& seat(l, s.k.id) == 21
            &&& seat(l, s.v.id) == 22
            &&& seat(l, s.attention.id) == 23
            &&& seat(l, s.parts.id) == 24
            &&& seat(l, s.router.id) == 25
            &&& seat(l, s.picks.id) == 26
            &&& seat(l, s.probabilities.id) == 27
            &&& seat(l, s.lists.id) == 28
            &&& seat(l, s.counts.id) == 29
            &&& seat(l, s.tiles.id) == 30
            &&& seat(l, s.up.id) == 31
            &&& seat(l, s.expert_out.id) == 32
            &&& seat(l, s.shared.id) == 33
            &&& seat(l, s.logits.id) == 34
            &&& seat(l, a.id) == 35
            &&& seat(l, b.id) == 36
        }),
{
    let l = s.workplace().push(a).push(b);
    lemma_seats(l);
    assert(l[0] == s.ids && l[1] == s.meta && l[2] == s.pages && l[3] == s.output_rows && l[4]
        == s.decode_rows && l[5] == s.attention_tiles && l[6] == s.sequences && l[7] == s.ssd_tiles && l[8]
        == s.x && l[9] == s.norm && l[10] == s.delta && l[11] == s.proj && l[12] == s.conv && l[13] == s.y
        && l[14] == s.yn && l[15] == s.dt && l[16] == s.decay && l[17] == s.matrix && l[18]
        == s.state_delta && l[19] == s.state_in && l[20] == s.q && l[21] == s.k && l[22] == s.v && l[23]
        == s.attention && l[24] == s.parts && l[25] == s.router && l[26] == s.picks && l[27]
        == s.probabilities && l[28] == s.lists && l[29] == s.counts && l[30] == s.tiles && l[31] == s.up
        && l[32] == s.expert_out && l[33] == s.shared && l[34] == s.logits && l[35] == a && l[36] == b);
}

proof fn lemma_seats_alone(s: Scratch)
    requires
        apart(s.workplace()),
    ensures
        ({
            let l = s.workplace();
            &&& seat(l, s.ids.id) == 0
            &&& seat(l, s.meta.id) == 1
            &&& seat(l, s.pages.id) == 2
            &&& seat(l, s.output_rows.id) == 3
            &&& seat(l, s.decode_rows.id) == 4
            &&& seat(l, s.attention_tiles.id) == 5
            &&& seat(l, s.sequences.id) == 6
            &&& seat(l, s.ssd_tiles.id) == 7
            &&& seat(l, s.x.id) == 8
            &&& seat(l, s.norm.id) == 9
            &&& seat(l, s.delta.id) == 10
            &&& seat(l, s.proj.id) == 11
            &&& seat(l, s.conv.id) == 12
            &&& seat(l, s.y.id) == 13
            &&& seat(l, s.yn.id) == 14
            &&& seat(l, s.dt.id) == 15
            &&& seat(l, s.decay.id) == 16
            &&& seat(l, s.matrix.id) == 17
            &&& seat(l, s.state_delta.id) == 18
            &&& seat(l, s.state_in.id) == 19
            &&& seat(l, s.q.id) == 20
            &&& seat(l, s.k.id) == 21
            &&& seat(l, s.v.id) == 22
            &&& seat(l, s.attention.id) == 23
            &&& seat(l, s.parts.id) == 24
            &&& seat(l, s.router.id) == 25
            &&& seat(l, s.picks.id) == 26
            &&& seat(l, s.probabilities.id) == 27
            &&& seat(l, s.lists.id) == 28
            &&& seat(l, s.counts.id) == 29
            &&& seat(l, s.tiles.id) == 30
            &&& seat(l, s.up.id) == 31
            &&& seat(l, s.expert_out.id) == 32
            &&& seat(l, s.shared.id) == 33
            &&& seat(l, s.logits.id) == 34
        }),
{
    let l = s.workplace();
    lemma_seats(l);
    assert(l[0] == s.ids && l[1] == s.meta && l[2] == s.pages && l[3] == s.output_rows && l[4]
        == s.decode_rows && l[5] == s.attention_tiles && l[6] == s.sequences && l[7] == s.ssd_tiles && l[8]
        == s.x && l[9] == s.norm && l[10] == s.delta && l[11] == s.proj && l[12] == s.conv && l[13] == s.y
        && l[14] == s.yn && l[15] == s.dt && l[16] == s.decay && l[17] == s.matrix && l[18]
        == s.state_delta && l[19] == s.state_in && l[20] == s.q && l[21] == s.k && l[22] == s.v && l[23]
        == s.attention && l[24] == s.parts && l[25] == s.router && l[26] == s.picks && l[27]
        == s.probabilities && l[28] == s.lists && l[29] == s.counts && l[30] == s.tiles && l[31] == s.up
        && l[32] == s.expert_out && l[33] == s.shared && l[34] == s.logits);
}

/// The tables that a tick reads are as they were.
pub open spec fn tables_kept(s: Scratch, a: Cells, b: Cells) -> bool {
    &&& a[s.meta.id] == b[s.meta.id]
    &&& a[s.pages.id] == b[s.pages.id]
    &&& a[s.output_rows.id] == b[s.output_rows.id]
    &&& a[s.decode_rows.id] == b[s.decode_rows.id]
    &&& a[s.attention_tiles.id] == b[s.attention_tiles.id]
    &&& a[s.sequences.id] == b[s.sequences.id]
    &&& a[s.ssd_tiles.id] == b[s.ssd_tiles.id]
}

/// A cache behind the rows of a tick: every row's heads at its own place.
pub open spec fn cached(s: Scratch, m: Cells, rows: usize, stride: usize, new: Value, old: Value) -> Value {
    Value::Cached {
        rows: rows as u32,
        stride: stride as u32,
        places: Box::new(m[s.meta.id]),
        pages: Box::new(m[s.pages.id]),
        new: Box::new(new),
        old: Box::new(old),
    }
}

impl Nemotron {
    /// What rows see: the append tiles all at once, the others one by one.
    pub open spec fn seen(&self, m: Cells, t: Shape, queries: Value, keys: Value, values: Value) -> Value {
        let s = self.scratch;
        let tiled = if t.tiles > 0 {
            Value::Appended {
                heads: 32,
                kv_heads: 2,
                stride: self.page_stride as u32,
                scale: 0,
                launch: (32, t.tiles as int, 1),
                places: Box::new(m[s.meta.id]),
                pages: Box::new(m[s.pages.id]),
                tiles: Box::new(m[s.attention_tiles.id]),
                queries: Box::new(queries),
                keys: Box::new(keys),
                values: Box::new(values),
                base: Box::new(m[s.attention.id]),
            }
        } else {
            m[s.attention.id]
        };
        if t.decodes > 0 {
            Value::Merged {
                heads: 32,
                splits: 16,
                count: t.decodes * 32,
                picks: Box::new(m[s.decode_rows.id]),
                parts: Box::new(
                    Value::Partial {
                        heads: 32,
                        kv_heads: 2,
                        stride: self.page_stride as u32,
                        scale: 0,
                        splits: 16,
                        launch: (2, t.decodes as int, 16),
                        places: Box::new(m[s.meta.id]),
                        pages: Box::new(m[s.pages.id]),
                        picks: Box::new(m[s.decode_rows.id]),
                        queries: Box::new(queries),
                        keys: Box::new(keys),
                        values: Box::new(values),
                    },
                ),
                base: Box::new(tiled),
            }
        } else {
            tiled
        }
    }

    /// An attention layer fills the key cache from its key projection and the
    /// value cache from its value projection, looks at both with its queries,
    /// and leaves its output projection as the branch.
    pub proof fn attention_stores_keys_and_values(&self, m: Cells, p: Seq<Step>, w: Attention, t: Shape)
        requires
            t.wf(),
            layer_wf(Layer { norm: w.q, mixer: Mixer::Attention(w) }),
            w.q.n <= u32::MAX && w.k.n <= u32::MAX && w.v.n <= u32::MAX && w.out.n <= u32::MAX,
            beside(self.scratch, w.keys, w.values),
        ensures
            ({
                let s = self.scratch;
                let before = run(m, p);
                let after = run(m, self.attention_steps(p, w, t));
                let h = before[s.norm.id];
                let rows = t.rows as int;
                let keys = cached(
                    s,
                    before,
                    t.rows,
                    self.page_stride,
                    product(w.k, rows, h),
                    before[w.keys.id],
                );
                let values = cached(
                    s,
                    before,
                    t.rows,
                    self.page_stride,
                    product(w.v, rows, h),
                    before[w.values.id],
                );
                &&& after[w.keys.id] == keys
                &&& after[w.values.id] == values
                &&& after[s.delta.id] == product(
                    w.out,
                    rows,
                    self.seen(before, t, product(w.q, rows, h), keys, values),
                )
                &&& after[s.x.id] == before[s.x.id]
                &&& tables_kept(s, before, after)
            }),
    {
        let s = self.scratch;
        lemma_places(s, w.keys, w.values);
        lemma_shared_names();
        lemma_nemotron_names();
        groups_cover(t.rows as int, 256);
        reveal_with_fuel(products, 4);
        let three = seq![
            Plane { weight: w.q, out: s.q },
            Plane { weight: w.k, out: s.k },
            Plane { weight: w.v, out: s.v },
        ];
        projections_multiply_every_plane(m, p, three, s.norm, t.rows);
        let one = seq![Plane { weight: w.out, out: s.delta }];
        assert forall|q: Seq<Step>|
            run(m, #[trigger] crate::projection::project_steps(q, one, s.attention, t.rows)) == products(
                run(m, q),
                one,
                run(m, q)[s.attention.id],
                t.rows as int,
                1,
            ) by {
            projections_multiply_every_plane(m, q, one, s.attention, t.rows);
        }
    }

    /// Rows behind the state of a layer, and that state: those of long
    /// sequences tile by tile, the others one by one.
    pub open spec fn walked_rows(&self, m: Cells, w: Mamba, t: Shape) -> (Value, Value) {
        let s = self.scratch;
        let projected = product(w.input, t.rows as int, m[s.norm.id]);
        let conv = self.convolved(m, w, t);
        let scanned = Value::Scanned {
            a: w.a.buffer.id,
            d: w.d.buffer.id,
            dt: w.dt.buffer.id,
            all: false,
            heads: 64,
            sequences: t.sequences as int,
            spans: Box::new(m[s.sequences.id]),
            projected: Box::new(projected),
            state: Box::new(m[w.state.id]),
            of: Box::new(conv),
            base: Box::new(m[s.y.id]),
        };
        let (y, state) = if t.decodes > 0 {
            (
                scanned,
                Value::Moved { by: Box::new(scanned), state: Box::new(m[w.state.id]) },
            )
        } else {
            (m[s.y.id], m[w.state.id])
        };
        if t.tiles > 0 {
            let tiles = m[s.ssd_tiles.id];
            let gate = |step: bool| Value::TileGate {
                step,
                a: w.a.buffer.id,
                dt: w.dt.buffer.id,
                tiles: t.tiles as int,
                spans: Box::new(tiles),
                of: Box::new(projected),
            };
            let walked = Value::TileStates {
                sequences: t.sequences as int,
                spans: Box::new(m[s.sequences.id]),
                tiles: Box::new(tiles),
                decays: Box::new(gate(false)),
                deltas: Box::new(
                    Value::TileDelta {
                        tiles: t.tiles as int,
                        spans: Box::new(tiles),
                        decays: Box::new(gate(false)),
                        steps: Box::new(gate(true)),
                        of: Box::new(conv),
                    },
                ),
                state: Box::new(state),
            };
            (
                Value::TileOutput {
                    d: w.d.buffer.id,
                    tiles: t.tiles as int,
                    spans: Box::new(tiles),
                    decays: Box::new(gate(false)),
                    matrix: Box::new(
                        Value::TileMatrix {
                            tiles: t.tiles as int,
                            spans: Box::new(tiles),
                            decays: Box::new(gate(false)),
                            steps: Box::new(gate(true)),
                            of: Box::new(conv),
                        },
                    ),
                    states: Box::new(walked),
                    of: Box::new(conv),
                    base: Box::new(y),
                },
                Value::Moved { by: Box::new(walked), state: Box::new(state) },
            )
        } else {
            (y, state)
        }
    }

    /// Projected rows, convolved over the window that stood before them.
    pub open spec fn convolved(&self, m: Cells, w: Mamba, t: Shape) -> Value {
        let s = self.scratch;
        Value::Convolved {
            kernel: w.conv_w.buffer.id,
            bias: w.conv_b.buffer.id,
            reach: groups(t.longest as int, 6144) * 256,
            sequences: t.sequences as int,
            spans: Box::new(m[s.sequences.id]),
            window: Box::new(m[w.window.id]),
            of: Box::new(product(w.input, t.rows as int, m[s.norm.id])),
        }
    }

    /// A state-space layer convolves its projection over the old window, moves
    /// the window behind the rows, moves the state with what was convolved,
    /// and gates the result by the projection.
    #[verifier::rlimit(100)]
    #[verifier::spinoff_prover]
    pub proof fn state_layers_move_their_state(&self, m: Cells, p: Seq<Step>, w: Mamba, t: Shape)
        requires
            t.wf(),
            layer_wf(Layer { norm: w.norm, mixer: Mixer::Mamba(w) }),
            w.input.n <= u32::MAX && w.output.n <= u32::MAX,
            beside(self.scratch, w.state, w.window),
        ensures
            ({
                let s = self.scratch;
                let before = run(m, p);
                let after = run(m, self.mamba_steps(p, w, t));
                let projected = product(w.input, t.rows as int, before[s.norm.id]);
                &&& after[w.window.id] == (Value::Slid {
                    channels: 6144,
                    sequences: t.sequences as int,
                    spans: Box::new(before[s.sequences.id]),
                    window: Box::new(before[w.window.id]),
                    over: Box::new(projected),
                })
                &&& after[w.state.id] == self.walked_rows(before, w, t).1
                &&& after[s.delta.id] == product(
                    w.output,
                    t.rows as int,
                    Value::NormedGate {
                        gain: w.norm.buffer.id,
                        eps: EPS,
                        rows: t.rows as int,
                        gate: Box::new(projected),
                        of: Box::new(self.walked_rows(before, w, t).0),
                    },
                )
                &&& after[s.x.id] == before[s.x.id]
                &&& tables_kept(s, before, after)
            }),
    {
        let s = self.scratch;
        lemma_places(s, w.state, w.window);
        lemma_shared_names();
        lemma_nemotron_names();
        reveal_with_fuel(products, 2);
        projections_multiply_every_plane(m, p, seq![Plane { weight: w.input, out: s.proj }], s.norm, t.rows);
        let one = seq![Plane { weight: w.output, out: s.delta }];
        assert forall|q: Seq<Step>|
            run(m, #[trigger] crate::projection::project_steps(q, one, s.yn, t.rows)) == products(
                run(m, q),
                one,
                run(m, q)[s.yn.id],
                t.rows as int,
                1,
            ) by {
            projections_multiply_every_plane(m, q, one, s.yn, t.rows);
        }
    }

    /// One half of the picked experts.
    pub open spec fn half(&self, w: Weight, up: bool, rows: usize, picks: Value, of: Value) -> Value {
        let k = (if up { WIDTH } else { FF }) as u32;
        let n = (if up { FF } else { WIDTH }) as u32;
        let listed = |counts: bool| Value::Aligned {
            counts,
            picks: (rows * 6) as u32,
            experts: 128,
            of: Box::new(picks),
        };
        if rows >= 16 {
            Value::ExpertTiles {
                up,
                plane: w.buffer.id,
                k,
                n,
                rows: rows as u32,
                launch: (ceil_div(n as int, 32), ceil_div(rows * 6, 16) + 128, 1),
                lists: Box::new(listed(false)),
                counts: Box::new(listed(true)),
                tiles: Box::new(Value::Tiled { experts: 128, rows: 16, of: Box::new(listed(true)) }),
                of: Box::new(of),
            }
        } else {
            Value::ExpertRows {
                up,
                plane: w.buffer.id,
                k,
                n,
                rows: rows as u32,
                launch: (ceil_div(n as int, 4), rows * 6, 1),
                picks: Box::new(picks),
                of: Box::new(of),
            }
        }
    }

    /// An expert layer picks experts by its router and bias, runs their first
    /// half and then their second, and adds them, weighted as they were picked,
    /// to the shared expert.
    #[verifier::rlimit(100)]
    #[verifier::spinoff_prover]
    pub proof fn expert_layers_fold_their_picks(&self, m: Cells, p: Seq<Step>, w: Experts, rows: usize)
        requires
            1 <= rows <= CHUNK,
            layer_wf(Layer { norm: w.bias, mixer: Mixer::Moe(w) }),
            w.shared_up.n <= u32::MAX && w.shared_down.n <= u32::MAX,
            apart(self.scratch.workplace()),
        ensures
            ({
                let s = self.scratch;
                let before = run(m, p);
                let after = run(m, self.moe_steps(p, w, rows));
                let h = before[s.norm.id];
                let routed = |weights: bool| Value::Routed {
                    weights,
                    bias: w.bias.buffer.id,
                    rows: rows as int,
                    of: Box::new(
                        Value::Product {
                            plane: w.router.buffer.id,
                            form: 0,
                            k: 2688,
                            n: 128,
                            rows: rows as int,
                            of: Box::new(h),
                        },
                    ),
                };
                let picks = routed(false);
                &&& after[s.delta.id] == (Value::Folded {
                    rows: rows as u32,
                    weights: Box::new(routed(true)),
                    experts: Box::new(
                        self.half(w.down, false, rows, picks, self.half(w.up, true, rows, picks, h)),
                    ),
                    base: Box::new(
                        product(
                            w.shared_down,
                            rows as int,
                            Value::Squared {
                                count: (rows * 3712) as u32,
                                of: Box::new(product(w.shared_up, rows as int, h)),
                            },
                        ),
                    ),
                })
                &&& after[s.x.id] == before[s.x.id]
                &&& tables_kept(s, before, after)
            }),
    {
        let s = self.scratch;
        lemma_seats_alone(s);
        lemma_shared_names();
        lemma_planes_names();
        lemma_nemotron_names();
        groups_cover(rows as int, 3712);
        groups_cover(rows as int, 2688);
        reveal_with_fuel(products, 2);
        let up = seq![Plane { weight: w.shared_up, out: s.shared }];
        let down = seq![Plane { weight: w.shared_down, out: s.delta }];
        assert forall|q: Seq<Step>|
            run(m, #[trigger] crate::projection::project_steps(q, up, s.norm, rows)) == products(
                run(m, q),
                up,
                run(m, q)[s.norm.id],
                rows as int,
                1,
            ) by {
            projections_multiply_every_plane(m, q, up, s.norm, rows);
        }
        assert forall|q: Seq<Step>|
            run(m, #[trigger] crate::projection::project_steps(q, down, s.shared, rows)) == products(
                run(m, q),
                down,
                run(m, q)[s.shared.id],
                rows as int,
                1,
            ) by {
            projections_multiply_every_plane(m, q, down, s.shared, rows);
        }
    }

    /// A layer normalises the hidden rows for its mixer and adds what the
    /// mixer leaves to them.
    pub proof fn layers_add_their_branch(&self, m: Cells, p: Seq<Step>, l: Layer, t: Shape)
        requires
            t.wf(),
            apart(self.scratch.workplace()),
        ensures
            ({
                let s = self.scratch;
                let entered = p.push(norm_step(s.x, l.norm, s.norm, t.rows as int));
                let mixed = match l.mixer {
                    Mixer::Mamba(w) => self.mamba_steps(entered, w, t),
                    Mixer::Attention(w) => self.attention_steps(entered, w, t),
                    Mixer::Moe(w) => self.moe_steps(entered, w, t.rows),
                };
                let after = run(m, self.layer_steps(p, l, t));
                &&& run(m, entered)[s.norm.id] == (Value::Normed {
                    gain: l.norm.buffer.id,
                    form: 0,
                    width: WIDTH as u32,
                    eps: EPS,
                    rows: t.rows as int,
                    of: Box::new(run(m, p)[s.x.id]),
                })
                &&& run(m, entered)[s.x.id] == run(m, p)[s.x.id]
                &&& tables_kept(s, run(m, p), run(m, entered))
                &&& after[s.x.id] == sum(
                    (t.rows * WIDTH) as u32,
                    ONE,
                    run(m, mixed)[s.x.id],
                    run(m, mixed)[s.delta.id],
                )
                &&& tables_kept(s, run(m, mixed), after)
            }),
    {
        lemma_seats_alone(self.scratch);
        lemma_shared_names();
        groups_cover(t.rows as int, 2688);
    }

    /// A tick embeds its tokens, row by row, and reads the logits of the rows
    /// that were asked for, each from the hidden row behind all layers.
    pub proof fn ticks_embed_and_answer(&self, m: Cells, plan: Plan)
        requires
            plan.shape_of().wf(),
            plan.shape_of().outputs <= u32::MAX,
            self.head.ty == 8,
            self.head.n <= u32::MAX,
            apart(self.scratch.workplace()),
        ensures
            ({
                let s = self.scratch;
                let t = plan.shape_of();
                let c = host(m, self.tick_writes(plan));
                let first = self.entry_steps(t);
                let behind = self.layers_steps(first, self.layers.len() as int, t);
                &&& run(c, first)[s.x.id] == (Value::Embedded {
                    table: self.embedding.buffer.id,
                    width: WIDTH as u32,
                    rows: t.rows as u32,
                    form: 8,
                    scale: ONE,
                    ids: Box::new(Value::Words { words: tokens(plan.rows@) }),
                })
                &&& run(c, first)[s.meta.id] == (Value::Words { words: row_meta(plan.rows@) })
                &&& run(c, first)[s.pages.id] == (Value::Words {
                    words: page_table(self.slots@, self.page_stride as int, self.slots.len() as int),
                })
                &&& run(c, first)[s.output_rows.id] == (Value::Words { words: narrow(plan.outputs@) })
                &&& run(c, first)[s.sequences.id] == (Value::Words { words: plan.sequences@ })
                &&& run(c, first)[s.ssd_tiles.id] == (Value::Words { words: plan.ssd_tiles@ })
                &&& run(c, first)[s.attention_tiles.id] == (Value::Words { words: plan.attention_tiles@ })
                &&& run(c, first)[s.decode_rows.id] == (Value::Words { words: plan.decodes@ })
                &&& t.outputs > 0 ==> run(c, self.tick_steps(t))[s.logits.id] == product(
                    self.head,
                    t.outputs as int,
                    Value::NormedPick {
                        gain: self.output_norm.buffer.id,
                        form: 0,
                        width: WIDTH as u32,
                        eps: EPS,
                        count: t.outputs as int,
                        picks: Box::new(run(c, behind)[s.output_rows.id]),
                        of: Box::new(run(c, behind)[s.x.id]),
                    },
                )
            }),
    {
        let s = self.scratch;
        let t = plan.shape_of();
        let w = self.tick_writes(plan);
        let c = host(m, w);
        lemma_seats_alone(s);
        lemma_shared_names();
        lemma_nemotron_names();
        groups_cover(t.rows as int, 2688);
        assert(w =~= Seq::empty().push(w[0]).push(w[1]).push(w[2]).push(w[3]).push(w[4]).push(w[5]).push(
            w[6],
        ).push(w[7]));
        let start = self.entry_steps(t);
        assert(run(c, Seq::<Step>::empty()) == c);
        assert(run(c, start) == effect(c, start[0]));
        reveal_with_fuel(products, 2);
        let one = seq![Plane { weight: self.head, out: s.logits }];
        if t.outputs > 0 {
            assert forall|q: Seq<Step>|
                run(c, #[trigger] crate::projection::project_steps(q, one, s.norm, t.outputs)) == products(
                    run(c, q),
                    one,
                    run(c, q)[s.norm.id],
                    t.outputs as int,
                    1,
                ) by {
                projections_multiply_every_plane(c, q, one, s.norm, t.outputs);
            }
        }
    }

    /// Copying a state moves the state and the window of every state-space
    /// layer from one entry to another, or empties the entry; no other entry
    /// changes.
    pub proof fn copies_move_every_state(
        m: Cells,
        p: Seq<Step>,
        layers: Seq<Layer>,
        to: usize,
        from: Option<usize>,
        i: int,
        e: u32,
    )
        requires
            to < u32::MAX,
            from matches Some(n) ==> n < u32::MAX,
            0 <= i < layers.len(),
            layers[i].mixer is Mamba,
            states_apart(layers),
        ensures
            ({
                let w = layers[i].mixer->Mamba_0;
                let before = run(m, p);
                let after = run(m, Self::state_steps(p, layers, to, from));
                let kept = |b: Buffer| if e != to as u32 {
                    entry(before[b.id], e)
                } else {
                    match from {
                        Some(n) => entry(before[b.id], n as u32),
                        None => Value::Zeros,
                    }
                };
                &&& entry(after[w.state.id], e) == kept(w.state)
                &&& entry(after[w.window.id], e) == kept(w.window)
            }),
        decreases layers.len(),
    {
        let rest = layers.drop_last();
        let before = run(m, Self::state_steps(p, rest, to, from));
        lemma_nemotron_names();
        let w = layers[i].mixer->Mamba_0;
        assert(forall|j: int| 0 <= j < rest.len() ==> rest[j] == layers[j]);
        if i < rest.len() {
            Self::copies_move_every_state(m, p, rest, to, from, i, e);
            assert(rest[i] == layers[i]);
            if let Mixer::Mamba(last) = layers.last().mixer {
                assert(layers[layers.len() - 1].mixer is Mamba);
            }
        } else {
            Self::lemma_other_states(m, p, rest, to, from, w.state.id);
            Self::lemma_other_states(m, p, rest, to, from, w.window.id);
        }
    }

    proof fn lemma_other_states(m: Cells, p: Seq<Step>, layers: Seq<Layer>, to: usize, from: Option<usize>, id: u32)
        requires
            forall|j: int|
                0 <= j < layers.len() && (#[trigger] layers[j]).mixer is Mamba
                    ==> layers[j].mixer->Mamba_0.state.id != id && layers[j].mixer->Mamba_0.window.id != id,
        ensures
            run(m, Self::state_steps(p, layers, to, from))[id] == run(m, p)[id],
        decreases layers.len(),
    {
        if layers.len() > 0 {
            let rest = layers.drop_last();
            assert(forall|j: int| 0 <= j < rest.len() ==> rest[j] == layers[j]);
            assert(layers.last() == layers[layers.len() - 1]);
            lemma_nemotron_names();
            Self::lemma_other_states(m, p, rest, to, from, id);
        }
    }
}

/// States and windows of different layers, and of one, are different buffers.
pub open spec fn states_apart(layers: Seq<Layer>) -> bool {
    &&& forall|i: int|
        0 <= i < layers.len() && (#[trigger] layers[i]).mixer is Mamba
            ==> layers[i].mixer->Mamba_0.state.id != layers[i].mixer->Mamba_0.window.id
    &&& forall|i: int, j: int|
        0 <= i < layers.len() && 0 <= j < layers.len() && i != j && (#[trigger] layers[i]).mixer is Mamba
            && (#[trigger] layers[j]).mixer is Mamba ==> {
            let a = layers[i].mixer->Mamba_0;
            let b = layers[j].mixer->Mamba_0;
            &&& a.state.id != b.state.id
            &&& a.state.id != b.window.id
            &&& a.window.id != b.state.id
            &&& a.window.id != b.window.id
        }
}

} // verus!
