//! What a submitted batch computes.
use vstd::prelude::*;
use crate::arith::{groups, groups_cover, lemma_product_bound, ONE};
use crate::device::effects::{effect, group_encoder, group_runs, group_shared, host, products, run};
use crate::device::names::{lemma_encoder_names, lemma_shared_names};
use crate::device::values::{apart, gated, lemma_seats, normed, product, sum, Cells, Value};
use crate::program::{kernel, Buffer, Step};
use crate::qwen3::encode::{lemma_rows_grow, rows_before, tables, Encoding, Storage, Tables, SCALE};
use crate::qwen3::load::{Layer, Qwen3Encoder};

verus! {

broadcast use {group_runs, group_shared, group_encoder};

impl Qwen3Encoder {
    /// Where a batch is worked on.
    pub open spec fn workplace(&self, b: Storage) -> Seq<Buffer> {
        let s = self.scratch;
        seq![
            s.x,
            s.norm,
            s.q,
            s.k,
            s.v,
            s.qh,
            s.kh,
            s.vh,
            s.attn,
            s.delta,
            s.gate,
            s.up,
            s.gemm,
            b.ids,
            b.meta,
            b.tiles,
            b.last,
            b.pooled,
        ]
    }

    /// Heads of a projection, normalised and turned to the places of their
    /// rows.
    pub open spec fn turned(&self, heads: usize, gain: crate::program::Weight, rows: int, places: Value, of: Value) -> Value {
        Value::Turned {
            heads: heads as u32,
            gain: gain.buffer.id,
            form: gain.ty,
            base: self.rope,
            eps: self.eps,
            rows,
            places: Box::new(places),
            of: Box::new(of),
        }
    }

    /// A block: attention over the normalised rows, then the gated
    /// feed-forward, each added to what it started from.
    pub open spec fn block(&self, l: Layer, rows: int, count: int, places: Value, tiles: Value, x: Value) -> Value {
        let size = (rows * self.width) as u32;
        let h = normed(l.norm, self.width as u32, self.eps, rows, x);
        let seen = Value::Attended {
            heads: self.heads as u32,
            kv_heads: self.kv_heads as u32,
            scale: SCALE,
            count,
            tiles: Box::new(tiles),
            places: Box::new(places),
            queries: Box::new(self.turned(self.heads, l.qnorm, rows, places, product(l.q, rows, h))),
            keys: Box::new(self.turned(self.kv_heads, l.knorm, rows, places, product(l.k, rows, h))),
            values: Box::new(
                Value::Laid { heads: self.kv_heads as u32, rows, of: Box::new(product(l.v, rows, h)) },
            ),
        };
        let y = sum(size, ONE, x, product(l.o, rows, seen));
        let f = normed(l.ffn_norm, self.width as u32, self.eps, rows, y);
        sum(
            size,
            ONE,
            y,
            product(
                l.down,
                rows,
                gated((rows * self.ff) as u32, product(l.gate, rows, f), product(l.up, rows, f)),
            ),
        )
    }

    /// The rows behind the first `n` blocks.
    pub open spec fn blocks(&self, n: int, rows: int, count: int, places: Value, tiles: Value, x: Value) -> Value
        decreases n,
    {
        if n <= 0 {
            x
        } else {
            self.block(
                self.layers[n - 1],
                rows,
                count,
                places,
                tiles,
                self.blocks(n - 1, rows, count, places, tiles, x),
            )
        }
    }

    proof fn lemma_fills(&self, rows: int)
        requires
            self.wf(),
            0 <= rows <= 65536,
        ensures
            0 <= rows * self.width <= groups(rows, self.width as int) * 256,
            rows * self.width <= u32::MAX,
            0 <= rows * self.ff <= groups(rows, self.ff as int) * 256,
            rows * self.ff <= u32::MAX,
    {
        groups_cover(rows, self.width as int);
        groups_cover(rows, self.ff as int);
        lemma_product_bound(rows, self.width as int, 65536, 4096);
        lemma_product_bound(rows, self.ff as int, 65536, 12288);
    }

    /// A layer turns the hidden rows into those of its block, and leaves the
    /// tables of the batch as they are.
    pub proof fn layers_compute_their_block(&self, m: Cells, p: Seq<Step>, l: Layer, b: Storage, rows: int, tiles: int)
        requires
            self.wf(),
            0 <= rows <= 65536,
            apart(self.workplace(b)),
        ensures
            ({
                let before = run(m, p);
                let after = run(m, self.layer_steps(p, l, b, rows, tiles));
                let s = self.scratch;
                &&& after[s.x.id] == self.block(
                    l,
                    rows,
                    tiles,
                    before[b.meta.id],
                    before[b.tiles.id],
                    before[s.x.id],
                )
                &&& after[b.meta.id] == before[b.meta.id]
                &&& after[b.tiles.id] == before[b.tiles.id]
                &&& after[b.last.id] == before[b.last.id]
            }),
    {
        let s = self.scratch;
        let list = self.workplace(b);
        lemma_seats(list);
        assert(list[0] == s.x && list[1] == s.norm && list[2] == s.q && list[3] == s.k && list[4] == s.v
            && list[5] == s.qh && list[6] == s.kh && list[7] == s.vh && list[8] == s.attn && list[9]
            == s.delta && list[10] == s.gate && list[11] == s.up && list[12] == s.gemm && list[13]
            == b.ids && list[14] == b.meta && list[15] == b.tiles && list[16] == b.last && list[17]
            == b.pooled);
        self.lemma_fills(rows);
        lemma_shared_names();
        lemma_encoder_names();
        reveal_with_fuel(products, 4);
    }

    /// The layers of an encoder turn embedded rows into those of its blocks.
    pub proof fn stacks_compute_their_blocks(&self, m: Cells, p: Seq<Step>, b: Storage, rows: int, tiles: int, n: int)
        requires
            self.wf(),
            0 <= rows <= 65536,
            apart(self.workplace(b)),
        ensures
            ({
                let before = run(m, p);
                let after = run(m, self.layers_steps(p, b, rows, tiles, n));
                let s = self.scratch;
                &&& after[s.x.id] == self.blocks(
                    n,
                    rows,
                    tiles,
                    before[b.meta.id],
                    before[b.tiles.id],
                    before[s.x.id],
                )
                &&& after[b.meta.id] == before[b.meta.id]
                &&& after[b.tiles.id] == before[b.tiles.id]
                &&& after[b.last.id] == before[b.last.id]
            }),
        decreases n,
    {
        if n > 0 {
            self.stacks_compute_their_blocks(m, p, b, rows, tiles, n - 1);
            self.layers_compute_their_block(
                m,
                self.layers_steps(p, b, rows, tiles, n - 1),
                self.layers[n - 1],
                b,
                rows,
                tiles,
            );
        }
    }

    /// The pooled row of every sequence: its last one behind all blocks, where
    /// the rows are the batch's tokens, embedded.
    pub open spec fn pooled_value(&self, t: Tables, rows: int, n: int, unit: bool) -> Value {
        let x = Value::Embedded {
            table: self.embedding.buffer.id,
            width: self.width as u32,
            rows: rows as u32,
            form: self.embedding.ty,
            scale: ONE,
            ids: Box::new(Value::Words { words: t.ids }),
        };
        Value::Pooled {
            gain: self.output_norm.buffer.id,
            form: self.output_norm.ty,
            width: self.width as u32,
            eps: self.eps,
            unit,
            count: n,
            rows: Box::new(Value::Words { words: t.last }),
            of: Box::new(
                self.blocks(
                    self.layers.len() as int,
                    rows,
                    t.tiles.len() as int / 2,
                    Value::Words { words: t.meta },
                    Value::Words { words: t.tiles },
                    x,
                ),
            ),
        }
    }

    /// A submission leaves where it is collected: the pooled row of every
    /// sequence, of unit length, or, for a relevance head, the probability of
    /// the first token of the pair against the second, read from the pooled
    /// row as it is.
    pub proof fn submissions_answer_what_was_asked(
        &self,
        m: Cells,
        seqs: Seq<Seq<u32>>,
        enc: Encoding,
        b: Storage,
        score: Option<(u32, u32)>,
    )
        requires
            self.wf(),
            self.submit_fault(seqs, score, 0) is None,
            enc@ == tables(seqs, seqs.len() as int),
            b.scores is Some == score is Some,
            apart(self.workplace(b)),
        ensures
            ({
                let rows = rows_before(seqs, seqs.len() as int);
                let n = seqs.len() as int;
                let after = run(
                    host(m, enc.batch_writes(b)),
                    self.submit_steps(b, rows, enc.tiles.len() as int / 2, n, score),
                );
                match score {
                    None => after[b.pooled.id] == self.pooled_value(enc@, rows, n, true),
                    Some((yes, no)) => after[b.scores->0.id] == (Value::Scored {
                        plane: self.score_plane().buffer.id,
                        form: self.score_plane().ty,
                        width: self.width as u32,
                        yes,
                        no,
                        count: n,
                        of: Box::new(self.pooled_value(enc@, rows, n, false)),
                    }),
                }
            }),
    {
        let s = self.scratch;
        let rows = rows_before(seqs, seqs.len() as int);
        let tiles = enc.tiles.len() as int / 2;
        let list = self.workplace(b);
        lemma_rows_grow(seqs, 0, seqs.len() as int);
        lemma_seats(list);
        assert(list[0] == s.x && list[13] == b.ids && list[14] == b.meta && list[15] == b.tiles && list[16]
            == b.last && list[17] == b.pooled);
        self.lemma_fills(rows);
        assert(rows * self.width == self.width * rows) by (nonlinear_arith);
        lemma_shared_names();
        lemma_encoder_names();
        let c = host(m, enc.batch_writes(b));
        let w = enc.batch_writes(b);
        assert(w =~= Seq::empty().push(w[0]).push(w[1]).push(w[2]).push(w[3]));
        assert(c[b.ids.id] == (Value::Words { words: enc@.ids }));
        assert(c[b.meta.id] == (Value::Words { words: enc@.meta }));
        assert(c[b.tiles.id] == (Value::Words { words: enc@.tiles }));
        assert(c[b.last.id] == (Value::Words { words: enc@.last }));
        let start = seq![
            kernel(
                "embed"@,
                seq![self.embedding.buffer, b.ids, s.x],
                seq![self.width as u32, rows as u32, self.embedding.ty, ONE],
                (groups(rows, self.width as int), 1, 1),
                256,
            ),
        ];
        assert(run(c, Seq::<Step>::empty()) == c);
        assert(run(c, start) == effect(c, start[0]));
        self.stacks_compute_their_blocks(c, start, b, rows, tiles, self.layers.len() as int);
    }
}

} // verus!
