//! One ragged batch: validation, tables, program and results.
use vstd::prelude::*;
use crate::arith::{groups, groups256, ONE};
use crate::error::{Fault, MetalError};
use crate::program::{
    kernel, linear, list1, list2, list3, list4, list5, list6, list7, planes, push_write, written, Buffer,
    Plane, Program, Route, Step, Weight, Write,
};
use crate::qwen3::load::{Layer, Qwen3Encoder};
use crate::rows::{
    holding, lemma_holding, lemma_holding_join, lemma_tiles_inside, push_tiles, tile_pairs, TILE,
};
use crate::tables::{all_finite, are_finite};

verus! {

/// Bit pattern of the attention scale, one over the root of 128.
pub const SCALE: u32 = 0x3db5_04f3;

pub open spec fn views(seqs: Seq<Vec<u32>>) -> Seq<Seq<u32>> {
    seqs.map_values(|s: Vec<u32>| s@)
}

/// Rows of the first `n` sequences.
pub open spec fn rows_before(seqs: Seq<Seq<u32>>, n: int) -> int
    decreases n,
{
    if n <= 0 {
        0
    } else {
        rows_before(seqs, n - 1) + seqs[n - 1].len()
    }
}

/// The tables of the first `n` sequences.
pub struct Tables {
    pub ids: Seq<u32>,
    /// First row of the sequence and position in it, row by row.
    pub meta: Seq<u32>,
    pub tiles: Seq<u32>,
    /// The last row of each sequence.
    pub last: Seq<u32>,
}

pub open spec fn positions(start: int, n: int) -> Seq<u32> {
    Seq::new((2 * n) as nat, |i: int| if i % 2 == 0 { start as u32 } else { (i / 2) as u32 })
}

pub open spec fn tables(seqs: Seq<Seq<u32>>, n: int) -> Tables
    decreases n,
{
    if n <= 0 {
        Tables { ids: Seq::empty(), meta: Seq::empty(), tiles: Seq::empty(), last: Seq::empty() }
    } else {
        let t = tables(seqs, n - 1);
        let s = seqs[n - 1];
        let start = rows_before(seqs, n - 1);
        Tables {
            ids: t.ids + s,
            meta: t.meta + positions(start, s.len() as int),
            tiles: t.tiles + tile_pairs(start, start + s.len(), 32),
            last: t.last.push((start + s.len() - 1) as u32),
        }
    }
}

#[derive(Debug)]
pub struct Encoding {
    pub ids: Vec<u32>,
    pub meta: Vec<u32>,
    pub tiles: Vec<u32>,
    pub last: Vec<u32>,
}

impl View for Encoding {
    type V = Tables;

    open spec fn view(&self) -> Tables {
        Tables { ids: self.ids@, meta: self.meta@, tiles: self.tiles@, last: self.last@ }
    }
}

/// Fresh device storage of one submission.
#[derive(Clone, Copy, Debug, PartialEq, Eq, Structural)]
pub struct Storage {
    pub ids: Buffer,
    pub meta: Buffer,
    pub tiles: Buffer,
    pub last: Buffer,
    pub pooled: Buffer,
    /// There for a relevance head only.
    pub scores: Option<Buffer>,
}

impl Encoding {
    /// What is written before a batch runs, and where.
    pub open spec fn batch_writes(&self, b: Storage) -> Seq<(Buffer, Seq<u32>)> {
        seq![(b.ids, self.ids@), (b.meta, self.meta@), (b.tiles, self.tiles@), (b.last, self.last@)]
    }

    pub fn writes(&self, b: Storage) -> (r: Vec<Write>)
        ensures
            written(r@) == self.batch_writes(b),
    {
        let mut out: Vec<Write> = Vec::new();
        assert(written(out@) =~= Seq::empty());
        push_write(&mut out, b.ids, &self.ids);
        push_write(&mut out, b.meta, &self.meta);
        push_write(&mut out, b.tiles, &self.tiles);
        push_write(&mut out, b.last, &self.last);
        assert(written(out@) =~= self.batch_writes(b));
        out
    }
}

/// A submitted batch. Its inputs stay allocated until it is collected.
#[derive(Debug)]
pub struct PendingEncoding {
    pub identity: u64,
    pub output: Buffer,
    pub n: usize,
    pub score: Option<(u32, u32)>,
    pub inputs: Vec<Buffer>,
}

impl Qwen3Encoder {
    pub open spec fn seq_valid(&self, s: Seq<u32>) -> bool {
        &&& 0 < s.len() <= self.context
        &&& forall|i: int| 0 <= i < s.len() ==> #[trigger] s[i] < self.vocab
    }

    /// A batch that fits: rows, lengths and tokens.
    pub open spec fn batch_valid(&self, seqs: Seq<Seq<u32>>) -> bool {
        &&& rows_before(seqs, seqs.len() as int) <= self.row_budget
        &&& forall|i: int| 0 <= i < seqs.len() ==> self.seq_valid(#[trigger] seqs[i])
    }

    pub open spec fn head_valid(&self, score: Option<(u32, u32)>) -> bool {
        match score {
            Some((y, n)) => y < self.vocab && n < self.vocab && y != n,
            None => true,
        }
    }

    /// Why a submission is refused.
    pub open spec fn submit_fault(
        &self,
        seqs: Seq<Seq<u32>>,
        score: Option<(u32, u32)>,
        lane: usize,
    ) -> Option<Fault> {
        if lane != 0 || seqs.len() == 0 {
            Some(Fault::Batch)
        } else if !self.head_valid(score) {
            Some(Fault::Head)
        } else if rows_before(seqs, seqs.len() as int) > usize::MAX {
            Some(Fault::Overflow)
        } else if !self.batch_valid(seqs) {
            Some(Fault::Input)
        } else {
            None
        }
    }

    fn check_seq(&self, s: &Vec<u32>) -> (r: bool)
        ensures
            r == self.seq_valid(s@),
    {
        if s.len() == 0 || s.len() > self.context {
            return false;
        }
        let mut i: usize = 0;
        while i < s.len()
            invariant
                i <= s.len(),
                forall|j: int| 0 <= j < i ==> #[trigger] s[j] < self.vocab,
            decreases s.len() - i,
        {
            if s[i] as usize >= self.vocab {
                return false;
            }
            i = i + 1;
        }
        true
    }

    fn count_rows(&self, seqs: &Vec<Vec<u32>>) -> (r: Option<usize>)
        ensures
            match r {
                Some(n) => n == rows_before(views(seqs@), seqs.len() as int),
                None => rows_before(views(seqs@), seqs.len() as int) > usize::MAX,
            },
    {
        let ghost all = views(seqs@);
        let mut n: usize = 0;
        let mut i: usize = 0;
        while i < seqs.len()
            invariant
                i <= seqs.len(),
                all == views(seqs@),
                n == rows_before(all, i as int),
            decreases seqs.len() - i,
        {
            assert(all[i as int] == seqs[i as int]@);
            match n.checked_add(seqs[i].len()) {
                Some(m) => {
                    n = m;
                },
                None => {
                    proof {
                        lemma_rows_grow(all, i + 1, seqs.len() as int);
                    }
                    return None;
                },
            }
            i = i + 1;
        }
        Some(n)
    }

    fn check_seqs(&self, seqs: &Vec<Vec<u32>>) -> (r: bool)
        ensures
            r == (forall|i: int| 0 <= i < seqs.len() ==> self.seq_valid(#[trigger] views(seqs@)[i])),
    {
        let ghost all = views(seqs@);
        let mut i: usize = 0;
        while i < seqs.len()
            invariant
                i <= seqs.len(),
                all == views(seqs@),
                forall|j: int| 0 <= j < i ==> self.seq_valid(#[trigger] all[j]),
            decreases seqs.len() - i,
        {
            assert(all[i as int] == seqs[i as int]@);
            if !self.check_seq(&seqs[i]) {
                assert(!self.seq_valid(views(seqs@)[i as int]));
                return false;
            }
            i = i + 1;
        }
        true
    }

    /// Whether a batch can be submitted at all.
    pub fn validate(&self, seqs: &Vec<Vec<u32>>) -> (r: Result<(), MetalError>)
        requires
            self.wf(),
        ensures
            r == if seqs.len() > 0 && self.batch_valid(views(seqs@)) {
                Ok::<(), MetalError>(())
            } else {
                Err::<(), MetalError>(MetalError::Model(Fault::Input))
            },
    {
        if seqs.len() == 0 {
            return Err(MetalError::Model(Fault::Input));
        }
        match self.count_rows(seqs) {
            Some(n) => if n > self.row_budget {
                return Err(MetalError::Model(Fault::Input));
            },
            None => {
                return Err(MetalError::Model(Fault::Input));
            },
        }
        if self.check_seqs(seqs) {
            Ok(())
        } else {
            Err(MetalError::Model(Fault::Input))
        }
    }

    /// Validate a submission and pack its tables.
    pub fn pack(&self, seqs: &Vec<Vec<u32>>, score: Option<(u32, u32)>, lane: usize) -> (r: Result<
        Encoding,
        MetalError,
    >)
        requires
            self.wf(),
        ensures
            match self.submit_fault(views(seqs@), score, lane) {
                Some(f) => r == Err::<Encoding, MetalError>(MetalError::Model(f)),
                None => r matches Ok(e) && e@ == tables(views(seqs@), seqs.len() as int),
            },
    {
        if lane != 0 || seqs.len() == 0 {
            return Err(MetalError::Model(Fault::Batch));
        }
        if let Some((y, n)) = score {
            if y as usize >= self.vocab || n as usize >= self.vocab || y == n {
                return Err(MetalError::Model(Fault::Head));
            }
        }
        match self.count_rows(seqs) {
            None => {
                return Err(MetalError::Model(Fault::Overflow));
            },
            Some(n) => if n > self.row_budget {
                return Err(MetalError::Model(Fault::Input));
            },
        }
        if !self.check_seqs(seqs) {
            return Err(MetalError::Model(Fault::Input));
        }
        Ok(packed(seqs))
    }
}

pub proof fn lemma_rows_grow(seqs: Seq<Seq<u32>>, a: int, b: int)
    requires
        0 <= a <= b,
    ensures
        rows_before(seqs, a) <= rows_before(seqs, b),
    decreases b - a,
{
    if a < b {
        lemma_rows_grow(seqs, a, b - 1);
    }
}

fn push_positions(meta: &mut Vec<u32>, start: usize, n: usize)
    ensures
        final(meta)@ == old(meta)@ + positions(start as int, n as int),
{
    let ghost before = meta@;
    let mut i: usize = 0;
    assert(meta@ =~= before + positions(start as int, 0));
    while i < n
        invariant
            i <= n,
            meta@ == before + positions(start as int, i as int),
        decreases n - i,
    {
        meta.push(start as u32);
        meta.push(i as u32);
        proof {
            let next = positions(start as int, i + 1);
            assert(next[2 * i] == start as u32);
            assert(next[2 * i + 1] == i as u32);
            assert(meta@ =~= before + next);
        }
        i = i + 1;
    }
}

fn packed(seqs: &Vec<Vec<u32>>) -> (r: Encoding)
    requires
        rows_before(views(seqs@), seqs.len() as int) <= 65536,
        forall|i: int| 0 <= i < seqs.len() ==> 0 < (#[trigger] views(seqs@)[i]).len(),
    ensures
        r@ == tables(views(seqs@), seqs.len() as int),
{
    let ghost all = views(seqs@);
    let mut r = Encoding { ids: Vec::new(), meta: Vec::new(), tiles: Vec::new(), last: Vec::new() };
    let mut k: usize = 0;
    let mut start: usize = 0;
    while k < seqs.len()
        invariant
            k <= seqs.len(),
            all == views(seqs@),
            rows_before(all, seqs.len() as int) <= 65536,
            forall|i: int| 0 <= i < seqs.len() ==> 0 < (#[trigger] all[i]).len(),
            start == rows_before(all, k as int),
            r@ == tables(all, k as int),
        decreases seqs.len() - k,
    {
        let s = &seqs[k];
        let n: usize = s.len();
        proof {
            assert(all[k as int] == s@);
            lemma_rows_grow(all, k + 1, seqs.len() as int);
        }
        let ghost before = r.ids@;
        let mut i: usize = 0;
        let mut ids: Vec<u32> = Vec::new();
        while i < n
            invariant
                i <= n == s.len(),
                ids@ == s@.take(i as int),
            decreases n - i,
        {
            ids.push(s[i]);
            assert(ids@ =~= s@.take(i + 1));
            i = i + 1;
        }
        assert(ids@ =~= s@);
        r.ids.append(&mut ids);
        push_positions(&mut r.meta, start, n);
        push_tiles(&mut r.tiles, start, start + n, TILE);
        r.last.push((start + n - 1) as u32);
        start = start + n;
        k = k + 1;
    }
    r
}

proof fn lemma_tables_sizes(seqs: Seq<Seq<u32>>, n: int)
    requires
        0 <= n <= seqs.len(),
    ensures
        tables(seqs, n).ids.len() == rows_before(seqs, n),
        tables(seqs, n).meta.len() == 2 * rows_before(seqs, n),
        tables(seqs, n).last.len() == n,
    decreases n,
{
    if n > 0 {
        lemma_tables_sizes(seqs, n - 1);
    }
}

proof fn lemma_tables_small(seqs: Seq<Seq<u32>>, n: int)
    requires
        0 <= n <= seqs.len(),
        rows_before(seqs, n) <= u32::MAX,
        forall|i: int| 0 <= i < seqs.len() ==> 0 < (#[trigger] seqs[i]).len(),
    ensures
        n <= rows_before(seqs, n),
        tables(seqs, n).tiles.len() <= 2 * rows_before(seqs, n),
    decreases n,
{
    if n > 0 {
        let start = rows_before(seqs, n - 1);
        lemma_tables_small(seqs, n - 1);
        assert(0 < seqs[n - 1].len());
        lemma_tiles_inside(start, start + seqs[n - 1].len(), 32);
    }
}

/// Packing keeps every sequence: row `i` of sequence `k` holds its token,
/// the first row of the sequence and the position, and the sequence ends
/// where the pooled row is read.
pub proof fn packing_keeps_every_token(seqs: Seq<Seq<u32>>, n: int, k: int, i: int)
    requires
        0 <= k < n <= seqs.len(),
        0 <= i < seqs[k].len(),
        rows_before(seqs, n) <= 65536,
    ensures
        ({
            let t = tables(seqs, n);
            let start = rows_before(seqs, k);
            let row = start + i;
            &&& 0 <= start
            &&& row < rows_before(seqs, n)
            &&& t.ids[row] == seqs[k][i]
            &&& t.meta[2 * row] == start
            &&& t.meta[2 * row + 1] == i
            &&& t.last[k] == start + seqs[k].len() - 1
        }),
    decreases n,
{
    lemma_rows_grow(seqs, 0, k);
    lemma_rows_grow(seqs, k + 1, n);
    lemma_tables_sizes(seqs, n - 1);
    let t = tables(seqs, n - 1);
    let start = rows_before(seqs, k);
    if k < n - 1 {
        lemma_rows_grow(seqs, n - 1, n);
        packing_keeps_every_token(seqs, n - 1, k, i);
    } else {
        let p = positions(start, seqs[k].len() as int);
        assert(p[2 * i] == start as u32);
        assert(p[2 * i + 1] == i as u32);
        assert(tables(seqs, n).meta[2 * (start + i)] == p[2 * i]);
        assert(tables(seqs, n).meta[2 * (start + i) + 1] == p[2 * i + 1]);
    }
}

/// Every packed row lies in exactly one attention tile.
pub proof fn every_row_lies_in_one_tile(seqs: Seq<Seq<u32>>, n: int, r: int)
    requires
        0 <= n <= seqs.len(),
        rows_before(seqs, n) <= u32::MAX,
    ensures
        tables(seqs, n).tiles.len() % 2 == 0,
        holding(tables(seqs, n).tiles, r) == if 0 <= r < rows_before(seqs, n) { 1int } else { 0 },
    decreases n,
{
    if n > 0 {
        let start = rows_before(seqs, n - 1);
        let end = start + seqs[n - 1].len();
        lemma_rows_grow(seqs, 0, n - 1);
        every_row_lies_in_one_tile(seqs, n - 1, r);
        lemma_tiles_inside(start, end, 32);
        lemma_holding(start, end, 32, r);
        lemma_holding_join(tables(seqs, n - 1).tiles, tile_pairs(start, end, 32), r);
    }
}

impl Qwen3Encoder {
    pub open spec fn attention_steps(&self, p: Seq<Step>, l: Layer, b: Storage, rows: int, tiles: int) -> Seq<
        Step,
    > {
        let s = self.scratch;
        p.push(
            kernel(
                "rms"@,
                seq![s.x, l.norm.buffer, s.norm],
                seq![self.width as u32, l.norm.ty, self.eps],
                (rows, 1, 1),
                256,
            ),
        ).push(
            planes(
                Route::Shared,
                seq![
                    Plane { weight: l.q, out: s.q },
                    Plane { weight: l.k, out: s.k },
                    Plane { weight: l.v, out: s.v },
                ],
                s.norm,
                rows,
                s.gemm,
                seq![],
            ),
        ).push(
            kernel(
                "qwen3_head_rope"@,
                seq![s.q, l.qnorm.buffer, b.meta, s.qh, s.v, s.vh],
                seq![self.heads as u32, l.qnorm.ty, self.rope, self.eps, 0u32],
                (self.heads as int, rows, 1),
                32,
            ),
        ).push(
            kernel(
                "qwen3_head_rope"@,
                seq![s.k, l.knorm.buffer, b.meta, s.kh, s.v, s.vh],
                seq![self.kv_heads as u32, l.knorm.ty, self.rope, self.eps, 1u32],
                (self.kv_heads as int, rows, 1),
                32,
            ),
        ).push(
            kernel(
                "qwen3_attention"@,
                seq![s.qh, s.kh, s.vh, b.meta, b.meta, s.attn, b.tiles],
                seq![self.heads as u32, self.kv_heads as u32, 0u32, SCALE],
                (self.heads as int, tiles, 1),
                128,
            ),
        ).push(linear(l.o, s.attn, s.delta, rows, s.gemm)).push(self.residual_step(rows))
    }

    pub open spec fn residual_step(&self, rows: int) -> Step {
        kernel(
            "residual"@,
            seq![self.scratch.x, self.scratch.delta],
            seq![(rows * self.width) as u32, ONE],
            (groups(rows, self.width as int), 1, 1),
            256,
        )
    }

    pub open spec fn layer_steps(&self, p: Seq<Step>, l: Layer, b: Storage, rows: int, tiles: int) -> Seq<
        Step,
    > {
        let s = self.scratch;
        self.attention_steps(p, l, b, rows, tiles).push(
            kernel(
                "rms"@,
                seq![s.x, l.ffn_norm.buffer, s.norm],
                seq![self.width as u32, l.ffn_norm.ty, self.eps],
                (rows, 1, 1),
                256,
            ),
        ).push(
            planes(
                Route::Shared,
                seq![Plane { weight: l.gate, out: s.gate }, Plane { weight: l.up, out: s.up }],
                s.norm,
                rows,
                s.gemm,
                seq![],
            ),
        ).push(
            kernel(
                "swiglu"@,
                seq![s.gate, s.up],
                seq![(rows * self.ff) as u32],
                (groups(rows, self.ff as int), 1, 1),
                256,
            ),
        ).push(linear(l.down, s.gate, s.delta, rows, s.gemm)).push(self.residual_step(rows))
    }

    pub open spec fn layers_steps(&self, p: Seq<Step>, b: Storage, rows: int, tiles: int, n: int) -> Seq<Step>
        decreases n,
    {
        if n <= 0 {
            p
        } else {
            self.layer_steps(
                self.layers_steps(p, b, rows, tiles, n - 1),
                self.layers[n - 1],
                b,
                rows,
                tiles,
            )
        }
    }

    /// The plane that relevance is read from: its own head, or the
    /// embedding.
    pub open spec fn score_plane(&self) -> Weight {
        match self.head {
            Some(h) => h,
            None => self.embedding,
        }
    }

    /// Everything that one submission runs.
    pub open spec fn submit_steps(
        &self,
        b: Storage,
        rows: int,
        tiles: int,
        n: int,
        score: Option<(u32, u32)>,
    ) -> Seq<Step> {
        let s = self.scratch;
        let start = seq![
            kernel(
                "embed"@,
                seq![self.embedding.buffer, b.ids, s.x],
                seq![self.width as u32, rows as u32, self.embedding.ty, ONE],
                (groups(rows, self.width as int), 1, 1),
                256,
            ),
        ];
        let p = self.layers_steps(start, b, rows, tiles, self.layers.len() as int).push(
            kernel(
                "qwen3_pool"@,
                seq![s.x, self.output_norm.buffer, b.last, b.pooled],
                seq![
                    self.width as u32,
                    self.output_norm.ty,
                    self.eps,
                    if score is None { 1u32 } else { 0u32 },
                ],
                (n, 1, 1),
                256,
            ),
        );
        match (score, b.scores) {
            (Some((y, no)), Some(out)) => p.push(
                kernel(
                    "qwen3_score"@,
                    seq![b.pooled, self.score_plane().buffer, out],
                    seq![self.width as u32, self.score_plane().ty, y, no],
                    (n, 1, 1),
                    256,
                ),
            ),
            _ => p,
        }
    }

    fn residual(&self, cmd: &mut Program, rows: usize)
        requires
            self.wf(),
            rows <= 65536,
        ensures
            final(cmd)@ == old(cmd)@.push(self.residual_step(rows as int)),
    {
        proof {
            crate::arith::lemma_product_bound(rows as int, self.width as int, 65536, 4096);
        }
        cmd.dispatch(
            "residual",
            list2(self.scratch.x, self.scratch.delta),
            list2((rows * self.width) as u32, ONE),
            (groups256(rows, self.width), 1, 1),
            256,
        );
    }

    fn attend(&self, cmd: &mut Program, l: Layer, b: Storage, rows: usize, tiles: usize)
        requires
            self.wf(),
            rows <= 65536,
        ensures
            final(cmd)@ == self.attention_steps(old(cmd)@, l, b, rows as int, tiles as int),
    {
        let s = self.scratch;
        cmd.dispatch(
            "rms",
            list3(s.x, l.norm.buffer, s.norm),
            list3(self.width as u32, l.norm.ty, self.eps),
            (rows, 1, 1),
            256,
        );
        cmd.planes(
            Route::Shared,
            list3(
                Plane { weight: l.q, out: s.q },
                Plane { weight: l.k, out: s.k },
                Plane { weight: l.v, out: s.v },
            ),
            s.norm,
            rows,
            s.gemm,
            Vec::new(),
        );
        cmd.dispatch(
            "qwen3_head_rope",
            list6(s.q, l.qnorm.buffer, b.meta, s.qh, s.v, s.vh),
            list5(self.heads as u32, l.qnorm.ty, self.rope, self.eps, 0),
            (self.heads, rows, 1),
            32,
        );
        cmd.dispatch(
            "qwen3_head_rope",
            list6(s.k, l.knorm.buffer, b.meta, s.kh, s.v, s.vh),
            list5(self.kv_heads as u32, l.knorm.ty, self.rope, self.eps, 1),
            (self.kv_heads, rows, 1),
            32,
        );
        cmd.dispatch(
            "qwen3_attention",
            list7(s.qh, s.kh, s.vh, b.meta, b.meta, s.attn, b.tiles),
            list4(self.heads as u32, self.kv_heads as u32, 0, SCALE),
            (self.heads, tiles, 1),
            128,
        );
        cmd.linear(l.o, s.attn, s.delta, rows, s.gemm);
        self.residual(cmd, rows);
    }

    fn layer(&self, cmd: &mut Program, l: Layer, b: Storage, rows: usize, tiles: usize)
        requires
            self.wf(),
            rows <= 65536,
        ensures
            final(cmd)@ == self.layer_steps(old(cmd)@, l, b, rows as int, tiles as int),
    {
        let s = self.scratch;
        self.attend(cmd, l, b, rows, tiles);
        cmd.dispatch(
            "rms",
            list3(s.x, l.ffn_norm.buffer, s.norm),
            list3(self.width as u32, l.ffn_norm.ty, self.eps),
            (rows, 1, 1),
            256,
        );
        cmd.planes(
            Route::Shared,
            list2(Plane { weight: l.gate, out: s.gate }, Plane { weight: l.up, out: s.up }),
            s.norm,
            rows,
            s.gemm,
            Vec::new(),
        );
        proof {
            crate::arith::lemma_product_bound(rows as int, self.ff as int, 65536, 12288);
        }
        cmd.dispatch(
            "swiglu",
            list2(s.gate, s.up),
            list1((rows * self.ff) as u32),
            (groups256(rows, self.ff), 1, 1),
            256,
        );
        cmd.linear(l.down, s.gate, s.delta, rows, s.gemm);
        self.residual(cmd, rows);
    }

    /// The program of a packed batch and the record that collects it.
    pub fn submit(&self, seqs: &Vec<Vec<u32>>, enc: &Encoding, b: Storage, score: Option<(u32, u32)>) -> (r: (
        Program,
        PendingEncoding,
    ))
        requires
            self.wf(),
            self.submit_fault(views(seqs@), score, 0) is None,
            enc@ == tables(views(seqs@), seqs.len() as int),
            b.scores is Some == score is Some,
        ensures
            r.0@ == self.submit_steps(
                b,
                rows_before(views(seqs@), seqs.len() as int),
                enc.tiles.len() as int / 2,
                seqs.len() as int,
                score,
            ),
            r.1.identity == self.identity,
            r.1.n == seqs.len(),
            r.1.score == score,
            match b.scores {
                Some(out) => r.1.output == out && r.1.inputs@ == seq![
                    b.ids,
                    b.meta,
                    b.tiles,
                    b.last,
                    b.pooled,
                ],
                None => r.1.output == b.pooled && r.1.inputs@ == seq![b.ids, b.meta, b.tiles, b.last],
            },
    {
        let s = self.scratch;
        proof {
            lemma_tables_sizes(views(seqs@), seqs.len() as int);
        }
        let rows: usize = enc.ids.len();
        let tiles: usize = enc.tiles.len() / 2;
        let n: usize = seqs.len();
        let mut cmd = Program::new();
        cmd.dispatch(
            "embed",
            list3(self.embedding.buffer, b.ids, s.x),
            list4(self.width as u32, rows as u32, self.embedding.ty, ONE),
            (groups256(rows, self.width), 1, 1),
            256,
        );
        let ghost start = cmd@;
        let mut i: usize = 0;
        while i < self.layers.len()
            invariant
                i <= self.layers.len(),
                self.wf(),
                rows <= 65536,
                cmd@ == self.layers_steps(start, b, rows as int, tiles as int, i as int),
            decreases self.layers.len() - i,
        {
            self.layer(&mut cmd, self.layers[i], b, rows, tiles);
            i = i + 1;
        }
        cmd.dispatch(
            "qwen3_pool",
            list4(s.x, self.output_norm.buffer, b.last, b.pooled),
            list4(
                self.width as u32,
                self.output_norm.ty,
                self.eps,
                if score.is_none() { 1 } else { 0 },
            ),
            (n, 1, 1),
            256,
        );
        let mut inputs = list4(b.ids, b.meta, b.tiles, b.last);
        let mut output = b.pooled;
        if let Some((y, no)) = score {
            if let Some(out) = b.scores {
                let h = match self.head {
                    Some(h) => h,
                    None => self.embedding,
                };
                cmd.dispatch(
                    "qwen3_score",
                    list3(b.pooled, h.buffer, out),
                    list4(self.width as u32, h.ty, y, no),
                    (n, 1, 1),
                    256,
                );
                inputs.push(b.pooled);
                output = out;
            }
        }
        (cmd, PendingEncoding { identity: self.identity, output, n, score, inputs })
    }

    /// Fresh storage for a batch, numbered from `first`: its tables, a pooled
    /// row per sequence, and a score per sequence for a relevance head.
    pub open spec fn storage_of(&self, t: Tables, n: int, scored: bool, first: int) -> Storage {
        Storage {
            ids: Buffer { id: first as u32, len: (t.ids.len() * 4) as u64 },
            meta: Buffer { id: (first + 1) as u32, len: (t.meta.len() * 4) as u64 },
            tiles: Buffer { id: (first + 2) as u32, len: (t.tiles.len() * 4) as u64 },
            last: Buffer { id: (first + 3) as u32, len: (t.last.len() * 4) as u64 },
            pooled: Buffer { id: (first + 4) as u32, len: (n * self.width * 4) as u64 },
            scores: if scored {
                Some(Buffer { id: (first + 5) as u32, len: (n * 4) as u64 })
            } else {
                None
            },
        }
    }

    pub fn storage(&self, seqs: &Vec<Vec<u32>>, enc: &Encoding, score: Option<(u32, u32)>, first: u32) -> (r:
        Storage)
        requires
            self.wf(),
            self.submit_fault(views(seqs@), score, 0) is None,
            enc@ == tables(views(seqs@), seqs.len() as int),
            first <= 0x7fff_ffff,
        ensures
            r == self.storage_of(enc@, seqs.len() as int, score is Some, first as int),
    {
        proof {
            let v = views(seqs@);
            lemma_tables_sizes(v, seqs.len() as int);
            assert forall|i: int| 0 <= i < v.len() implies 0 < (#[trigger] v[i]).len() by {
                assert(self.seq_valid(v[i]));
            }
            lemma_tables_small(v, seqs.len() as int);
            crate::arith::lemma_product_bound(seqs.len() as int, self.width as int, 65536, 4096);
        }
        let n: u64 = seqs.len() as u64;
        Storage {
            ids: Buffer { id: first, len: enc.ids.len() as u64 * 4 },
            meta: Buffer { id: first + 1, len: enc.meta.len() as u64 * 4 },
            tiles: Buffer { id: first + 2, len: enc.tiles.len() as u64 * 4 },
            last: Buffer { id: first + 3, len: enc.last.len() as u64 * 4 },
            pooled: Buffer { id: first + 4, len: n * self.width as u64 * 4 },
            scores: if score.is_some() { Some(Buffer { id: first + 5, len: n * 4 }) } else { None },
        }
    }

    pub fn weights_mem_bytes(&self) -> (r: u64)
        ensures
            r == self.weight_bytes,
    {
        self.weight_bytes
    }

    pub fn coalesce_row_budget(&self) -> (r: usize)
        ensures
            r == self.row_budget,
    {
        self.row_budget
    }

    /// One queue orders the submissions, so that one arena serves them all.
    pub fn lanes(&self) -> (r: usize)
        ensures
            r == 1,
    {
        1
    }

    /// What is read back of an embedding batch: the buffer and the numbers.
    pub fn embed_collect(&self, p: &PendingEncoding) -> (r: Result<(Buffer, usize), MetalError>)
        requires
            p.score is None && p.identity == self.identity ==> p.n * self.width <= usize::MAX,
        ensures
            r == if p.score is None && p.identity == self.identity {
                Ok::<(Buffer, usize), MetalError>((p.output, (p.n * self.width) as usize))
            } else {
                Err::<(Buffer, usize), MetalError>(MetalError::Model(Fault::Completion))
            },
    {
        if p.score.is_some() || p.identity != self.identity {
            return Err(MetalError::Model(Fault::Completion));
        }
        Ok((p.output, p.n * self.width))
    }

    /// One embedding per sequence, or the report of an undefined number.
    pub fn embeddings(&self, p: &PendingEncoding, values: &Vec<u32>) -> (r: Result<
        Vec<Vec<u32>>,
        MetalError,
    >)
        requires
            values.len() == p.n * self.width,
        ensures
            if all_finite(values@) {
                &&& r matches Ok(list)
                &&& list.len() == p.n
                &&& forall|i: int|
                    0 <= i < p.n ==> (#[trigger] list[i])@ == values@.subrange(
                        i * self.width,
                        i * self.width + self.width,
                    )
            } else {
                r == Err::<Vec<Vec<u32>>, MetalError>(MetalError::Model(Fault::Nonfinite))
            },
    {
        if !are_finite(values) {
            return Err(MetalError::Model(Fault::Nonfinite));
        }
        let w: usize = self.width;
        let mut out: Vec<Vec<u32>> = Vec::new();
        let mut i: usize = 0;
        let mut at: usize = 0;
        while i < p.n
            invariant
                i <= p.n,
                w == self.width,
                values.len() == p.n * w,
                at == i * w,
                out.len() == i,
                forall|k: int|
                    0 <= k < i ==> (#[trigger] out[k])@ == values@.subrange(k * w, k * w + w),
            decreases p.n - i,
        {
            assert(i * w + w == (i + 1) * w) by (nonlinear_arith);
            assert((i + 1) * w <= p.n * w) by (nonlinear_arith)
                requires
                    i + 1 <= p.n,
                    0 <= w,
            ;
            let mut row: Vec<u32> = Vec::new();
            let mut j: usize = 0;
            while j < w
                invariant
                    j <= w,
                    at + w <= values.len(),
                    row@ == values@.subrange(at as int, at + j),
                decreases w - j,
            {
                row.push(values[at + j]);
                assert(row@ =~= values@.subrange(at as int, at + j + 1));
                j = j + 1;
            }
            out.push(row);
            at = at + w;
            i = i + 1;
        }
        Ok(out)
    }

    /// What is read back of a relevance batch of this head: the buffer and
    /// the scores.
    pub fn rerank_collect(&self, p: &PendingEncoding, y: u32, n: u32) -> (r: Result<
        (Buffer, usize),
        MetalError,
    >)
        ensures
            r == if p.score == Some((y, n)) && p.identity == self.identity {
                Ok::<(Buffer, usize), MetalError>((p.output, p.n))
            } else {
                Err::<(Buffer, usize), MetalError>(MetalError::Model(Fault::Completion))
            },
    {
        let same = match p.score {
            Some((a, b)) => a == y && b == n,
            None => false,
        };
        if !same || p.identity != self.identity {
            return Err(MetalError::Model(Fault::Completion));
        }
        Ok((p.output, p.n))
    }
}

/// Bit pattern of a number from zero to one; minus zero counts as zero.
pub open spec fn unit(bits: u32) -> bool {
    bits <= 0x3f80_0000 || bits == 0x8000_0000
}

/// Relevance scores, or the report of one outside zero to one.
pub fn scores(values: Vec<u32>) -> (r: Result<Vec<u32>, MetalError>)
    ensures
        r == if forall|i: int| 0 <= i < values.len() ==> unit(#[trigger] values[i]) {
            Ok::<Vec<u32>, MetalError>(values)
        } else {
            Err::<Vec<u32>, MetalError>(MetalError::Model(Fault::Nonfinite))
        },
{
    let mut i: usize = 0;
    while i < values.len()
        invariant
            i <= values.len(),
            forall|j: int| 0 <= j < i ==> unit(#[trigger] values[j]),
        decreases values.len() - i,
    {
        if !(values[i] <= 0x3f80_0000 || values[i] == 0x8000_0000) {
            assert(!unit(values[i as int]));
            return Err(MetalError::Model(Fault::Nonfinite));
        }
        i = i + 1;
    }
    Ok(values)
}

} // verus!
