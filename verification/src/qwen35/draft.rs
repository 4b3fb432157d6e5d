//! Draft cohorts: which sequences can be drafted for, what is uploaded for
//! them and how the drafted tokens come back.
use vstd::prelude::*;
use crate::arith::{max, min, MAX_ROWS};
use crate::error::{Fault, MetalError};
use crate::program::{push_write, written, Buffer, Write};
use crate::qwen35::attention::Load;
use crate::qwen35::dflash::{Dflash, BLOCK, MASK};
use crate::qwen35::graph::{Graph, MAX_CONTEXT};
use crate::qwen35::mtp::Mtp;
use crate::qwen35::state::{Qwen35, Slot};
use crate::qwen35::tick::all_text;
use crate::qwen35::upload::{page_table, rope_table};
use crate::rows::{tokens, Row};
use crate::tables::{row_ids, row_meta, row_places};

verus! {

/// A sequence and its next token.
pub type Pendings = Seq<(usize, u32)>;

impl Qwen35 {
    /// One sequence that can be drafted for, `spare` rows ahead.
    pub open spec fn draft_ready(&self, p: (usize, u32), spare: int) -> bool {
        &&& p.0 < self.slots.len()
        &&& !self.unfinished(p.0)
        &&& p.1 < self.graph.vocab
        &&& 0 < self.slots[p.0 as int].history.len()
        &&& self.slots[p.0 as int].history.len() + spare <= self.graph.context
    }

    /// A cohort of different sequences, all ready.
    pub open spec fn cohort(&self, pendings: Pendings, spare: int) -> bool {
        &&& forall|i: int|
            0 <= i < pendings.len() ==> self.draft_ready(#[trigger] pendings[i], spare)
        &&& forall|i: int, j: int|
            0 <= i < j < pendings.len() ==> (#[trigger] pendings[i]).0 != (#[trigger] pendings[j]).0
    }

    /// The row that a sequence would run next.
    pub open spec fn next_row(&self, p: (usize, u32)) -> Row {
        Row { slot: p.0, token: p.1, position: self.slots[p.0 as int].history.len() as u32 }
    }

    fn is_cohort(&self, pendings: &Vec<(usize, u32)>, spare: usize) -> (r: bool)
        requires
            self.wf(),
            spare <= 64,
        ensures
            r == self.cohort(pendings@, spare as int),
    {
        let mut seen: Vec<bool> = Vec::new();
        let mut s: usize = 0;
        while s < self.slots.len()
            invariant
                s <= self.slots.len(),
                seen.len() == s,
                forall|j: int| 0 <= j < s ==> !#[trigger] seen[j],
            decreases self.slots.len() - s,
        {
            seen.push(false);
            s = s + 1;
        }
        let mut i: usize = 0;
        while i < pendings.len()
            invariant
                i <= pendings.len(),
                self.wf(),
                spare <= 64,
                seen.len() == self.slots.len(),
                forall|j: int|
                    0 <= j < seen.len() ==> (#[trigger] seen[j] <==> exists|k: int|
                        0 <= k < i && (#[trigger] pendings[k]).0 == j),
                forall|k: int|
                    0 <= k < i ==> self.draft_ready(#[trigger] pendings[k], spare as int),
                forall|k: int, j: int|
                    0 <= k < j < i ==> (#[trigger] pendings[k]).0 != (#[trigger] pendings[j]).0,
            decreases pendings.len() - i,
        {
            let (slot, token) = pendings[i];
            if slot >= self.slots.len() {
                assert(!self.draft_ready(pendings@[i as int], spare as int));
                return false;
            }
            assert(self.slots[slot as int].wf(&self.graph));
            let n: usize = self.slots[slot].history.len();
            if self.has_pending(slot) || token as usize >= self.graph.vocab || n == 0 || spare
                > self.graph.context - n {
                assert(!self.draft_ready(pendings@[i as int], spare as int));
                return false;
            }
            if seen[slot] {
                proof {
                    let k = choose|k: int| 0 <= k < i && (#[trigger] pendings[k]).0 == slot;
                    assert(pendings@[k].0 == pendings@[i as int].0);
                }
                return false;
            }
            let ghost before = seen@;
            seen.set(slot, true);
            proof {
                assert forall|k: int, j: int| 0 <= k < j < i + 1 implies (#[trigger] pendings[k]).0 != (
                #[trigger] pendings[j]).0 by {
                    if j == i && pendings[k].0 == slot {
                        assert(before[slot as int]);
                    }
                }
                assert forall|j: int| 0 <= j < seen.len() implies (#[trigger] seen[j] <==> exists|k: int|
                    0 <= k < i + 1 && (#[trigger] pendings[k]).0 == j) by {
                    if j == slot {
                        assert(pendings[i as int].0 == j);
                    } else if before[j] {
                        let k = choose|k: int| 0 <= k < i && (#[trigger] pendings[k]).0 == j;
                        assert(pendings[k].0 == j);
                    }
                }
            }
            i = i + 1;
        }
        true
    }
}

/// A chained draft: `k` tokens for each sequence.
#[derive(Debug)]
pub struct ChainDraft {
    pub k: usize,
    /// The first row of each sequence.
    pub rows: Vec<Row>,
    /// The furthest row of each, for its pages.
    pub horizons: Vec<Row>,
    pub decode_rows: Vec<u32>,
    pub mrope: Vec<u32>,
    pub limits: Vec<u32>,
    /// The longest sequence at the end of the chain.
    pub length: usize,
}

pub open spec fn longest(slots: Seq<Slot>, pendings: Pendings, k: int) -> int
    decreases pendings.len(),
{
    if pendings.len() == 0 {
        0
    } else {
        max(
            longest(slots, pendings.drop_last(), k),
            slots[pendings.last().0 as int].history.len() + k,
        )
    }
}

impl Qwen35 {
    /// The tables of a chain of `k` tokens.
    pub open spec fn chained(&self, pendings: Pendings, k: int, d: ChainDraft) -> bool {
        let rows = pendings.map_values(|p: (usize, u32)| self.next_row(p));
        &&& d.k == k
        &&& d.rows@ == rows
        &&& d.horizons@ == rows.map_values(|r: Row| Row { position: (r.position + k) as u32, ..r })
        &&& d.decode_rows@ == Seq::new(pendings.len(), |i: int| i as u32)
        &&& d.mrope@ == rope_table(self.slots@, rows)
        &&& d.limits@ == rows.map_values(|r: Row| r.position)
        &&& d.length == longest(self.slots@, pendings, k)
    }

    /// Plan a chained draft. None where there is nothing to draft with, or a
    /// sequence of the cohort is not ready.
    pub fn mtp_draft(&self, pendings: &Vec<(usize, u32)>, k: usize) -> (r: Result<
        Option<ChainDraft>,
        MetalError,
    >)
        requires
            self.wf(),
        ensures
            ({
                let n = min(k as int, 7);
                if self.uncommitted {
                    r == Err::<Option<ChainDraft>, MetalError>(MetalError::Model(Fault::Uncommitted))
                } else if self.graph.mtp is None || pendings.len() == 0 || k == 0 || !self.cohort(
                    pendings@,
                    n + 1,
                ) {
                    r == Ok::<Option<ChainDraft>, MetalError>(None)
                } else {
                    r matches Ok(Some(d)) && self.chained(pendings@, n, d)
                }
            }),
    {
        if self.uncommitted {
            return Err(MetalError::Model(Fault::Uncommitted));
        }
        if self.graph.mtp.is_none() || pendings.len() == 0 || k == 0 {
            return Ok(None);
        }
        let k: usize = if k < BLOCK - 1 { k } else { BLOCK - 1 };
        if !self.is_cohort(pendings, k + 1) {
            return Ok(None);
        }
        let ghost want = pendings@.map_values(|p: (usize, u32)| self.next_row(p));
        let ghost far = want.map_values(|r: Row| Row { position: (r.position + k) as u32, ..r });
        let mut rows: Vec<Row> = Vec::new();
        let mut horizons: Vec<Row> = Vec::new();
        let mut decode_rows: Vec<u32> = Vec::new();
        let mut limits: Vec<u32> = Vec::new();
        let mut length: usize = 0;
        let mut i: usize = 0;
        assert(pendings@.take(0) =~= Seq::<(usize, u32)>::empty());
        while i < pendings.len()
            invariant
                i <= pendings.len(),
                self.wf(),
                1 <= k <= 7,
                self.cohort(pendings@, k + 1),
                want == pendings@.map_values(|p: (usize, u32)| self.next_row(p)),
                far == want.map_values(|r: Row| Row { position: (r.position + k) as u32, ..r }),
                rows@ == want.take(i as int),
                horizons@ == far.take(i as int),
                decode_rows@ == Seq::new(i as nat, |i: int| i as u32),
                limits@ == want.map_values(|r: Row| r.position).take(i as int),
                length == longest(self.slots@, pendings@.take(i as int), k as int),
            decreases pendings.len() - i,
        {
            let (slot, token) = pendings[i];
            proof {
                assert(self.draft_ready(pendings@[i as int], k + 1));
                assert(self.slots[slot as int].wf(&self.graph));
                assert(pendings@.take(i + 1).drop_last() =~= pendings@.take(i as int));
                assert(pendings@.take(i + 1).last() == pendings[i as int]);
            }
            let n: usize = self.slots[slot].history.len();
            rows.push(Row { slot, token, position: n as u32 });
            horizons.push(Row { slot, token, position: (n + k) as u32 });
            decode_rows.push(i as u32);
            limits.push(n as u32);
            if n + k > length {
                length = n + k;
            }
            proof {
                assert(rows@ =~= want.take(i + 1));
                assert(horizons@ =~= far.take(i + 1));
                assert(decode_rows@ =~= Seq::new((i + 1) as nat, |i: int| i as u32));
                assert(limits@ =~= want.map_values(|r: Row| r.position).take(i + 1));
            }
            i = i + 1;
        }
        proof {
            assert(pendings@.take(pendings.len() as int) =~= pendings@);
            assert(rows@ =~= want);
            assert(horizons@ =~= far);
            assert(limits@ =~= want.map_values(|r: Row| r.position));
            assert forall|j: int| 0 <= j < rows.len() implies {
                &&& (#[trigger] rows[j]).slot < self.slots.len()
                &&& rows[j].position < MAX_CONTEXT
            } by {
                assert(self.draft_ready(pendings@[j], k + 1));
                assert(rows[j] == self.next_row(pendings@[j]));
            }
        }
        let mrope = self.rope_rows(&rows);
        Ok(Some(ChainDraft { k, rows, horizons, decode_rows, mrope, limits, length }))
    }
}

impl Qwen35 {
    /// What a chain runs on: one decode row per sequence.
    pub fn chain_load(&self, d: &ChainDraft) -> (r: Load)
        ensures
            r == (Load {
                rows: d.rows.len(),
                tiles: 0,
                decode_rows: d.rows.len(),
                long_tiles: 0,
                decode_length: d.length,
                append_length: d.length,
                text_only: all_text(self.slots@),
            }),
    {
        Load {
            rows: d.rows.len(),
            tiles: 0,
            decode_rows: d.rows.len(),
            long_tiles: 0,
            decode_length: d.length,
            append_length: d.length,
            text_only: self.text_only(),
        }
    }
}

/// Consecutive runs of `k` numbers without the first `skip` of each.
pub open spec fn split(list: Seq<u32>, k: int, skip: int, n: int) -> Seq<Seq<u32>> {
    Seq::new(n as nat, |i: int| list.subrange(i * k + skip, i * k + k))
}

/// The drafted tokens, sequence by sequence.
pub fn split_draft(list: &Vec<u32>, k: usize, skip: usize, n: usize) -> (r: Vec<Vec<u32>>)
    requires
        0 < k,
        skip <= k,
        list.len() == n * k,
    ensures
        r@.map_values(|v: Vec<u32>| v@) == split(list@, k as int, skip as int, n as int),
{
    let mut out: Vec<Vec<u32>> = Vec::new();
    let mut i: usize = 0;
    let mut at: usize = 0;
    while i < n
        invariant
            i <= n,
            0 < k,
            skip <= k,
            list.len() == n * k,
            at == i * k,
            out.len() == i,
            forall|j: int|
                0 <= j < i ==> (#[trigger] out[j])@ == list@.subrange(j * k + skip, j * k + k),
        decreases n - i,
    {
        assert((i + 1) * k == i * k + k && (i + 1) * k <= n * k) by (nonlinear_arith)
            requires
                i + 1 <= n,
                0 < k,
        ;
        let mut row: Vec<u32> = Vec::new();
        let mut j: usize = skip;
        assert(row@ =~= list@.subrange(at + skip, at + skip));
        while j < k
            invariant
                skip <= j <= k,
                at + k <= list.len(),
                row@ == list@.subrange(at + skip, at + j),
            decreases k - j,
        {
            row.push(list[at + j]);
            assert(row@ =~= list@.subrange(at + skip, at + j + 1));
            j = j + 1;
        }
        out.push(row);
        at = at + k;
        i = i + 1;
    }
    assert(out@.map_values(|v: Vec<u32>| v@) =~= split(list@, k as int, skip as int, n as int));
    out
}

impl ChainDraft {
    /// What is written before a chain runs, and where.
    pub open spec fn chain_writes(&self, m: &Qwen35) -> Seq<(Buffer, Seq<u32>)> {
        let s = m.graph.scratch;
        seq![
            (s.ids, tokens(self.rows@)),
            (s.meta, row_meta(self.rows@)),
            (s.decode_rows, self.decode_rows@),
            (s.mrope, self.mrope@),
            (s.limits, self.limits@),
            (s.pages, page_table(m.slots@, m.graph.page_stride as int, m.slots.len() as int)),
        ]
    }

    pub fn writes(&self, m: &Qwen35) -> (r: Vec<Write>)
        requires
            m.wf(),
        ensures
            written(r@) == self.chain_writes(m),
    {
        let s = &m.graph.scratch;
        let mut out: Vec<Write> = Vec::new();
        assert(written(out@) =~= Seq::empty());
        push_write(&mut out, s.ids, &row_ids(&self.rows));
        push_write(&mut out, s.meta, &row_places(&self.rows));
        push_write(&mut out, s.decode_rows, &self.decode_rows);
        push_write(&mut out, s.mrope, &self.mrope);
        push_write(&mut out, s.limits, &self.limits);
        push_write(&mut out, s.pages, &m.pages());
        assert(written(out@) =~= self.chain_writes(m));
        out
    }

    /// The buffer and the number of tokens that a chain hands back.
    pub fn read_back(&self, d: &Mtp) -> (r: (Buffer, usize))
        requires
            self.rows.len() * self.k <= usize::MAX,
        ensures
            r == (d.drafted, (self.rows.len() * self.k) as usize),
    {
        (d.drafted, self.rows.len() * self.k)
    }

    /// The drafted tokens of each sequence.
    pub fn collect(&self, list: &Vec<u32>) -> (r: Vec<Vec<u32>>)
        requires
            0 < self.k,
            list.len() == self.rows.len() * self.k,
        ensures
            r@.map_values(|v: Vec<u32>| v@) == split(
                list@,
                self.k as int,
                0,
                self.rows.len() as int,
            ),
    {
        split_draft(list, self.k, 0, self.rows.len())
    }
}

/// A block draft: every sequence gets one row with its token and masked rows
/// behind it.
#[derive(Debug)]
pub struct BlockDraft {
    pub block: usize,
    pub rows: Vec<Row>,
    pub tiles: Vec<u32>,
    pub mrope: Vec<u32>,
}

impl BlockDraft {
    /// What is written before a block runs, and where.
    pub open spec fn block_writes(&self, g: &Graph) -> Seq<(Buffer, Seq<u32>)> {
        let s = g.scratch;
        seq![
            (s.ids, tokens(self.rows@)),
            (s.meta, row_meta(self.rows@)),
            (s.attn_tiles, self.tiles@),
            (s.mrope, self.mrope@),
        ]
    }

    pub fn writes(&self, g: &Graph) -> (r: Vec<Write>)
        ensures
            written(r@) == self.block_writes(g),
    {
        let s = &g.scratch;
        let mut out: Vec<Write> = Vec::new();
        assert(written(out@) =~= Seq::empty());
        push_write(&mut out, s.ids, &row_ids(&self.rows));
        push_write(&mut out, s.meta, &row_places(&self.rows));
        push_write(&mut out, s.attn_tiles, &self.tiles);
        push_write(&mut out, s.mrope, &self.mrope);
        assert(written(out@) =~= self.block_writes(g));
        out
    }

    /// The buffer and the number of tokens that a block hands back.
    pub fn read_back(&self, d: &Dflash) -> (r: (Buffer, usize))
        ensures
            r == (d.out, self.rows.len()),
    {
        (d.out, self.rows.len())
    }

    /// The drafted tokens of each sequence: a block without its first row.
    pub fn collect(&self, list: &Vec<u32>, sequences: usize) -> (r: Vec<Vec<u32>>)
        requires
            0 < self.block,
            self.rows.len() == sequences * self.block,
            list.len() == self.rows.len(),
        ensures
            r@.map_values(|v: Vec<u32>| v@) == split(
                list@,
                self.block as int,
                1,
                sequences as int,
            ),
    {
        split_draft(list, self.block, 1, sequences)
    }
}

/// Row `j` of a block.
pub open spec fn block_row(r: Row, j: int) -> Row {
    Row {
        slot: r.slot,
        token: if j == 0 { r.token } else { MASK },
        position: (r.position + j) as u32,
    }
}

impl Qwen35 {
    pub open spec fn block_rows(&self, pendings: Pendings, block: int, n: int) -> Seq<Row>
        decreases n,
    {
        if n <= 0 {
            Seq::empty()
        } else {
            self.block_rows(pendings, block, n - 1) + Seq::new(
                block as nat,
                |j: int| block_row(self.next_row(pendings[n - 1]), j),
            )
        }
    }

    /// Rows of one block: the whole trained window where the target's
    /// arithmetic asks for it.
    pub open spec fn draft_block(&self, k: int) -> int {
        if self.graph.mlx { 8 } else { min(k + 1, 8) }
    }

    pub open spec fn blocked(&self, pendings: Pendings, block: int, d: BlockDraft) -> bool {
        let n = pendings.len() as int;
        &&& d.block == block
        &&& d.rows@ == self.block_rows(pendings, block, n)
        &&& d.rows.len() == n * block
        &&& d.tiles@ == Seq::new(
            (2 * n) as nat,
            |i: int| if i % 2 == 0 { (i / 2 * block) as u32 } else { block as u32 },
        )
        &&& d.mrope@ == rope_table(self.slots@, d.rows@)
    }

    /// Plan a block draft. None where there is nothing to draft with, the
    /// verifier has too few rows, or a sequence is not ready.
    pub fn dflash_draft(&self, pendings: &Vec<(usize, u32)>, k: usize) -> (r: Result<
        Option<BlockDraft>,
        MetalError,
    >)
        requires
            self.wf(),
            self.graph.dflash is Some ==> self.graph.spec is Some,
        ensures
            ({
                let block = self.draft_block(k as int);
                if self.uncommitted {
                    r == Err::<Option<BlockDraft>, MetalError>(MetalError::Model(Fault::Uncommitted))
                } else if self.graph.dflash is None || pendings.len() == 0 || k == 0
                    || pendings.len() * block > self.graph.spec->0.rows || !self.cohort(
                    pendings@,
                    block,
                ) {
                    r == Ok::<Option<BlockDraft>, MetalError>(None)
                } else {
                    r matches Ok(Some(d)) && self.blocked(pendings@, block, d)
                }
            }),
    {
        if self.uncommitted {
            return Err(MetalError::Model(Fault::Uncommitted));
        }
        if self.graph.dflash.is_none() || pendings.len() == 0 || k == 0 {
            return Ok(None);
        }
        let block: usize = if self.graph.mlx || k >= BLOCK - 1 { BLOCK } else { k + 1 };
        let count: usize = pendings.len();
        if count > MAX_ROWS {
            assert(count * block > MAX_ROWS) by (nonlinear_arith)
                requires
                    count > MAX_ROWS,
                    block >= 1,
            ;
            return Ok(None);
        }
        assert(count * block <= MAX_ROWS * 8) by (nonlinear_arith)
            requires
                0 <= count <= MAX_ROWS,
                0 <= block <= 8,
        ;
        match self.graph.spec {
            Some(v) => if count * block > v.rows {
                return Ok(None);
            },
            None => {
                return Ok(None);
            },
        }
        if !self.is_cohort(pendings, block) {
            return Ok(None);
        }
        let mut rows: Vec<Row> = Vec::new();
        let mut tiles: Vec<u32> = Vec::new();
        let ghost pairs = Seq::new(
            (2 * count) as nat,
            |i: int| if i % 2 == 0 { (i / 2 * block) as u32 } else { block as u32 },
        );
        let mut i: usize = 0;
        while i < count
            invariant
                i <= count == pendings.len(),
                count <= MAX_ROWS,
                2 <= block <= 8,
                self.wf(),
                self.cohort(pendings@, block as int),
                pairs == Seq::new(
                    (2 * count) as nat,
                    |i: int| if i % 2 == 0 { (i / 2 * block) as u32 } else { block as u32 },
                ),
                rows@ == self.block_rows(pendings@, block as int, i as int),
                rows.len() == i * block,
                tiles@ == pairs.take(2 * i),
                forall|j: int|
                    0 <= j < rows.len() ==> {
                        &&& (#[trigger] rows[j]).slot < self.slots.len()
                        &&& rows[j].position < MAX_CONTEXT
                    },
            decreases count - i,
        {
            let (slot, token) = pendings[i];
            proof {
                assert(self.draft_ready(pendings@[i as int], block as int));
                assert(self.slots[slot as int].wf(&self.graph));
                assert(i * block <= MAX_ROWS * 8) by (nonlinear_arith)
                    requires
                        0 <= i <= MAX_ROWS,
                        0 <= block <= 8,
                ;
            }
            tiles.push((i * block) as u32);
            tiles.push(block as u32);
            proof {
                assert((i + 1) * block == i * block + block) by (nonlinear_arith);
                assert(pairs[2 * i] == (i * block) as u32);
                assert(pairs[2 * i + 1] == block as u32);
                assert(tiles@ =~= pairs.take(2 * (i + 1)));
            }
            let n: usize = self.slots[slot].history.len();
            let ghost before = rows@;
            let ghost first = self.next_row(pendings@[i as int]);
            let mut j: usize = 0;
            assert(rows@ =~= before + Seq::new(0, |j: int| block_row(first, j)));
            while j < block
                invariant
                    j <= block <= 8,
                    n + block <= MAX_CONTEXT,
                    first == (Row { slot, token, position: n as u32 }),
                    slot < self.slots.len(),
                    rows@ == before + Seq::new(j as nat, |j: int| block_row(first, j)),
                    forall|j: int|
                        0 <= j < rows.len() ==> {
                            &&& (#[trigger] rows[j]).slot < self.slots.len()
                            &&& rows[j].position < MAX_CONTEXT
                        },
                decreases block - j,
            {
                rows.push(
                    Row { slot, token: if j == 0 { token } else { MASK }, position: (n + j) as u32 },
                );
                assert(rows@ =~= before + Seq::new((j + 1) as nat, |j: int| block_row(first, j)));
                j = j + 1;
            }
            i = i + 1;
        }
        assert(tiles@ =~= pairs);
        let mrope = self.rope_rows(&rows);
        Ok(Some(BlockDraft { block, rows, tiles, mrope }))
    }
}

} // verus!
