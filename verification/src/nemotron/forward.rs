//! One tick: validation, sequence tables and the program of every layer.
use vstd::prelude::*;
use crate::arith::{ceil_div, div_ceil, groups, groups256, max, min, ONE};
use crate::error::{Fault, MetalError};
use crate::nemotron::graph::{
    layer_wf, Attention, Experts, Layer, Mamba, Mixer, Nemotron, Slot, CHUNK, EPS, FF, VOCAB, WIDTH,
};
use crate::program::{
    kernel, list0, list1, list2, list3, list4, list5, list6, list7, list8, Buffer, Plane, Program, Step,
    Weight,
};
use crate::projection::{project, project_steps};
use crate::rows::{
    count_slot, holding, lemma_holding, lemma_holding_join, lemma_listed, lemma_listed_join,
    lemma_seg_end, lemma_tile_rows, lemma_tile_rows_join, lemma_tiles_inside, lemma_tiles_join,
    lemma_within_join, listed, push_rows, push_tiles, seg_end, tile_pairs, tile_rows, tiles_inside,
    visits, within, Row, TILE,
};

verus! {

/// From this many rows a sequence is appended in tiles.
pub const APPEND_ROWS: usize = 16;

/// Row `r` names a slot, a token and the next position of its sequence.
pub open spec fn row_sound(slots: Seq<Slot>, context: usize, rows: Seq<Row>, r: int) -> bool {
    let row = rows[r];
    &&& row.slot < slots.len()
    &&& row.token < VOCAB
    &&& row.position < context
    &&& row.position == slots[row.slot as int].history.len() + count_slot(rows.take(r), row.slot)
}

/// The first unsound row from `r` on.
pub open spec fn first_unsound(slots: Seq<Slot>, context: usize, rows: Seq<Row>, r: int) -> Option<int>
    decreases rows.len() - r,
{
    if r >= rows.len() {
        None
    } else if !row_sound(slots, context, rows, r) {
        Some(r)
    } else {
        first_unsound(slots, context, rows, r + 1)
    }
}

/// A sequence is taken up again after another one came between.
pub open spec fn revisits(rows: Seq<Row>) -> bool {
    exists|r: int| #[trigger] reopens(rows, r)
}

pub open spec fn reopens(rows: Seq<Row>, r: int) -> bool {
    &&& 0 < r < rows.len()
    &&& rows[r - 1].slot != rows[r].slot
    &&& visits(rows.take(r), rows[r].slot)
}

/// The device tables of a tick.
pub struct Tables {
    pub sequences: Seq<u32>,
    pub ssd_tiles: Seq<u32>,
    pub attention_tiles: Seq<u32>,
    pub decodes: Seq<u32>,
    pub longest: int,
}

/// State-space tiles of sequence number `seq`.
pub open spec fn ssd_quads(slot: usize, r: int, end: int, seq: int) -> Seq<u32>
    decreases max(end - r, 0),
{
    if r >= end {
        Seq::empty()
    } else {
        seq![slot as u32, r as u32, min(end - r, 32) as u32, seq as u32] + ssd_quads(
            slot,
            r + 32,
            end,
            seq,
        )
    }
}

/// The tables of the sequence at `first`, the `seq`-th, with `base` tiles
/// before it.
pub open spec fn segment(rows: Seq<Row>, first: int, seq: int, base: int) -> Tables {
    let end = seg_end(rows, first);
    let slot = rows[first].slot;
    let append = end - first >= APPEND_ROWS;
    Tables {
        sequences: seq![slot as u32, first as u32, (end - first) as u32, base as u32],
        ssd_tiles: if append { ssd_quads(slot, first, end, seq) } else { Seq::empty() },
        attention_tiles: if append { tile_pairs(first, end, 32) } else { Seq::empty() },
        decodes: if append {
            Seq::empty()
        } else {
            Seq::new((end - first) as nat, |i: int| (first + i) as u32)
        },
        longest: end - first,
    }
}

pub open spec fn join(a: Tables, b: Tables) -> Tables {
    Tables {
        sequences: a.sequences + b.sequences,
        ssd_tiles: a.ssd_tiles + b.ssd_tiles,
        attention_tiles: a.attention_tiles + b.attention_tiles,
        decodes: a.decodes + b.decodes,
        longest: max(a.longest, b.longest),
    }
}

pub open spec fn no_tables() -> Tables {
    Tables {
        sequences: Seq::empty(),
        ssd_tiles: Seq::empty(),
        attention_tiles: Seq::empty(),
        decodes: Seq::empty(),
        longest: 0,
    }
}

/// The tables of every sequence from `first` on.
pub open spec fn tables(rows: Seq<Row>, first: int, seq: int, base: int) -> Tables
    decreases rows.len() - first,
{
    let end = seg_end(rows, first);
    if first >= rows.len() || end <= first || end > rows.len() {
        no_tables()
    } else {
        let here = segment(rows, first, seq, base);
        join(here, tables(rows, end, seq + 1, base + here.ssd_tiles.len() as int / 4))
    }
}

proof fn lemma_join(a: Tables, b: Tables, c: Tables)
    requires
        0 <= a.longest,
    ensures
        join(join(a, b), c) == join(a, join(b, c)),
        join(a, no_tables()) == a,
        join(no_tables(), a) == a,
{
    let l = join(join(a, b), c);
    let r = join(a, join(b, c));
    assert(l.sequences =~= r.sequences);
    assert(l.ssd_tiles =~= r.ssd_tiles);
    assert(l.attention_tiles =~= r.attention_tiles);
    assert(l.decodes =~= r.decodes);
    let x = join(a, no_tables());
    let y = join(no_tables(), a);
    assert(x.sequences =~= a.sequences && y.sequences =~= a.sequences);
    assert(x.ssd_tiles =~= a.ssd_tiles && y.ssd_tiles =~= a.ssd_tiles);
    assert(x.attention_tiles =~= a.attention_tiles && y.attention_tiles =~= a.attention_tiles);
    assert(x.decodes =~= a.decodes && y.decodes =~= a.decodes);
}

/// A validated tick.
#[derive(Debug)]
pub struct Plan {
    pub rows: Vec<Row>,
    pub outputs: Vec<usize>,
    pub sequences: Vec<u32>,
    pub ssd_tiles: Vec<u32>,
    pub attention_tiles: Vec<u32>,
    pub decodes: Vec<u32>,
    pub longest: usize,
}

impl Plan {
    pub open spec fn tables(&self) -> Tables {
        Tables {
            sequences: self.sequences@,
            ssd_tiles: self.ssd_tiles@,
            attention_tiles: self.attention_tiles@,
            decodes: self.decodes@,
            longest: self.longest as int,
        }
    }
}

fn push_quads(out: &mut Vec<u32>, slot: usize, first: usize, end: usize, seq: u32)
    requires
        first <= end <= CHUNK,
    ensures
        final(out)@ == old(out)@ + ssd_quads(slot, first as int, end as int, seq as int),
{
    let mut r: usize = first;
    let ghost total = old(out)@ + ssd_quads(slot, first as int, end as int, seq as int);
    while r < end
        invariant
            end <= CHUNK,
            out@ + ssd_quads(slot, r as int, end as int, seq as int) == total,
        decreases end - r,
    {
        let n: usize = if end - r > 32 { 32 } else { end - r };
        let ghost before = out@;
        let ghost quad = seq![slot as u32, r as u32, n as u32, seq];
        out.push(slot as u32);
        out.push(r as u32);
        out.push(n as u32);
        out.push(seq);
        proof {
            assert(out@ =~= before + quad);
            assert(out@ + ssd_quads(slot, r + 32, end as int, seq as int) =~= before + (quad + ssd_quads(
                slot,
                r + 32,
                end as int,
                seq as int,
            )));
        }
        if end - r <= 32 {
            r = end;
            assert(ssd_quads(slot, r as int, end as int, seq as int) =~= Seq::<u32>::empty());
        } else {
            r = r + 32;
        }
    }
    assert(out@ =~= total);
}

proof fn lemma_quads(slot: usize, r: int, end: int, seq: int)
    requires
        r <= end,
    ensures
        ssd_quads(slot, r, end, seq).len() % 4 == 0,
        ssd_quads(slot, r, end, seq).len() <= 4 * (end - r),
    decreases end - r,
{
    if r < end {
        if r + 32 <= end {
            lemma_quads(slot, r + 32, end, seq);
        } else {
            assert(ssd_quads(slot, r + 32, end, seq) =~= Seq::<u32>::empty());
        }
    }
}

impl Nemotron {
    pub open spec fn selection_fault(&self, rows: Seq<Row>, outputs: Seq<usize>) -> bool {
        ||| rows.len() == 0
        ||| rows.len() > CHUNK
        ||| outputs.len() > self.slots.len()
        ||| exists|i: int| 0 <= i < outputs.len() && #[trigger] outputs[i] >= rows.len()
    }

    /// What a tick is refused for: its size or selection, then its first
    /// unsound row, then a sequence in two pieces.
    pub open spec fn tick_fault(&self, rows: Seq<Row>, outputs: Seq<usize>) -> Option<Fault> {
        if self.selection_fault(rows, outputs) {
            Some(Fault::Selection)
        } else {
            match first_unsound(self.slots@, self.context, rows, 0) {
                Some(r) => Some(
                    Fault::Row {
                        slot: rows[r].slot,
                        token: rows[r].token,
                        position: rows[r].position,
                    },
                ),
                None => if revisits(rows) { Some(Fault::Revisited) } else { None },
            }
        }
    }

    fn check_selection(&self, rows: &Vec<Row>, outputs: &Vec<usize>) -> (r: bool)
        ensures
            r == !self.selection_fault(rows@, outputs@),
    {
        let m: usize = rows.len();
        if m == 0 || m > CHUNK || outputs.len() > self.slots.len() {
            return false;
        }
        let mut i: usize = 0;
        while i < outputs.len()
            invariant
                i <= outputs.len(),
                m == rows.len(),
                forall|j: int| 0 <= j < i ==> #[trigger] outputs[j] < m,
            decreases outputs.len() - i,
        {
            if outputs[i] >= m {
                return false;
            }
            i = i + 1;
        }
        true
    }

    fn find_unsound(&self, rows: &Vec<Row>) -> (r: Option<usize>)
        requires
            self.wf(),
            rows.len() <= CHUNK,
        ensures
            match r {
                Some(i) => first_unsound(self.slots@, self.context, rows@, 0) == Some(i as int) && i
                    < rows.len(),
                None => first_unsound(self.slots@, self.context, rows@, 0) is None,
            },
    {
        let mut lengths: Vec<usize> = Vec::new();
        let mut s: usize = 0;
        while s < self.slots.len()
            invariant
                s <= self.slots.len(),
                lengths.len() == s,
                forall|j: int| 0 <= j < s ==> #[trigger] lengths[j] == self.slots[j].history.len(),
            decreases self.slots.len() - s,
        {
            lengths.push(self.slots[s].history.len());
            s = s + 1;
        }
        let mut r: usize = 0;
        assert(rows@.take(0) =~= Seq::<Row>::empty());
        while r < rows.len()
            invariant
                r <= rows.len() <= CHUNK,
                self.wf(),
                lengths.len() == self.slots.len(),
                forall|j: int|
                    0 <= j < self.slots.len() ==> #[trigger] lengths[j] == self.slots[j].history.len()
                        + count_slot(rows@.take(r as int), j as usize),
                first_unsound(self.slots@, self.context, rows@, 0) == first_unsound(
                    self.slots@,
                    self.context,
                    rows@,
                    r as int,
                ),
            decreases rows.len() - r,
        {
            let row = rows[r];
            proof {
                assert(rows@.take(r + 1).drop_last() =~= rows@.take(r as int));
                assert(rows@.take(r + 1).last() == row);
            }
            if row.slot >= self.slots.len() || row.token as usize >= VOCAB || row.position as usize
                >= self.context || row.position as usize != lengths[row.slot] {
                return Some(r);
            }
            let n: usize = lengths[row.slot];
            lengths.set(row.slot, n + 1);
            r = r + 1;
        }
        None
    }

    fn finds_revisit(&self, rows: &Vec<Row>) -> (r: bool)
        requires
            forall|i: int| 0 <= i < rows.len() ==> (#[trigger] rows[i]).slot < self.slots.len(),
        ensures
            r == revisits(rows@),
    {
        let mut seen: Vec<bool> = Vec::new();
        let mut s: usize = 0;
        while s < self.slots.len()
            invariant
                s <= self.slots.len(),
                seen.len() == s,
                forall|j: int| 0 <= j < s ==> !#[trigger] seen[j],
            decreases self.slots.len() - s,
        {
            seen.push(false);
            s = s + 1;
        }
        let mut r: usize = 0;
        assert(rows@.take(0) =~= Seq::<Row>::empty());
        while r < rows.len()
            invariant
                r <= rows.len(),
                seen.len() == self.slots.len(),
                forall|i: int| 0 <= i < rows.len() ==> (#[trigger] rows[i]).slot < self.slots.len(),
                forall|j: int|
                    0 <= j < self.slots.len() ==> #[trigger] seen[j] == visits(
                        rows@.take(r as int),
                        j as usize,
                    ),
                forall|i: int| i < r ==> !#[trigger] reopens(rows@, i),
            decreases rows.len() - r,
        {
            let row = rows[r];
            let ghost before = rows@.take(r as int);
            let ghost after = rows@.take(r + 1);
            assert(row.slot < self.slots.len());
            if r > 0 && rows[r - 1].slot != row.slot && seen[row.slot] {
                assert(reopens(rows@, r as int));
                return true;
            }
            proof {
                assert(!reopens(rows@, r as int));
                assert(visits(after, row.slot)) by {
                    assert(after[r as int].slot == row.slot);
                }
                assert forall|j: int| 0 <= j < self.slots.len() && j != row.slot implies #[trigger] visits(
                    before,
                    j as usize,
                ) == visits(after, j as usize) by {
                    if visits(before, j as usize) {
                        let w = choose|w: int|
                            0 <= w < before.len() && (#[trigger] before[w]).slot == j as usize;
                        assert(after[w].slot == j as usize);
                    }
                    if visits(after, j as usize) {
                        let w = choose|w: int|
                            0 <= w < after.len() && (#[trigger] after[w]).slot == j as usize;
                        assert(before[w].slot == j as usize);
                    }
                }
            }
            seen.set(row.slot, true);
            r = r + 1;
        }
        false
    }

    /// Validate a tick and cut its rows into sequences and tiles.
    pub fn plan(&self, rows: Vec<Row>, outputs: Vec<usize>) -> (r: Result<Plan, MetalError>)
        requires
            self.wf(),
        ensures
            match self.tick_fault(rows@, outputs@) {
                Some(f) => r == Err::<Plan, MetalError>(MetalError::Model(f)),
                None => {
                    &&& r matches Ok(p)
                    &&& p.rows@ == rows@
                    &&& p.outputs@ == outputs@
                    &&& p.tables() == tables(rows@, 0, 0, 0)
                },
            },
    {
        if !self.check_selection(&rows, &outputs) {
            return Err(MetalError::Model(Fault::Selection));
        }
        if let Some(i) = self.find_unsound(&rows) {
            let row = rows[i];
            return Err(
                MetalError::Model(
                    Fault::Row { slot: row.slot, token: row.token, position: row.position },
                ),
            );
        }
        proof {
            assert forall|i: int| 0 <= i < rows.len() implies (#[trigger] rows[i]).slot
                < self.slots.len() by {
                lemma_sound(self.slots@, self.context, rows@, 0, i);
            }
        }
        if self.finds_revisit(&rows) {
            return Err(MetalError::Model(Fault::Revisited));
        }
        Ok(cut(rows, outputs))
    }
}

/// Every row of a sound tick is sound.
pub proof fn lemma_sound(slots: Seq<Slot>, context: usize, rows: Seq<Row>, from: int, r: int)
    requires
        0 <= from <= r < rows.len(),
        first_unsound(slots, context, rows, from) is None,
    ensures
        row_sound(slots, context, rows, r),
    decreases r - from,
{
    if from < r {
        lemma_sound(slots, context, rows, from + 1, r);
    }
}

fn cut(rows: Vec<Row>, outputs: Vec<usize>) -> (r: Plan)
    requires
        0 < rows.len() <= CHUNK,
    ensures
        r.rows@ == rows@,
        r.outputs@ == outputs@,
        r.tables() == tables(rows@, 0, 0, 0),
{
    let m: usize = rows.len();
    let ghost total = tables(rows@, 0, 0, 0);
    let mut p = Plan {
        rows: Vec::new(),
        outputs: Vec::new(),
        sequences: Vec::new(),
        ssd_tiles: Vec::new(),
        attention_tiles: Vec::new(),
        decodes: Vec::new(),
        longest: 0,
    };
    let mut first: usize = 0;
    proof {
        lemma_tables_longest(rows@, 0, 0, 0);
        lemma_join(total, total, total);
        assert(p.tables() == no_tables());
    }
    while first < m
        invariant
            first <= m,
            m == rows.len(),
            m <= CHUNK,
            p.sequences.len() % 4 == 0,
            p.sequences.len() <= 4 * first,
            p.ssd_tiles.len() % 4 == 0,
            p.ssd_tiles.len() <= 4 * first,
            join(
                p.tables(),
                tables(
                    rows@,
                    first as int,
                    p.sequences.len() as int / 4,
                    p.ssd_tiles.len() as int / 4,
                ),
            ) == total,
        decreases m - first,
    {
        let slot: usize = rows[first].slot;
        let mut end: usize = first + 1;
        while end < m && rows[end].slot == slot
            invariant
                first < end <= m,
                m == rows.len(),
                slot == rows[first as int].slot,
                rows[end - 1].slot == slot,
                seg_end(rows@, first as int) == seg_end(rows@, end - 1),
            decreases m - end,
        {
            end = end + 1;
        }
        let ghost seq_no = p.sequences.len() as int / 4;
        let ghost base = p.ssd_tiles.len() as int / 4;
        let ghost before = p.tables();
        let ghost here = segment(rows@, first as int, seq_no, base);
        let ghost rest = tables(
            rows@,
            end as int,
            seq_no + 1,
            base + here.ssd_tiles.len() as int / 4,
        );
        proof {
            lemma_seg_end(rows@, first as int);
            lemma_quads(slot, first as int, end as int, seq_no);
            assert(tables(rows@, first as int, seq_no, base) == join(here, rest));
        }
        let seq: u32 = (p.sequences.len() / 4) as u32;
        let mut quad = list4(
            slot as u32,
            first as u32,
            (end - first) as u32,
            (p.ssd_tiles.len() / 4) as u32,
        );
        p.sequences.append(&mut quad);
        if end - first > p.longest {
            p.longest = end - first;
        }
        if end - first >= APPEND_ROWS {
            push_quads(&mut p.ssd_tiles, slot, first, end, seq);
            push_tiles(&mut p.attention_tiles, first, end, TILE);
            assert(p.decodes@ =~= before.decodes + here.decodes);
        } else {
            push_rows(&mut p.decodes, first, end);
            assert(p.ssd_tiles@ =~= before.ssd_tiles + here.ssd_tiles);
            assert(p.attention_tiles@ =~= before.attention_tiles + here.attention_tiles);
        }
        proof {
            assert(p.tables() == join(before, here));
            lemma_join(before, here, rest);
            assert(p.sequences.len() as int / 4 == seq_no + 1);
            assert(p.ssd_tiles.len() as int / 4 == base + here.ssd_tiles.len() as int / 4);
        }
        first = end;
    }
    proof {
        lemma_join(p.tables(), total, total);
        assert(tables(
            rows@,
            m as int,
            p.sequences.len() as int / 4,
            p.ssd_tiles.len() as int / 4,
        ) == no_tables());
    }
    p.rows = rows;
    p.outputs = outputs;
    p
}

proof fn lemma_tables_longest(rows: Seq<Row>, first: int, seq: int, base: int)
    requires
        0 <= first,
    ensures
        0 <= tables(rows, first, seq, base).longest,
    decreases rows.len() - first,
{
    let end = seg_end(rows, first);
    if !(first >= rows.len() || end <= first || end > rows.len()) {
        let here = segment(rows, first, seq, base);
        lemma_tables_longest(rows, end, seq + 1, base + here.ssd_tiles.len() as int / 4);
    }
}

/// On how many routes a row stands: appended in a tile, or decoded alone.
pub open spec fn routes(t: Tables, r: int) -> int {
    holding(t.attention_tiles, r) + listed(t.decodes, r)
}

/// Every row is appended in one tile or decoded alone once, never both or
/// neither, and the tables point at rows of the tick only. It lies in exactly
/// one sequence, and in a state-space tile where it is appended.
#[verifier::spinoff_prover]
#[verifier::rlimit(60)]
pub proof fn every_row_takes_one_route(rows: Seq<Row>, first: int, seq: int, base: int)
    requires
        0 <= first <= rows.len() <= CHUNK,
    ensures
        ({
            let t = tables(rows, first, seq, base);
            let m = rows.len() as int;
            &&& tile_rows(t.attention_tiles) + t.decodes.len() == m - first
            &&& forall|r: int| #[trigger] routes(t, r) == if first <= r < m { 1int } else { 0 }
            &&& forall|r: int| #[trigger]
                within(t.sequences, 1, r) == (if first <= r < m { 1int } else { 0 }) && within(
                    t.ssd_tiles,
                    1,
                    r,
                ) == holding(t.attention_tiles, r)
            &&& tiles_inside(t.attention_tiles, first, m)
            &&& forall|i: int| 0 <= i < t.decodes.len() ==> first <= #[trigger] t.decodes[i] < m
            &&& t.attention_tiles.len() as int / 2 == t.ssd_tiles.len() as int / 4
            &&& t.ssd_tiles.len() % 4 == 0
            &&& t.ssd_tiles.len() <= 4 * (m - first)
            &&& t.sequences.len() % 4 == 0
            &&& t.sequences.len() <= 4 * (m - first)
            &&& 0 <= t.longest <= m - first
        }),
    decreases rows.len() - first,
{
    if first < rows.len() {
        let m = rows.len() as int;
        lemma_seg_end(rows, first);
        let end = seg_end(rows, first);
        let here = segment(rows, first, seq, base);
        let next = base + here.ssd_tiles.len() as int / 4;
        let rest = tables(rows, end, seq + 1, next);
        every_row_takes_one_route(rows, end, seq + 1, next);
        lemma_tiles_inside(first, end, 32);
        lemma_tile_rows(first, end, 32);
        lemma_quads(rows[first].slot, first, end, seq);
        lemma_quads_match_tiles(rows[first].slot, first, end, seq);
        lemma_tile_rows_join(here.attention_tiles, rest.attention_tiles);
        assert(tiles_inside(here.attention_tiles, first, end));
        lemma_tiles_join(here.attention_tiles, rest.attention_tiles, first, end, m);
        let all = join(here, rest);
        assert(tables(rows, first, seq, base) == all);
        assert forall|r: int| #[trigger]
            routes(all, r) == if first <= r < m { 1int } else { 0 } by {
            lemma_holding(first, end, 32, r);
            lemma_listed(first, end - first, r);
            lemma_holding_join(here.attention_tiles, rest.attention_tiles, r);
            lemma_listed_join(here.decodes, rest.decodes, r);
            assert(routes(rest, r) == if end <= r < m { 1int } else { 0 });
        }
        assert forall|r: int| #[trigger]
            within(all.sequences, 1, r) == (if first <= r < m { 1int } else { 0 }) && within(
                all.ssd_tiles,
                1,
                r,
            ) == holding(all.attention_tiles, r) by {
            lemma_within_join(here.sequences, rest.sequences, 1, r);
            lemma_within_join(here.ssd_tiles, rest.ssd_tiles, 1, r);
            lemma_holding_join(here.attention_tiles, rest.attention_tiles, r);
            lemma_holding(first, end, 32, r);
            lemma_quads_hold(rows[first].slot, first, end, seq, r);
            assert(here.sequences.skip(4) =~= Seq::<u32>::empty());
            assert(within(here.sequences.skip(4), 1, r) == 0);
            assert(within(rest.sequences, 1, r) == if end <= r < m { 1int } else { 0 });
        }
        assert forall|i: int| 0 <= i < all.decodes.len() implies first <= #[trigger] all.decodes[i]
            < m by {
            if i >= here.decodes.len() {
                assert(all.decodes[i] == rest.decodes[i - here.decodes.len()]);
            }
        }
        assert(all.attention_tiles.len() == here.attention_tiles.len() + rest.attention_tiles.len());
        assert(all.ssd_tiles.len() == here.ssd_tiles.len() + rest.ssd_tiles.len());
        assert(all.sequences.len() == here.sequences.len() + rest.sequences.len());
        assert(here.attention_tiles.len() as int / 2 == here.ssd_tiles.len() as int / 4);
        assert(here.ssd_tiles.len() % 4 == 0 && here.ssd_tiles.len() <= 4 * (end - first));
        assert(here.sequences.len() == 4);
        assert(all.attention_tiles.len() as int / 2 == all.ssd_tiles.len() as int / 4);
        assert(tile_rows(all.attention_tiles) + all.decodes.len() == m - first);
    } else {
        let none = tables(rows, first, seq, base);
        assert forall|r: int| #[trigger] routes(none, r) == 0 by {}
        assert forall|r: int| #[trigger]
            within(none.sequences, 1, r) == 0 && within(none.ssd_tiles, 1, r) == holding(
                none.attention_tiles,
                r,
            ) by {}
    }
}

proof fn lemma_quads_hold(slot: usize, first: int, end: int, seq: int, r: int)
    requires
        0 <= first <= end <= u32::MAX,
    ensures
        within(ssd_quads(slot, first, end, seq), 1, r) == if first <= r < end { 1int } else { 0 },
    decreases end - first,
{
    if first < end {
        let t = ssd_quads(slot, first, end, seq);
        let rest = ssd_quads(slot, first + 32, end, seq);
        assert(t.skip(4) =~= rest);
        if end - first <= 32 {
            assert(rest =~= Seq::<u32>::empty());
            assert(within(rest, 1, r) == 0);
        } else {
            lemma_quads_hold(slot, first + 32, end, seq, r);
        }
    }
}

proof fn lemma_quads_match_tiles(slot: usize, r: int, end: int, seq: int)
    requires
        0 <= r <= end,
    ensures
        ssd_quads(slot, r, end, seq).len() as int / 4 == tile_pairs(r, end, 32).len() as int / 2,
        ssd_quads(slot, r, end, seq).len() % 4 == 0,
        tile_pairs(r, end, 32).len() % 2 == 0,
    decreases end - r,
{
    if r < end {
        if r + 32 <= end {
            lemma_quads_match_tiles(slot, r + 32, end, seq);
        } else {
            assert(ssd_quads(slot, r + 32, end, seq) =~= Seq::<u32>::empty());
            assert(tile_pairs(r + 32, end, 32) =~= Seq::<u32>::empty());
        }
    }
}

/// Sizes that the program of a tick depends on.
#[derive(Clone, Copy, Debug, PartialEq, Eq, Structural)]
pub struct Shape {
    pub rows: usize,
    pub outputs: usize,
    pub sequences: usize,
    pub tiles: usize,
    pub decodes: usize,
    pub longest: usize,
}

impl Shape {
    pub open spec fn wf(self) -> bool {
        &&& 1 <= self.rows <= CHUNK
        &&& self.decodes <= CHUNK
        &&& self.longest <= CHUNK
    }
}

impl Plan {
    pub open spec fn shape_of(&self) -> Shape {
        Shape {
            rows: self.rows.len(),
            outputs: self.outputs.len(),
            sequences: (self.sequences.len() as int / 4) as usize,
            tiles: (self.ssd_tiles.len() as int / 4) as usize,
            decodes: self.decodes.len(),
            longest: self.longest,
        }
    }

    pub fn shape(&self) -> (r: Shape)
        ensures
            r == self.shape_of(),
    {
        Shape {
            rows: self.rows.len(),
            outputs: self.outputs.len(),
            sequences: self.sequences.len() / 4,
            tiles: self.ssd_tiles.len() / 4,
            decodes: self.decodes.len(),
            longest: self.longest,
        }
    }
}

pub open spec fn norm_step(x: Buffer, norm: Weight, to: Buffer, rows: int) -> Step {
    kernel("rms"@, seq![x, norm.buffer, to], seq![2688u32, 0u32, EPS], (rows, 1, 1), 256)
}

impl Nemotron {
    pub open spec fn mamba_steps(&self, p: Seq<Step>, w: Mamba, t: Shape) -> Seq<Step> {
        let s = self.scratch;
        let p = project_steps(p, seq![Plane { weight: w.input, out: s.proj }], s.norm, t.rows).push(
            kernel(
                "nemo_conv"@,
                seq![s.proj, w.window, w.conv_w.buffer, w.conv_b.buffer, s.sequences, s.conv],
                seq![],
                (groups(t.longest as int, 6144), t.sequences as int, 1),
                256,
            ),
        ).push(
            kernel(
                "nemo_conv_commit"@,
                seq![s.proj, w.window, s.sequences],
                seq![],
                (24, t.sequences as int, 1),
                256,
            ),
        );
        let p = if t.decodes > 0 {
            p.push(
                kernel(
                    "nemo_scan"@,
                    seq![
                        s.conv,
                        s.proj,
                        w.a.buffer,
                        w.d.buffer,
                        w.dt.buffer,
                        w.state,
                        s.sequences,
                        s.y,
                    ],
                    seq![0u32],
                    (16, 64, t.sequences as int),
                    128,
                ),
            )
        } else {
            p
        };
        let p = if t.tiles > 0 { self.ssd_steps(p, w, t) } else { p };
        project_steps(
            p.push(
                kernel(
                    "nemo_gated_norm"@,
                    seq![s.y, s.proj, w.norm.buffer, s.yn],
                    seq![EPS],
                    (8, t.rows as int, 1),
                    256,
                ),
            ),
            seq![Plane { weight: w.output, out: s.delta }],
            s.yn,
            t.rows,
        )
    }

    /// The chunked scan over append tiles.
    pub open spec fn ssd_steps(&self, p: Seq<Step>, w: Mamba, t: Shape) -> Seq<Step> {
        let s = self.scratch;
        p.push(
            kernel(
                "nemo_ssd_prepare"@,
                seq![s.proj, w.a.buffer, w.dt.buffer, s.ssd_tiles, s.decay, s.dt],
                seq![],
                (64, t.tiles as int, 1),
                32,
            ),
        ).push(
            kernel(
                "nemo_ssd_matrix"@,
                seq![s.conv, s.ssd_tiles, s.decay, s.dt, s.matrix],
                seq![],
                (64, t.tiles as int, 1),
                128,
            ),
        ).push(
            kernel(
                "nemo_ssd_delta"@,
                seq![s.conv, s.ssd_tiles, s.decay, s.dt, s.state_delta],
                seq![],
                (16, 64, t.tiles as int),
                128,
            ),
        ).push(
            kernel(
                "nemo_ssd_states"@,
                seq![w.state, s.state_delta, s.decay, s.sequences, s.ssd_tiles, s.state_in],
                seq![],
                (2048, t.sequences as int, 1),
                256,
            ),
        ).push(
            kernel(
                "nemo_ssd_output"@,
                seq![s.conv, s.ssd_tiles, s.decay, s.matrix, s.state_in, w.d.buffer, s.y],
                seq![],
                (4, 64, t.tiles as int),
                128,
            ),
        )
    }

    pub open spec fn attention_steps(&self, p: Seq<Step>, w: Attention, t: Shape) -> Seq<Step> {
        let s = self.scratch;
        let params = seq![32u32, 2u32, self.page_stride as u32, 0u32, 0u32, 16u32];
        let p = project_steps(
            p,
            seq![
                Plane { weight: w.q, out: s.q },
                Plane { weight: w.k, out: s.k },
                Plane { weight: w.v, out: s.v },
            ],
            s.norm,
            t.rows,
        ).push(
            kernel(
                "nemo_store"@,
                seq![s.k, s.v, w.keys, w.values, s.meta, s.pages],
                seq![t.rows as u32, self.page_stride as u32],
                (groups(t.rows as int, 256), 1, 1),
                256,
            ),
        );
        let p = if t.tiles > 0 {
            p.push(
                kernel(
                    "laguna_prefill"@,
                    seq![s.q, w.keys, w.values, s.meta, s.pages, s.attention, s.attention_tiles],
                    params,
                    (32, t.tiles as int, 1),
                    128,
                ),
            )
        } else {
            p
        };
        let p = if t.decodes > 0 {
            p.push(
                kernel(
                    "nemo_attention_decode"@,
                    seq![s.q, w.keys, w.values, s.meta, s.pages, s.decode_rows, s.parts],
                    params,
                    (2, t.decodes as int, 16),
                    128,
                ),
            ).push(
                kernel(
                    "gemma_merge"@,
                    seq![s.parts, s.attention, s.decode_rows],
                    seq![32u32, 16u32, 128u32],
                    (t.decodes * 32, 1, 1),
                    32,
                ),
            )
        } else {
            p
        };
        project_steps(p, seq![Plane { weight: w.out, out: s.delta }], s.attention, t.rows)
    }

    /// One expert half: gathered by expert from sixteen rows on.
    pub open spec fn expert_step(&self, w: Experts, m: usize, down: bool) -> Step {
        let s = self.scratch;
        let plane = if down { w.down } else { w.up };
        let input = if down { s.up } else { s.norm };
        let output = if down { s.expert_out } else { s.up };
        let k = if down { FF } else { WIDTH };
        let n = if down { WIDTH } else { FF };
        let params = seq![k as u32, n as u32, m as u32];
        if m >= 16 {
            kernel(
                if down { "nemo_down_grouped"@ } else { "nemo_up_grouped"@ },
                seq![plane.buffer, input, s.lists, s.counts, s.tiles, output],
                params,
                (ceil_div(n as int, 32), ceil_div(m * 6, 16) + 128, 1),
                128,
            )
        } else {
            kernel(
                if down { "nemo_down_decode"@ } else { "nemo_up_decode"@ },
                seq![plane.buffer, input, s.picks, output],
                params,
                (ceil_div(n as int, 4), m * 6, 1),
                128,
            )
        }
    }

    pub open spec fn moe_steps(&self, p: Seq<Step>, w: Experts, m: usize) -> Seq<Step> {
        let s = self.scratch;
        let p = p.push(
            kernel(
                "linear"@,
                seq![w.router.buffer, s.norm, s.router],
                seq![2688u32, 128u32, m as u32, 0u32, ONE],
                (32, m as int, 1),
                128,
            ),
        ).push(
            kernel(
                "nemo_route"@,
                seq![s.router, w.bias.buffer, s.picks, s.probabilities],
                seq![],
                (m as int, 1, 1),
                32,
            ),
        );
        let p = if m >= 16 {
            p.push(
                kernel(
                    "moe_align"@,
                    seq![s.picks, s.lists, s.counts],
                    seq![(m * 6) as u32],
                    (128, 1, 1),
                    256,
                ),
            ).push(kernel("moe_tiles"@, seq![s.counts, s.tiles], seq![128u32, 16u32], (1, 1, 1), 256))
        } else {
            p
        };
        let p = p.push(self.expert_step(w, m, false)).push(self.expert_step(w, m, true));
        let p = project_steps(p, seq![Plane { weight: w.shared_up, out: s.shared }], s.norm, m).push(
            kernel(
                "nemo_relu2"@,
                seq![s.shared],
                seq![(m * 3712) as u32],
                (groups(m as int, 3712), 1, 1),
                256,
            ),
        );
        project_steps(p, seq![Plane { weight: w.shared_down, out: s.delta }], s.shared, m).push(
            kernel(
                "nemo_fold"@,
                seq![s.expert_out, s.probabilities, s.delta],
                seq![m as u32],
                (groups(m as int, 2688), 1, 1),
                256,
            ),
        )
    }

    pub open spec fn layer_steps(&self, p: Seq<Step>, l: Layer, t: Shape) -> Seq<Step> {
        let s = self.scratch;
        let p = p.push(norm_step(s.x, l.norm, s.norm, t.rows as int));
        let p = match l.mixer {
            Mixer::Mamba(w) => self.mamba_steps(p, w, t),
            Mixer::Attention(w) => self.attention_steps(p, w, t),
            Mixer::Moe(w) => self.moe_steps(p, w, t.rows),
        };
        p.push(
            kernel(
                "residual"@,
                seq![s.x, s.delta],
                seq![(t.rows * 2688) as u32, ONE],
                (groups(t.rows as int, 2688), 1, 1),
                256,
            ),
        )
    }

    pub open spec fn layers_steps(&self, p: Seq<Step>, n: int, t: Shape) -> Seq<Step>
        decreases n,
    {
        if n <= 0 {
            p
        } else {
            self.layer_steps(self.layers_steps(p, n - 1, t), self.layers[n - 1], t)
        }
    }

    /// Embed the rows.
    pub open spec fn entry_steps(&self, t: Shape) -> Seq<Step> {
        let s = self.scratch;
        seq![
            kernel(
                "embed"@,
                seq![self.embedding.buffer, s.ids, s.x],
                seq![2688u32, t.rows as u32, 8u32, ONE],
                (groups(t.rows as int, 2688), 1, 1),
                256,
            ),
        ]
    }

    /// Everything that one tick runs.
    pub open spec fn tick_steps(&self, t: Shape) -> Seq<Step> {
        let s = self.scratch;
        let p = self.layers_steps(self.entry_steps(t), self.layers.len() as int, t);
        if t.outputs > 0 {
            project_steps(
                p.push(
                    kernel(
                        "rms_selected"@,
                        seq![s.x, self.output_norm.buffer, s.output_rows, s.norm],
                        seq![2688u32, 0u32, EPS],
                        (t.outputs as int, 1, 1),
                        256,
                    ),
                ),
                seq![Plane { weight: self.head, out: s.logits }],
                s.norm,
                t.outputs,
            )
        } else {
            p
        }
    }

    fn mamba(&self, cmd: &mut Program, w: Mamba, t: Shape)
        requires
            t.wf(),
            w.input.ty == 8,
            w.output.ty == 8,
        ensures
            final(cmd)@ == self.mamba_steps(old(cmd)@, w, t),
    {
        let s = self.scratch;
        project(cmd, &list1(Plane { weight: w.input, out: s.proj }), s.norm, t.rows);
        cmd.dispatch(
            "nemo_conv",
            list6(s.proj, w.window, w.conv_w.buffer, w.conv_b.buffer, s.sequences, s.conv),
            list0(),
            (groups256(t.longest, 6144), t.sequences, 1),
            256,
        );
        cmd.dispatch(
            "nemo_conv_commit",
            list3(s.proj, w.window, s.sequences),
            list0(),
            (24, t.sequences, 1),
            256,
        );
        if t.decodes > 0 {
            cmd.dispatch(
                "nemo_scan",
                list8(s.conv, s.proj, w.a.buffer, w.d.buffer, w.dt.buffer, w.state, s.sequences, s.y),
                list1(0),
                (16, 64, t.sequences),
                128,
            );
        }
        if t.tiles > 0 {
            self.ssd(cmd, w, t);
        }
        cmd.dispatch(
            "nemo_gated_norm",
            list4(s.y, s.proj, w.norm.buffer, s.yn),
            list1(EPS),
            (8, t.rows, 1),
            256,
        );
        project(cmd, &list1(Plane { weight: w.output, out: s.delta }), s.yn, t.rows);
    }

    fn ssd(&self, cmd: &mut Program, w: Mamba, t: Shape)
        ensures
            final(cmd)@ == self.ssd_steps(old(cmd)@, w, t),
    {
        let s = self.scratch;
        cmd.dispatch(
            "nemo_ssd_prepare",
            list6(s.proj, w.a.buffer, w.dt.buffer, s.ssd_tiles, s.decay, s.dt),
            list0(),
            (64, t.tiles, 1),
            32,
        );
        cmd.dispatch(
            "nemo_ssd_matrix",
            list5(s.conv, s.ssd_tiles, s.decay, s.dt, s.matrix),
            list0(),
            (64, t.tiles, 1),
            128,
        );
        cmd.dispatch(
            "nemo_ssd_delta",
            list5(s.conv, s.ssd_tiles, s.decay, s.dt, s.state_delta),
            list0(),
            (16, 64, t.tiles),
            128,
        );
        cmd.dispatch(
            "nemo_ssd_states",
            list6(w.state, s.state_delta, s.decay, s.sequences, s.ssd_tiles, s.state_in),
            list0(),
            (2048, t.sequences, 1),
            256,
        );
        cmd.dispatch(
            "nemo_ssd_output",
            list7(s.conv, s.ssd_tiles, s.decay, s.matrix, s.state_in, w.d.buffer, s.y),
            list0(),
            (4, 64, t.tiles),
            128,
        );
    }

    fn attention(&self, cmd: &mut Program, w: Attention, t: Shape)
        requires
            t.wf(),
            w.q.ty == 8,
            w.k.ty == 8,
            w.v.ty == 8,
            w.out.ty == 8,
        ensures
            final(cmd)@ == self.attention_steps(old(cmd)@, w, t),
    {
        let s = self.scratch;
        let stride: u32 = self.page_stride as u32;
        let planes = list3(
            Plane { weight: w.q, out: s.q },
            Plane { weight: w.k, out: s.k },
            Plane { weight: w.v, out: s.v },
        );
        project(cmd, &planes, s.norm, t.rows);
        cmd.dispatch(
            "nemo_store",
            list6(s.k, s.v, w.keys, w.values, s.meta, s.pages),
            list2(t.rows as u32, stride),
            (groups256(t.rows, 256), 1, 1),
            256,
        );
        if t.tiles > 0 {
            cmd.dispatch(
                "laguna_prefill",
                list7(s.q, w.keys, w.values, s.meta, s.pages, s.attention, s.attention_tiles),
                list6(32, 2, stride, 0, 0, 16),
                (32, t.tiles, 1),
                128,
            );
        }
        if t.decodes > 0 {
            cmd.dispatch(
                "nemo_attention_decode",
                list7(s.q, w.keys, w.values, s.meta, s.pages, s.decode_rows, s.parts),
                list6(32, 2, stride, 0, 0, 16),
                (2, t.decodes, 16),
                128,
            );
            cmd.dispatch(
                "gemma_merge",
                list3(s.parts, s.attention, s.decode_rows),
                list3(32, 16, 128),
                (t.decodes * 32, 1, 1),
                32,
            );
        }
        project(cmd, &list1(Plane { weight: w.out, out: s.delta }), s.attention, t.rows);
    }

    fn expert(&self, cmd: &mut Program, w: Experts, m: usize, down: bool)
        requires
            m <= CHUNK,
        ensures
            final(cmd)@ == old(cmd)@.push(self.expert_step(w, m, down)),
    {
        let s = self.scratch;
        let plane = if down { w.down } else { w.up };
        let input = if down { s.up } else { s.norm };
        let output = if down { s.expert_out } else { s.up };
        let k: usize = if down { FF } else { WIDTH };
        let n: usize = if down { WIDTH } else { FF };
        if m >= 16 {
            cmd.dispatch(
                if down { "nemo_down_grouped" } else { "nemo_up_grouped" },
                list6(plane.buffer, input, s.lists, s.counts, s.tiles, output),
                list3(k as u32, n as u32, m as u32),
                (div_ceil(n, 32), div_ceil(m * 6, 16) + 128, 1),
                128,
            );
        } else {
            cmd.dispatch(
                if down { "nemo_down_decode" } else { "nemo_up_decode" },
                list4(plane.buffer, input, s.picks, output),
                list3(k as u32, n as u32, m as u32),
                (div_ceil(n, 4), m * 6, 1),
                128,
            );
        }
    }

    fn moe(&self, cmd: &mut Program, w: Experts, m: usize)
        requires
            m <= CHUNK,
            w.shared_up.ty == 8,
            w.shared_down.ty == 8,
        ensures
            final(cmd)@ == self.moe_steps(old(cmd)@, w, m),
    {
        let s = self.scratch;
        cmd.dispatch(
            "linear",
            list3(w.router.buffer, s.norm, s.router),
            list5(2688, 128, m as u32, 0, ONE),
            (32, m, 1),
            128,
        );
        cmd.dispatch(
            "nemo_route",
            list4(s.router, w.bias.buffer, s.picks, s.probabilities),
            list0(),
            (m, 1, 1),
            32,
        );
        if m >= 16 {
            cmd.dispatch(
                "moe_align",
                list3(s.picks, s.lists, s.counts),
                list1((m * 6) as u32),
                (128, 1, 1),
                256,
            );
            cmd.dispatch("moe_tiles", list2(s.counts, s.tiles), list2(128, 16), (1, 1, 1), 256);
        }
        self.expert(cmd, w, m, false);
        self.expert(cmd, w, m, true);
        project(cmd, &list1(Plane { weight: w.shared_up, out: s.shared }), s.norm, m);
        cmd.dispatch(
            "nemo_relu2",
            list1(s.shared),
            list1((m * 3712) as u32),
            (groups256(m, 3712), 1, 1),
            256,
        );
        project(cmd, &list1(Plane { weight: w.shared_down, out: s.delta }), s.shared, m);
        cmd.dispatch(
            "nemo_fold",
            list3(s.expert_out, s.probabilities, s.delta),
            list1(m as u32),
            (groups256(m, 2688), 1, 1),
            256,
        );
    }

    fn layer(&self, cmd: &mut Program, l: Layer, t: Shape)
        requires
            t.wf(),
            layer_wf(l),
        ensures
            final(cmd)@ == self.layer_steps(old(cmd)@, l, t),
    {
        let s = self.scratch;
        cmd.dispatch(
            "rms",
            list3(s.x, l.norm.buffer, s.norm),
            list3(2688, 0, EPS),
            (t.rows, 1, 1),
            256,
        );
        match l.mixer {
            Mixer::Mamba(w) => {
                self.mamba(cmd, w, t);
            },
            Mixer::Attention(w) => {
                self.attention(cmd, w, t);
            },
            Mixer::Moe(w) => {
                self.moe(cmd, w, t.rows);
            },
        }
        cmd.dispatch(
            "residual",
            list2(s.x, s.delta),
            list2((t.rows * 2688) as u32, ONE),
            (groups256(t.rows, 2688), 1, 1),
            256,
        );
    }

    /// The program of a planned tick.
    pub fn execute(&self, t: Shape) -> (cmd: Program)
        requires
            self.wf(),
            t.wf(),
        ensures
            cmd@ == self.tick_steps(t),
    {
        let s = self.scratch;
        let mut cmd = Program::new();
        cmd.dispatch(
            "embed",
            list3(self.embedding.buffer, s.ids, s.x),
            list4(2688, t.rows as u32, 8, ONE),
            (groups256(t.rows, 2688), 1, 1),
            256,
        );
        let ghost start = cmd@;
        let mut i: usize = 0;
        while i < self.layers.len()
            invariant
                i <= self.layers.len(),
                self.wf(),
                t.wf(),
                cmd@ == self.layers_steps(start, i as int, t),
            decreases self.layers.len() - i,
        {
            self.layer(&mut cmd, self.layers[i], t);
            i = i + 1;
        }
        if t.outputs > 0 {
            cmd.dispatch(
                "rms_selected",
                list4(s.x, self.output_norm.buffer, s.output_rows, s.norm),
                list3(2688, 0, EPS),
                (t.outputs, 1, 1),
                256,
            );
            project(
                &mut cmd,
                &list1(Plane { weight: self.head, out: s.logits }),
                s.norm,
                t.outputs,
            );
        }
        cmd
    }

    /// Copy (or, without a source, zero) the state of every scan layer.
    pub open spec fn state_steps(p: Seq<Step>, layers: Seq<Layer>, dst: usize, src: Option<usize>) -> Seq<Step>
        decreases layers.len(),
    {
        if layers.len() == 0 {
            p
        } else {
            let before = Self::state_steps(p, layers.drop_last(), dst, src);
            let from = match src {
                Some(n) => n as u32,
                None => u32::MAX,
            };
            match layers.last().mixer {
                Mixer::Mamba(m) => before.push(
                    kernel(
                        "nemo_state_copy"@,
                        seq![m.state],
                        seq![524288u32, dst as u32, from],
                        (2048, 1, 1),
                        256,
                    ),
                ).push(
                    kernel(
                        "nemo_state_copy"@,
                        seq![m.window],
                        seq![18432u32, dst as u32, from],
                        (72, 1, 1),
                        256,
                    ),
                ),
                _ => before,
            }
        }
    }

    pub fn copy_state(&self, cmd: &mut Program, dst: usize, src: Option<usize>)
        ensures
            final(cmd)@ == Self::state_steps(old(cmd)@, self.layers@, dst, src),
    {
        let from: u32 = match src {
            Some(n) => n as u32,
            None => u32::MAX,
        };
        let mut i: usize = 0;
        assert(self.layers@.take(0) =~= Seq::<Layer>::empty());
        while i < self.layers.len()
            invariant
                i <= self.layers.len(),
                from == match src {
                    Some(n) => n as u32,
                    None => u32::MAX,
                },
                cmd@ == Self::state_steps(old(cmd)@, self.layers@.take(i as int), dst, src),
            decreases self.layers.len() - i,
        {
            proof {
                assert(self.layers@.take(i + 1).drop_last() =~= self.layers@.take(i as int));
                assert(self.layers@.take(i + 1).last() == self.layers[i as int]);
            }
            if let Mixer::Mamba(m) = self.layers[i].mixer {
                cmd.dispatch(
                    "nemo_state_copy",
                    list1(m.state),
                    list3(524288, dst as u32, from),
                    (2048, 1, 1),
                    256,
                );
                cmd.dispatch(
                    "nemo_state_copy",
                    list1(m.window),
                    list3(18432, dst as u32, from),
                    (72, 1, 1),
                    256,
                );
            }
            i = i + 1;
        }
        assert(self.layers@.take(self.layers.len() as int) =~= self.layers@);
    }
}

} // verus!
